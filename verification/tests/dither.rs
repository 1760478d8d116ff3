use rdsd2pcm::dither::{fpd_step, is_acceptable_seed, FPD_MIN_SEED};

fn reference_step(mut x: u32) -> u32 {
    x ^= x << 13;
    x ^= x >> 17;
    x ^= x << 5;
    x
}

#[test]
fn fpd_step_is_xorshift32() {
    assert_eq!(fpd_step(1), 270_369);
    for x in [1u32, 16386, 0xdead_beef, u32::MAX, 12345] {
        assert_eq!(fpd_step(x), reference_step(x));
    }
    assert_eq!(fpd_step(0), 0);
}

#[test]
fn fpd_state_never_reaches_zero() {
    let mut x = 16386u32;
    for _ in 0..10_000 {
        x = fpd_step(x);
        assert_ne!(x, 0);
    }
}

#[test]
fn seed_threshold() {
    assert!(!is_acceptable_seed(FPD_MIN_SEED - 1));
    assert!(is_acceptable_seed(FPD_MIN_SEED));
    assert!(!is_acceptable_seed(0));
}
