use rdsd2pcm::buffer::FilterType;
use rdsd2pcm::decimator::{next_power_of_two, select_precalc_taps, DecimatorState, PrecalcTaps};

#[test]
fn decimator_rejects_partial_bytes_and_empty_filters() {
    assert!(DecimatorState::new(16, 12).is_none());
    assert!(DecimatorState::new(0, 16).is_none());
    assert!(DecimatorState::new(16, 16).is_some());
}

#[test]
fn decimator_geometry() {
    let st = DecimatorState::new(10, 16).unwrap();
    assert_eq!(st.num_tables(), 2);
    assert_eq!(st.bytes_per_out(), 2);
    assert_eq!(st.table_taps(10, 0), (8, 2));
    assert_eq!(st.table_taps(10, 1), (0, 8));
    let st = DecimatorState::new(16, 64).unwrap();
    assert_eq!(st.table_taps(16, 0), (8, 8));
    assert_eq!(st.bytes_per_out(), 8);
}

#[test]
fn next_power_of_two_values() {
    assert_eq!(next_power_of_two(0), 1);
    assert_eq!(next_power_of_two(1), 1);
    assert_eq!(next_power_of_two(12), 16);
    assert_eq!(next_power_of_two(16), 16);
    assert_eq!(next_power_of_two(17), 32);
}

#[test]
fn decimator_lookups_follow_history() {
    // Two tables, two bytes per output, a 16-byte history of idle pattern.
    let mut st = DecimatorState::new(16, 16).unwrap();
    let outs = st.process_bytes(&[1, 2, 3, 4], 10);
    assert_eq!(outs.len(), 2);
    assert_eq!(outs[0], vec![(2, 0x96), (1, 0x96)]);
    assert_eq!(outs[1], vec![(4, 0x80), (3, 0x40)]);
    // The history carries over to the next call.
    let outs = st.process_bytes(&[5, 6], 10);
    assert_eq!(outs, vec![vec![(6, 0xc0), (5, 0x20)]]);
}

#[test]
fn decimator_stops_when_output_is_full() {
    let mut a = DecimatorState::new(16, 16).unwrap();
    let outs = a.process_bytes(&[1, 2, 3, 4, 5, 6], 1);
    assert_eq!(outs.len(), 1);
    // Only the first two bytes were consumed, so the next output completes
    // with bytes 7 and 8 right after byte 2.
    let outs = a.process_bytes(&[7, 8], 1);
    assert_eq!(outs[0], vec![(8, 0x80), (7, 0x40)]);

    let mut b = DecimatorState::new(16, 16).unwrap();
    let outs = b.process_bytes(&[1, 2, 3, 4], 0);
    assert!(outs.is_empty());
    let outs = b.process_bytes(&[9, 10], 5);
    assert_eq!(outs[0], vec![(10, 0x80), (9, 0x40)]);
}

#[test]
fn decimator_leftover_bytes_do_not_complete_an_output() {
    let mut st = DecimatorState::new(16, 16).unwrap();
    assert!(st.process_bytes(&[1], 4).is_empty());
    // The byte counter starts afresh each call.
    let outs = st.process_bytes(&[2, 3], 4);
    assert_eq!(outs, vec![vec![(3, 0x96), (2, 0x80)]]);
}

#[test]
fn interleaved_feed_matches_split_feed() {
    let input: Vec<u8> = (0..24u32).map(|i| (i as u8).wrapping_mul(37)).collect();
    for channel in 0..2 {
        let mut direct = DecimatorState::new(24, 16).unwrap();
        let mut planar = DecimatorState::new(24, 16).unwrap();
        let chan: Vec<u8> = input.iter().skip(channel).step_by(2).map(|b| b.reverse_bits()).collect();
        let a = direct.process_interleaved_bytes(&input, channel, 2, true, 100);
        let b = planar.process_bytes(&chan, 100);
        assert_eq!(a, b);
        assert_eq!(a.len(), 6);
    }
    let mut st = DecimatorState::new(24, 16).unwrap();
    assert!(st.process_interleaved_bytes(&input, 0, 0, true, 100).is_empty());
}

#[test]
fn precalc_table_selection() {
    assert_eq!(select_precalc_taps(FilterType::Equiripple, 1, 16), Some(PrecalcTaps::Dsd64Eq16To1));
    assert_eq!(select_precalc_taps(FilterType::Dsd2Pcm, 1, 8), Some(PrecalcTaps::D2p));
    assert_eq!(select_precalc_taps(FilterType::XLD, 1, 8), Some(PrecalcTaps::Xld));
    assert_eq!(select_precalc_taps(FilterType::Chebyshev, 1, 8), None);
    assert_eq!(select_precalc_taps(FilterType::Equiripple, 4, 128), Some(PrecalcTaps::Dsd256Eq128To1));
    assert_eq!(select_precalc_taps(FilterType::Equiripple, 1, 128), None);
    assert_eq!(select_precalc_taps(FilterType::XLD, 8, 16), Some(PrecalcTaps::Xld16To1));
    assert_eq!(select_precalc_taps(FilterType::Chebyshev, 1, 16), None);
    assert_eq!(select_precalc_taps(FilterType::Chebyshev, 2, 16), Some(PrecalcTaps::DdrCheb16To1));
    assert_eq!(select_precalc_taps(FilterType::Equiripple, 2, 32), Some(PrecalcTaps::DdrEq32To1));
    assert_eq!(select_precalc_taps(FilterType::Equiripple, 4, 32), Some(PrecalcTaps::Dsd256Eq32To1));
    assert_eq!(select_precalc_taps(FilterType::Dsd2Pcm, 1, 32), None);
    assert_eq!(select_precalc_taps(FilterType::Equiripple, 8, 64), Some(PrecalcTaps::Dsd512Eq64To1));
    assert_eq!(select_precalc_taps(FilterType::Equiripple, 1, 64), Some(PrecalcTaps::DdrEq64To1));
    assert_eq!(select_precalc_taps(FilterType::Chebyshev, 1, 64), Some(PrecalcTaps::DdrCheb64To1));
    assert_eq!(select_precalc_taps(FilterType::Equiripple, 1, 12), None);
}

#[test]
fn splitting_at_an_output_boundary_changes_nothing() {
    let a: Vec<u8> = (0..12u8).map(|i| i.wrapping_mul(41)).collect();
    let b: Vec<u8> = (0..8u8).map(|i| i.wrapping_mul(7) ^ 0x55).collect();
    let mut d = DecimatorState::new(24, 32).unwrap();
    let mut e = DecimatorState::new(24, 32).unwrap();
    let mut r = d.process_bytes(&a, 3);
    r.extend(d.process_bytes(&b, 2));
    let whole: Vec<u8> = a.iter().chain(b.iter()).copied().collect();
    assert_eq!(e.process_bytes(&whole, 5), r);
    assert_eq!(r.len(), 5);
    // Both end with the same history.
    assert_eq!(d.process_bytes(&[9, 9, 9, 9], 1), e.process_bytes(&[9, 9, 9, 9], 1));
}

#[test]
fn feeding_nothing_leaves_the_state_untouched() {
    let mut a = DecimatorState::new(16, 16).unwrap();
    let mut b = DecimatorState::new(16, 16).unwrap();
    a.process_bytes(&[1, 2, 3], 4);
    b.process_bytes(&[1, 2, 3], 4);
    // An empty feed, a lane past the end, and a call with no bytes at all.
    assert!(a.process_bytes(&[], 4).is_empty());
    assert!(a.process_interleaved_bytes(&[7, 8], 5, 6, true, 4).is_empty());
    assert!(a.process_interleaved_bytes(&[7, 8], 0, 0, true, 4).is_empty());
    assert_eq!(a.process_bytes(&[4, 5], 4), b.process_bytes(&[4, 5], 4));
}
