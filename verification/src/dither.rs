//! Integer side of dithering: the dither kinds and the xorshift state that
//! drives floating-point dither.
use vstd::prelude::*;

verus! {

/// Kind of dither applied before PCM quantisation.
#[derive(Debug, Clone, Copy, PartialEq, Eq, Structural)]
pub enum DitherType {
    TPDF,
    Rectangular,
    FPD,
    NoDither,
}

/// Smallest state the floating-point dither accepts as a seed.
pub const FPD_MIN_SEED: u32 = 16386u32;

/// One xorshift step (shifts 13, 17, 5) of the floating-point dither state.
pub open spec fn spec_fpd_step(x: u32) -> u32 {
    let a = x ^ (x << 13u32);
    let b = a ^ (a >> 17u32);
    b ^ (b << 5u32)
}

/// Advances the floating-point dither state by one xorshift step.
pub fn fpd_step(x: u32) -> (r: u32)
    ensures
        r == spec_fpd_step(x),
        x == 0 ==> r == 0,
        x == 1 ==> r == 270_369,
        x == 16386 ==> r == 0x0800_8442,
{
    let mut s = x;
    s ^= s << 13u32;
    s ^= s >> 17u32;
    s ^= s << 5u32;
    proof {
        lemma_fpd_step_values();
    }
    s
}

/// The first xorshift steps from the states used in practice.
proof fn lemma_fpd_step_values()
    ensures
        spec_fpd_step(0) == 0,
        spec_fpd_step(1) == 270_369,
        spec_fpd_step(16386) == 0x0800_8442,
{
    assert(spec_fpd_step(0) == 0) by (bit_vector);
    assert(spec_fpd_step(1) == 270_369) by (bit_vector);
    assert(spec_fpd_step(16386) == 0x0800_8442) by (bit_vector);
}

/// Whether a drawn value is large enough to seed the floating-point dither.
pub fn is_acceptable_seed(x: u32) -> (r: bool)
    ensures
        r <==> x >= FPD_MIN_SEED,
{
    x >= FPD_MIN_SEED
}

/// The xorshift step never reaches zero from a nonzero state, so a seeded
/// dither never falls silent.
pub proof fn lemma_fpd_step_nonzero(x: u32)
    requires
        x != 0,
    ensures
        spec_fpd_step(x) != 0,
{
    assert(x != 0 ==> (x ^ (x << 13u32)) != 0) by (bit_vector);
    let a = x ^ (x << 13u32);
    assert(a != 0 ==> (a ^ (a >> 17u32)) != 0) by (bit_vector);
    let b = a ^ (a >> 17u32);
    assert(b != 0 ==> (b ^ (b << 5u32)) != 0) by (bit_vector);
}

/// Distinct states step to distinct states: the xorshift step loses no
/// state, so the dither sequence only cycles through the full orbit.
pub proof fn lemma_fpd_step_injective(x: u32, y: u32)
    requires
        spec_fpd_step(x) == spec_fpd_step(y),
    ensures
        x == y,
{
    let ax = x ^ (x << 13u32);
    let ay = y ^ (y << 13u32);
    let bx = ax ^ (ax >> 17u32);
    let by_ = ay ^ (ay >> 17u32);
    assert((bx ^ (bx << 5u32)) == (by_ ^ (by_ << 5u32)) ==> bx == by_) by (bit_vector);
    assert((ax ^ (ax >> 17u32)) == (ay ^ (ay >> 17u32)) ==> ax == ay) by (bit_vector);
    assert((x ^ (x << 13u32)) == (y ^ (y << 13u32)) ==> x == y) by (bit_vector);
}

} // verus!
