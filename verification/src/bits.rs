//! Bit order of DSD bytes.
use vstd::prelude::*;

verus! {

/// Bit `i` (0 = least significant) of a byte.
pub open spec fn bit_of(b: u8, i: u8) -> bool {
    (b >> i) & 1u8 == 1u8
}

/// The byte whose bit `i` is bit `7 - i` of `b`, for every `i` in `0..8`.
pub open spec fn is_bit_reversal(r: u8, b: u8) -> bool {
    forall|i: u8| i < 8 ==> #[trigger] bit_of(r, i) == bit_of(b, (7 - i) as u8)
}

/// Two bytes with the same eight bits are equal.
pub proof fn lemma_bits_determine_byte(x: u8, y: u8)
    requires
        forall|i: u8| i < 8 ==> #[trigger] bit_of(x, i) == bit_of(y, i),
    ensures
        x == y,
{
    assert(bit_of(x, 0) == bit_of(y, 0));
    assert(bit_of(x, 1) == bit_of(y, 1));
    assert(bit_of(x, 2) == bit_of(y, 2));
    assert(bit_of(x, 3) == bit_of(y, 3));
    assert(bit_of(x, 4) == bit_of(y, 4));
    assert(bit_of(x, 5) == bit_of(y, 5));
    assert(bit_of(x, 6) == bit_of(y, 6));
    assert(bit_of(x, 7) == bit_of(y, 7));
    assert(x == y) by (bit_vector)
        requires
            ((x >> 0u8) & 1u8 == 1u8) == ((y >> 0u8) & 1u8 == 1u8),
            ((x >> 1u8) & 1u8 == 1u8) == ((y >> 1u8) & 1u8 == 1u8),
            ((x >> 2u8) & 1u8 == 1u8) == ((y >> 2u8) & 1u8 == 1u8),
            ((x >> 3u8) & 1u8 == 1u8) == ((y >> 3u8) & 1u8 == 1u8),
            ((x >> 4u8) & 1u8 == 1u8) == ((y >> 4u8) & 1u8 == 1u8),
            ((x >> 5u8) & 1u8 == 1u8) == ((y >> 5u8) & 1u8 == 1u8),
            ((x >> 6u8) & 1u8 == 1u8) == ((y >> 6u8) & 1u8 == 1u8),
            ((x >> 7u8) & 1u8 == 1u8) == ((y >> 7u8) & 1u8 == 1u8),
    ;
}

/// The byte with the bits of `b` in reverse order.
pub open spec fn reversed_byte(b: u8) -> u8 {
    choose|r: u8| is_bit_reversal(r, b)
}

/// Eight masked shifts that move bit `i` of `b` to bit `7 - i`.
spec fn swap_network(b: u8) -> u8 {
    ((b & 0x01u8) << 7u8) | ((b & 0x02u8) << 5u8) | ((b & 0x04u8) << 3u8) | ((b & 0x08u8) << 1u8)
        | ((b & 0x10u8) >> 1u8) | ((b & 0x20u8) >> 3u8) | ((b & 0x40u8) >> 5u8) | ((b & 0x80u8)
        >> 7u8)
}

/// The masked shifts reverse the bits of a byte.
proof fn lemma_swap_network_reverses(b: u8)
    ensures
        is_bit_reversal(swap_network(b), b),
{
    assert forall|i: u8| i < 8 implies #[trigger] bit_of(swap_network(b), i) == bit_of(
        b,
        (7 - i) as u8,
    ) by {
        assert(i < 8 ==> (((((b & 0x01u8) << 7u8) | ((b & 0x02u8) << 5u8) | ((b & 0x04u8) << 3u8)
            | ((b & 0x08u8) << 1u8) | ((b & 0x10u8) >> 1u8) | ((b & 0x20u8) >> 3u8) | ((b
            & 0x40u8) >> 5u8) | ((b & 0x80u8) >> 7u8)) >> i) & 1u8 == 1u8) == ((b >> ((7 - i)
            as u8)) & 1u8 == 1u8)) by (bit_vector);
    }
}

/// Every byte has a bit reversal, and `reversed_byte` is it.
pub proof fn lemma_reversed_byte(b: u8)
    ensures
        is_bit_reversal(reversed_byte(b), b),
{
    lemma_swap_network_reverses(b);
}

/// Reverses the bit order of a byte, turning an MSB-first DSD byte into an
/// LSB-first one and back.
pub fn reverse_bits(b: u8) -> (r: u8)
    ensures
        is_bit_reversal(r, b),
        r == reversed_byte(b),
{
    let r: u8 = ((b & 0x01u8) << 7u8) | ((b & 0x02u8) << 5u8) | ((b & 0x04u8) << 3u8) | ((b
        & 0x08u8) << 1u8) | ((b & 0x10u8) >> 1u8) | ((b & 0x20u8) >> 3u8) | ((b & 0x40u8) >> 5u8)
        | ((b & 0x80u8) >> 7u8);
    proof {
        assert(r == swap_network(b));
        lemma_swap_network_reverses(b);
        lemma_reversed_byte(b);
        lemma_bit_reversal_unique(b, r, reversed_byte(b));
    }
    r
}

/// A byte reversed twice is the byte itself: converting between LSB-first and
/// MSB-first order loses nothing.
pub proof fn lemma_reverse_bits_involution(b: u8)
    ensures
        reversed_byte(reversed_byte(b)) == b,
{
    let r = reversed_byte(b);
    let rr = reversed_byte(r);
    lemma_reversed_byte(b);
    lemma_reversed_byte(r);
    assert forall|i: u8| i < 8 implies #[trigger] bit_of(rr, i) == bit_of(b, i) by {
        assert(bit_of(rr, i) == bit_of(r, (7 - i) as u8));
        assert(bit_of(r, (7 - i) as u8) == bit_of(b, (7 - (7 - i) as u8) as u8));
    }
    lemma_bits_determine_byte(rr, b);
}

/// The bit reversal of a byte is unique.
pub proof fn lemma_bit_reversal_unique(b: u8, r1: u8, r2: u8)
    requires
        is_bit_reversal(r1, b),
        is_bit_reversal(r2, b),
    ensures
        r1 == r2,
{
    assert forall|i: u8| i < 8 implies #[trigger] bit_of(r1, i) == bit_of(r2, i) by {
        assert(bit_of(r1, i) == bit_of(b, (7 - i) as u8));
        assert(bit_of(r2, i) == bit_of(b, (7 - i) as u8));
    }
    lemma_bits_determine_byte(r1, r2);
}

} // verus!
