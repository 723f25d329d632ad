//! Bitfields: one bit per piece, the first piece in the high bit of byte 0.
use vstd::prelude::*;

verus! {

/// The bit that stands for piece `i` within its byte: bit `7 - i % 8`.
pub open spec fn piece_mask(i: int) -> u8 {
    (1u8 << ((7 - i % 8) as u8)) as u8
}

/// Whether the bitfield marks piece `i`.
pub open spec fn bit_is_set(bits: Seq<u8>, i: int) -> bool {
    0 <= i && i / 8 < bits.len() && bits[i / 8] & piece_mask(i) != 0
}

/// Setting one bit of a byte keeps every other bit and sets that one.
pub proof fn lemma_or_bit(b: u8, j: u8, k: u8)
    requires
        j < 8,
        k < 8,
    ensures
        ((b | (1u8 << j)) & (1u8 << k) != 0) <==> (b & (1u8 << k) != 0 || j == k),
{
    assert(((b | (1u8 << j)) & (1u8 << k) != 0) <==> (b & (1u8 << k) != 0 || j == k))
        by (bit_vector)
        requires
            j < 8,
            k < 8,
    ;
}

/// A zero byte has no bit set.
pub proof fn lemma_zero_byte(k: u8)
    requires
        k < 8,
    ensures
        0u8 & (1u8 << k) == 0,
{
    assert(0u8 & (1u8 << k) == 0) by (bit_vector);
}

} // verus!
