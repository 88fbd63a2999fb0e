//! Facts about shifts and masks on bytes and words.

use vstd::prelude::*;

verus! {

/// Two bytes, the high one shifted into place, make the word that holds
/// both.
pub(crate) proof fn lemma_word(hi: u8, lo: u8)
    ensures
        ((hi as u16) << 8) | (lo as u16) == hi * 0x100 + lo,
{
    assert(((hi as u16) << 8) | (lo as u16) == hi * 0x100 + lo) by (bit_vector);
}

/// Shifting a byte right halves it, and its lowest bit is its parity.
pub(crate) proof fn lemma_shift_right(v: u8)
    ensures
        v >> 1 == v / 2,
        v & 1 == v % 2,
{
    assert(v >> 1 == v / 2 && v & 1 == v % 2) by (bit_vector);
}

/// Shifting a byte left doubles it modulo 256, and its highest bit says
/// whether it is 128 or more.
pub(crate) proof fn lemma_shift_left(v: u8)
    ensures
        v << 1 == (v * 2) % 256,
        (v & 0x80) >> 7 == v / 128,
{
    assert(v << 1 == (v * 2) % 256 && (v & 0x80) >> 7 == v / 128) by (bit_vector);
}

} // verus!
