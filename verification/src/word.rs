//! 256-bit machine words, the value domain of the stack machine.
//!
//! A word is held as two 128-bit halves; its mathematical value is
//! `hi * 2^128 + lo`. Words are built from big-endian byte strings (push
//! operands, calldata slots) and compared structurally.

use vstd::prelude::*;

verus! {

/// A 256-bit word: value `hi * 2^128 + lo`.
#[derive(Clone, Copy, PartialEq, Eq, Structural, Debug)]
pub struct Word {
    pub hi: u128,
    pub lo: u128,
}

/// The mathematical value of a word.
pub open spec fn word_val(w: Word) -> nat {
    (w.hi * 0x1_0000_0000_0000_0000_0000_0000_0000_0000 + w.lo) as nat
}

/// The zero word.
pub open spec fn spec_word_zero() -> Word {
    Word { hi: 0, lo: 0 }
}

/// Appending one byte at the low end: `w * 256 + b`, truncated to 256 bits.
pub open spec fn word_push_byte(w: Word, b: u8) -> Word {
    Word {
        hi: (w.hi << 8) | (w.lo >> 120),
        lo: (w.lo << 8) | (b as u128),
    }
}

/// The word denoted by a big-endian byte string (low 256 bits of it).
pub open spec fn word_from_be(s: Seq<u8>) -> Word
    decreases s.len(),
{
    if s.len() == 0 {
        spec_word_zero()
    } else {
        word_push_byte(word_from_be(s.drop_last()), s.last())
    }
}

pub fn word_zero() -> (w: Word)
    ensures
        w == spec_word_zero(),
{
    Word { hi: 0, lo: 0 }
}

/// Builds the word denoted by a big-endian byte string.
pub fn word_from_bytes(bytes: &[u8]) -> (w: Word)
    ensures
        w == word_from_be(bytes@),
{
    let mut w = Word { hi: 0, lo: 0 };
    let mut i: usize = 0;
    while i < bytes.len()
        invariant
            i <= bytes@.len(),
            w == word_from_be(bytes@.subrange(0, i as int)),
        decreases bytes@.len() - i,
    {
        let b = bytes[i];
        w = Word { hi: (w.hi << 8) | (w.lo >> 120), lo: (w.lo << 8) | (b as u128) };
        i = i + 1;
        proof {
            assert(bytes@.subrange(0, i as int).drop_last() =~= bytes@.subrange(0, i - 1));
            assert(bytes@.subrange(0, i as int).last() == b);
        }
    }
    proof {
        assert(bytes@.subrange(0, bytes@.len() as int) =~= bytes@);
    }
    w
}

/// A word made from a `usize` (for program counters and lengths).
pub open spec fn spec_word_from_usize(x: usize) -> Word {
    Word { hi: 0, lo: x as u128 }
}

pub fn word_from_usize(x: usize) -> (w: Word)
    ensures
        w == spec_word_from_usize(x),
{
    Word { hi: 0, lo: x as u128 }
}

/// The `usize` a word denotes, if it fits.
pub open spec fn spec_word_to_usize(w: Word) -> Option<usize> {
    if w.hi == 0 && w.lo <= usize::MAX as u128 {
        Some(w.lo as usize)
    } else {
        None
    }
}

pub fn word_to_usize(w: Word) -> (r: Option<usize>)
    ensures
        r == spec_word_to_usize(w),
{
    if w.hi == 0 && w.lo <= usize::MAX as u128 {
        Some(w.lo as usize)
    } else {
        None
    }
}

/// True of a word whose value is 0 or 1.
pub open spec fn spec_word_is_bool(w: Word) -> bool {
    w.hi == 0 && w.lo <= 1
}

/// True of a word whose top twelve bytes are zero (the address shape).
pub open spec fn spec_word_is_address_shaped(w: Word) -> bool {
    w.hi >> 32 == 0
}

pub fn word_is_bool(w: Word) -> (r: bool)
    ensures
        r == spec_word_is_bool(w),
{
    w.hi == 0 && w.lo <= 1
}

pub fn word_is_address_shaped(w: Word) -> (r: bool)
    ensures
        r == spec_word_is_address_shaped(w),
{
    w.hi >> 32 == 0
}

} // verus!
