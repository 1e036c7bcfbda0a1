//! A cursor over the output stream of one key.
//!
//! The generator itself keeps no state. A [`Squares`] value pairs a key with
//! the position of the next draw and moves that position by one for each
//! word drawn, wrapping round at 2^64.
use crate::key::Key;
use crate::squares::{output32, output64};
use vstd::prelude::*;

verus! {

/// What a cursor stands for: the value of its key and the position of the
/// next draw.
pub struct Cursor {
    pub key: u64,
    pub index: u64,
}

/// `position` moved on by `n`, modulo 2^64.
pub open spec fn moved(position: u64, n: u64) -> u64 {
    ((position as int + n as int) % 0x1_0000_0000_0000_0000) as u64
}

/// A key together with the position of the next draw.
#[derive(Clone, Copy, Debug)]
pub struct Squares {
    key: Key,
    index: u64,
}

impl View for Squares {
    type V = Cursor;

    closed spec fn view(&self) -> Cursor {
        Cursor { key: self.key@, index: self.index }
    }
}

impl Squares {
    /// A cursor at position 0 of the stream of `key`.
    #[must_use]
    #[inline(always)]
    pub fn with_key(key: Key) -> (r: Self)
        ensures
            r@ == (Cursor { key: key@, index: 0 }),
    {
        Self { key, index: 0 }
    }

    /// The same stream at position `index`.
    #[must_use]
    #[inline(always)]
    pub fn with_index(self, index: u64) -> (r: Self)
        ensures
            r@ == (Cursor { key: self@.key, index }),
    {
        Self { key: self.key, index }
    }

    /// The position of the next draw.
    #[must_use]
    #[inline(always)]
    pub fn index(&self) -> (r: u64)
        ensures
            r == self@.index,
    {
        self.index
    }

    /// The same stream `n` positions further on, modulo 2^64.
    #[must_use]
    #[inline(always)]
    pub fn skip(self, n: u64) -> (r: Self)
        ensures
            r@ == (Cursor { key: self@.key, index: moved(self@.index, n) }),
    {
        Self { key: self.key, index: self.index.wrapping_add(n) }
    }
}

/// The error type of `rand_core`, which no operation of this library
/// produces; it only occurs in the signature of `try_fill_bytes`.
#[verifier::external_type_specification]
#[verifier::external_body]
pub struct ExError(rand_core::Error);

/// Byte `k` of `word`, byte 0 being the least significant.
pub open spec fn le_byte(word: u64, k: int) -> u8 {
    ((word >> ((8 * k) as u64)) & 0xff) as u8
}

/// The number of words drawn to fill `len` bytes: one for every eight bytes
/// or part of eight.
pub open spec fn words_for(len: nat) -> u64 {
    ((len + 7) / 8) as u64
}

/// Byte `i` of the `len` bytes that one fill writes from position `index`.
///
/// The bytes come in groups of eight, group `w` from the draw at position
/// `index + w`, least significant byte first. A group is cut from a 64-bit
/// draw, except a last group of four bytes or fewer, which is cut from a
/// 32-bit draw.
pub open spec fn stream_byte(key: u64, index: u64, len: nat, i: int) -> u8 {
    let w = i / 8;
    let at = moved(index, w as u64);
    if len - 8 * w > 4 {
        le_byte(output64(key, at), i % 8)
    } else {
        le_byte(output32(key, at) as u64, i % 8)
    }
}

/// The `len` bytes that one fill writes when the cursor stands at `from`.
pub open spec fn stream_bytes(from: Cursor, len: nat) -> Seq<u8> {
    Seq::new(len, |i: int| stream_byte(from.key, from.index, len, i))
}

/// Where one fill of `len` bytes leaves a cursor that stood at `from`: one
/// position further on for each word drawn.
pub open spec fn after_fill(from: Cursor, len: nat) -> Cursor {
    Cursor { key: from.key, index: moved(from.index, words_for(len)) }
}

/// Calls `rand_core::impls::fill_bytes_via_next`, which fills `dest` from
/// left to right with the little-endian bytes of successive draws of `rng`:
/// `next_u64` for each full group of eight bytes and for a last group of
/// five to seven, `next_u32` for a last group of one to four. The contract
/// states the bytes written and the position reached, given that each draw
/// is the one that `next_u32` and `next_u64` below are proved to make.
#[verifier::external_body]
fn fill_via_next(rng: &mut Squares, dest: &mut [u8])
    ensures
        final(dest)@ == stream_bytes(old(rng)@, old(dest)@.len()),
        final(rng)@ == after_fill(old(rng)@, old(dest)@.len()),
{
    rand_core::impls::fill_bytes_via_next(rng, dest)
}

impl rand_core::RngCore for Squares {
    /// Draws 32 bits at the current position and moves on by one.
    fn next_u32(&mut self) -> (r: u32)
        ensures
            r == output32(old(self)@.key, old(self)@.index),
            final(self)@ == (Cursor { key: old(self)@.key, index: moved(old(self)@.index, 1) }),
    {
        let r: u32 = crate::squares::u32(self.key, self.index);
        self.index = self.index.wrapping_add(1);
        r
    }

    /// Draws 64 bits at the current position and moves on by one.
    fn next_u64(&mut self) -> (r: u64)
        ensures
            r == output64(old(self)@.key, old(self)@.index),
            final(self)@ == (Cursor { key: old(self)@.key, index: moved(old(self)@.index, 1) }),
    {
        let r: u64 = crate::squares::u64(self.key, self.index);
        self.index = self.index.wrapping_add(1);
        r
    }

    /// Fills `dest` with the bytes of successive draws, least significant
    /// byte first, and moves on by one for each word drawn.
    fn fill_bytes(&mut self, dest: &mut [u8])
        ensures
            final(dest)@ == stream_bytes(old(self)@, old(dest)@.len()),
            final(self)@ == after_fill(old(self)@, old(dest)@.len()),
    {
        fill_via_next(self, dest);
    }

    /// Fills `dest` as `fill_bytes` does; this never fails.
    fn try_fill_bytes(&mut self, dest: &mut [u8]) -> (r: Result<(), rand_core::Error>)
        ensures
            r is Ok,
            final(dest)@ == stream_bytes(old(self)@, old(dest)@.len()),
            final(self)@ == after_fill(old(self)@, old(dest)@.len()),
    {
        fill_via_next(self, dest);
        Ok(())
    }
}

} // verus!
