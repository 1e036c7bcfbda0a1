//! Nibbles of a 64-bit word: the model that the key rules are stated over.
use vstd::prelude::*;

verus! {

/// Nibble `position` of `value`: bits `4 * position` to `4 * position + 3`.
/// Position 0 is the least significant nibble.
pub open spec fn nibble(value: u64, position: int) -> u64 {
    (value >> ((4 * position) as u64)) & 0xF
}

/// Every nibble is less than sixteen.
pub proof fn lemma_nibble_bound(value: u64, position: int)
    requires
        0 <= position < 16,
    ensures
        nibble(value, position) < 16,
{
    let p: u64 = position as u64;
    assert(((value >> ((4 * p) as u64)) & 0xF) < 16) by (bit_vector)
        requires
            p < 16,
    ;
}

/// A word whose nibble `at` is zero takes the nibble `entry` there when
/// `entry`, shifted into place, is or-ed in; its other nibbles stay.
pub proof fn lemma_nibble_placed(value: u64, entry: u64, at: int, position: int)
    requires
        0 <= at < 16,
        0 <= position < 16,
        entry < 16,
        nibble(value, at) == 0,
    ensures
        nibble(value | (entry << ((4 * at) as u64)), position) == if position == at {
            entry
        } else {
            nibble(value, position)
        },
{
    let a: u64 = at as u64;
    let p: u64 = position as u64;
    assert(((value | (entry << ((4 * a) as u64))) >> ((4 * p) as u64)) & 0xF == if p == a {
        entry
    } else {
        (value >> ((4 * p) as u64)) & 0xF
    }) by (bit_vector)
        requires
            a < 16,
            p < 16,
            entry < 16,
            (value >> ((4 * a) as u64)) & 0xF == 0,
    ;
}

/// A 64-bit word is determined by its sixteen nibbles.
pub proof fn lemma_nibbles_determine(a: u64, b: u64)
    requires
        forall|i: int| 0 <= i < 16 ==> #[trigger] nibble(a, i) == nibble(b, i),
    ensures
        a == b,
{
    assert(nibble(a, 0) == nibble(b, 0));
    assert(nibble(a, 1) == nibble(b, 1));
    assert(nibble(a, 2) == nibble(b, 2));
    assert(nibble(a, 3) == nibble(b, 3));
    assert(nibble(a, 4) == nibble(b, 4));
    assert(nibble(a, 5) == nibble(b, 5));
    assert(nibble(a, 6) == nibble(b, 6));
    assert(nibble(a, 7) == nibble(b, 7));
    assert(nibble(a, 8) == nibble(b, 8));
    assert(nibble(a, 9) == nibble(b, 9));
    assert(nibble(a, 10) == nibble(b, 10));
    assert(nibble(a, 11) == nibble(b, 11));
    assert(nibble(a, 12) == nibble(b, 12));
    assert(nibble(a, 13) == nibble(b, 13));
    assert(nibble(a, 14) == nibble(b, 14));
    assert(nibble(a, 15) == nibble(b, 15));
    assert(a == b) by (bit_vector)
        requires
            (a >> 0) & 0xF == (b >> 0) & 0xF,
            (a >> 4) & 0xF == (b >> 4) & 0xF,
            (a >> 8) & 0xF == (b >> 8) & 0xF,
            (a >> 12) & 0xF == (b >> 12) & 0xF,
            (a >> 16) & 0xF == (b >> 16) & 0xF,
            (a >> 20) & 0xF == (b >> 20) & 0xF,
            (a >> 24) & 0xF == (b >> 24) & 0xF,
            (a >> 28) & 0xF == (b >> 28) & 0xF,
            (a >> 32) & 0xF == (b >> 32) & 0xF,
            (a >> 36) & 0xF == (b >> 36) & 0xF,
            (a >> 40) & 0xF == (b >> 40) & 0xF,
            (a >> 44) & 0xF == (b >> 44) & 0xF,
            (a >> 48) & 0xF == (b >> 48) & 0xF,
            (a >> 52) & 0xF == (b >> 52) & 0xF,
            (a >> 56) & 0xF == (b >> 56) & 0xF,
            (a >> 60) & 0xF == (b >> 60) & 0xF,
    ;
}

} // verus!
