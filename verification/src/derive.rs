//! Key derivation: from an index to a key that obeys the structural rules.
//!
//! The list 1..=15 is shuffled by one 64-bit draw, an odd entry is brought to
//! the front, the first nine entries become the low nine nibbles, and the
//! upper seven nibbles are taken from a stream of further draws, skipping
//! every candidate that equals the ninth nibble.
use crate::key::{admissible, Key};
use crate::nibbles::{lemma_nibble_placed, nibble};
use crate::squares::{mix, output32, output64, seed, shifted_seed, square_add};
use vstd::prelude::*;

verus! {

/// The generator key that drives the shuffle.
pub const MASTER_KEY_A: u64 = 0xec13a6976ecf14ad;

/// The generator key that drives the upper nibbles.
pub const MASTER_KEY_B: u64 = 0x72f9c8a323a5e4f1;

/// The list 1, 2, ..., 15.
pub open spec fn ascending() -> Seq<u8> {
    Seq::new(15, |i: int| (i + 1) as u8)
}

/// `s` with the entries at `a` and `b` exchanged.
pub open spec fn exchanged(s: Seq<u8>, a: int, b: int) -> Seq<u8> {
    s.update(a, s[b]).update(b, s[a])
}

/// Where the shuffle sends position `i`: the draw from bit `4 * i` upward,
/// modulo 15.
pub open spec fn destination(destinations: u64, i: int) -> int {
    ((destinations >> ((4 * i) as u64)) % 15) as int
}

/// The list after positions 14 down to `from` have each been exchanged with
/// their destination, in this order.
pub open spec fn shuffled(destinations: u64, from: int) -> Seq<u8>
    decreases 15 - from,
{
    if from >= 15 {
        ascending()
    } else {
        exchanged(shuffled(destinations, from + 1), destination(destinations, from), from)
    }
}

/// `s` holds each of 1, 2, ..., 15 exactly once.
pub open spec fn arrangement(s: Seq<u8>) -> bool {
    &&& s.len() == 15
    &&& forall|i: int| 0 <= i < 15 ==> 1 <= #[trigger] s[i] <= 15
    &&& forall|i: int, j: int| 0 <= i < j < 15 ==> #[trigger] s[i] != #[trigger] s[j]
    &&& forall|v: u8| 1 <= v <= 15 ==> #[trigger] s.contains(v)
}

/// Exchanging two entries of an arrangement gives an arrangement.
pub proof fn lemma_exchanged_arrangement(s: Seq<u8>, a: int, b: int)
    requires
        arrangement(s),
        0 <= a < 15,
        0 <= b < 15,
    ensures
        arrangement(exchanged(s, a, b)),
{
    let t = exchanged(s, a, b);
    assert forall|v: u8| 1 <= v <= 15 implies #[trigger] t.contains(v) by {
        assert(s.contains(v));
        let i = choose|i: int| 0 <= i < s.len() && s[i] == v;
        let k = if i == a {
            b
        } else if i == b {
            a
        } else {
            i
        };
        assert(t[k] == v);
    }
}

/// The ascending list is an arrangement.
pub proof fn lemma_ascending_arrangement()
    ensures
        arrangement(ascending()),
{
    let s = ascending();
    assert forall|v: u8| 1 <= v <= 15 implies #[trigger] s.contains(v) by {
        assert(s[v as int - 1] == v);
    }
}

/// Every stage of the shuffle is an arrangement.
pub proof fn lemma_shuffled_arrangement(destinations: u64, from: int)
    requires
        0 <= from,
    ensures
        arrangement(shuffled(destinations, from)),
    decreases 15 - from,
{
    if from >= 15 {
        lemma_ascending_arrangement();
    } else {
        lemma_shuffled_arrangement(destinations, from + 1);
        let d: u64 = destinations >> ((4 * from) as u64);
        assert(d % 15 < 15);
        lemma_exchanged_arrangement(
            shuffled(destinations, from + 1),
            destination(destinations, from),
            from,
        );
    }
}

/// Shuffles the list 1..=15: for `i` from 14 down to 1, exchanges the entry
/// at `i` with the one at `(destinations >> 4 * i) % 15`.
fn shuffle(destinations: u64) -> (nibbles: [u8; 15])
    ensures
        nibbles@ == shuffled(destinations, 1),
{
    let mut nibbles: [u8; 15] = [
        0x1, 0x2, 0x3, 0x4, 0x5, 0x6, 0x7, 0x8, 0x9, 0xA, 0xB, 0xC, 0xD, 0xE, 0xF,
    ];
    assert(nibbles@ =~= ascending());
    let mut i: usize = 14;
    while i > 0
        invariant
            i <= 14,
            nibbles@ == shuffled(destinations, i + 1),
        decreases i,
    {
        let dst: usize = ((destinations >> (i as u64 * 4)) % 15) as usize;
        let dv: u8 = nibbles[dst];
        nibbles[dst] = nibbles[i];
        nibbles[i] = dv;
        assert(nibbles@ =~= exchanged(
            shuffled(destinations, i + 1),
            destination(destinations, i as int),
            i as int,
        ));
        i -= 1;
    }
    nibbles
}

/// The least position at or after `from` whose entry is odd, or the length
/// of the list where there is none.
pub open spec fn first_odd(s: Seq<u8>, from: int) -> int
    decreases s.len() - from,
{
    if from >= s.len() {
        s.len() as int
    } else if s[from] % 2 == 1 {
        from
    } else {
        first_odd(s, from + 1)
    }
}

/// `s` with its first odd entry after the front exchanged into the front,
/// where the front is even and such an entry exists; else `s`.
pub open spec fn odd_first(s: Seq<u8>) -> Seq<u8> {
    if s[0] % 2 == 0 && first_odd(s, 1) < s.len() {
        exchanged(s, 0, first_odd(s, 1))
    } else {
        s
    }
}

/// What `first_odd` finds: a position in range with nothing odd before it.
pub proof fn lemma_first_odd(s: Seq<u8>, from: int)
    requires
        0 <= from <= s.len(),
    ensures
        from <= first_odd(s, from) <= s.len(),
        first_odd(s, from) < s.len() ==> s[first_odd(s, from)] % 2 == 1,
        forall|m: int| from <= m < first_odd(s, from) ==> #[trigger] s[m] % 2 == 0,
    decreases s.len() - from,
{
    if from < s.len() && s[from] % 2 != 1 {
        lemma_first_odd(s, from + 1);
    }
}

/// Bringing an odd entry to the front of an arrangement gives an
/// arrangement whose front is odd.
pub proof fn lemma_odd_first_arrangement(s: Seq<u8>)
    requires
        arrangement(s),
    ensures
        arrangement(odd_first(s)),
        odd_first(s)[0] % 2 == 1,
{
    lemma_first_odd(s, 1);
    if s[0] % 2 == 0 {
        assert(s.contains(1u8));
        let p = choose|p: int| 0 <= p < s.len() && s[p] == 1u8;
        assert(s[p] % 2 == 1);
        assert(first_odd(s, 1) <= p);
        lemma_exchanged_arrangement(s, 0, first_odd(s, 1));
    }
}

/// Makes the front entry odd: where it is even, the first odd entry after
/// it is exchanged into the front.
fn odd_to_front(nibbles: [u8; 15]) -> (r: [u8; 15])
    ensures
        r@ == odd_first(nibbles@),
{
    let mut r: [u8; 15] = nibbles;
    if r[0] % 2 == 0 {
        let mut i: usize = 1;
        while i < 15
            invariant
                1 <= i <= 15,
                r == nibbles,
                nibbles[0] % 2 == 0,
                first_odd(nibbles@, 1) == first_odd(nibbles@, i as int),
            decreases 15 - i,
        {
            if r[i] % 2 == 1 {
                let v: u8 = r[0];
                r[0] = r[i];
                r[i] = v;
                assert(r@ =~= exchanged(nibbles@, 0, i as int));
                return r;
            }
            i += 1;
        }
    }
    r
}

/// The least position at or after `from` whose entry differs from `v`, or
/// the length of the list where there is none.
pub open spec fn first_unlike(s: Seq<u8>, from: int, v: u8) -> int
    decreases s.len() - from,
{
    if from >= s.len() {
        s.len() as int
    } else if s[from] != v {
        from
    } else {
        first_unlike(s, from + 1, v)
    }
}

/// `s` after the step that settles the ninth nibble: where the entries at 7
/// and 8 are equal, the first entry from position 9 on that differs from
/// them, if there is one, is exchanged into position 8; else `s`.
pub open spec fn ninth_settled(s: Seq<u8>) -> Seq<u8> {
    if s[7] == s[8] && first_unlike(s, 9, s[7]) < s.len() {
        exchanged(s, 8, first_unlike(s, 9, s[7]))
    } else {
        s
    }
}

/// The ninth nibble that the list `s` gives: its entry at position 8 once
/// that position is settled.
pub open spec fn ninth_of(s: Seq<u8>) -> u8 {
    ninth_settled(s)[8]
}

/// In an arrangement the entries at 7 and 8 differ, so the ninth nibble is
/// the entry at position 8 as it stands.
pub proof fn lemma_ninth_of_arrangement(s: Seq<u8>)
    requires
        arrangement(s),
    ensures
        ninth_settled(s) == s,
        ninth_of(s) == s[8],
        ninth_of(s) != s[7],
        1 <= ninth_of(s) <= 15,
{
    assert(s[7] != s[8]);
}

/// Settles the ninth nibble: where the entries at 7 and 8 are equal, the
/// first entry after them that differs is exchanged into position 8.
fn settle_ninth(nibbles: [u8; 15]) -> (r: [u8; 15])
    ensures
        r@ == ninth_settled(nibbles@),
{
    let mut r: [u8; 15] = nibbles;
    let nib_8: u8 = r[7];
    if nib_8 == r[8] {
        let mut i: usize = 9;
        while i < 15
            invariant
                9 <= i <= 15,
                r == nibbles,
                nib_8 == nibbles[7],
                nibbles[7] == nibbles[8],
                first_unlike(nibbles@, 9, nib_8) == first_unlike(nibbles@, i as int, nib_8),
            decreases 15 - i,
        {
            if r[i] != nib_8 {
                let t: u8 = r[8];
                r[8] = r[i];
                r[i] = t;
                assert(r@ =~= exchanged(nibbles@, 8, i as int));
                return r;
            }
            i += 1;
        }
    }
    r
}

/// The word whose nibbles 0 to `count - 1` are the entries of `s`, in this
/// order, and whose other nibbles are zero.
pub open spec fn packed(s: Seq<u64>, count: int) -> u64
    decreases count,
{
    if count <= 0 {
        0
    } else {
        packed(s, count - 1) | (s[count - 1] << ((4 * (count - 1)) as u64))
    }
}

/// The nibbles of a packed word are the entries it was packed from.
pub proof fn lemma_packed_nibbles(s: Seq<u64>, count: int, position: int)
    requires
        0 <= count <= 16,
        count <= s.len(),
        forall|k: int| 0 <= k < count ==> #[trigger] s[k] < 16,
        0 <= position < 16,
    ensures
        nibble(packed(s, count), position) == if position < count {
            s[position]
        } else {
            0
        },
    decreases count,
{
    if count <= 0 {
        let p: u64 = position as u64;
        assert((0u64 >> ((4 * p) as u64)) & 0xF == 0) by (bit_vector);
    } else {
        lemma_packed_nibbles(s, count - 1, position);
        lemma_packed_nibbles(s, count - 1, count - 1);
        lemma_nibble_placed(packed(s, count - 1), s[count - 1], count - 1, position);
    }
}

/// The list that the low nine nibbles are read from: the shuffle driven by
/// the 64-bit draw for `index` under the first master key, with an odd entry
/// brought to the front.
pub open spec fn arranged(index: u64) -> Seq<u8> {
    odd_first(shuffled(output64(MASTER_KEY_A, index), 1))
}

/// The list behind a key is an arrangement with an odd front.
pub proof fn lemma_arranged(index: u64)
    ensures
        arrangement(arranged(index)),
        arranged(index)[0] % 2 == 1,
{
    lemma_shuffled_arrangement(output64(MASTER_KEY_A, index), 1);
    lemma_odd_first_arrangement(shuffled(output64(MASTER_KEY_A, index), 1));
}

/// The counter of the 32-bit draw that candidates `8 * block` to
/// `8 * block + 7` are cut from: `index + block`, modulo 2^64.
pub open spec fn draw_counter(index: u64, block: nat) -> u64 {
    ((index as int + block as int) % 0x1_0000_0000_0000_0000) as u64
}

/// Candidate `n` of the stream that fills the upper nibbles: one more than
/// the draw of its block from bit `4 * (n % 8)` upward, modulo 15.
pub open spec fn filler(index: u64, n: nat) -> u32 {
    let draw = output32(MASTER_KEY_B, draw_counter(index, n / 8));
    (1 + ((draw >> ((4 * (n % 8)) as u32)) % 15)) as u32
}

/// `n` is the first candidate at or after `from` that differs from `ninth`.
pub open spec fn is_next_accepted(index: u64, ninth: u8, from: nat, n: nat) -> bool {
    &&& from <= n
    &&& filler(index, n) != ninth
    &&& forall|m: nat| from <= m < n ==> #[trigger] filler(index, m) == ninth
}

/// The first candidate at or after `from` that differs from `ninth`.
pub open spec fn next_accepted(index: u64, ninth: u8, from: nat) -> nat {
    choose|n: nat| is_next_accepted(index, ninth, from, n)
}

/// The stream position of upper nibble `k`: the candidates that differ from
/// `ninth` are taken in the order of the stream.
pub open spec fn accepted(index: u64, ninth: u8, k: nat) -> nat
    decreases k,
{
    if k == 0 {
        next_accepted(index, ninth, 0)
    } else {
        next_accepted(index, ninth, accepted(index, ninth, (k - 1) as nat) + 1)
    }
}

/// The sixteen nibbles of the key for `index`, lowest first.
pub open spec fn derived_nibbles(index: u64) -> Seq<u64> {
    let s = arranged(index);
    let ninth = ninth_of(s);
    Seq::new(
        16,
        |i: int|
            if i < 8 {
                s[i] as u64
            } else if i == 8 {
                ninth as u64
            } else {
                filler(index, accepted(index, ninth, (i - 9) as nat)) as u64
            },
    )
}

/// The value of the key for `index`.
pub open spec fn derived(index: u64) -> u64 {
    packed(derived_nibbles(index), 16)
}

/// The 32-bit draw under the second master key at counter 0.
proof fn lemma_draw_at_zero()
    ensures
        output32(MASTER_KEY_B, 0) == 0xfc98dadbu32,
{
    let k: u64 = MASTER_KEY_B;
    reveal(output32);
    assert(seed(k, 0) == 0);
    assert(shifted_seed(k, 0) == k);
    assert(square_add(0, 0) == 0);
    assert(mix(0, 0) == 0);
    assert(square_add(0, k) == k);
    let x2: u64 = mix(0, k);
    assert(x2 == 0x23a5e4f172f9c8a3u64);
    let s3: u64 = square_add(x2, 0);
    assert(s3 == 0xcf6f854f165517c9u64);
    let x3: u64 = mix(x2, 0);
    assert(x3 == 0x165517c9cf6f854fu64);
    let t: u64 = square_add(x3, k);
    assert(t == 0xfc98dadbc5931352u64);
}

/// At or after every position the stream holds a candidate that differs
/// from `ninth`: the block drawn at counter 0 comes round again and holds
/// two different candidates.
proof fn lemma_unlike_exists(index: u64, ninth: u8, from: nat) -> (n: nat)
    ensures
        from <= n,
        filler(index, n) != ninth,
{
    let r: int = 0x1_0000_0000_0000_0000;
    let block: nat = ((r - index as int) + r * from as int) as nat;
    assert((index as int + block as int) == r * (from as int + 1));
    assert((r * (from as int + 1)) % r == 0) by (nonlinear_arith)
        requires
            r == 0x1_0000_0000_0000_0000,
    ;
    assert(draw_counter(index, block) == 0);
    lemma_draw_at_zero();
    let a: nat = 8 * block;
    let b: nat = 8 * block + 1;
    assert(a / 8 == block && a % 8 == 0);
    assert(b / 8 == block && b % 8 == 1);
    assert((0xfc98dadbu32 >> 0u32) % 15 == 1 && (0xfc98dadbu32 >> 4u32) % 15 == 5)
        by (bit_vector);
    assert(filler(index, a) == 2);
    assert(filler(index, b) == 6);
    if ninth == 2 {
        b
    } else {
        a
    }
}

/// Below a candidate that differs from `ninth` there is a first one.
proof fn lemma_first_unlike_exists(index: u64, ninth: u8, from: nat, bound: nat)
    requires
        from <= bound,
        filler(index, bound) != ninth,
    ensures
        exists|n: nat| is_next_accepted(index, ninth, from, n),
    decreases bound - from,
{
    if filler(index, from) != ninth {
        assert(is_next_accepted(index, ninth, from, from));
    } else {
        let after: nat = from + 1;
        lemma_first_unlike_exists(index, ninth, after, bound);
        let n = choose|n: nat| is_next_accepted(index, ninth, after, n);
        assert(is_next_accepted(index, ninth, from, n));
    }
}

/// The search for the next accepted candidate always ends.
pub proof fn lemma_next_accepted(index: u64, ninth: u8, from: nat)
    ensures
        is_next_accepted(index, ninth, from, next_accepted(index, ninth, from)),
{
    let bound = lemma_unlike_exists(index, ninth, from);
    lemma_first_unlike_exists(index, ninth, from, bound);
}

/// Every candidate of the stream is a nibble from 1 to 15.
pub proof fn lemma_filler_range(index: u64, n: nat)
    ensures
        1 <= filler(index, n) <= 15,
{
    let d: u32 = output32(MASTER_KEY_B, draw_counter(index, n / 8)) >> ((4 * (n % 8)) as u32);
    assert(d % 15 < 15);
}

/// The nibbles of a derived key obey the key rules.
pub proof fn lemma_derived_admissible(index: u64)
    ensures
        admissible(derived(index)),
        forall|i: int|
            0 <= i < 16 ==> nibble(derived(index), i) == #[trigger] derived_nibbles(index)[i],
{
    let s = arranged(index);
    let ninth = ninth_of(s);
    let t = derived_nibbles(index);
    let v = derived(index);
    lemma_arranged(index);
    lemma_ninth_of_arrangement(s);
    assert forall|k: int| 0 <= k < 16 implies 1 <= #[trigger] t[k] <= 15 by {
        if k >= 9 {
            lemma_filler_range(index, accepted(index, ninth, (k - 9) as nat));
        }
    }
    assert forall|i: int| 0 <= i < 16 implies nibble(v, i) == #[trigger] t[i] by {
        lemma_packed_nibbles(t, 16, i);
    }
    assert forall|i: int| 9 <= i < 16 implies #[trigger] nibble(v, i) != nibble(v, 8) by {
        let k: nat = (i - 9) as nat;
        let from: nat = if k == 0 {
            0
        } else {
            accepted(index, ninth, (k - 1) as nat) + 1
        };
        lemma_next_accepted(index, ninth, from);
        assert(t[i] == filler(index, accepted(index, ninth, k)) as u64);
        assert(nibble(v, i) == t[i]);
        assert(nibble(v, 8) == t[8]);
    }
    assert forall|i: int, j: int| 0 <= i < j < 8 implies #[trigger] nibble(v, i) != #[trigger] nibble(
        v,
        j,
    ) by {
        assert(nibble(v, i) == t[i]);
        assert(nibble(v, j) == t[j]);
        assert(s[i] != s[j]);
    }
    assert forall|i: int| 0 <= i < 16 implies #[trigger] nibble(v, i) != 0 by {
        assert(nibble(v, i) == t[i]);
    }
    assert(nibble(v, 0) == t[0]);
    assert(nibble(v, 7) == t[7]);
    assert(nibble(v, 8) == t[8]);
}

/// The derivation has no state: equal indices give equal keys.
pub proof fn lemma_derivation_repeats(first: u64, second: u64)
    requires
        first == second,
    ensures
        derived(first) == derived(second),
{
}

/// Both master keys obey the key rules.
pub proof fn lemma_master_keys_admissible()
    ensures
        admissible(MASTER_KEY_A),
        admissible(MASTER_KEY_B),
{
    let a: u64 = MASTER_KEY_A;
    let b: u64 = MASTER_KEY_B;
    assert(nibble(a, 0) == 0xd && nibble(a, 1) == 0xa && nibble(a, 2) == 0x4 && nibble(a, 3) == 0x1
        && nibble(a, 4) == 0xf && nibble(a, 5) == 0xc && nibble(a, 6) == 0xe && nibble(a, 7) == 0x6
        && nibble(a, 8) == 0x7 && nibble(a, 9) == 0x9 && nibble(a, 10) == 0x6 && nibble(a, 11)
        == 0xa && nibble(a, 12) == 0x3 && nibble(a, 13) == 0x1 && nibble(a, 14) == 0xc && nibble(
        a,
        15,
    ) == 0xe) by (bit_vector)
        requires
            a == 0xec13a6976ecf14adu64,
    ;
    assert(nibble(b, 0) == 0x1 && nibble(b, 1) == 0xf && nibble(b, 2) == 0x4 && nibble(b, 3) == 0xe
        && nibble(b, 4) == 0x5 && nibble(b, 5) == 0xa && nibble(b, 6) == 0x3 && nibble(b, 7) == 0x2
        && nibble(b, 8) == 0x3 && nibble(b, 9) == 0xa && nibble(b, 10) == 0x8 && nibble(b, 11)
        == 0xc && nibble(b, 12) == 0x9 && nibble(b, 13) == 0xf && nibble(b, 14) == 0x2 && nibble(
        b,
        15,
    ) == 0x7) by (bit_vector)
        requires
            b == 0x72f9c8a323a5e4f1u64,
    ;
    assert forall|i: int| 0 <= i < 16 implies #[trigger] nibble(a, i) != 0 && nibble(b, i) != 0 by {
        lemma_sixteen(i);
    }
    assert forall|i: int, j: int| 0 <= i < j < 8 implies #[trigger] nibble(a, i) != #[trigger] nibble(
        a,
        j,
    ) by {
        lemma_sixteen(i);
        lemma_sixteen(j);
    }
    assert forall|i: int, j: int| 0 <= i < j < 8 implies #[trigger] nibble(b, i) != #[trigger] nibble(
        b,
        j,
    ) by {
        lemma_sixteen(i);
        lemma_sixteen(j);
    }
    assert forall|i: int| 9 <= i < 16 implies #[trigger] nibble(a, i) != nibble(a, 8) by {
        lemma_sixteen(i);
    }
    assert forall|i: int| 9 <= i < 16 implies #[trigger] nibble(b, i) != nibble(b, 8) by {
        lemma_sixteen(i);
    }
}

/// A nibble position is one of sixteen numbers.
proof fn lemma_sixteen(i: int)
    requires
        0 <= i < 16,
    ensures
        i == 0 || i == 1 || i == 2 || i == 3 || i == 4 || i == 5 || i == 6 || i == 7 || i == 8 || i
            == 9 || i == 10 || i == 11 || i == 12 || i == 13 || i == 14 || i == 15,
{
}

/// Derives the key for `index`.
///
/// Total and deterministic: the result is the value [`derived`] of the
/// index, and it obeys the key rules for every index.
#[must_use]
pub fn key(index: u64) -> (r: Key)
    ensures
        r@ == derived(index),
        admissible(r@),
{
    proof {
        lemma_master_keys_admissible();
        lemma_arranged(index);
        lemma_ninth_of_arrangement(arranged(index));
        lemma_derived_admissible(index);
    }
    let ghost t = derived_nibbles(index);

    // shuffle nibbles randomly, then ensure the first nibble is odd
    let master_a: Key = Key::unchecked(MASTER_KEY_A);
    let master_b: Key = Key::unchecked(MASTER_KEY_B);
    let destinations: u64 = crate::squares::u64(master_a, index);
    let nibbles: [u8; 15] = odd_to_front(shuffle(destinations));

    // assemble lower nibbles
    let mut output: u64 = 0;
    let mut i: usize = 0;
    while i < 8
        invariant
            i <= 8,
            output == packed(t, i as int),
            t.len() == 16,
            forall|k: int| 0 <= k < 8 ==> #[trigger] t[k] == nibbles[k] as u64,
        decreases 8 - i,
    {
        let n: u8 = nibbles[i];
        output |= (n as u64) << (i * 4);
        i += 1;
    }

    // ensure nibbles 8 and 9 do not match
    let nibbles: [u8; 15] = settle_ninth(nibbles);
    let nib_9: u8 = nibbles[8];
    output |= (nib_9 as u64) << 32;
    assert(output == packed(t, 9));

    // assign upper 7 nibbles (bits 36-63)
    let mut rng_idx: u64 = index;
    let mut upper: u32 = crate::squares::u32(master_b, rng_idx);
    let mut i: usize = 9;
    let mut j: u32 = 0;
    let ghost mut n: nat = 0;
    while i < 16
        invariant
            9 <= i <= 16,
            output == packed(t, i as int),
            t == derived_nibbles(index),
            nib_9 == ninth_of(arranged(index)),
            master_b@ == MASTER_KEY_B,
            j < 8,
            j == n % 8,
            rng_idx == draw_counter(index, n / 8),
            upper == output32(MASTER_KEY_B, rng_idx),
            n == if i == 9 {
                0
            } else {
                accepted(index, nib_9, (i - 10) as nat) + 1
            },
        decreases 16 - i,
    {
        let ghost from = n;
        let ghost target = next_accepted(index, nib_9, from);
        proof {
            lemma_next_accepted(index, nib_9, from);
            assert(target == accepted(index, nib_9, (i - 9) as nat));
        }
        let mut nib: u32 = 1 + ((upper >> (j * 4)) % 15);
        while nib == nib_9 as u32
            invariant
                master_b@ == MASTER_KEY_B,
                j < 8,
                j == n % 8,
                rng_idx == draw_counter(index, n / 8),
                upper == output32(MASTER_KEY_B, rng_idx),
                nib == filler(index, n),
                from <= n <= target,
                is_next_accepted(index, nib_9, from, target),
                forall|m: nat| from <= m < n ==> #[trigger] filler(index, m) == nib_9,
            decreases target - n,
        {
            j += 1;
            if j == 8 {
                j = 0;
                rng_idx = rng_idx.wrapping_add(1);
                upper = crate::squares::u32(master_b, rng_idx);
            }
            proof {
                n = n + 1;
            }
            nib = 1 + ((upper >> (j * 4)) % 15);
        }
        assert(n == target);

        j += 1;
        if j == 8 {
            j = 0;
            rng_idx = rng_idx.wrapping_add(1);
            upper = crate::squares::u32(master_b, rng_idx);
        }
        proof {
            n = n + 1;
        }

        assert(t[i as int] == nib as u64);
        output |= (nib as u64) << (i * 4);
        i += 1;
    }

    Key::unchecked(output)
}

} // verus!
