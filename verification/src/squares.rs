//! The generator: three squaring rounds over a key and a counter.
//!
//! All arithmetic is modulo 2^64. The specification functions state each step
//! over the integers; the executable functions are proved equal to them.
use crate::key::Key;
use vstd::prelude::*;

verus! {

/// `x` with its low and high 32-bit halves exchanged.
pub open spec fn swap_halves(x: u64) -> u64 {
    ((x as int % 0x1_0000_0000) * 0x1_0000_0000 + x as int / 0x1_0000_0000) as u64
}

/// `x * x + o`, reduced modulo 2^64.
pub open spec fn square_add(x: u64, o: u64) -> u64 {
    ((x as int * x as int + o as int) % 0x1_0000_0000_0000_0000) as u64
}

/// One round: square, add the offset, exchange the halves.
pub open spec fn mix(x: u64, o: u64) -> u64 {
    swap_halves(square_add(x, o))
}

/// The product of counter and key modulo 2^64, from which every output starts.
pub open spec fn seed(key: u64, counter: u64) -> u64 {
    ((counter as int * key as int) % 0x1_0000_0000_0000_0000) as u64
}

/// The second offset of the rounds: the seed plus the key, modulo 2^64.
pub open spec fn shifted_seed(key: u64, counter: u64) -> u64 {
    ((seed(key, counter) as int + key as int) % 0x1_0000_0000_0000_0000) as u64
}

/// The accumulator after the three rounds, which use the offsets
/// seed, shifted seed, seed, in this order.
pub open spec fn three_rounds(key: u64, counter: u64) -> u64 {
    let y = seed(key, counter);
    let z = shifted_seed(key, counter);
    mix(mix(mix(y, y), z), y)
}

/// The 32-bit output for a raw key value and a counter.
#[verifier::opaque]
pub open spec fn output32(key: u64, counter: u64) -> u32 {
    let z = shifted_seed(key, counter);
    (square_add(three_rounds(key, counter), z) as int / 0x1_0000_0000) as u32
}

/// The 64-bit output for a raw key value and a counter.
#[verifier::opaque]
pub open spec fn output64(key: u64, counter: u64) -> u64 {
    let y = seed(key, counter);
    let z = shifted_seed(key, counter);
    let t = square_add(three_rounds(key, counter), z);
    t ^ ((square_add(swap_halves(t), y) as int / 0x1_0000_0000) as u64)
}

/// The generator has no state: equal key values and equal counters give
/// equal outputs, whichever way the keys were made.
pub proof fn lemma_outputs_repeat(first: Key, second: Key, i: u64, j: u64)
    requires
        first@ == second@,
        i == j,
    ensures
        output32(first@, i) == output32(second@, j),
        output64(first@, i) == output64(second@, j),
{
}

/// The upper half of the 64-bit output is the 32-bit output for the same key
/// and counter.
pub proof fn lemma_upper_half(key: u64, counter: u64)
    ensures
        output64(key, counter) as int / 0x1_0000_0000 == output32(key, counter),
{
    reveal(output32);
    reveal(output64);
    let t: u64 = square_add(three_rounds(key, counter), shifted_seed(key, counter));
    let s: u64 = square_add(swap_halves(t), seed(key, counter));
    let low: u64 = (s as int / 0x1_0000_0000) as u64;
    assert(low == s >> 32) by (bit_vector)
        requires
            low == (s as int / 0x1_0000_0000) as u64,
    ;
    assert((t ^ (s >> 32)) as int / 0x1_0000_0000 == ((t as int / 0x1_0000_0000) as u32))
        by (bit_vector);
}

/// Exchanges the 32-bit halves of a 64-bit value.
fn swap(x: u64) -> (r: u64)
    ensures
        r == swap_halves(x),
{
    assert(((x >> 32) | (x << 32)) == ((x as int % 0x1_0000_0000) * 0x1_0000_0000 + x as int
        / 0x1_0000_0000) as u64) by (bit_vector);
    (x >> 32) | (x << 32)
}

/// Computes `x * x + o` with wraparound.
fn sq(x: u64, o: u64) -> (r: u64)
    ensures
        r == square_add(x, o),
{
    let p: u64 = x.wrapping_mul(x);
    let r: u64 = p.wrapping_add(o);
    proof {
        let m: int = 0x1_0000_0000_0000_0000;
        let xx: int = x as int * x as int;
        assert(x as int * x as int == x as nat * x as nat) by (nonlinear_arith);
        assert(p as int == xx % m);
        assert((xx + o as int) % m == r as int);
    }
    r
}

/// One round of the generator.
fn round(x: u64, o: u64) -> (r: u64)
    ensures
        r == mix(x, o),
{
    swap(sq(x, o))
}

/// The first step of every output: the accumulator and the two offsets.
fn init(key: Key, counter: u64) -> (r: (u64, u64, u64))
    ensures
        r.0 == seed(key@, counter),
        r.1 == seed(key@, counter),
        r.2 == shifted_seed(key@, counter),
{
    let k: u64 = key.inner();
    let x: u64 = counter.wrapping_mul(k);
    let z: u64 = x.wrapping_add(k);
    proof {
        assert(counter as int * k as int == counter as nat * k as nat) by (nonlinear_arith);
    }
    (x, x, z)
}

/// Produces 32 pseudo-random bits for `key` at position `index`.
///
/// Total over every key and every index; the result is exactly
/// [`output32`] of the key's value and the index.
#[must_use]
#[inline(always)]
pub fn u32(key: Key, index: u64) -> (r: u32)
    ensures
        r == output32(key@, index),
{
    let (x, y, z) = init(key, index);
    let x: u64 = round(x, y);
    let x: u64 = round(x, z);
    let x: u64 = round(x, y);
    let t: u64 = sq(x, z);
    assert((t >> 32) as u32 == (t as int / 0x1_0000_0000) as u32) by (bit_vector);
    reveal(output32);
    (t >> 32) as u32
}

/// Produces 64 pseudo-random bits for `key` at position `index`.
///
/// Total over every key and every index; the result is exactly
/// [`output64`] of the key's value and the index.
#[must_use]
#[inline(always)]
pub fn u64(key: Key, index: u64) -> (r: u64)
    ensures
        r == output64(key@, index),
{
    let (x, y, z) = init(key, index);
    let x: u64 = round(x, y);
    let x: u64 = round(x, z);
    let x: u64 = round(x, y);
    let t: u64 = sq(x, z);
    let x: u64 = swap(t);
    let s: u64 = sq(x, y);
    assert((s >> 32) == (s as int / 0x1_0000_0000) as u64) by (bit_vector);
    reveal(output64);
    t ^ (s >> 32)
}

} // verus!
