//! Ordering of 32-bit sequence numbers on the ring of integers modulo 2^32.

use vstd::prelude::*;

verus! {

/// The size of the sequence space.
pub open spec fn ring() -> int {
    0x1_0000_0000
}

/// Half of the sequence space: the largest distance over which two sequence
/// numbers can still be ordered.
pub const HALF_RING: u32 = 0x8000_0000;

/// The distance from `from` forward to `to`, in `0 .. 2^32`.
pub open spec fn distance(from: u32, to: u32) -> int {
    (to - from) % ring()
}

/// `lhs` lies in the open half of the ring that precedes `rhs`: walking
/// forward from `lhs`, `rhs` is reached in fewer than 2^31 steps, and the two
/// differ.
pub open spec fn spec_wrapping_lt(lhs: u32, rhs: u32) -> bool {
    0 < distance(lhs, rhs) < HALF_RING
}

/// `target` lies strictly between `start` and `end` in circular order.
pub open spec fn spec_is_between_wrapped(start: u32, target: u32, end: u32) -> bool {
    spec_wrapping_lt(start, target) && spec_wrapping_lt(target, end)
}

/// The forward distance is what a wrapping subtraction computes.
pub proof fn lemma_distance_is_wrapping_sub(from: u32, to: u32)
    ensures
        distance(from, to) == to.wrapping_sub(from),
        0 <= distance(from, to) < ring(),
{
    let d: int = to - from;
    if d < 0 {
        assert((d + 0x1_0000_0000) % 0x1_0000_0000 == d % 0x1_0000_0000) by {
            vstd::arithmetic::div_mod::lemma_mod_add_multiples_vanish(d, 0x1_0000_0000);
        }
        vstd::arithmetic::div_mod::lemma_small_mod((d + 0x1_0000_0000) as nat, 0x1_0000_0000);
    } else {
        vstd::arithmetic::div_mod::lemma_small_mod(d as nat, 0x1_0000_0000);
    }
}

/// Whether `lhs` precedes `rhs` on the ring: `(lhs - rhs) mod 2^32` exceeds
/// 2^31.
#[verifier::when_used_as_spec(spec_wrapping_lt)]
pub fn wrapping_lt(lhs: u32, rhs: u32) -> (r: bool)
    ensures
        r == spec_wrapping_lt(lhs, rhs),
        r == (distance(rhs, lhs) > HALF_RING),
{
    proof {
        lemma_distance_is_wrapping_sub(rhs, lhs);
        lemma_distance_is_wrapping_sub(lhs, rhs);
    }
    lhs.wrapping_sub(rhs) > HALF_RING
}

/// Whether `target` lies in the open interval from `start` to `end`, taken in
/// circular order.
#[verifier::when_used_as_spec(spec_is_between_wrapped)]
pub fn is_between_wrapped(start: u32, target: u32, end: u32) -> (r: bool)
    ensures
        r == spec_is_between_wrapped(start, target, end),
{
    wrapping_lt(start, target) && wrapping_lt(target, end)
}

/// Adding the same offset to both ends leaves the forward distance unchanged.
pub proof fn lemma_distance_shift(from: u32, to: u32, k: u32)
    ensures
        distance(from.wrapping_add(k), to.wrapping_add(k)) == distance(from, to),
{
    let a: int = from.wrapping_add(k) as int;
    let b: int = to.wrapping_add(k) as int;
    let d: int = to - from;
    // b - a differs from d by a multiple of the ring size
    if b - a == d {
    } else if b - a == d + 0x1_0000_0000 {
        vstd::arithmetic::div_mod::lemma_mod_add_multiples_vanish(d, 0x1_0000_0000);
    } else {
        assert(b - a == d - 0x1_0000_0000);
        vstd::arithmetic::div_mod::lemma_mod_sub_multiples_vanish(d, 0x1_0000_0000);
    }
}

/// Circular order does not depend on where the ring is cut: shifting all
/// three sequence numbers by the same amount, modulo 2^32, leaves
/// `is_between_wrapped` unchanged.
pub proof fn lemma_between_shift_invariant(start: u32, target: u32, end: u32, k: u32)
    ensures
        is_between_wrapped(start.wrapping_add(k), target.wrapping_add(k), end.wrapping_add(k))
            == is_between_wrapped(start, target, end),
        wrapping_lt(start.wrapping_add(k), target.wrapping_add(k)) == wrapping_lt(start, target),
{
    lemma_distance_shift(start, target, k);
    lemma_distance_shift(target, end, k);
}

} // verus!
