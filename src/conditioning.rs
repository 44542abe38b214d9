//! Turning generator output into more constrained values.

use vstd::prelude::*;
use vstd::std_specs::bits::{u64_leading_zeros, axiom_u64_leading_zeros};
use crate::rngs::RNG;

verus! {

/// The mask that keeps as many low bits of a draw as the width of
/// `range - 1`: `u64::MAX >> (range - 1).leading_zeros()`; 0 for a range of
/// at most one value.
pub open spec fn draw_mask(range: u64) -> u64 {
    if range <= 1 {
        0
    } else {
        u64::MAX >> (u64_leading_zeros((range - 1) as u64) as u64)
    }
}

/// What a draw gives in the range from `lower` (inclusive) to `upper`
/// (exclusive): the draw masked to the width of the range, added to `lower`
/// if it falls inside the range, else nothing (the draw is rejected).
pub open spec fn accepted(draw: u64, lower: u64, upper: u64) -> Option<u64> {
    let range = (upper - lower) as u64;
    let m = draw & draw_mask(range);
    if m < range {
        Some((lower + m) as u64)
    } else {
        None
    }
}

/// One step of rejection sampling: the value that `draw` gives in the range
/// from `lower` to `upper`, or `None` where it is rejected.
pub fn accept_draw(draw: u64, lower: u64, upper: u64) -> (r: Option<u64>)
    requires
        lower < upper,
    ensures
        r == accepted(draw, lower, upper),
{
    let range: u64 = upper - lower;
    if range == 1 {
        assert(draw & 0 == 0) by (bit_vector);
        return Some(lower);
    }
    let x: u64 = range - 1;
    let lz = x.leading_zeros();
    proof {
        axiom_u64_leading_zeros(x);
    }
    let mask: u64 = u64::MAX >> (lz as u64);
    let m: u64 = draw & mask;
    if m < range {
        Some(lower + m)
    } else {
        None
    }
}

/// The first value that one of the first `k` draws of `next`, from state
/// `v`, gives in the range from `lower` to `upper`; `None` where all `k` are
/// rejected.
pub open spec fn first_accepted<R: RNG>(v: R::V, lower: u64, upper: u64, k: nat) -> Option<u64>
    decreases k,
{
    if k == 0 {
        None
    } else {
        match accepted(R::output(v), lower, upper) {
            Some(x) => Some(x),
            None => first_accepted::<R>(R::step(v), lower, upper, (k - 1) as nat),
        }
    }
}

/// An integer from `lower` (inclusive) to `upper` (exclusive), by rejection
/// sampling: each value of `next` goes through `accept_draw` until one is
/// accepted. An empty range gives `lower`. After 2^64 - 1 rejected draws
/// (each draw is accepted with probability above one half) the search stops
/// and gives `lower`.
pub fn rs_random_int<R: RNG>(test_rng: &mut R, lower: u64, upper: u64) -> (r: u64)
    ensures
        lower < upper ==> lower <= r < upper,
        lower < upper ==> r == match first_accepted::<R>(
            old(test_rng)@,
            lower,
            upper,
            u64::MAX as nat,
        ) {
            Some(x) => x,
            None => lower,
        },
        upper <= lower ==> r == lower,
{
    if upper <= lower {
        return lower;
    }
    let mut attempts: u64 = 0;
    while attempts < u64::MAX
        invariant
            lower < upper,
            first_accepted::<R>(old(test_rng)@, lower, upper, u64::MAX as nat)
                == first_accepted::<R>(test_rng@, lower, upper, (u64::MAX - attempts) as nat),
        decreases u64::MAX - attempts,
    {
        let draw = test_rng.next();
        match accept_draw(draw, lower, upper) {
            Some(value) => {
                proof {
                    lemma_accepted_in_range(draw, lower, upper);
                }
                return value;
            },
            None => {},
        }
        attempts += 1;
    }
    lower
}

/// An accepted value lies in the range.
pub proof fn lemma_accepted_in_range(draw: u64, lower: u64, upper: u64)
    requires
        lower < upper,
    ensures
        accepted(draw, lower, upper) matches Some(v) ==> lower <= v < upper,
{
}

} // verus!
