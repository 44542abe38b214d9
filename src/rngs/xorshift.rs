//! Xorshift generators.

use vstd::prelude::*;
use crate::rngs::{RNG, StreamModel, steps};

verus! {

/// Marsaglia's xorshift128 on four 32-bit words; `next` joins two outputs
/// of `next_u32`, the first in the high half.
#[derive(Debug, Copy, Clone)]
pub struct XORShift128 {
    state: [u32; 4],
}

/// One xorshift128 step on the words `s`.
pub open spec fn xorshift_step(s: Seq<u32>) -> Seq<u32> {
    let t0 = s[3];
    let t1 = t0 ^ (t0 << 11);
    let t2 = t1 ^ (t1 >> 8);
    seq![t2 ^ s[0] ^ (s[0] >> 19), s[0], s[1], s[2]]
}

/// The words that a seed gives: its low and high halves, twice.
pub open spec fn xorshift_seed(seed: u64) -> Seq<u32> {
    seq![seed as u32, (seed >> 32) as u32, seed as u32, (seed >> 32) as u32]
}

impl View for XORShift128 {
    type V = Seq<u32>;

    closed spec fn view(&self) -> Seq<u32> {
        self.state@
    }
}

impl StreamModel for XORShift128 {
    open spec fn seeded(seed: u64) -> Seq<u32> {
        xorshift_seed(seed)
    }

    open spec fn step(v: Seq<u32>) -> Seq<u32> {
        xorshift_step(xorshift_step(v))
    }

    open spec fn output(v: Seq<u32>) -> u64 {
        ((xorshift_step(v)[0] as u64) << 32) | (xorshift_step(xorshift_step(v))[0] as u64)
    }

    open spec fn step_u32(v: Seq<u32>) -> Seq<u32> {
        xorshift_step(v)
    }

    open spec fn output_u32(v: Seq<u32>) -> u32 {
        xorshift_step(v)[0]
    }
}

fn seed_words(seed: u64) -> (r: [u32; 4])
    ensures
        r@ == xorshift_seed(seed),
{
    let r = [seed as u32, (seed >> 32) as u32, seed as u32, (seed >> 32) as u32];
    assert(r@ =~= xorshift_seed(seed));
    r
}

impl RNG for XORShift128 {
    fn new(seed: u64) -> (r: Self) {
        XORShift128 { state: seed_words(seed) }
    }

    fn next_u32(&mut self) -> (r: u32) {
        let ghost before = self@;
        let mut t: u32 = self.state[3];
        let s: u32 = self.state[0];
        self.state[3] = self.state[2];
        self.state[2] = self.state[1];
        self.state[1] = s;
        t ^= t << 11;
        t ^= t >> 8;
        self.state[0] = t ^ s ^ (s >> 19);
        assert(self@ =~= xorshift_step(before));
        self.state[0]
    }

    fn next(&mut self) -> (r: u64) {
        let a: u64 = self.next_u32() as u64;
        let b: u64 = self.next_u32() as u64;
        (a << 32) | b
    }

    fn advance(&mut self, delta: usize) {
        let mut i: usize = 0;
        while i < delta
            invariant
                i <= delta,
                self@ == steps::<Self>(old(self)@, i as nat),
            decreases delta - i,
        {
            let _ = self.next();
            i += 1;
        }
    }

    fn reseed(&mut self, seed: u64) {
        self.state = seed_words(seed);
    }
}

} // verus!
