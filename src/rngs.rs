//! Pseudorandom-number generators behind one interface.
//!
//! Every generator implements [`RNG`] and [`StreamModel`], a mathematical
//! model of its state, and its methods are specified exactly over it.

use rand::{RngCore, SeedableRng};
use vstd::prelude::*;

pub mod lcg;
pub mod spn;
pub mod stream_nlarx;
pub mod xorshift;
pub mod testgens;

verus! {

/// General interface of the generators, specified over each generator's
/// model (see [`StreamModel`]).
pub trait RNG: StreamModel {
    /// Initialize with the given seed.
    fn new(seed: u64) -> (r: Self)
        ensures
            r@ == Self::seeded(seed),
    ;

    /// Produce a u32 and advance the state.
    fn next_u32(&mut self) -> (r: u32)
        ensures
            r == Self::output_u32(old(self)@),
            final(self)@ == Self::step_u32(old(self)@),
    ;

    /// Produce a u64 and advance the state. Generators with a narrower natural
    /// output combine several internal steps.
    fn next(&mut self) -> (r: u64)
        ensures
            r == Self::output(old(self)@),
            final(self)@ == Self::step(old(self)@),
    ;

    /// Advance the state as if `delta` calls of `next` had been made.
    fn advance(&mut self, delta: usize)
        ensures
            final(self)@ == steps::<Self>(old(self)@, delta as nat),
    ;

    /// Reset to the state that `new(seed)` gives.
    fn reseed(&mut self, seed: u64)
        ensures
            final(self)@ == Self::seeded(seed),
    ;
}

/// The state of a generator as a mathematical value (its view), with what
/// construction, `next` and `next_u32` do to it.
pub trait StreamModel: View + Sized {
    /// The state that construction with `seed` gives.
    spec fn seeded(seed: u64) -> Self::V;

    /// The state after one call of `next`.
    spec fn step(v: Self::V) -> Self::V;

    /// What one call of `next` returns from state `v`.
    spec fn output(v: Self::V) -> u64;

    /// The state after one call of `next_u32`.
    spec fn step_u32(v: Self::V) -> Self::V;

    /// What one call of `next_u32` returns from state `v`.
    spec fn output_u32(v: Self::V) -> u32;
}

/// The state after `n` calls of `next`.
pub open spec fn steps<R: StreamModel>(v: R::V, n: nat) -> R::V
    decreases n,
{
    if n == 0 {
        v
    } else {
        R::step(steps::<R>(v, (n - 1) as nat))
    }
}

/// The first `n` values that `next` returns from state `v`.
pub open spec fn stream<R: StreamModel>(v: R::V, n: nat) -> Seq<u64> {
    Seq::new(n, |i: int| R::output(steps::<R>(v, i as nat)))
}

/// Reseeding a generator with `seed`, whatever state it was in, and
/// constructing one with `seed` lead to the same values from `next`.
pub proof fn lemma_reseed_same_as_new<R: RNG>(reseeded: R, fresh: R, seed: u64, n: nat)
    requires
        reseeded@ == R::seeded(seed),
        fresh@ == R::seeded(seed),
    ensures
        stream::<R>(reseeded@, n) == stream::<R>(fresh@, n),
{
}

#[verifier::external_type_specification]
#[verifier::external_body]
pub struct ExStdRng(rand::rngs::StdRng);

/// Word `index` (counting from 0) of the stream of 32-bit words that rand's
/// `StdRng` seeded with `seed` by `seed_from_u64` produces.
pub uninterp spec fn std_rng_word(seed: u64, index: nat) -> u32;

/// The reference generator: rand's standard seedable generator. Its view is
/// its position in the word stream of its seed: (seed, words drawn so far).
pub struct RefefenceRand {
    rng: rand::rngs::StdRng,
    seed: Ghost<u64>,
    drawn: Ghost<nat>,
}

impl View for RefefenceRand {
    type V = (u64, nat);

    closed spec fn view(&self) -> (u64, nat) {
        (self.seed@, self.drawn@)
    }
}

/// Two words of the stream as one u64, the first word in the low half, as
/// rand_core's `BlockRng::next_u64` joins them.
pub open spec fn joined_words(seed: u64, index: nat) -> u64 {
    ((std_rng_word(seed, index + 1) as u64) << 32u64) | (std_rng_word(seed, index) as u64)
}

/// Relies on rand's `SeedableRng::seed_from_u64` for `StdRng`: a generator at
/// the start of the word stream that `seed` determines.
#[verifier::external_body]
fn reference_from_seed(seed: u64) -> (r: RefefenceRand)
    ensures
        r@ == (seed, 0nat),
{
    RefefenceRand { rng: rand::rngs::StdRng::seed_from_u64(seed), seed: Ghost(seed), drawn: Ghost(0nat) }
}

/// Relies on rand's `RngCore::next_u32` for `StdRng` (rand_core's `BlockRng`):
/// the next word of the stream, one word drawn.
#[verifier::external_body]
fn reference_next_u32(g: &mut RefefenceRand) -> (r: u32)
    ensures
        r == std_rng_word(old(g)@.0, old(g)@.1),
        final(g)@ == (old(g)@.0, old(g)@.1 + 1),
{
    g.rng.next_u32()
}

/// Relies on rand's `RngCore::next_u64` for `StdRng` (rand_core's `BlockRng`):
/// the next two words of the stream, the first in the low half, two words drawn.
#[verifier::external_body]
fn reference_next_u64(g: &mut RefefenceRand) -> (r: u64)
    ensures
        r == joined_words(old(g)@.0, old(g)@.1),
        final(g)@ == (old(g)@.0, old(g)@.1 + 2),
{
    g.rng.next_u64()
}

impl StreamModel for RefefenceRand {
    open spec fn seeded(seed: u64) -> (u64, nat) {
        (seed, 0nat)
    }

    open spec fn step(v: (u64, nat)) -> (u64, nat) {
        (v.0, v.1 + 2)
    }

    open spec fn output(v: (u64, nat)) -> u64 {
        joined_words(v.0, v.1)
    }

    open spec fn step_u32(v: (u64, nat)) -> (u64, nat) {
        (v.0, v.1 + 1)
    }

    open spec fn output_u32(v: (u64, nat)) -> u32 {
        std_rng_word(v.0, v.1)
    }
}

impl RNG for RefefenceRand {
    fn new(seed: u64) -> (r: Self) {
        reference_from_seed(seed)
    }

    fn next_u32(&mut self) -> (r: u32) {
        reference_next_u32(self)
    }

    fn next(&mut self) -> (r: u64) {
        reference_next_u64(self)
    }

    fn advance(&mut self, delta: usize) {
        let mut i: usize = 0;
        while i < delta
            invariant
                i <= delta,
                self@ == steps::<Self>(old(self)@, i as nat),
            decreases delta - i,
        {
            let _ = self.next();
            i += 1;
        }
    }

    fn reseed(&mut self, seed: u64) {
        *self = reference_from_seed(seed);
    }
}

/// A buffer of `sample_size` words from the generator: word `i` is what the
/// `i`-th call of `next` returns.
pub fn fill_buffer<R: RNG>(test_rng: &mut R, sample_size: usize) -> (r: Vec<u64>)
    ensures
        r@ == stream::<R>(old(test_rng)@, sample_size as nat),
        final(test_rng)@ == steps::<R>(old(test_rng)@, sample_size as nat),
{
    let mut buffer: Vec<u64> = Vec::new();
    let mut i: usize = 0;
    while i < sample_size
        invariant
            i <= sample_size,
            buffer@ == stream::<R>(old(test_rng)@, i as nat),
            test_rng@ == steps::<R>(old(test_rng)@, i as nat),
        decreases sample_size - i,
    {
        buffer.push(test_rng.next());
        assert(buffer@ =~= stream::<R>(old(test_rng)@, (i + 1) as nat));
        i += 1;
    }
    buffer
}

} // verus!
