//! A counter-mode generator with a non-linear add-rotate-XOR mixer, which
//! allows seeking to any position of its output stream.

use vstd::prelude::*;
use vstd::wrapping::{u64_specs, u128_specs};
use crate::rngs::{RNG, StreamModel, steps, stream};

verus! {

/// The counter of a newly seeded generator.
pub const INITIAL_STATE: u64 = 0;

const N_ROUNDS: usize = 6;

const HIGH_HALF: u128 = 0xffffffffffffffff0000000000000000;

/// The 128-bit state; the high half holds the seed, the low half a counter.
/// Its view is the pair (seed, counter).
#[derive(Debug, Copy, Clone)]
pub struct StreamNLARXu128 {
    state: u128,
}

/// The 128-bit word with `hi` as its high half and `lo` as its low half.
pub open spec fn join_halves(hi: u64, lo: u64) -> u128 {
    ((hi as u128) << 64) | (lo as u128)
}

/// `x` rotated left by `k` bits, for `0 < k < 128`.
pub open spec fn rotl(x: u128, k: u32) -> u128 {
    (x << k) | (x >> ((128 - k) as u32))
}

/// The `n` lowest bytes of `x` in reverse order: the lowest byte of `x`
/// becomes the highest of the `n`.
pub open spec fn reversed_bytes(x: u128, n: nat) -> u128
    decreases n,
{
    if n == 0 {
        0
    } else {
        (reversed_bytes(x, (n - 1) as nat) << 8u32) | ((x >> ((8 * (n - 1)) as u32)) & 0xff)
    }
}

/// One round of the mixer.
pub open spec fn mix_round(s: u128) -> u128 {
    let s1 = reversed_bytes(s, 16);
    let s2 = s1 ^ rotl(s1, 17);
    let s3 = if s2 & 1 != 0 {
        u128_specs::wrapping_add(s2, rotl(s2, 23))
    } else {
        u128_specs::wrapping_add(s2, rotl(s2, 41))
    };
    if s3 & 2 != 0 {
        u128_specs::wrapping_add(s3, rotl(s3, 33))
    } else {
        u128_specs::wrapping_add(s3, rotl(s3, 17))
    }
}

/// `n` rounds of the mixer.
pub open spec fn mix_rounds(s: u128, n: nat) -> u128
    decreases n,
{
    if n == 0 {
        s
    } else {
        mix_round(mix_rounds(s, (n - 1) as nat))
    }
}

fn rotate_left(x: u128, k: u32) -> (r: u128)
    requires
        0 < k < 128,
    ensures
        r == rotl(x, k),
{
    (x << k) | (x >> (128 - k))
}

fn swap_bytes(x: u128) -> (r: u128)
    ensures
        r == reversed_bytes(x, 16),
{
    let mut r: u128 = 0;
    let mut i: u32 = 0;
    while i < 16
        invariant
            i <= 16,
            r == reversed_bytes(x, i as nat),
        decreases 16 - i,
    {
        r = (r << 8u32) | ((x >> (8 * i)) & 0xff);
        i += 1;
    }
    r
}

/// The six mixer rounds applied to a state.
fn mix_u128(in_state: u128) -> (r: u128)
    ensures
        r == mix_rounds(in_state, 6),
{
    let mut out_state = in_state;
    let mut i: usize = 0;
    while i < N_ROUNDS
        invariant
            i <= N_ROUNDS,
            out_state == mix_rounds(in_state, i as nat),
        decreases N_ROUNDS - i,
    {
        out_state = swap_bytes(out_state);
        out_state = out_state ^ rotate_left(out_state, 17);
        if out_state & 1 != 0 {
            out_state = out_state.wrapping_add(rotate_left(out_state, 23));
        } else {
            out_state = out_state.wrapping_add(rotate_left(out_state, 41));
        }
        if out_state & 2 != 0 {
            out_state = out_state.wrapping_add(rotate_left(out_state, 33));
        } else {
            out_state = out_state.wrapping_add(rotate_left(out_state, 17));
        }
        i += 1;
    }
    out_state
}

/// What the generator outputs with `seed` in the high half and `counter`
/// in the low half of its state.
pub open spec fn nlarx_output(seed: u64, counter: u64) -> u128 {
    mix_rounds(join_halves(seed, counter), 6)
}

impl View for StreamNLARXu128 {
    type V = (u64, u64);

    closed spec fn view(&self) -> (u64, u64) {
        ((self.state >> 64) as u64, self.state as u64)
    }
}

impl StreamModel for StreamNLARXu128 {
    open spec fn seeded(seed: u64) -> (u64, u64) {
        (seed, INITIAL_STATE)
    }

    open spec fn step(v: (u64, u64)) -> (u64, u64) {
        (v.0, u64_specs::wrapping_add(v.1, 1))
    }

    open spec fn output(v: (u64, u64)) -> u64 {
        nlarx_output(v.0, u64_specs::wrapping_add(v.1, 1)) as u64
    }

    open spec fn step_u32(v: (u64, u64)) -> (u64, u64) {
        (v.0, u64_specs::wrapping_add(v.1, 1))
    }

    open spec fn output_u32(v: (u64, u64)) -> u32 {
        nlarx_output(v.0, u64_specs::wrapping_add(v.1, 1)) as u32
    }
}

proof fn lemma_halves(s: u128)
    ensures
        join_halves((s >> 64) as u64, s as u64) == s,
        ((join_halves((s >> 64) as u64, s as u64)) >> 64) as u64 == (s >> 64) as u64,
{
    assert((((((s >> 64) as u64) as u128) << 64) | ((s as u64) as u128)) == s) by (bit_vector);
}

proof fn lemma_replace_low(s: u128, lo: u64)
    ensures
        (((s & HIGH_HALF) | (lo as u128)) >> 64) as u64 == (s >> 64) as u64,
        ((s & HIGH_HALF) | (lo as u128)) as u64 == lo,
{
    assert((((s & 0xffffffffffffffff0000000000000000u128) | (lo as u128)) >> 64) as u64 == (s
        >> 64) as u64) by (bit_vector);
    assert(((s & 0xffffffffffffffff0000000000000000u128) | (lo as u128)) as u64 == lo)
        by (bit_vector);
}

proof fn lemma_join_seed(seed: u64)
    ensures
        (join_halves(seed, INITIAL_STATE) >> 64) as u64 == seed,
        join_halves(seed, INITIAL_STATE) as u64 == INITIAL_STATE,
{
    assert(((((seed as u128) << 64) | (0u64 as u128)) >> 64) as u64 == seed) by (bit_vector);
    assert((((seed as u128) << 64) | (0u64 as u128)) as u64 == 0) by (bit_vector);
}

/// `n` steps add `n` to the counter, modulo 2^64, and keep the seed.
pub proof fn lemma_steps_count(v: (u64, u64), n: nat)
    ensures
        steps::<StreamNLARXu128>(v, n) == (v.0, ((v.1 + n) % 0x1_0000_0000_0000_0000) as u64),
    decreases n,
{
    if n > 0 {
        lemma_steps_count(v, (n - 1) as nat);
        let m: int = 0x1_0000_0000_0000_0000;
        vstd::arithmetic::div_mod::lemma_add_mod_noop(v.1 + n - 1, 1, m);
        vstd::arithmetic::div_mod::lemma_mod_bound(v.1 + n - 1, m);
    }
}

impl RNG for StreamNLARXu128 {
    fn new(seed: u64) -> (r: Self) {
        proof {
            lemma_join_seed(seed);
        }
        StreamNLARXu128 { state: ((seed as u128) << 64) | (INITIAL_STATE as u128) }
    }

    fn advance(&mut self, delta: usize) {
        let lo: u64 = (self.state as u64).wrapping_add(delta as u64);
        proof {
            lemma_replace_low(self.state, lo);
            lemma_steps_count(self@, delta as nat);
        }
        self.state = (self.state & HIGH_HALF) | (lo as u128);
    }

    fn next(&mut self) -> (r: u64) {
        self.advance(1);
        proof {
            lemma_steps_count(old(self)@, 1);
            lemma_halves(self.state);
        }
        mix_u128(self.state) as u64
    }

    fn next_u32(&mut self) -> (r: u32) {
        self.advance(1);
        proof {
            lemma_steps_count(old(self)@, 1);
            lemma_halves(self.state);
        }
        mix_u128(self.state) as u32
    }

    fn reseed(&mut self, seed: u64) {
        proof {
            lemma_join_seed(seed);
        }
        self.state = ((seed as u128) << 64) | (INITIAL_STATE as u128);
    }
}

/// The state after `seek(counter)`: the seed kept, the counter set.
pub open spec fn seek_state(v: (u64, u64), counter: u64) -> (u64, u64) {
    (v.0, counter)
}

impl StreamNLARXu128 {
    /// Set the counter, the position in the output stream.
    pub fn seek(&mut self, counter: u64)
        ensures
            final(self)@ == seek_state(old(self)@, counter),
    {
        proof {
            lemma_replace_low(self.state, counter);
        }
        self.state = (self.state & HIGH_HALF) | (counter as u128);
    }
}

/// After `seek(c)` on a generator with `seed`, `next` returns what the
/// (c+1)-th call of `next` returns on a generator newly constructed with
/// `seed`, and what `next` returns there after `advance(c)`.
pub proof fn lemma_seek_matches_stream(v: (u64, u64), seed: u64, c: u64)
    requires
        v.0 == seed,
    ensures
        StreamNLARXu128::output(seek_state(v, c)) == stream::<StreamNLARXu128>(
            StreamNLARXu128::seeded(seed),
            c as nat + 1,
        )[c as int],
        StreamNLARXu128::output(seek_state(v, c)) == StreamNLARXu128::output(
            steps::<StreamNLARXu128>(StreamNLARXu128::seeded(seed), c as nat),
        ),
{
    lemma_steps_count(StreamNLARXu128::seeded(seed), c as nat);
}

} // verus!
