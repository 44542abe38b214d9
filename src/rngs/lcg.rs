//! Linear congruential generators.

use vstd::prelude::*;
use vstd::wrapping::{u32_specs, u64_specs, u128_specs};
use crate::rngs::{RNG, StreamModel, steps};

verus! {

/// RANDU, an early LCG that fails the spectral test badly. Its natural output
/// is 31 bits wide: `next_u32` combines two of its steps, `next` three.
#[derive(Debug, Copy, Clone)]
pub struct Randu {
    state: u32,
}

/// One RANDU step.
pub open spec fn randu_step(s: u32) -> u32 {
    u32_specs::wrapping_mul(s, 65539) & 0x7fffffff
}

impl View for Randu {
    type V = u32;

    closed spec fn view(&self) -> u32 {
        self.state
    }
}

impl StreamModel for Randu {
    open spec fn seeded(seed: u64) -> u32 {
        seed as u32
    }

    open spec fn step(v: u32) -> u32 {
        randu_step(randu_step(randu_step(v)))
    }

    open spec fn output(v: u32) -> u64 {
        let a = randu_step(v) as u64;
        let b = randu_step(randu_step(v)) as u64;
        let c = randu_step(randu_step(randu_step(v))) as u64;
        (a << 42) | ((b & 0x3fffff) << 20) | (c & 0xfffff)
    }

    open spec fn step_u32(v: u32) -> u32 {
        randu_step(randu_step(v))
    }

    open spec fn output_u32(v: u32) -> u32 {
        (randu_step(v) << 15) | (randu_step(randu_step(v)) & 0xffff)
    }
}

impl RNG for Randu {
    fn new(seed: u64) -> (r: Self) {
        Randu { state: seed as u32 }
    }

    fn next_u32(&mut self) -> (r: u32) {
        let a: u32 = self.next_small();
        let b: u32 = self.next_small();
        (a << 15) | (b & 0xffff)
    }

    fn next(&mut self) -> (r: u64) {
        let a: u64 = self.next_small() as u64;
        let b: u64 = self.next_small() as u64;
        let c: u64 = self.next_small() as u64;
        (a << 42) | ((b & 0x3fffff) << 20) | (c & 0xfffff)
    }

    fn advance(&mut self, delta: usize) {
        let mut i: usize = 0;
        while i < delta
            invariant
                i <= delta,
                self@ == steps::<Self>(old(self)@, i as nat),
            decreases delta - i,
        {
            let _ = self.next();
            i += 1;
        }
    }

    fn reseed(&mut self, seed: u64) {
        self.state = seed as u32;
    }
}

impl Randu {
    /// One step in the natural 31-bit output space, 0 to 2^31 - 1.
    fn next_small(&mut self) -> (r: u32)
        ensures
            r == randu_step(old(self)@),
            final(self)@ == r,
            r < 0x80000000,
    {
        let m = self.state.wrapping_mul(65539);
        assert(m & 0x7fffffff <= 0x7fffffff) by (bit_vector);
        self.state = m & 0x7fffffff;
        self.state
    }
}

/// Knuth's MMIX linear congruential generator.
#[derive(Debug, Copy, Clone)]
pub struct Mmix {
    state: u64,
}

/// One MMIX step.
pub open spec fn mmix_step(s: u64) -> u64 {
    u64_specs::wrapping_add(u64_specs::wrapping_mul(s, 0x5851f42d4c957f2d), 0x14057b7ef767814f)
}

impl View for Mmix {
    type V = u64;

    closed spec fn view(&self) -> u64 {
        self.state
    }
}

impl StreamModel for Mmix {
    open spec fn seeded(seed: u64) -> u64 {
        seed
    }

    open spec fn step(v: u64) -> u64 {
        mmix_step(v)
    }

    open spec fn output(v: u64) -> u64 {
        mmix_step(v)
    }

    open spec fn step_u32(v: u64) -> u64 {
        mmix_step(v)
    }

    open spec fn output_u32(v: u64) -> u32 {
        mmix_step(v) as u32
    }
}

impl RNG for Mmix {
    fn new(seed: u64) -> (r: Self) {
        Mmix { state: seed }
    }

    fn next_u32(&mut self) -> (r: u32) {
        self.next() as u32
    }

    fn next(&mut self) -> (r: u64) {
        self.state = self.state.wrapping_mul(0x5851f42d4c957f2d);
        self.state = self.state.wrapping_add(0x14057b7ef767814f);
        self.state
    }

    fn advance(&mut self, delta: usize) {
        let mut i: usize = 0;
        while i < delta
            invariant
                i <= delta,
                self@ == steps::<Self>(old(self)@, i as nat),
            decreases delta - i,
        {
            let _ = self.next();
            i += 1;
        }
    }

    fn reseed(&mut self, seed: u64) {
        self.state = seed;
    }
}

/// Lehmer's multiplicative generator on a 128-bit state; the output is the
/// high half of the state.
#[derive(Debug, Copy, Clone)]
pub struct Lehmer64 {
    state: u128,
}

/// One Lehmer64 step.
pub open spec fn lehmer_step(s: u128) -> u128 {
    u128_specs::wrapping_mul(s, 0xda942042e4dd58b5)
}

/// The state that a seed gives: the seed in both halves.
pub open spec fn doubled_seed(seed: u64) -> u128 {
    ((seed as u128) << 64) | (seed as u128)
}

impl View for Lehmer64 {
    type V = u128;

    closed spec fn view(&self) -> u128 {
        self.state
    }
}

impl StreamModel for Lehmer64 {
    open spec fn seeded(seed: u64) -> u128 {
        doubled_seed(seed)
    }

    open spec fn step(v: u128) -> u128 {
        lehmer_step(v)
    }

    open spec fn output(v: u128) -> u64 {
        (lehmer_step(v) >> 64) as u64
    }

    open spec fn step_u32(v: u128) -> u128 {
        lehmer_step(v)
    }

    open spec fn output_u32(v: u128) -> u32 {
        ((lehmer_step(v) >> 64) as u64) as u32
    }
}

impl RNG for Lehmer64 {
    fn new(seed: u64) -> (r: Self) {
        Lehmer64 { state: ((seed as u128) << 64) | (seed as u128) }
    }

    fn next_u32(&mut self) -> (r: u32) {
        self.next() as u32
    }

    fn next(&mut self) -> (r: u64) {
        self.state = self.state.wrapping_mul(0xda942042e4dd58b5);
        (self.state >> 64) as u64
    }

    fn advance(&mut self, delta: usize) {
        let mut i: usize = 0;
        while i < delta
            invariant
                i <= delta,
                self@ == steps::<Self>(old(self)@, i as nat),
            decreases delta - i,
        {
            let _ = self.next();
            i += 1;
        }
    }

    fn reseed(&mut self, seed: u64) {
        self.state = ((seed as u128) << 64) | (seed as u128);
    }
}

/// One step of a 128-bit LCG lane with multiplier `m` and increment `c`.
pub open spec fn lcg_lane(s: u128, m: u128, c: u128) -> u128 {
    u128_specs::wrapping_add(u128_specs::wrapping_mul(s, m), c)
}

/// The four lanes that a seed gives: the seed and its complement, in halves.
pub open spec fn four_lane_seed(seed: u64) -> Seq<u128> {
    seq![
        (((!seed) as u128) << 64) | ((!seed) as u128),
        ((seed as u128) << 64) | (seed as u128),
        ((seed as u128) << 64) | ((!seed) as u128),
        (((!seed) as u128) << 64) | (seed as u128),
    ]
}

fn four_lane_state(seed: u64) -> (r: [u128; 4])
    ensures
        r@ == four_lane_seed(seed),
{
    let r = [
        (((!seed) as u128) << 64) | ((!seed) as u128),
        ((seed as u128) << 64) | (seed as u128),
        ((seed as u128) << 64) | ((!seed) as u128),
        (((!seed) as u128) << 64) | (seed as u128),
    ];
    assert(r@ =~= four_lane_seed(seed));
    r
}

/// Four parallel 128-bit LCGs; the output is the XOR of their high halves.
#[derive(Debug, Copy, Clone)]
pub struct UlsLcg512 {
    state: [u128; 4],
}

/// One step of the four lanes of `UlsLcg512`.
pub open spec fn ulslcg512_step(s: Seq<u128>) -> Seq<u128> {
    seq![
        lcg_lane(s[0], 0x59ca1b2888a0a80fc054cd25b1fde311, 0xa53a3854d740d22b4802f2e6ea01e350),
        lcg_lane(s[1], 0xade47f9859546ba094573e7c2194a93c, 0xc77a0728309148b95143795d657a29f2),
        lcg_lane(s[2], 0x85fec39e4833d57dd07f903f191ecfd3, 0x77421f2a59df2305739f337afcad9edb),
        lcg_lane(s[3], 0xcdf30907584f7e1551c0667353108b63, 0x935fec88eaba8c39e94503587c22ce99),
    ]
}

/// What `UlsLcg512` outputs from the lanes `s` after a step.
pub open spec fn ulslcg512_out(s: Seq<u128>) -> u64 {
    ((s[0] >> 64) as u64) ^ ((s[1] >> 64) as u64) ^ ((s[2] >> 64) as u64) ^ ((s[3] >> 64) as u64)
}

impl View for UlsLcg512 {
    type V = Seq<u128>;

    closed spec fn view(&self) -> Seq<u128> {
        self.state@
    }
}

impl StreamModel for UlsLcg512 {
    open spec fn seeded(seed: u64) -> Seq<u128> {
        four_lane_seed(seed)
    }

    open spec fn step(v: Seq<u128>) -> Seq<u128> {
        ulslcg512_step(v)
    }

    open spec fn output(v: Seq<u128>) -> u64 {
        ulslcg512_out(ulslcg512_step(v))
    }

    open spec fn step_u32(v: Seq<u128>) -> Seq<u128> {
        ulslcg512_step(v)
    }

    open spec fn output_u32(v: Seq<u128>) -> u32 {
        ulslcg512_out(ulslcg512_step(v)) as u32
    }
}

impl RNG for UlsLcg512 {
    fn new(seed: u64) -> (r: Self) {
        let r = UlsLcg512 { state: four_lane_state(seed) };
        assert(r@ =~= four_lane_seed(seed));
        r
    }

    fn next_u32(&mut self) -> (r: u32) {
        self.next() as u32
    }

    fn next(&mut self) -> (r: u64) {
        let ghost before = self@;
        self.state[0] = self.state[0].wrapping_mul(0x59ca1b2888a0a80fc054cd25b1fde311);
        self.state[0] = self.state[0].wrapping_add(0xa53a3854d740d22b4802f2e6ea01e350);
        self.state[1] = self.state[1].wrapping_mul(0xade47f9859546ba094573e7c2194a93c);
        self.state[1] = self.state[1].wrapping_add(0xc77a0728309148b95143795d657a29f2);
        self.state[2] = self.state[2].wrapping_mul(0x85fec39e4833d57dd07f903f191ecfd3);
        self.state[2] = self.state[2].wrapping_add(0x77421f2a59df2305739f337afcad9edb);
        self.state[3] = self.state[3].wrapping_mul(0xcdf30907584f7e1551c0667353108b63);
        self.state[3] = self.state[3].wrapping_add(0x935fec88eaba8c39e94503587c22ce99);
        assert(self@ =~= ulslcg512_step(before));
        ((self.state[0] >> 64) as u64) ^ ((self.state[1] >> 64) as u64) ^ ((self.state[2] >> 64) as u64)
            ^ ((self.state[3] >> 64) as u64)
    }

    fn advance(&mut self, delta: usize) {
        let mut i: usize = 0;
        while i < delta
            invariant
                i <= delta,
                self@ == steps::<Self>(old(self)@, i as nat),
            decreases delta - i,
        {
            let _ = self.next();
            i += 1;
        }
    }

    fn reseed(&mut self, seed: u64) {
        self.state = four_lane_state(seed);
        assert(self@ =~= four_lane_seed(seed));
    }
}

/// Four parallel 128-bit LCGs; the output is the high half of the sum of the
/// four states.
#[derive(Debug, Copy, Clone)]
pub struct UlsLcg512H {
    state: [u128; 4],
}

/// One step of the four lanes of `UlsLcg512H`.
pub open spec fn ulslcg512h_step(s: Seq<u128>) -> Seq<u128> {
    seq![
        lcg_lane(s[0], 0xe7513927bf96492135e503ed7f5b837e, 0x126b06c2bfe2dac7725ee66c0e1efe69),
        lcg_lane(s[1], 0x6420fafa38bd7d81fc02e8cbfac57698, 0xd2a884d8ed65a425999f67abfa901eba),
        lcg_lane(s[2], 0x3072f956f9d4a9531efd7c4bd3f684f5, 0x2f18c679c54a581aef3f88efa973d2c9),
        lcg_lane(s[3], 0xa7b5b12dc766a03cfdbaf54bacac8382, 0xb12c82d5df1c4e33fd207ba107b9c620),
    ]
}

/// What `UlsLcg512H` outputs from the lanes `s` after a step.
pub open spec fn ulslcg512h_out(s: Seq<u128>) -> u64 {
    (u128_specs::wrapping_add(
        s[0],
        u128_specs::wrapping_add(s[1], u128_specs::wrapping_add(s[2], s[3])),
    ) >> 64) as u64
}

impl View for UlsLcg512H {
    type V = Seq<u128>;

    closed spec fn view(&self) -> Seq<u128> {
        self.state@
    }
}

impl StreamModel for UlsLcg512H {
    open spec fn seeded(seed: u64) -> Seq<u128> {
        four_lane_seed(seed)
    }

    open spec fn step(v: Seq<u128>) -> Seq<u128> {
        ulslcg512h_step(v)
    }

    open spec fn output(v: Seq<u128>) -> u64 {
        ulslcg512h_out(ulslcg512h_step(v))
    }

    open spec fn step_u32(v: Seq<u128>) -> Seq<u128> {
        ulslcg512h_step(v)
    }

    open spec fn output_u32(v: Seq<u128>) -> u32 {
        ulslcg512h_out(ulslcg512h_step(v)) as u32
    }
}

impl RNG for UlsLcg512H {
    fn new(seed: u64) -> (r: Self) {
        let r = UlsLcg512H { state: four_lane_state(seed) };
        assert(r@ =~= four_lane_seed(seed));
        r
    }

    fn next_u32(&mut self) -> (r: u32) {
        self.next() as u32
    }

    fn next(&mut self) -> (r: u64) {
        let ghost before = self@;
        self.state[0] = self.state[0].wrapping_mul(0xe7513927bf96492135e503ed7f5b837e);
        self.state[0] = self.state[0].wrapping_add(0x126b06c2bfe2dac7725ee66c0e1efe69);
        self.state[1] = self.state[1].wrapping_mul(0x6420fafa38bd7d81fc02e8cbfac57698);
        self.state[1] = self.state[1].wrapping_add(0xd2a884d8ed65a425999f67abfa901eba);
        self.state[2] = self.state[2].wrapping_mul(0x3072f956f9d4a9531efd7c4bd3f684f5);
        self.state[2] = self.state[2].wrapping_add(0x2f18c679c54a581aef3f88efa973d2c9);
        self.state[3] = self.state[3].wrapping_mul(0xa7b5b12dc766a03cfdbaf54bacac8382);
        self.state[3] = self.state[3].wrapping_add(0xb12c82d5df1c4e33fd207ba107b9c620);
        assert(self@ =~= ulslcg512h_step(before));
        (self.state[0].wrapping_add(
            self.state[1].wrapping_add(self.state[2].wrapping_add(self.state[3])),
        ) >> 64) as u64
    }

    fn advance(&mut self, delta: usize) {
        let mut i: usize = 0;
        while i < delta
            invariant
                i <= delta,
                self@ == steps::<Self>(old(self)@, i as nat),
            decreases delta - i,
        {
            let _ = self.next();
            i += 1;
        }
    }

    fn reseed(&mut self, seed: u64) {
        self.state = four_lane_state(seed);
        assert(self@ =~= four_lane_seed(seed));
    }
}

} // verus!
