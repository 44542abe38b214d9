//! Degenerate generators that anchor the extreme cases of the tests.

use vstd::prelude::*;
use crate::rngs::{RNG, StreamModel, steps, stream};
use crate::stats::{excess_ones, popcount, squared_deviations};

verus! {

/// Always all ones.
#[derive(Debug, Copy, Clone)]
pub struct OnlyOne {}

impl View for OnlyOne {
    type V = ();

    open spec fn view(&self) -> () {
        ()
    }
}

impl StreamModel for OnlyOne {
    open spec fn seeded(seed: u64) -> () {
        ()
    }

    open spec fn step(v: ()) -> () {
        ()
    }

    open spec fn output(v: ()) -> u64 {
        0xffff_ffff_ffff_ffff
    }

    open spec fn step_u32(v: ()) -> () {
        ()
    }

    open spec fn output_u32(v: ()) -> u32 {
        0xffff_ffff
    }
}

impl RNG for OnlyOne {
    fn new(_seed: u64) -> (r: Self) {
        OnlyOne {}
    }

    fn next_u32(&mut self) -> (r: u32) {
        0xffff_ffff
    }

    fn next(&mut self) -> (r: u64) {
        0xffff_ffff_ffff_ffff
    }

    fn advance(&mut self, _delta: usize) {
    }

    fn reseed(&mut self, _seed: u64) {
    }
}

/// Always zero.
#[derive(Debug, Copy, Clone)]
pub struct OnlyZero {}

impl View for OnlyZero {
    type V = ();

    open spec fn view(&self) -> () {
        ()
    }
}

impl StreamModel for OnlyZero {
    open spec fn seeded(seed: u64) -> () {
        ()
    }

    open spec fn step(v: ()) -> () {
        ()
    }

    open spec fn output(v: ()) -> u64 {
        0
    }

    open spec fn step_u32(v: ()) -> () {
        ()
    }

    open spec fn output_u32(v: ()) -> u32 {
        0
    }
}

impl RNG for OnlyZero {
    fn new(_seed: u64) -> (r: Self) {
        OnlyZero {}
    }

    fn next_u32(&mut self) -> (r: u32) {
        0
    }

    fn next(&mut self) -> (r: u64) {
        0
    }

    fn advance(&mut self, _delta: usize) {
    }

    fn reseed(&mut self, _seed: u64) {
    }
}

/// Alternates between all zeros and all ones, starting with all ones.
#[derive(Debug, Copy, Clone)]
pub struct AlternatingBlocks {
    state: u64,
}

impl View for AlternatingBlocks {
    type V = u64;

    closed spec fn view(&self) -> u64 {
        self.state
    }
}

impl StreamModel for AlternatingBlocks {
    open spec fn seeded(seed: u64) -> u64 {
        0
    }

    open spec fn step(v: u64) -> u64 {
        !v
    }

    open spec fn output(v: u64) -> u64 {
        !v
    }

    open spec fn step_u32(v: u64) -> u64 {
        !v
    }

    open spec fn output_u32(v: u64) -> u32 {
        (!v) as u32
    }
}

/// `delta` complements of `v` leave it as it is when `delta` is even.
proof fn lemma_alternating_steps(v: u64, delta: nat)
    ensures
        steps::<AlternatingBlocks>(v, delta) == if delta % 2 == 0 {
            v
        } else {
            !v
        },
    decreases delta,
{
    if delta > 0 {
        lemma_alternating_steps(v, (delta - 1) as nat);
        assert(!(!v) == v) by (bit_vector);
    }
}

impl RNG for AlternatingBlocks {
    fn new(_seed: u64) -> (r: Self) {
        AlternatingBlocks { state: 0 }
    }

    fn next_u32(&mut self) -> (r: u32) {
        self.next() as u32
    }

    fn next(&mut self) -> (r: u64) {
        assert(steps::<Self>(self@, 0) == self@);
        self.advance(1);
        self.state
    }

    fn advance(&mut self, delta: usize) {
        proof {
            lemma_alternating_steps(self@, delta as nat);
        }
        if delta & 1 == 1 {
            self.state = !self.state;
        }
        assert(delta & 1 == 1 <==> delta % 2 == 1) by (bit_vector);
    }

    fn reseed(&mut self, _seed: u64) {
        self.state = 0;
    }
}

/// Always bytes of ones and zeros in turn, `0xff00ff00ff00ff00`.
#[derive(Debug, Copy, Clone)]
pub struct AlternatingBytes {}

impl View for AlternatingBytes {
    type V = ();

    open spec fn view(&self) -> () {
        ()
    }
}

impl StreamModel for AlternatingBytes {
    open spec fn seeded(seed: u64) -> () {
        ()
    }

    open spec fn step(v: ()) -> () {
        ()
    }

    open spec fn output(v: ()) -> u64 {
        0xff00_ff00_ff00_ff00
    }

    open spec fn step_u32(v: ()) -> () {
        ()
    }

    open spec fn output_u32(v: ()) -> u32 {
        0xff00_ff00
    }
}

impl RNG for AlternatingBytes {
    fn new(_seed: u64) -> (r: Self) {
        AlternatingBytes {}
    }

    fn next_u32(&mut self) -> (r: u32) {
        0xff00_ff00
    }

    fn next(&mut self) -> (r: u64) {
        0xff00_ff00_ff00_ff00
    }

    fn advance(&mut self, _delta: usize) {
    }

    fn reseed(&mut self, _seed: u64) {
    }
}

/// Always bits of ones and zeros in turn, `0xaaaaaaaaaaaaaaaa`.
#[derive(Debug, Copy, Clone)]
pub struct AlternatingBits {}

impl View for AlternatingBits {
    type V = ();

    open spec fn view(&self) -> () {
        ()
    }
}

impl StreamModel for AlternatingBits {
    open spec fn seeded(seed: u64) -> () {
        ()
    }

    open spec fn step(v: ()) -> () {
        ()
    }

    open spec fn output(v: ()) -> u64 {
        0xaaaa_aaaa_aaaa_aaaa
    }

    open spec fn step_u32(v: ()) -> () {
        ()
    }

    open spec fn output_u32(v: ()) -> u32 {
        0xaaaa_aaaa
    }
}

impl RNG for AlternatingBits {
    fn new(_seed: u64) -> (r: Self) {
        AlternatingBits {}
    }

    fn next_u32(&mut self) -> (r: u32) {
        0xaaaa_aaaa
    }

    fn next(&mut self) -> (r: u64) {
        0xaaaa_aaaa_aaaa_aaaa
    }

    fn advance(&mut self, _delta: usize) {
    }

    fn reseed(&mut self, _seed: u64) {
    }
}

/// The statistics of words that are all equal to `w`.
proof fn lemma_constant_stream<R: StreamModel>(v: R::V, w: u64, n: nat)
    requires
        forall|i: nat| #[trigger] R::output(steps::<R>(v, i)) == w,
    ensures
        excess_ones(stream::<R>(v, n)) == n * (popcount(w) - 32),
        squared_deviations(stream::<R>(v, n)) == n * ((popcount(w) - 32) * (popcount(w) - 32)),
    decreases n,
{
    if n > 0 {
        lemma_constant_stream::<R>(v, w, (n - 1) as nat);
        assert(stream::<R>(v, n).drop_last() =~= stream::<R>(v, (n - 1) as nat));
        assert(R::output(steps::<R>(v, (n - 1) as nat)) == w);
        let d = popcount(w) - 32;
        assert(n * d == (n - 1) * d + d) by (nonlinear_arith);
        assert(n * (d * d) == (n - 1) * (d * d) + d * d) by (nonlinear_arith);
    }
}

#[verifier::spinoff_prover]
proof fn lemma_popcount_all_ones()
    ensures
        popcount(0xffffffffffffffff) == 64,
{
    assert(popcount(0xffffffffffffffff) == 4 + popcount(0xfffffffffffffff)) by {
        reveal_with_fuel(popcount, 5);
    }
    assert(popcount(0xfffffffffffffff) == 4 + popcount(0xffffffffffffff)) by {
        reveal_with_fuel(popcount, 5);
    }
    assert(popcount(0xffffffffffffff) == 4 + popcount(0xfffffffffffff)) by {
        reveal_with_fuel(popcount, 5);
    }
    assert(popcount(0xfffffffffffff) == 4 + popcount(0xffffffffffff)) by {
        reveal_with_fuel(popcount, 5);
    }
    assert(popcount(0xffffffffffff) == 4 + popcount(0xfffffffffff)) by {
        reveal_with_fuel(popcount, 5);
    }
    assert(popcount(0xfffffffffff) == 4 + popcount(0xffffffffff)) by {
        reveal_with_fuel(popcount, 5);
    }
    assert(popcount(0xffffffffff) == 4 + popcount(0xfffffffff)) by {
        reveal_with_fuel(popcount, 5);
    }
    assert(popcount(0xfffffffff) == 4 + popcount(0xffffffff)) by {
        reveal_with_fuel(popcount, 5);
    }
    assert(popcount(0xffffffff) == 4 + popcount(0xfffffff)) by {
        reveal_with_fuel(popcount, 5);
    }
    assert(popcount(0xfffffff) == 4 + popcount(0xffffff)) by {
        reveal_with_fuel(popcount, 5);
    }
    assert(popcount(0xffffff) == 4 + popcount(0xfffff)) by {
        reveal_with_fuel(popcount, 5);
    }
    assert(popcount(0xfffff) == 4 + popcount(0xffff)) by {
        reveal_with_fuel(popcount, 5);
    }
    assert(popcount(0xffff) == 4 + popcount(0xfff)) by {
        reveal_with_fuel(popcount, 5);
    }
    assert(popcount(0xfff) == 4 + popcount(0xff)) by {
        reveal_with_fuel(popcount, 5);
    }
    assert(popcount(0xff) == 4 + popcount(0xf)) by {
        reveal_with_fuel(popcount, 5);
    }
    assert(popcount(0xf) == 4 + popcount(0x0)) by {
        reveal_with_fuel(popcount, 5);
    }
}

#[verifier::spinoff_prover]
proof fn lemma_popcount_alternating_bits()
    ensures
        popcount(0xaaaaaaaaaaaaaaaa) == 32,
{
    assert(popcount(0xaaaaaaaaaaaaaaaa) == 2 + popcount(0xaaaaaaaaaaaaaaa)) by {
        reveal_with_fuel(popcount, 5);
    }
    assert(popcount(0xaaaaaaaaaaaaaaa) == 2 + popcount(0xaaaaaaaaaaaaaa)) by {
        reveal_with_fuel(popcount, 5);
    }
    assert(popcount(0xaaaaaaaaaaaaaa) == 2 + popcount(0xaaaaaaaaaaaaa)) by {
        reveal_with_fuel(popcount, 5);
    }
    assert(popcount(0xaaaaaaaaaaaaa) == 2 + popcount(0xaaaaaaaaaaaa)) by {
        reveal_with_fuel(popcount, 5);
    }
    assert(popcount(0xaaaaaaaaaaaa) == 2 + popcount(0xaaaaaaaaaaa)) by {
        reveal_with_fuel(popcount, 5);
    }
    assert(popcount(0xaaaaaaaaaaa) == 2 + popcount(0xaaaaaaaaaa)) by {
        reveal_with_fuel(popcount, 5);
    }
    assert(popcount(0xaaaaaaaaaa) == 2 + popcount(0xaaaaaaaaa)) by {
        reveal_with_fuel(popcount, 5);
    }
    assert(popcount(0xaaaaaaaaa) == 2 + popcount(0xaaaaaaaa)) by {
        reveal_with_fuel(popcount, 5);
    }
    assert(popcount(0xaaaaaaaa) == 2 + popcount(0xaaaaaaa)) by {
        reveal_with_fuel(popcount, 5);
    }
    assert(popcount(0xaaaaaaa) == 2 + popcount(0xaaaaaa)) by {
        reveal_with_fuel(popcount, 5);
    }
    assert(popcount(0xaaaaaa) == 2 + popcount(0xaaaaa)) by {
        reveal_with_fuel(popcount, 5);
    }
    assert(popcount(0xaaaaa) == 2 + popcount(0xaaaa)) by {
        reveal_with_fuel(popcount, 5);
    }
    assert(popcount(0xaaaa) == 2 + popcount(0xaaa)) by {
        reveal_with_fuel(popcount, 5);
    }
    assert(popcount(0xaaa) == 2 + popcount(0xaa)) by {
        reveal_with_fuel(popcount, 5);
    }
    assert(popcount(0xaa) == 2 + popcount(0xa)) by {
        reveal_with_fuel(popcount, 5);
    }
    assert(popcount(0xa) == 2 + popcount(0x0)) by {
        reveal_with_fuel(popcount, 5);
    }
}

#[verifier::spinoff_prover]
proof fn lemma_popcount_alternating_bytes()
    ensures
        popcount(0xff00ff00ff00ff00) == 32,
{
    assert(popcount(0xff00ff00ff00ff00) == 0 + popcount(0xff00ff00ff00ff0)) by {
        reveal_with_fuel(popcount, 5);
    }
    assert(popcount(0xff00ff00ff00ff0) == 0 + popcount(0xff00ff00ff00ff)) by {
        reveal_with_fuel(popcount, 5);
    }
    assert(popcount(0xff00ff00ff00ff) == 4 + popcount(0xff00ff00ff00f)) by {
        reveal_with_fuel(popcount, 5);
    }
    assert(popcount(0xff00ff00ff00f) == 4 + popcount(0xff00ff00ff00)) by {
        reveal_with_fuel(popcount, 5);
    }
    assert(popcount(0xff00ff00ff00) == 0 + popcount(0xff00ff00ff0)) by {
        reveal_with_fuel(popcount, 5);
    }
    assert(popcount(0xff00ff00ff0) == 0 + popcount(0xff00ff00ff)) by {
        reveal_with_fuel(popcount, 5);
    }
    assert(popcount(0xff00ff00ff) == 4 + popcount(0xff00ff00f)) by {
        reveal_with_fuel(popcount, 5);
    }
    assert(popcount(0xff00ff00f) == 4 + popcount(0xff00ff00)) by {
        reveal_with_fuel(popcount, 5);
    }
    assert(popcount(0xff00ff00) == 0 + popcount(0xff00ff0)) by {
        reveal_with_fuel(popcount, 5);
    }
    assert(popcount(0xff00ff0) == 0 + popcount(0xff00ff)) by {
        reveal_with_fuel(popcount, 5);
    }
    assert(popcount(0xff00ff) == 4 + popcount(0xff00f)) by {
        reveal_with_fuel(popcount, 5);
    }
    assert(popcount(0xff00f) == 4 + popcount(0xff00)) by {
        reveal_with_fuel(popcount, 5);
    }
    assert(popcount(0xff00) == 0 + popcount(0xff0)) by {
        reveal_with_fuel(popcount, 5);
    }
    assert(popcount(0xff0) == 0 + popcount(0xff)) by {
        reveal_with_fuel(popcount, 5);
    }
    assert(popcount(0xff) == 4 + popcount(0xf)) by {
        reveal_with_fuel(popcount, 5);
    }
    assert(popcount(0xf) == 4 + popcount(0x0)) by {
        reveal_with_fuel(popcount, 5);
    }
}

proof fn lemma_popcount_values()
    ensures
        popcount(0) == 0,
        popcount(0xffffffffffffffff) == 64,
        popcount(0xaaaaaaaaaaaaaaaa) == 32,
        popcount(0xff00ff00ff00ff00) == 32,
{
    lemma_popcount_all_ones();
    lemma_popcount_alternating_bits();
    lemma_popcount_alternating_bytes();
}

/// Words that are all zeros, as `OnlyZero` gives them, hold 32 more zeros than
/// ones each, and each word's count of ones is 32 away from balance.
pub proof fn lemma_only_zero_statistics(v: (), n: nat)
    ensures
        excess_ones(stream::<OnlyZero>(v, n)) == -32 * n,
        squared_deviations(stream::<OnlyZero>(v, n)) == 1024 * n,
{
    lemma_popcount_values();
    lemma_constant_stream::<OnlyZero>(v, 0, n);
    assert(n * ((0 - 32) * (0 - 32)) == 1024 * n) by (nonlinear_arith);
}

/// Words that are all ones, as `OnlyOne` gives them, hold 32 more ones than
/// zeros each, and each word's count of ones is 32 away from balance.
pub proof fn lemma_only_one_statistics(v: (), n: nat)
    ensures
        excess_ones(stream::<OnlyOne>(v, n)) == 32 * n,
        squared_deviations(stream::<OnlyOne>(v, n)) == 1024 * n,
{
    lemma_popcount_values();
    lemma_constant_stream::<OnlyOne>(v, 0xffff_ffff_ffff_ffff, n);
    assert(n * ((64 - 32) * (64 - 32)) == 1024 * n) by (nonlinear_arith);
}

/// The words of `AlternatingBits` hold as many ones as zeros: the monobit
/// statistic is zero for any number of them.
pub proof fn lemma_alternating_bits_balanced(v: (), n: nat)
    ensures
        excess_ones(stream::<AlternatingBits>(v, n)) == 0,
{
    lemma_popcount_values();
    lemma_constant_stream::<AlternatingBits>(v, 0xaaaa_aaaa_aaaa_aaaa, n);
}

/// The words of `AlternatingBytes` hold as many ones as zeros: the monobit
/// statistic is zero for any number of them.
pub proof fn lemma_alternating_bytes_balanced(v: (), n: nat)
    ensures
        excess_ones(stream::<AlternatingBytes>(v, n)) == 0,
{
    lemma_popcount_values();
    lemma_constant_stream::<AlternatingBytes>(v, 0xff00_ff00_ff00_ff00, n);
}

/// An even number of words from a newly seeded `AlternatingBlocks`, all ones
/// and all zeros in turn, holds as many ones as zeros: the monobit statistic
/// is zero. (An odd number holds 32 more ones.)
pub proof fn lemma_alternating_blocks_balanced(seed: u64, m: nat)
    ensures
        excess_ones(stream::<AlternatingBlocks>(AlternatingBlocks::seeded(seed), 2 * m)) == 0,
        excess_ones(stream::<AlternatingBlocks>(AlternatingBlocks::seeded(seed), 2 * m + 1)) == 32,
    decreases m,
{
    lemma_popcount_values();
    let v = AlternatingBlocks::seeded(seed);
    assert(!0u64 == 0xffff_ffff_ffff_ffffu64) by (bit_vector);
    assert(!0xffff_ffff_ffff_ffffu64 == 0u64) by (bit_vector);
    lemma_alternating_steps(v, 2 * m);
    lemma_alternating_steps(v, 2 * m + 1);
    assert(stream::<AlternatingBlocks>(v, 2 * m + 1).drop_last() =~= stream::<AlternatingBlocks>(
        v,
        2 * m,
    ));
    if m > 0 {
        lemma_alternating_blocks_balanced(seed, (m - 1) as nat);
        assert(stream::<AlternatingBlocks>(v, 2 * m).drop_last() =~= stream::<AlternatingBlocks>(
            v,
            (2 * m - 1) as nat,
        ));
        lemma_alternating_steps(v, (2 * m - 1) as nat);
        assert((2 * (m - 1) + 1) as nat == (2 * m - 1) as nat);
    }
}

} // verus!
