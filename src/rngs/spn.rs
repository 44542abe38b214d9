//! A generator that encrypts a counter with rounds of the Rijndael (AES)
//! cipher, which allows seeking to any position of its output stream.

use vstd::prelude::*;
use vstd::wrapping::u128_specs;
use crate::rngs::{RNG, StreamModel, steps, stream};

verus! {

/// The Rijndael substitution box.
pub const SBOX: [u8; 256] = [
    0x63, 0x7c, 0x77, 0x7b, 0xf2, 0x6b, 0x6f, 0xc5,
    0x30, 0x01, 0x67, 0x2b, 0xfe, 0xd7, 0xab, 0x76,
    0xca, 0x82, 0xc9, 0x7d, 0xfa, 0x59, 0x47, 0xf0,
    0xad, 0xd4, 0xa2, 0xaf, 0x9c, 0xa4, 0x72, 0xc0,
    0xb7, 0xfd, 0x93, 0x26, 0x36, 0x3f, 0xf7, 0xcc,
    0x34, 0xa5, 0xe5, 0xf1, 0x71, 0xd8, 0x31, 0x15,
    0x04, 0xc7, 0x23, 0xc3, 0x18, 0x96, 0x05, 0x9a,
    0x07, 0x12, 0x80, 0xe2, 0xeb, 0x27, 0xb2, 0x75,
    0x09, 0x83, 0x2c, 0x1a, 0x1b, 0x6e, 0x5a, 0xa0,
    0x52, 0x3b, 0xd6, 0xb3, 0x29, 0xe3, 0x2f, 0x84,
    0x53, 0xd1, 0x00, 0xed, 0x20, 0xfc, 0xb1, 0x5b,
    0x6a, 0xcb, 0xbe, 0x39, 0x4a, 0x4c, 0x58, 0xcf,
    0xd0, 0xef, 0xaa, 0xfb, 0x43, 0x4d, 0x33, 0x85,
    0x45, 0xf9, 0x02, 0x7f, 0x50, 0x3c, 0x9f, 0xa8,
    0x51, 0xa3, 0x40, 0x8f, 0x92, 0x9d, 0x38, 0xf5,
    0xbc, 0xb6, 0xda, 0x21, 0x10, 0xff, 0xf3, 0xd2,
    0xcd, 0x0c, 0x13, 0xec, 0x5f, 0x97, 0x44, 0x17,
    0xc4, 0xa7, 0x7e, 0x3d, 0x64, 0x5d, 0x19, 0x73,
    0x60, 0x81, 0x4f, 0xdc, 0x22, 0x2a, 0x90, 0x88,
    0x46, 0xee, 0xb8, 0x14, 0xde, 0x5e, 0x0b, 0xdb,
    0xe0, 0x32, 0x3a, 0x0a, 0x49, 0x06, 0x24, 0x5c,
    0xc2, 0xd3, 0xac, 0x62, 0x91, 0x95, 0xe4, 0x79,
    0xe7, 0xc8, 0x37, 0x6d, 0x8d, 0xd5, 0x4e, 0xa9,
    0x6c, 0x56, 0xf4, 0xea, 0x65, 0x7a, 0xae, 0x08,
    0xba, 0x78, 0x25, 0x2e, 0x1c, 0xa6, 0xb4, 0xc6,
    0xe8, 0xdd, 0x74, 0x1f, 0x4b, 0xbd, 0x8b, 0x8a,
    0x70, 0x3e, 0xb5, 0x66, 0x48, 0x03, 0xf6, 0x0e,
    0x61, 0x35, 0x57, 0xb9, 0x86, 0xc1, 0x1d, 0x9e,
    0xe1, 0xf8, 0x98, 0x11, 0x69, 0xd9, 0x8e, 0x94,
    0x9b, 0x1e, 0x87, 0xe9, 0xce, 0x55, 0x28, 0xdf,
    0x8c, 0xa1, 0x89, 0x0d, 0xbf, 0xe6, 0x42, 0x68,
    0x41, 0x99, 0x2d, 0x0f, 0xb0, 0x54, 0xbb, 0x16,
];

/// `b` through the substitution box.
pub open spec fn sub_byte(b: u8) -> u8 {
    SBOX@[b as int]
}

/// ShiftRows: byte `r + 4c` (row `r`, column `c`) comes from row `r` of
/// column `c + r`, modulo 4.
pub open spec fn shift_rows(s: Seq<u8>) -> Seq<u8> {
    Seq::new(16, |i: int| s[i % 4 + 4 * ((i / 4 + i % 4) % 4)])
}

/// SubBytes: every byte through the substitution box.
pub open spec fn sub_bytes(s: Seq<u8>) -> Seq<u8> {
    Seq::new(16, |i: int| sub_byte(s[i]))
}

/// Multiplication by 2 in GF(2^8) modulo the Rijndael polynomial.
pub open spec fn xtime(a: u8) -> u8 {
    if a & 0x80 != 0 {
        (a << 1u8) ^ 0x1b
    } else {
        a << 1u8
    }
}

/// MixColumns: each byte is `2 a0 + 3 a1 + a2 + a3` over GF(2^8), `a_k` being
/// the byte `k` rows below it in its column, cyclically.
pub open spec fn mix_columns(s: Seq<u8>) -> Seq<u8> {
    Seq::new(
        16,
        |i: int|
            {
                let c = 4 * (i / 4);
                let r = i % 4;
                let a0 = s[c + r];
                let a1 = s[c + (r + 1) % 4];
                let a2 = s[c + (r + 2) % 4];
                let a3 = s[c + (r + 3) % 4];
                xtime(a0) ^ (xtime(a1) ^ a1) ^ a2 ^ a3
            },
    )
}

/// One encryption round: ShiftRows, SubBytes, MixColumns, then the round key
/// added (XOR).
pub open spec fn aes_round(s: Seq<u8>, key: Seq<u8>) -> Seq<u8> {
    let m = mix_columns(sub_bytes(shift_rows(s)));
    Seq::new(16, |i: int| m[i] ^ key[i])
}

/// `n` rounds with the same key.
pub open spec fn aes_rounds(s: Seq<u8>, key: Seq<u8>, n: nat) -> Seq<u8>
    decreases n,
{
    if n == 0 {
        s
    } else {
        aes_round(aes_rounds(s, key, (n - 1) as nat), key)
    }
}

fn times_two(a: u8) -> (r: u8)
    ensures
        r == xtime(a),
{
    if a & 0x80 != 0 {
        (a << 1u8) ^ 0x1b
    } else {
        a << 1u8
    }
}

/// One encryption round of the Rijndael cipher on a 16-byte block, as the
/// AES-NI `aesenc` instruction computes it.
pub fn aes_enc_round(block: [u8; 16], key: [u8; 16]) -> (r: [u8; 16])
    ensures
        r@ == aes_round(block@, key@),
{
    let mut t: [u8; 16] = [0; 16];
    let mut i: usize = 0;
    while i < 16
        invariant
            i <= 16,
            forall|j: int| 0 <= j < i ==> #[trigger] t@[j] == sub_bytes(shift_rows(block@))[j],
        decreases 16 - i,
    {
        let src = i % 4 + 4 * ((i / 4 + i % 4) % 4);
        t[i] = SBOX[block[src] as usize];
        i += 1;
    }
    assert(t@ =~= sub_bytes(shift_rows(block@)));
    let mut out: [u8; 16] = [0; 16];
    let mut i: usize = 0;
    while i < 16
        invariant
            i <= 16,
            t@ == sub_bytes(shift_rows(block@)),
            forall|j: int|
                0 <= j < i ==> #[trigger] out@[j] == aes_round(block@, key@)[j],
        decreases 16 - i,
    {
        let c = 4 * (i / 4);
        let r = i % 4;
        let a0 = t[c + r];
        let a1 = t[c + (r + 1) % 4];
        let a2 = t[c + (r + 2) % 4];
        let a3 = t[c + (r + 3) % 4];
        out[i] = times_two(a0) ^ (times_two(a1) ^ a1) ^ a2 ^ a3 ^ key[i];
        i += 1;
    }
    assert(out@ =~= aes_round(block@, key@));
    out
}

/// The 16 bytes of `x`, least significant first.
pub open spec fn le_bytes(x: u128) -> Seq<u8> {
    Seq::new(16, |i: int| (x >> ((8 * i) as u128)) as u8)
}

/// The key that a seed gives: the seed, then its complement, each little-endian.
pub open spec fn seed_key(seed: u64) -> Seq<u8> {
    Seq::new(
        16,
        |i: int|
            if i < 8 {
                (seed >> ((8 * i) as u64)) as u8
            } else {
                ((!seed) >> ((8 * (i - 8)) as u64)) as u8
            },
    )
}

/// The value of the `n` first bytes of `b`, little-endian.
pub open spec fn le_value(b: Seq<u8>, n: nat) -> u64
    decreases n,
{
    if n == 0 {
        0
    } else {
        le_value(b, (n - 1) as nat) | ((b[n - 1] as u64) << ((8 * (n - 1)) as u64))
    }
}

/// What the generator outputs for counter value `counter`: the low 64 bits
/// of the counter block after four rounds with the key.
pub open spec fn rijndael_output(key: Seq<u8>, counter: u128) -> u64 {
    le_value(aes_rounds(le_bytes(counter), key, 4), 8)
}

/// Encrypts a 128-bit counter with four Rijndael rounds under a key made of the
/// seed and its complement. Its view is the pair (key, counter).
pub struct RijndaelStream {
    counter: u128,
    key: [u8; 16],
}

fn key_bytes(seed: u64) -> (r: [u8; 16])
    ensures
        r@ == seed_key(seed),
{
    let mut key: [u8; 16] = [0; 16];
    let inverted: u64 = !seed;
    let mut i: usize = 0;
    while i < 8
        invariant
            i <= 8,
            inverted == !seed,
            forall|j: int| 0 <= j < i ==> #[trigger] key@[j] == seed_key(seed)[j],
            forall|j: int| 8 <= j < 8 + i ==> #[trigger] key@[j] == seed_key(seed)[j],
        decreases 8 - i,
    {
        key[i] = (seed >> (8 * i as u64)) as u8;
        key[8 + i] = (inverted >> (8 * i as u64)) as u8;
        i += 1;
    }
    assert(key@ =~= seed_key(seed));
    key
}

fn counter_bytes(x: u128) -> (r: [u8; 16])
    ensures
        r@ == le_bytes(x),
{
    let mut b: [u8; 16] = [0; 16];
    let mut i: usize = 0;
    while i < 16
        invariant
            i <= 16,
            forall|j: int| 0 <= j < i ==> #[trigger] b@[j] == le_bytes(x)[j],
        decreases 16 - i,
    {
        b[i] = (x >> (8 * i as u128)) as u8;
        i += 1;
    }
    assert(b@ =~= le_bytes(x));
    b
}

fn low_word(b: &[u8; 16]) -> (r: u64)
    ensures
        r == le_value(b@, 8),
{
    let mut r: u64 = 0;
    let mut i: usize = 0;
    while i < 8
        invariant
            i <= 8,
            r == le_value(b@, i as nat),
        decreases 8 - i,
    {
        r = r | ((b[i] as u64) << (8 * i as u64));
        i += 1;
    }
    r
}

impl View for RijndaelStream {
    type V = (Seq<u8>, u128);

    closed spec fn view(&self) -> (Seq<u8>, u128) {
        (self.key@, self.counter)
    }
}

impl StreamModel for RijndaelStream {
    open spec fn seeded(seed: u64) -> (Seq<u8>, u128) {
        (seed_key(seed), 0)
    }

    open spec fn step(v: (Seq<u8>, u128)) -> (Seq<u8>, u128) {
        (v.0, u128_specs::wrapping_add(v.1, 1))
    }

    open spec fn output(v: (Seq<u8>, u128)) -> u64 {
        rijndael_output(v.0, u128_specs::wrapping_add(v.1, 1))
    }

    open spec fn step_u32(v: (Seq<u8>, u128)) -> (Seq<u8>, u128) {
        (v.0, u128_specs::wrapping_add(v.1, 1))
    }

    open spec fn output_u32(v: (Seq<u8>, u128)) -> u32 {
        rijndael_output(v.0, u128_specs::wrapping_add(v.1, 1)) as u32
    }
}

/// `n` steps add `n` to the counter, modulo 2^128, and keep the key.
pub proof fn lemma_rijndael_steps(v: (Seq<u8>, u128), n: nat)
    ensures
        steps::<RijndaelStream>(v, n) == (
            v.0,
            ((v.1 + n) % (u128::MAX as int + 1)) as u128,
        ),
    decreases n,
{
    if n > 0 {
        lemma_rijndael_steps(v, (n - 1) as nat);
        let m: int = u128::MAX as int + 1;
        vstd::arithmetic::div_mod::lemma_add_mod_noop(v.1 + n - 1, 1, m);
        vstd::arithmetic::div_mod::lemma_mod_bound(v.1 + n - 1, m);
    }
}

impl RNG for RijndaelStream {
    fn new(seed: u64) -> (r: Self) {
        RijndaelStream { counter: 0, key: key_bytes(seed) }
    }

    fn next_u32(&mut self) -> (r: u32) {
        self.next() as u32
    }

    fn next(&mut self) -> (r: u64) {
        self.advance(1);
        proof {
            lemma_rijndael_steps(old(self)@, 1);
        }
        let mut block = counter_bytes(self.counter);
        let mut i: usize = 0;
        while i < 4
            invariant
                i <= 4,
                block@ == aes_rounds(le_bytes(self.counter), self.key@, i as nat),
            decreases 4 - i,
        {
            block = aes_enc_round(block, self.key);
            i += 1;
        }
        low_word(&block)
    }

    fn advance(&mut self, delta: usize) {
        proof {
            lemma_rijndael_steps(self@, delta as nat);
        }
        self.counter = self.counter.wrapping_add(delta as u128);
    }

    fn reseed(&mut self, seed: u64) {
        self.key = key_bytes(seed);
        self.counter = 0;
    }
}

impl RijndaelStream {
    /// Set the counter, the position in the output stream.
    pub fn seek(&mut self, counter: u64)
        ensures
            final(self)@ == (old(self)@.0, counter as u128),
    {
        self.counter = counter as u128;
    }
}

/// After `seek(c)`, `next` returns what the (c+1)-th call of `next` returns
/// on a generator newly constructed with the same seed.
pub proof fn lemma_rijndael_seek_matches_stream(seed: u64, c: u64)
    ensures
        RijndaelStream::output((seed_key(seed), c as u128)) == stream::<RijndaelStream>(
            RijndaelStream::seeded(seed),
            c as nat + 1,
        )[c as int],
{
    lemma_rijndael_steps(RijndaelStream::seeded(seed), c as nat);
}

} // verus!
