use pearlacid::conditioning::{accept_draw, rs_random_int};
use pearlacid::rngs::lcg::{Lehmer64, Mmix, Randu, UlsLcg512, UlsLcg512H};
use pearlacid::rngs::spn::{aes_enc_round, RijndaelStream};
use pearlacid::rngs::stream_nlarx::StreamNLARXu128;
use pearlacid::rngs::testgens::{
    AlternatingBits, AlternatingBlocks, AlternatingBytes, OnlyOne, OnlyZero,
};
use pearlacid::rngs::xorshift::XORShift128;
use pearlacid::rngs::{RefefenceRand, RNG};

fn take<R: RNG>(rng: &mut R, n: usize) -> Vec<u64> {
    (0..n).map(|_| rng.next()).collect()
}

fn reseed_matches_new<R: RNG>(seed: u64) {
    let mut used = R::new(seed ^ 0x5555);
    let _ = take(&mut used, 7);
    used.advance(3);
    let _ = used.next_u32();
    used.reseed(seed);
    let mut fresh = R::new(seed);
    assert_eq!(take(&mut used, 20), take(&mut fresh, 20));
}

#[test]
fn reseed_is_like_new_for_every_generator() {
    for seed in [0u64, 1, u64::MAX, 0x123456789abcdef0] {
        reseed_matches_new::<RefefenceRand>(seed);
        reseed_matches_new::<StreamNLARXu128>(seed);
        reseed_matches_new::<XORShift128>(seed);
        reseed_matches_new::<Randu>(seed);
        reseed_matches_new::<Mmix>(seed);
        reseed_matches_new::<UlsLcg512>(seed);
        reseed_matches_new::<UlsLcg512H>(seed);
        reseed_matches_new::<Lehmer64>(seed);
        reseed_matches_new::<RijndaelStream>(seed);
        reseed_matches_new::<OnlyOne>(seed);
        reseed_matches_new::<OnlyZero>(seed);
        reseed_matches_new::<AlternatingBlocks>(seed);
        reseed_matches_new::<AlternatingBytes>(seed);
        reseed_matches_new::<AlternatingBits>(seed);
    }
}

#[test]
fn xorshift128_golden_outputs() {
    let mut rng = XORShift128::new(0x123456789abcdef0);
    assert_eq!(
        take(&mut rng, 3),
        vec![0x2a8bdc4956bcccb6, 0xe68bd78f9abcdef0, 0xeea1307a5ec88864]
    );
}

#[test]
fn xorshift128_u32_halves_make_next() {
    let mut a = XORShift128::new(99);
    let mut b = XORShift128::new(99);
    let hi = a.next_u32() as u64;
    let lo = a.next_u32() as u64;
    assert_eq!((hi << 32) | lo, b.next());
}

#[test]
fn mmix_golden_outputs() {
    let mut rng = Mmix::new(1);
    assert_eq!(
        take(&mut rng, 3),
        vec![0x6c576fac43fd007c, 0x826886b3864a1b1b, 0xa5fae1992097aa0e]
    );
}

#[test]
fn lehmer64_golden_outputs() {
    let mut rng = Lehmer64::new(1);
    assert_eq!(
        take(&mut rng, 3),
        vec![0xda942042e4dd58b5, 0xb4d29f5fee7155ad, 0x9972824c0ed79bdd]
    );
}

#[test]
fn randu_golden_outputs() {
    let mut rng = Randu::new(1);
    assert_eq!(
        take(&mut rng, 3),
        vec![0x04000c60009b001b, 0xb00145500f3202d9, 0xbc222d819a194ce3]
    );
}

#[test]
fn uls_lcg512_golden_outputs() {
    let mut rng = UlsLcg512::new(3);
    assert_eq!(take(&mut rng, 2), vec![0x644c19580565db41, 0xcb4ad325d128e01b]);
    let mut rng = UlsLcg512H::new(3);
    assert_eq!(take(&mut rng, 2), vec![0x612fda047bd593c1, 0xcb76778418b2fc0e]);
}

#[test]
fn nlarx_golden_outputs() {
    let mut rng = StreamNLARXu128::new(7);
    assert_eq!(
        take(&mut rng, 3),
        vec![0xb33d9e7a5a8de7e7, 0x117381c03ccc557b, 0xff15d5ad5dcc4946]
    );
}

#[test]
fn nlarx_seek_matches_fresh_stream() {
    for c in [0u64, 1, 5, 100] {
        let mut fresh = StreamNLARXu128::new(42);
        let expected = take(&mut fresh, c as usize + 1)[c as usize];
        let mut sought = StreamNLARXu128::new(42);
        let _ = take(&mut sought, 3);
        sought.seek(c);
        assert_eq!(sought.next(), expected);
        let mut advanced = StreamNLARXu128::new(42);
        advanced.advance(c as usize);
        assert_eq!(advanced.next(), expected);
    }
}

#[test]
fn advance_skips_outputs() {
    let mut a = Mmix::new(5);
    let mut b = Mmix::new(5);
    let _ = take(&mut a, 9);
    b.advance(9);
    assert_eq!(a.next(), b.next());
    let mut a = XORShift128::new(5);
    let mut b = XORShift128::new(5);
    let _ = take(&mut a, 4);
    b.advance(4);
    assert_eq!(a.next(), b.next());
    let mut a = Randu::new(5);
    let mut b = Randu::new(5);
    let _ = take(&mut a, 4);
    b.advance(4);
    assert_eq!(a.next(), b.next());
}

#[test]
fn aes_round_matches_published_example() {
    let state = [
        0x19, 0x3d, 0xe3, 0xbe, 0xa0, 0xf4, 0xe2, 0x2b, 0x9a, 0xc6, 0x8d, 0x2a, 0xe9, 0xf8,
        0x48, 0x08,
    ];
    let key = [
        0xa0, 0xfa, 0xfe, 0x17, 0x88, 0x54, 0x2c, 0xb1, 0x23, 0xa3, 0x39, 0x39, 0x2a, 0x6c,
        0x76, 0x05,
    ];
    let expected = [
        0xa4, 0x9c, 0x7f, 0xf2, 0x68, 0x9f, 0x35, 0x2b, 0x6b, 0x5b, 0xea, 0x43, 0x02, 0x6a,
        0x50, 0x49,
    ];
    assert_eq!(aes_enc_round(state, key), expected);
}

#[test]
fn rijndael_golden_outputs() {
    let mut rng = RijndaelStream::new(0);
    assert_eq!(
        take(&mut rng, 3),
        vec![0xec7551da648fc2f9, 0x251cf66e8edff863, 0x308cf7da5a3db29f]
    );
    let mut rng = RijndaelStream::new(42);
    assert_eq!(take(&mut rng, 2), vec![0x0fdc371dc508a792, 0x9b623a101ddf59d9]);
}

#[test]
fn rijndael_seek_matches_fresh_stream() {
    let mut fresh = RijndaelStream::new(9);
    let expected = take(&mut fresh, 11)[10];
    let mut sought = RijndaelStream::new(9);
    sought.seek(10);
    assert_eq!(sought.next(), expected);
}

#[test]
fn degenerate_generators_outputs() {
    assert_eq!(take(&mut OnlyZero::new(0), 2), vec![0, 0]);
    assert_eq!(take(&mut OnlyOne::new(0), 2), vec![u64::MAX, u64::MAX]);
    assert_eq!(
        take(&mut AlternatingBytes::new(0), 2),
        vec![0xff00ff00ff00ff00, 0xff00ff00ff00ff00]
    );
    assert_eq!(
        take(&mut AlternatingBits::new(0), 2),
        vec![0xaaaaaaaaaaaaaaaa, 0xaaaaaaaaaaaaaaaa]
    );
    assert_eq!(take(&mut AlternatingBlocks::new(0), 3), vec![u64::MAX, 0, u64::MAX]);
}

#[test]
fn reference_generator_is_deterministic() {
    let mut a = RefefenceRand::new(17);
    let mut b = RefefenceRand::new(17);
    assert_eq!(take(&mut a, 5), take(&mut b, 5));
    let mut c = RefefenceRand::new(18);
    assert_ne!(take(&mut RefefenceRand::new(17), 5), take(&mut c, 5));
}

#[test]
fn random_int_stays_in_range() {
    let mut rng = Mmix::new(3);
    for _ in 0..1000 {
        let r = rs_random_int(&mut rng, 5, 17);
        assert!((5..17).contains(&r));
    }
    let mut seen = [false; 12];
    for _ in 0..1000 {
        seen[(rs_random_int(&mut rng, 5, 17) - 5) as usize] = true;
    }
    assert!(seen.iter().all(|&s| s));
    assert_eq!(rs_random_int(&mut rng, 4, 4), 4);
    assert_eq!(rs_random_int(&mut rng, 4, 5), 4);
    assert_eq!(rs_random_int(&mut rng, 9, 2), 9);
    let r = rs_random_int(&mut rng, 0, u64::MAX);
    assert!(r < u64::MAX);
}

#[test]
fn random_int_is_first_accepted_draw() {
    let mut draws = Mmix::new(8);
    let mut rng = Mmix::new(8);
    let r = rs_random_int(&mut rng, 100, 107);
    let expected = loop {
        if let Some(v) = accept_draw(draws.next(), 100, 107) {
            break v;
        }
    };
    assert_eq!(r, expected);
}

#[test]
fn accept_draw_masks_and_rejects() {
    // Range 12: the mask keeps four bits.
    assert_eq!(accept_draw(0x35, 10, 22), Some(15));
    assert_eq!(accept_draw(0xfb, 10, 22), Some(21));
    assert_eq!(accept_draw(0x3d, 10, 22), None);
    assert_eq!(accept_draw(0x0c, 10, 22), None);
    // Range 16: exactly four bits, nothing rejected.
    assert_eq!(accept_draw(0xff, 0, 16), Some(15));
    // One value: every draw gives it.
    assert_eq!(accept_draw(u64::MAX, 7, 8), Some(7));
    // Range 2^63 + 1: all 64 bits kept.
    assert_eq!(accept_draw(u64::MAX, 0, (1 << 63) + 1), None);
    assert_eq!(accept_draw(1 << 63, 0, (1 << 63) + 1), Some(1 << 63));
}

#[test]
fn reference_next_joins_two_words_low_first() {
    let mut words = RefefenceRand::new(5);
    let lo = words.next_u32() as u64;
    let hi = words.next_u32() as u64;
    let mut joined = RefefenceRand::new(5);
    assert_eq!(joined.next(), (hi << 32) | lo);
    assert_eq!(joined.next_u32(), words.next_u32());
}

#[test]
fn fill_buffer_holds_successive_outputs() {
    let mut filled = XORShift128::new(0x123456789abcdef0);
    let buffer = pearlacid::rngs::fill_buffer(&mut filled, 3);
    assert_eq!(buffer, vec![0x2a8bdc4956bcccb6, 0xe68bd78f9abcdef0, 0xeea1307a5ec88864]);
    let mut stepped = XORShift128::new(0x123456789abcdef0);
    stepped.advance(3);
    assert_eq!(filled.next(), stepped.next());
}
