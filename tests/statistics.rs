use pearlacid::rngs::lcg::Mmix;
use pearlacid::rngs::testgens::{
    AlternatingBits, AlternatingBlocks, AlternatingBytes, OnlyOne, OnlyZero,
};
use pearlacid::rngs::RNG;
use pearlacid::stats::{
    block_deviation_sum, byte_counts, count_excess_ones, count_runs, longest_run_bins,
    matrix_rank_bins, spacing_exponent, zero_spacing_bins,
};

const SAMPLE: [u64; 4] = [
    0x0123456789abcdef,
    0xfedcba9876543210,
    0xffffffff00000000,
    0x8000000000000001,
];

fn buffer<R: RNG>(mut rng: R, n: usize) -> Vec<u64> {
    (0..n).map(|_| rng.next()).collect()
}

#[test]
fn excess_ones_of_sample() {
    assert_eq!(count_excess_ones(&SAMPLE), -30);
    assert_eq!(count_excess_ones(&[]), 0);
}

#[test]
fn monobit_statistic_of_degenerate_generators() {
    assert_eq!(count_excess_ones(&buffer(OnlyOne::new(0), 512)), 32 * 512);
    assert_eq!(count_excess_ones(&buffer(OnlyZero::new(0), 512)), -32 * 512);
    assert_eq!(count_excess_ones(&buffer(AlternatingBits::new(0), 512)), 0);
    assert_eq!(count_excess_ones(&buffer(AlternatingBytes::new(0), 512)), 0);
    assert_eq!(count_excess_ones(&buffer(AlternatingBlocks::new(0), 512)), 0);
    assert_eq!(count_excess_ones(&buffer(AlternatingBlocks::new(0), 513)), 32);
}

#[test]
fn block_deviation_of_degenerate_generators() {
    assert_eq!(block_deviation_sum(&buffer(OnlyOne::new(0), 512)), 1024 * 512);
    assert_eq!(block_deviation_sum(&buffer(OnlyZero::new(0), 512)), 1024 * 512);
    assert_eq!(block_deviation_sum(&SAMPLE), 900);
    assert_eq!(block_deviation_sum(&[]), 0);
}

#[test]
fn runs_of_sample() {
    assert_eq!(count_runs(&SAMPLE), 67);
    assert_eq!(count_runs(&[]), 0);
    assert_eq!(count_runs(&[0, 0, 0]), 0);
    assert_eq!(count_runs(&[u64::MAX, u64::MAX]), 0);
}

#[test]
fn byte_counts_of_sample() {
    let counts = byte_counts(&SAMPLE);
    assert_eq!(counts.len(), 256);
    assert_eq!(counts[0x00], 10);
    assert_eq!(counts[0xff], 4);
    assert_eq!(counts[0x01], 2);
    assert_eq!(counts[0x80], 1);
    assert_eq!(counts[0xef], 1);
    assert_eq!(counts.iter().sum::<u64>(), 32);
}

#[test]
fn longest_run_classes() {
    let mut data = vec![0u64; 128 * 3 + 5];
    data[0] = (1 << 13) - 1;
    data[128] = 1 << 63;
    data[129] = (1 << 20) - 1;
    data[256] = 0b1011;
    let bins = longest_run_bins(&data);
    assert_eq!(bins, [1, 0, 0, 1, 0, 1]);
    assert_eq!(longest_run_bins(&data[..127]), [0; 6]);
}

#[test]
fn longest_run_spans_word_boundaries() {
    let mut data = vec![0u64; 128];
    data[10] = 0xff00_0000_0000_0000;
    data[11] = 0x0000_0000_0000_003f;
    assert_eq!(longest_run_bins(&data), [0, 0, 0, 0, 1, 0]);
}

#[test]
fn matrix_rank_classes() {
    let mut data = vec![0u64; 16 * 3 + 3];
    for i in 0..16 {
        data[i] = (1u64 << (63 - 2 * i)) | (1u64 << (30 - 2 * i));
        data[16 + i] = data[i];
    }
    data[16] = 1u64 << 63;
    let bins = matrix_rank_bins(&data);
    assert_eq!(bins, [1, 1, 1]);
    assert_eq!(matrix_rank_bins(&data[..15]), [0, 0, 0]);
}

#[test]
fn zero_spacing_of_small_buffer() {
    let bins = zero_spacing_bins(&[2, 1, 1, 4, 3, 3, 3, 3, 6], 1);
    assert_eq!(bins[0], 1);
    assert_eq!(bins[64], 1);
    assert_eq!(bins[128], 1);
    assert_eq!(bins.iter().sum::<u64>(), 3);
    let far = zero_spacing_bins(&[1, 1, 1, 1, 1, 1, 1, 1, 1, 0], 1);
    assert_eq!(far[255], 1);
}

#[test]
fn spacing_exponent_values() {
    assert_eq!(spacing_exponent(0), 1);
    assert_eq!(spacing_exponent(512), 1);
    assert_eq!(spacing_exponent(16384 * 2), 1);
    assert_eq!(spacing_exponent(16384 * 3), 2);
    assert_eq!(spacing_exponent(1 << 22), 8);
}

#[test]
fn statistics_of_pseudorandom_buffer_are_moderate() {
    let data = buffer(Mmix::new(11), 4096);
    let excess = count_excess_ones(&data);
    assert!(excess.abs() < 2000);
    let counts = byte_counts(&data);
    assert!(counts.iter().all(|&c| c > 64 && c < 192));
}
