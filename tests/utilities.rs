use pearlacid::utils::{fast_log2, format_byte_count, format_elapsed_time, xor_in_place};
use std::time::Duration;

#[test]
fn fast_log2_small_values() {
    assert_eq!(fast_log2(0), 0);
    assert_eq!(fast_log2(1), 0);
    assert_eq!(fast_log2(2), 1);
    assert_eq!(fast_log2(3), 2);
    assert_eq!(fast_log2(u64::MAX), 64);
}

#[test]
fn fast_log2_powers_of_two() {
    for k in 1..64u32 {
        assert_eq!(fast_log2(1u64 << k), k);
        assert_eq!(fast_log2((1u64 << k) + 1), k + 1);
    }
}

#[test]
fn format_byte_count_boundaries() {
    assert_eq!(format_byte_count(1023), "1023.00 B");
    assert_eq!(format_byte_count(1024), "1.00 KiB");
    assert_eq!(format_byte_count(1048576), "1.00 MiB");
    assert_eq!(format_byte_count(1073741824), "1.00 GiB");
}

#[test]
fn format_byte_count_fractions() {
    assert_eq!(format_byte_count(0), "0.00 B");
    assert_eq!(format_byte_count(1536), "1.50 KiB");
    assert_eq!(format_byte_count(33554432), "32.00 MiB");
    assert_eq!(format_byte_count(1048575), "1024.00 KiB");
    assert_eq!(format_byte_count(5 * 1073741824 + 1073741824 / 4), "5.25 GiB");
}

#[test]
fn format_elapsed_time_units() {
    assert_eq!(format_elapsed_time(Duration::from_millis(1500)), "1.5      s ");
    assert_eq!(format_elapsed_time(Duration::from_nanos(500)), "500      ns");
    assert_eq!(format_elapsed_time(Duration::from_micros(2)), "2        \u{b5}s");
    assert_eq!(format_elapsed_time(Duration::from_nanos(12_345_678)), "12.3456  ms");
    assert_eq!(format_elapsed_time(Duration::from_secs(3)), "3        s ");
}

#[test]
fn xor_in_place_pairs_words() {
    let mut a = vec![0xffu64, 0x0f, 0x1234];
    let b = vec![0x0fu64, 0x0f];
    xor_in_place(&mut a, &b);
    assert_eq!(a, vec![0xf0, 0x00, 0x1234]);
}
