use pearlacid::utils::{rank_binary_matrix, rank_binary_matrix_nist};

struct TestMatrix {
    matrix: [u32; 32],
    rank: usize,
}

fn identity() -> [u32; 32] {
    let mut m = [0u32; 32];
    for (i, row) in m.iter_mut().enumerate() {
        *row = 1 << (31 - i);
    }
    m
}

fn test_matrices() -> Vec<TestMatrix> {
    let mut table = Vec::new();
    table.push(TestMatrix { matrix: identity(), rank: 32 });
    table.push(TestMatrix { matrix: [0; 32], rank: 0 });
    let mut dup = identity();
    dup[31] = dup[0];
    table.push(TestMatrix { matrix: dup, rank: 31 });
    table.push(TestMatrix { matrix: [u32::MAX; 32], rank: 1 });
    let mut upper = [0u32; 32];
    for (i, row) in upper.iter_mut().enumerate() {
        *row = u32::MAX >> i;
    }
    table.push(TestMatrix { matrix: upper, rank: 32 });
    let mut sixteen = [0u32; 32];
    for (i, row) in sixteen.iter_mut().enumerate() {
        *row = 1 << (i % 16);
    }
    table.push(TestMatrix { matrix: sixteen, rank: 16 });
    let mut thirty = identity();
    thirty[30] = 0;
    thirty[31] = 0;
    table.push(TestMatrix { matrix: thirty, rank: 30 });
    let mut cyclic = [0u32; 32];
    for (i, row) in cyclic.iter_mut().enumerate() {
        *row = (1 << i) | (1 << ((i + 1) % 32));
    }
    table.push(TestMatrix { matrix: cyclic, rank: 31 });
    let mut anti = [0u32; 32];
    for (i, row) in anti.iter_mut().enumerate() {
        *row = 1 << i;
    }
    table.push(TestMatrix { matrix: anti, rank: 32 });
    let mut alternating = [0u32; 32];
    for (i, row) in alternating.iter_mut().enumerate() {
        *row = if i % 2 == 0 { 0xaaaa_aaaa } else { 0x5555_5555 };
    }
    table.push(TestMatrix { matrix: alternating, rank: 2 });
    let mut lower = [0u32; 32];
    for (i, row) in lower.iter_mut().enumerate() {
        *row = u32::MAX << i;
    }
    table.push(TestMatrix { matrix: lower, rank: 32 });
    let mut sums = identity();
    sums[5] = sums[1] ^ sums[2] ^ sums[3];
    sums[9] = sums[7] ^ sums[8];
    table.push(TestMatrix { matrix: sums, rank: 30 });
    table
}

#[test]
fn binary_matrix_rank_test_nist() {
    for (i, test_matrix) in test_matrices().iter().enumerate() {
        println!("Matrix: {}", i);
        assert_eq!(rank_binary_matrix_nist(test_matrix.matrix), test_matrix.rank);
    }
}

#[test]
fn binary_matrix_rank_test() {
    for (i, test_matrix) in test_matrices().iter().enumerate() {
        println!("Matrix: {}", i);
        assert_eq!(rank_binary_matrix(test_matrix.matrix), test_matrix.rank);
    }
}

#[test]
fn rank_of_identity_is_full() {
    assert_eq!(rank_binary_matrix(identity()), 32);
    assert_eq!(rank_binary_matrix_nist(identity()), 32);
}

#[test]
fn rank_of_zero_matrix_is_zero() {
    assert_eq!(rank_binary_matrix([0; 32]), 0);
    assert_eq!(rank_binary_matrix_nist([0; 32]), 0);
}

#[test]
fn rank_with_two_identical_rows_is_below_full() {
    let mut m = identity();
    m[10] = m[20];
    assert!(rank_binary_matrix(m) <= 31);
    assert!(rank_binary_matrix_nist(m) <= 31);
}

#[test]
fn rank_implementations_agree_on_pseudorandom_matrices() {
    let mut x: u64 = 0x9e37_79b9_7f4a_7c15;
    for _ in 0..200 {
        let mut m = [0u32; 32];
        for row in m.iter_mut() {
            x ^= x << 13;
            x ^= x >> 7;
            x ^= x << 17;
            *row = (x >> 16) as u32;
        }
        assert_eq!(rank_binary_matrix(m), rank_binary_matrix_nist(m));
    }
}
