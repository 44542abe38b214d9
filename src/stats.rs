//! The integer statistics that the seven tests of the battery are computed
//! from. Each takes the buffer of 64-bit words; turning a statistic into a
//! p-value is left to the caller.

use vstd::prelude::*;
use vstd::arithmetic::power2::pow2;
use crate::utils::{ceil_log2, fast_log2, gf2_rank, is_ceil_log2, rank_binary_matrix};

verus! {

/// Number of one bits of `x`.
pub open spec fn popcount(x: u64) -> nat
    decreases x,
{
    if x == 0 {
        0
    } else {
        (x % 2) as nat + popcount(x / 2)
    }
}

/// The number of one bits of `x`.
fn count_ones(x: u64) -> (r: u32)
    ensures
        r as nat == popcount(x),
{
    proof {
        lemma_popcount_bound(x);
    }
    let mut y: u64 = x;
    let mut c: u32 = 0;
    while y != 0
        invariant
            c as nat + popcount(y) == popcount(x),
            popcount(x) <= 64,
        decreases y,
    {
        assert(y & 1 == y % 2) by (bit_vector);
        assert(y >> 1 == y / 2) by (bit_vector);
        c = c + (y & 1) as u32;
        y = y >> 1;
    }
    c
}

proof fn lemma_popcount_bound(x: u64)
    ensures
        popcount(x) <= 64,
{
    vstd::arithmetic::power2::lemma2_to64_rest();
    lemma_popcount_le_bits(x, 64);
}

proof fn lemma_popcount_le_bits(x: u64, n: nat)
    requires
        x < vstd::arithmetic::power2::pow2(n),
    ensures
        popcount(x) <= n,
    decreases n,
{
    if x > 0 {
        if n == 0 {
            vstd::arithmetic::power2::lemma2_to64();
        } else {
            vstd::arithmetic::power2::lemma_pow2_unfold(n);
            lemma_popcount_le_bits(x / 2, (n - 1) as nat);
        }
    }
}

/// Ones minus zeros, halved: the sum over the words of `popcount - 32`.
pub open spec fn excess_ones(s: Seq<u64>) -> int
    decreases s.len(),
{
    if s.len() == 0 {
        0
    } else {
        excess_ones(s.drop_last()) + popcount(s.last()) - 32
    }
}

/// How many more one bits than half the bits the buffer holds; negative
/// where zeros are in excess.
pub fn count_excess_ones(test_data: &[u64]) -> (r: i128)
    ensures
        r == excess_ones(test_data@),
{
    let mut difference: i128 = 0;
    let mut i: usize = 0;
    while i < test_data.len()
        invariant
            i <= test_data@.len(),
            difference == excess_ones(test_data@.take(i as int)),
            -32 * i <= difference <= 32 * i,
        decreases test_data@.len() - i,
    {
        let c = count_ones(test_data[i]);
        proof {
            lemma_popcount_bound(test_data@[i as int]);
            assert(test_data@.take(i + 1).drop_last() =~= test_data@.take(i as int));
        }
        difference = difference + c as i128 - 32;
        i += 1;
    }
    assert(test_data@.take(i as int) =~= test_data@);
    difference
}

/// The sum over the words of `(popcount - 32)^2`.
pub open spec fn squared_deviations(s: Seq<u64>) -> int
    decreases s.len(),
{
    if s.len() == 0 {
        0
    } else {
        let d = popcount(s.last()) - 32;
        squared_deviations(s.drop_last()) + d * d
    }
}

/// Sum over the words of the squared distance of their count of ones from 32:
/// sixteen times the chi-squared statistic of the per-word bit frequency test.
pub fn block_deviation_sum(test_data: &[u64]) -> (r: u128)
    ensures
        r == squared_deviations(test_data@),
{
    let mut sum: u128 = 0;
    let mut i: usize = 0;
    while i < test_data.len()
        invariant
            i <= test_data@.len(),
            sum == squared_deviations(test_data@.take(i as int)),
            sum <= 1024 * i,
        decreases test_data@.len() - i,
    {
        let c = count_ones(test_data[i]);
        proof {
            lemma_popcount_bound(test_data@[i as int]);
            assert(test_data@.take(i + 1).drop_last() =~= test_data@.take(i as int));
        }
        let d: i64 = c as i64 - 32;
        assert(d * d <= 1024) by (nonlinear_arith)
            requires
                -32 <= d <= 32,
        ;
        assert(d * d >= 0) by (nonlinear_arith);
        sum = sum + (d * d) as u128;
        i += 1;
    }
    assert(test_data@.take(i as int) =~= test_data@);
    sum
}

/// The most significant bit of `w`.
pub open spec fn msb(w: u64) -> u64 {
    w >> 63
}

/// What word `w` adds to the run count, the previous word having ended in
/// bit `prev_msb`: the transitions between its adjacent bits, one more where
/// its bit 0 differs from `prev_msb`, and one less where its own top bit is set.
pub open spec fn word_runs(w: u64, prev_msb: u64) -> int {
    popcount(w ^ (w >> 1)) + (if w & 1 != prev_msb {
        1int
    } else {
        0int
    }) - (if msb(w) != 0 {
        1int
    } else {
        0int
    })
}

/// The run count of the runs test; the first word is compared with its own
/// top bit.
pub open spec fn runs_count(s: Seq<u64>) -> int
    decreases s.len(),
{
    if s.len() == 0 {
        0
    } else {
        let prev = if s.len() == 1 {
            msb(s[0])
        } else {
            msb(s[s.len() - 2])
        };
        runs_count(s.drop_last()) + word_runs(s.last(), prev)
    }
}

/// The number of runs that the runs test counts in the buffer.
pub fn count_runs(test_data: &[u64]) -> (r: i128)
    ensures
        r == runs_count(test_data@),
{
    if test_data.len() == 0 {
        return 0;
    }
    let mut runs: i128 = 0;
    let mut last_bit: u64 = test_data[0] >> 63;
    let mut i: usize = 0;
    while i < test_data.len()
        invariant
            0 < test_data@.len(),
            i <= test_data@.len(),
            runs == runs_count(test_data@.take(i as int)),
            -(i as int) <= runs <= 65 * i,
            last_bit == if i == 0 {
                msb(test_data@[0])
            } else {
                msb(test_data@[i - 1])
            },
        decreases test_data@.len() - i,
    {
        let sample = test_data[i];
        let transitions = count_ones(sample ^ (sample >> 1));
        proof {
            lemma_popcount_bound(sample ^ (sample >> 1));
            assert(test_data@.take(i + 1).drop_last() =~= test_data@.take(i as int));
        }
        runs = runs + transitions as i128;
        if sample & 1 != last_bit {
            runs = runs + 1;
        }
        last_bit = sample >> 63;
        if last_bit != 0 {
            runs = runs - 1;
        }
        i += 1;
    }
    assert(test_data@.take(i as int) =~= test_data@);
    runs
}

/// Byte `j` of `w`, byte 0 being the least significant.
pub open spec fn byte_of(w: u64, j: nat) -> u64 {
    (w >> ((8 * j) as u64)) & 0xff
}

/// How many of the `n` lowest bytes of `w` equal `v`.
pub open spec fn word_byte_count(w: u64, v: int, n: nat) -> nat
    decreases n,
{
    if n == 0 {
        0
    } else {
        word_byte_count(w, v, (n - 1) as nat) + if byte_of(w, (n - 1) as nat) == v {
            1nat
        } else {
            0nat
        }
    }
}

/// How many bytes of the buffer equal `v`.
pub open spec fn byte_count(s: Seq<u64>, v: int) -> nat
    decreases s.len(),
{
    if s.len() == 0 {
        0
    } else {
        byte_count(s.drop_last(), v) + word_byte_count(s.last(), v, 8)
    }
}

proof fn lemma_word_byte_count_bound(w: u64, v: int, n: nat)
    ensures
        word_byte_count(w, v, n) <= n,
    decreases n,
{
    if n > 0 {
        lemma_word_byte_count_bound(w, v, (n - 1) as nat);
    }
}

/// The occurrences of each of the 256 byte values in the buffer.
pub fn byte_counts(test_data: &[u64]) -> (r: Vec<u64>)
    requires
        test_data@.len() < 0x2000_0000_0000_0000,
    ensures
        r@.len() == 256,
        forall|v: int| 0 <= v < 256 ==> #[trigger] r@[v] == byte_count(test_data@, v),
{
    let mut counts: Vec<u64> = Vec::new();
    while counts.len() < 256
        invariant
            counts@.len() <= 256,
            forall|v: int| 0 <= v < counts@.len() ==> #[trigger] counts@[v] == 0,
        decreases 256 - counts@.len(),
    {
        counts.push(0);
    }
    let mut i: usize = 0;
    while i < test_data.len()
        invariant
            i <= test_data@.len(),
            test_data@.len() < 0x2000_0000_0000_0000,
            counts@.len() == 256,
            forall|v: int|
                0 <= v < 256 ==> #[trigger] counts@[v] == byte_count(test_data@.take(i as int), v),
            forall|v: int| 0 <= v < 256 ==> #[trigger] counts@[v] <= 8 * i,
        decreases test_data@.len() - i,
    {
        let w = test_data[i];
        let mut j: u64 = 0;
        while j < 8
            invariant
                j <= 8,
                i < test_data@.len(),
                test_data@.len() < 0x2000_0000_0000_0000,
                w == test_data@[i as int],
                counts@.len() == 256,
                forall|v: int|
                    0 <= v < 256 ==> #[trigger] counts@[v] == byte_count(
                        test_data@.take(i as int),
                        v,
                    ) + word_byte_count(w, v, j as nat),
                forall|v: int| 0 <= v < 256 ==> #[trigger] counts@[v] <= 8 * i + j,
            decreases 8 - j,
        {
            let b = (w >> (8 * j)) & 0xff;
            assert((w >> (8 * j)) & 0xff < 256) by (bit_vector);
            let bi = b as usize;
            counts.set(bi, counts[bi] + 1);
            j += 1;
        }
        proof {
            assert(test_data@.take(i + 1).drop_last() =~= test_data@.take(i as int));
        }
        i += 1;
    }
    assert(test_data@.take(i as int) =~= test_data@);
    counts
}

/// The 32x32 matrix made of the 16 words of chunk `c`: row `2i` is the high
/// half of word `i`, row `2i + 1` its low half.
pub open spec fn chunk_matrix(s: Seq<u64>, c: int) -> Seq<u32> {
    Seq::new(
        32,
        |r: int|
            if r % 2 == 0 {
                (s[16 * c + r / 2] >> 32) as u32
            } else {
                s[16 * c + r / 2] as u32
            },
    )
}

/// The class of a rank: 0 for full rank, 1 for one less, 2 for any lower rank.
pub open spec fn rank_class(rank: int) -> int {
    if rank == 32 {
        0
    } else if rank == 31 {
        1
    } else {
        2
    }
}

/// How many of the first `n` chunks have a matrix of rank class `k`.
pub open spec fn rank_class_count(s: Seq<u64>, n: int, k: int) -> nat
    decreases n,
{
    if n <= 0 {
        0
    } else {
        rank_class_count(s, n - 1, k) + if rank_class(gf2_rank(chunk_matrix(s, n - 1))) == k {
            1nat
        } else {
            0nat
        }
    }
}

/// The ranks of the 32x32 matrices that the buffer's whole 16-word chunks
/// form, counted by class: full rank, one less, lower. A remainder shorter
/// than a chunk is left out.
pub fn matrix_rank_bins(test_data: &[u64]) -> (r: [u64; 3])
    ensures
        forall|k: int|
            0 <= k < 3 ==> #[trigger] r@[k] == rank_class_count(
                test_data@,
                (test_data@.len() / 16) as int,
                k,
            ),
{
    let mut bins: [u64; 3] = [0; 3];
    let len = test_data.len();
    let n = len / 16;
    let mut c: usize = 0;
    while c < n
        invariant
            c <= n,
            len == test_data@.len(),
            n == test_data@.len() / 16,
            forall|k: int| 0 <= k < 3 ==> #[trigger] bins@[k] == rank_class_count(test_data@, c as int, k),
            forall|k: int| 0 <= k < 3 ==> #[trigger] bins@[k] <= c,
        decreases n - c,
    {
        let mut matrix: [u32; 32] = [0; 32];
        let mut i: usize = 0;
        assert(16 * c + 16 <= len);
        let base: usize = 16 * c;
        while i < 16
            invariant
                i <= 16,
                c < n,
                16 * c + 16 <= test_data@.len(),
                base == 16 * c,
                n == test_data@.len() / 16,
                forall|r: int| 0 <= r < 2 * i ==> #[trigger] matrix@[r] == chunk_matrix(test_data@, c as int)[r],
            decreases 16 - i,
        {
            let block = test_data[base + i];
            matrix[2 * i] = (block >> 32) as u32;
            matrix[2 * i + 1] = block as u32;
            i += 1;
        }
        assert(matrix@ =~= chunk_matrix(test_data@, c as int));
        let rank = rank_binary_matrix(matrix);
        if rank == 32 {
            bins[0] = bins[0] + 1;
        } else if rank == 31 {
            bins[1] = bins[1] + 1;
        } else {
            bins[2] = bins[2] + 1;
        }
        c += 1;
    }
    bins
}

/// Bit `i` of the stream that the words `s` form, bit 0 of each word first.
pub open spec fn stream_bit(s: Seq<u64>, i: int) -> bool {
    (s[i / 64] >> ((i % 64) as u64)) & 1 == 1
}

/// Length of the run of ones that ends just before bit `n` of the stream.
pub open spec fn run_ending(s: Seq<u64>, n: int) -> nat
    decreases n,
{
    if n <= 0 {
        0
    } else if stream_bit(s, n - 1) {
        run_ending(s, n - 1) + 1
    } else {
        0
    }
}

/// Length of the longest run of ones among the first `n` bits of the stream.
pub open spec fn longest_run(s: Seq<u64>, n: int) -> nat
    decreases n,
{
    if n <= 0 {
        0
    } else {
        let l = longest_run(s, n - 1);
        let e = run_ending(s, n);
        if e > l {
            e
        } else {
            l
        }
    }
}

/// The class of a longest run: 0 for up to 10, then one class each for 11
/// to 14, and 5 for 15 or more.
pub open spec fn run_class(l: int) -> int {
    if l <= 10 {
        0
    } else if l >= 15 {
        5
    } else {
        l - 10
    }
}

/// The 128 words of block `b`.
pub open spec fn run_block(s: Seq<u64>, b: int) -> Seq<u64> {
    s.subrange(128 * b, 128 * b + 128)
}

/// How many of the first `n` blocks have their longest run in class `k`.
pub open spec fn run_class_count(s: Seq<u64>, n: int, k: int) -> nat
    decreases n,
{
    if n <= 0 {
        0
    } else {
        run_class_count(s, n - 1, k) + if run_class(longest_run(run_block(s, n - 1), 8192) as int) == k {
            1nat
        } else {
            0nat
        }
    }
}

proof fn lemma_bit_position(j: int, t: int)
    requires
        0 <= j,
        0 <= t < 64,
    ensures
        (64 * j + t) / 64 == j,
        (64 * j + t) % 64 == t,
{
    vstd::arithmetic::div_mod::lemma_fundamental_div_mod_converse(64 * j + t, 64, j, t);
}

/// The longest runs of ones in the buffer's whole 128-word (8192-bit) blocks,
/// counted by class: up to 10, 11, 12, 13, 14, 15 or more. A remainder
/// shorter than a block is left out.
pub fn longest_run_bins(test_data: &[u64]) -> (r: [u64; 6])
    ensures
        forall|k: int|
            0 <= k < 6 ==> #[trigger] r@[k] == run_class_count(
                test_data@,
                (test_data@.len() / 128) as int,
                k,
            ),
{
    let mut bins: [u64; 6] = [0; 6];
    let len = test_data.len();
    let n = len / 128;
    let mut b: usize = 0;
    while b < n
        invariant
            b <= n,
            len == test_data@.len(),
            n == test_data@.len() / 128,
            forall|k: int| 0 <= k < 6 ==> #[trigger] bins@[k] == run_class_count(test_data@, b as int, k),
            forall|k: int| 0 <= k < 6 ==> #[trigger] bins@[k] <= b,
        decreases n - b,
    {
        assert(128 * b + 128 <= len);
        let base: usize = 128 * b;
        let ghost blk = run_block(test_data@, b as int);
        let mut run: u64 = 0;
        let mut longest: u64 = 0;
        let mut j: usize = 0;
        while j < 128
            invariant
                j <= 128,
                base == 128 * b,
                128 * b + 128 <= test_data@.len(),
                blk == run_block(test_data@, b as int),
                run as int == run_ending(blk, 64 * j),
                longest as int == longest_run(blk, 64 * j),
                run <= 64 * j,
                longest <= 64 * j,
            decreases 128 - j,
        {
            let w = test_data[base + j];
            assert(w == blk[j as int]);
            let mut t: u64 = 0;
            while t < 64
                invariant
                    t <= 64,
                    j < 128,
                    w == blk[j as int],
                    blk.len() == 128,
                    run as int == run_ending(blk, 64 * j + t),
                    longest as int == longest_run(blk, 64 * j + t),
                    run <= 64 * j + t,
                    longest <= 64 * j + t,
                decreases 64 - t,
            {
                proof {
                    lemma_bit_position(j as int, t as int);
                }
                if (w >> t) & 1 == 1 {
                    run = run + 1;
                    if run > longest {
                        longest = run;
                    }
                } else {
                    run = 0;
                }
                t += 1;
            }
            j += 1;
        }
        if longest <= 10 {
            bins[0] = bins[0] + 1;
        } else if longest >= 15 {
            bins[5] = bins[5] + 1;
        } else {
            let k = (longest - 10) as usize;
            bins[k] = bins[k] + 1;
        }
        b += 1;
    }
    bins
}

/// Number of words the spacing test expects between hits, as a power of two.
pub const EXPECTED_SAMPLE_COUNT: u64 = 16384;

/// The exponent `k` of the spacing test for a buffer of `sample_count` words:
/// `ceil(log2(sample_count / 16384))`, and at least 1.
pub fn spacing_exponent(sample_count: usize) -> (r: u32)
    ensures
        r as nat == if ceil_log2((sample_count / 16384) as nat) < 1 {
            1
        } else {
            ceil_log2((sample_count / 16384) as nat)
        },
        1 <= r <= 51,
{
    let x: u64 = sample_count as u64 / EXPECTED_SAMPLE_COUNT;
    let l = fast_log2(x);
    proof {
        if l > 51 {
            vstd::arithmetic::power2::lemma_pow2_strictly_increases(50, (l - 1) as nat);
            vstd::arithmetic::power2::lemma2_to64_rest();
        }
    }
    if l < 1 {
        1
    } else {
        l
    }
}

/// The mask of the `k` low bits.
pub open spec fn low_mask(k: u32) -> u64 {
    u64::MAX >> ((64 - k) as u32)
}

/// A hit of the spacing test: a word whose `k` low bits are zero.
pub open spec fn is_hit(w: u64, k: u32) -> bool {
    w & low_mask(k) == 0
}

/// The words that are no hits since the last hit before word `n`.
pub open spec fn gap_before(s: Seq<u64>, k: u32, n: int) -> nat
    decreases n,
{
    if n <= 0 {
        0
    } else if is_hit(s[n - 1], k) {
        0
    } else {
        gap_before(s, k, n - 1) + 1
    }
}

/// The bin of a gap: 256 bins of width `4 * 2^k / 256`, the last one open-ended.
pub open spec fn gap_bin(gap: nat, k: u32) -> int {
    let q = (gap * 256) / pow2((k + 2) as nat);
    if q > 255 {
        255
    } else {
        q as int
    }
}

/// How many hits among the first `n` words follow a gap in bin `b`.
pub open spec fn gap_bin_count(s: Seq<u64>, k: u32, n: int, b: int) -> nat
    decreases n,
{
    if n <= 0 {
        0
    } else {
        gap_bin_count(s, k, n - 1, b) + if is_hit(s[n - 1], k) && gap_bin(
            gap_before(s, k, n - 1),
            k,
        ) == b {
            1nat
        } else {
            0nat
        }
    }
}

/// The gaps between words whose `zero_count` low bits are all zero, binned
/// into 256 bins of width `4 * 2^zero_count / 256`; the last bin takes all
/// longer gaps.
pub fn zero_spacing_bins(test_data: &[u64], zero_count: u32) -> (r: [u64; 256])
    requires
        1 <= zero_count <= 51,
    ensures
        forall|b: int|
            0 <= b < 256 ==> #[trigger] r@[b] == gap_bin_count(
                test_data@,
                zero_count,
                test_data@.len() as int,
                b,
            ),
{
    let mut bins: [u64; 256] = [0; 256];
    let mask: u64 = u64::MAX >> (64 - zero_count);
    let denom: u64 = 1u64 << (zero_count + 2);
    proof {
        vstd::arithmetic::power2::lemma_pow2_strictly_increases((zero_count + 2) as nat, 64);
        vstd::arithmetic::power2::lemma2_to64_rest();
        vstd::bits::lemma_u64_shl_is_mul(1, (zero_count + 2) as u64);
        vstd::arithmetic::power2::lemma_pow2_pos((zero_count + 2) as nat);
    }
    let mut current_distance: u64 = 0;
    let mut i: usize = 0;
    while i < test_data.len()
        invariant
            i <= test_data@.len(),
            1 <= zero_count <= 51,
            mask == low_mask(zero_count),
            denom as nat == pow2((zero_count + 2) as nat),
            denom > 0,
            current_distance == gap_before(test_data@, zero_count, i as int),
            current_distance <= i,
            forall|b: int|
                0 <= b < 256 ==> #[trigger] bins@[b] == gap_bin_count(
                    test_data@,
                    zero_count,
                    i as int,
                    b,
                ),
            forall|b: int| 0 <= b < 256 ==> #[trigger] bins@[b] <= i,
        decreases test_data@.len() - i,
    {
        let sample = test_data[i];
        if sample & mask == 0 {
            let q: u128 = (current_distance as u128 * 256) / (denom as u128);
            let bin_index: usize = if q > 255 {
                255
            } else {
                q as usize
            };
            bins[bin_index] = bins[bin_index] + 1;
            current_distance = 0;
        } else {
            current_distance = current_distance + 1;
        }
        i += 1;
    }
    bins
}

} // verus!
