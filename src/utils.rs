//! Bit and integer utilities.

use vstd::prelude::*;
use vstd::arithmetic::power2::{pow2, lemma_pow2_strictly_increases};
use vstd::bits::lemma_u64_shr_is_div;
use vstd::std_specs::bits::{u64_leading_zeros, axiom_u64_leading_zeros};
use vstd::string::StringExecFns;
use crate::text::{decimal, left_aligned, push_decimal, push_spaces, push_zero_padded, digit_count, zero_padded};

verus! {

/// Whether `r` is `ceil(log2(n))`: the least `r` with `n <= 2^r`.
pub open spec fn is_ceil_log2(n: nat, r: nat) -> bool {
    n <= pow2(r) && (r == 0 || pow2((r - 1) as nat) < n)
}

/// `ceil(log2(n))` for `n >= 1`, and 0 for 0.
pub open spec fn ceil_log2(n: nat) -> nat {
    if n == 0 {
        0
    } else {
        choose|r: nat| is_ceil_log2(n, r)
    }
}

proof fn lemma_ceil_log2_unique(n: nat, r1: nat, r2: nat)
    requires
        is_ceil_log2(n, r1),
        is_ceil_log2(n, r2),
    ensures
        r1 == r2,
{
    if r1 < r2 {
        if r1 < (r2 - 1) as nat {
            lemma_pow2_strictly_increases(r1, (r2 - 1) as nat);
        }
    } else if r2 < r1 {
        if r2 < (r1 - 1) as nat {
            lemma_pow2_strictly_increases(r2, (r1 - 1) as nat);
        }
    }
}

proof fn lemma_ceil_log2_is(n: nat, r: nat)
    requires
        n >= 1,
        is_ceil_log2(n, r),
    ensures
        ceil_log2(n) == r,
{
    let c = choose|x: nat| is_ceil_log2(n, x);
    lemma_ceil_log2_unique(n, c, r);
}

/// `ceil(log2(2^k)) == k` and `ceil(log2(2^k + 1)) == k + 1`.
pub proof fn lemma_ceil_log2_powers(k: nat)
    ensures
        ceil_log2(pow2(k)) == k,
        ceil_log2(pow2(k) + 1) == k + 1,
{
    vstd::arithmetic::power2::lemma_pow2_pos(k);
    vstd::arithmetic::power2::lemma_pow2_unfold(k + 1);
    if k > 0 {
        lemma_pow2_strictly_increases((k - 1) as nat, k);
    }
    lemma_ceil_log2_is(pow2(k), k);
    lemma_ceil_log2_is(pow2(k) + 1, k + 1);
}

/// Fast `ceil(log2(n))` of an integer, 0 for 0 and 1.
pub fn fast_log2(in_int: u64) -> (r: u32)
    ensures
        r as nat == ceil_log2(in_int as nat),
        in_int >= 1 ==> is_ceil_log2(in_int as nat, r as nat),
        r <= 64,
{
    if in_int == 0 {
        return 0;
    }
    let lz = (in_int - 1).leading_zeros();
    proof {
        let x: u64 = (in_int - 1) as u64;
        axiom_u64_leading_zeros(x);
        let z = u64_leading_zeros(x);
        if z < 64 {
            let s: u64 = (64 - z) as u64;
            if s < 64 {
                lemma_u64_shr_is_div(x, s);
                vstd::arithmetic::power2::lemma_pow2_pos(s as nat);
                assert(x as nat / pow2(s as nat) == 0);
                vstd::arithmetic::div_mod::lemma_fundamental_div_mod(x as int, pow2(s as nat) as int);
            } else {
                vstd::arithmetic::power2::lemma2_to64();
                vstd::arithmetic::power2::lemma2_to64_rest();
            }
            let t: u64 = (63 - z) as u64;
            lemma_u64_shr_is_div(x, t);
            vstd::arithmetic::power2::lemma_pow2_pos(t as nat);
            assert((x >> t) & 1u64 != 0u64);
            assert((x >> t) & 1u64 != 0u64 ==> (x >> t) != 0u64) by (bit_vector);
            vstd::arithmetic::div_mod::lemma_fundamental_div_mod(x as int, pow2(t as nat) as int);
            vstd::arithmetic::mul::lemma_mul_inequality(1, (x as nat / pow2(t as nat)) as int, pow2(t as nat) as int);
        } else {
            vstd::arithmetic::power2::lemma2_to64();
        }
        lemma_ceil_log2_is(in_int as nat, (64 - z) as nat);
    }
    64 - lz
}

/// Mask of column `col` of a 32x32 bit matrix; column 0 is the most significant bit.
pub open spec fn col_mask(col: int) -> u32 {
    1u32 << ((31 - col) as u32)
}

/// The first row at index `r` or later whose bit under `mask` is set, or 32.
pub open spec fn first_pivot(m: Seq<u32>, mask: u32, r: int) -> int
    decreases 32 - r,
{
    if r >= 32 {
        32
    } else if m[r] & mask != 0 {
        r
    } else {
        first_pivot(m, mask, r + 1)
    }
}

/// The last row at index `r` or earlier whose bit under `mask` is set, or -1.
pub open spec fn last_pivot(m: Seq<u32>, mask: u32, r: int) -> int
    decreases r + 1,
{
    if r < 0 {
        -1
    } else if m[r] & mask != 0 {
        r
    } else {
        last_pivot(m, mask, r - 1)
    }
}

/// The rows `i` and `j` exchanged.
pub open spec fn swap_rows(m: Seq<u32>, i: int, j: int) -> Seq<u32> {
    m.update(i, m[j]).update(j, m[i])
}

/// Row `p` added (XOR) to every row below it that has the bit under `mask` set.
pub open spec fn clear_below(m: Seq<u32>, p: int, mask: u32) -> Seq<u32> {
    Seq::new(m.len(), |r: int| if r > p && m[r] & mask != 0 { m[r] ^ m[p] } else { m[r] })
}

/// Row `p` added (XOR) to every row above it that has the bit under `mask` set.
pub open spec fn clear_above(m: Seq<u32>, p: int, mask: u32) -> Seq<u32> {
    Seq::new(m.len(), |r: int| if r < p && m[r] & mask != 0 { m[r] ^ m[p] } else { m[r] })
}

/// Gaussian elimination over GF(2), from column `col` on, with `rank` pivots
/// found so far: for each column, the first row at or below the next pivot
/// position with that bit set is swapped into place and cleared from the rows
/// beneath. The result is the number of pivots, which is the rank.
pub open spec fn echelon_rank(m: Seq<u32>, col: int, rank: int) -> int
    decreases 32 - col,
{
    if col >= 32 {
        rank
    } else {
        let mask = col_mask(col);
        let p = first_pivot(m, mask, rank);
        if p < 32 {
            echelon_rank(clear_below(swap_rows(m, rank, p), rank, mask), col + 1, rank + 1)
        } else {
            echelon_rank(m, col + 1, rank)
        }
    }
}

/// Rank over GF(2) of a 32x32 bit matrix given as 32 rows, most significant bit first.
pub open spec fn gf2_rank(m: Seq<u32>) -> int {
    echelon_rank(m, 0, 0)
}

proof fn lemma_echelon_rank_bounds(m: Seq<u32>, col: int, rank: int)
    requires
        0 <= col <= 32,
        0 <= rank <= col,
    ensures
        rank <= echelon_rank(m, col, rank) <= rank + (32 - col),
    decreases 32 - col,
{
    if col < 32 {
        let mask = col_mask(col);
        let p = first_pivot(m, mask, rank);
        if p < 32 {
            lemma_echelon_rank_bounds(
                clear_below(swap_rows(m, rank, p), rank, mask),
                col + 1,
                rank + 1,
            );
        } else {
            lemma_echelon_rank_bounds(m, col + 1, rank);
        }
    }
}

/// Rank of a 32x32 binary matrix over GF(2), by forward elimination only.
pub fn rank_binary_matrix(matrix: [u32; 32]) -> (r: usize)
    ensures
        r as int == gf2_rank(matrix@),
        r <= 32,
{
    let mut mat = matrix;
    let mut rank: usize = 0;
    let mut col_index: usize = 0;
    proof {
        lemma_echelon_rank_bounds(matrix@, 0, 0);
    }
    while col_index < 32
        invariant
            col_index <= 32,
            rank <= col_index,
            mat@.len() == 32,
            echelon_rank(mat@, col_index as int, rank as int) == gf2_rank(matrix@),
        decreases 32 - col_index,
    {
        let mask: u32 = 1u32 << ((31 - col_index) as u32);
        // Find the pivot row at the current rank or below.
        let mut pivot_row: usize = rank;
        while pivot_row < 32 && mat[pivot_row] & mask == 0
            invariant
                rank <= pivot_row <= 32,
                mat@.len() == 32,
                first_pivot(mat@, mask, rank as int) == first_pivot(mat@, mask, pivot_row as int),
            decreases 32 - pivot_row,
        {
            pivot_row += 1;
        }
        if pivot_row < 32 {
            let ghost before = mat@;
            let t = mat[rank];
            mat[rank] = mat[pivot_row];
            mat[pivot_row] = t;
            let ghost swapped = mat@;
            assert(swapped =~= swap_rows(before, rank as int, pivot_row as int));
            let pivot_val = mat[rank];
            // Eliminate this column in the rows below the pivot row.
            let mut row: usize = rank + 1;
            while row < 32
                invariant
                    rank < 32,
                    rank + 1 <= row <= 32,
                    mat@.len() == 32,
                    pivot_val == swapped[rank as int],
                    forall|r: int|
                        0 <= r < 32 ==> #[trigger] mat@[r] == (if r > rank && r < row
                            && swapped[r] & mask != 0 {
                            swapped[r] ^ pivot_val
                        } else {
                            swapped[r]
                        }),
                decreases 32 - row,
            {
                if mat[row] & mask != 0 {
                    mat[row] = mat[row] ^ pivot_val;
                }
                row += 1;
            }
            assert(mat@ =~= clear_below(swapped, rank as int, mask));
            rank += 1;
        }
        col_index += 1;
    }
    rank
}

/// One forward column of the reference elimination: a row below `col` with the
/// column's bit set is swapped into row `col` if that row lacks it, and row
/// `col`, if it now has the bit, is cleared from the rows beneath.
pub open spec fn nist_forward_step(m: Seq<u32>, col: int) -> Seq<u32> {
    let mask = col_mask(col);
    let p = first_pivot(m, mask, col + 1);
    let m1 = if m[col] & mask == 0 && p < 32 {
        swap_rows(m, p, col)
    } else {
        m
    };
    if m1[col] & mask != 0 {
        clear_below(m1, col, mask)
    } else {
        m1
    }
}

/// The forward columns `col` to 31 of the reference elimination.
pub open spec fn nist_forward(m: Seq<u32>, col: int) -> Seq<u32>
    decreases 32 - col,
{
    if col >= 32 {
        m
    } else {
        nist_forward(nist_forward_step(m, col), col + 1)
    }
}

/// One backward column of the reference elimination, the mirror image of
/// `nist_forward_step` towards the rows above.
pub open spec fn nist_backward_step(m: Seq<u32>, col: int) -> Seq<u32> {
    let mask = col_mask(col);
    let p = last_pivot(m, mask, col - 1);
    let m1 = if m[col] & mask == 0 && p >= 0 {
        swap_rows(m, p, col)
    } else {
        m
    };
    if m1[col] & mask != 0 {
        clear_above(m1, col, mask)
    } else {
        m1
    }
}

/// The backward columns `k - 1` down to 0 of the reference elimination.
pub open spec fn nist_backward(m: Seq<u32>, k: int) -> Seq<u32>
    decreases k,
{
    if k <= 0 {
        m
    } else {
        nist_backward(nist_backward_step(m, k - 1), k - 1)
    }
}

/// Number of zero rows among the first `n` rows.
pub open spec fn zero_rows(m: Seq<u32>, n: int) -> int
    decreases n,
{
    if n <= 0 {
        0
    } else {
        zero_rows(m, n - 1) + if m[n - 1] == 0 {
            1int
        } else {
            0int
        }
    }
}

/// The rank as the reference procedure finds it: forward and backward
/// elimination, then the rows that are not zero are counted.
pub open spec fn nist_rank(m: Seq<u32>) -> int {
    32 - zero_rows(nist_backward(nist_forward(m, 0), 32), 32)
}

proof fn lemma_zero_rows_bounds(m: Seq<u32>, n: int)
    requires
        n >= 0,
    ensures
        0 <= zero_rows(m, n) <= n,
    decreases n,
{
    if n > 0 {
        lemma_zero_rows_bounds(m, n - 1);
    }
}

/// Rank of a 32x32 binary matrix over GF(2), by the reference procedure of
/// NIST SP 800-22 appendix F (forward and backward elimination).
pub fn rank_binary_matrix_nist(matrix_input: [u32; 32]) -> (r: usize)
    ensures
        r as int == nist_rank(matrix_input@),
        r <= 32,
{
    let mut matrix = matrix_input;
    let mut col: usize = 0;
    while col < 32
        invariant
            col <= 32,
            matrix@.len() == 32,
            nist_forward(matrix@, col as int) == nist_forward(matrix_input@, 0),
        decreases 32 - col,
    {
        let ghost before = matrix@;
        let col_mask: u32 = 1u32 << ((31 - col) as u32);
        assert forall|r: int| 0 <= r < 32 implies (col_mask & #[trigger] before[r] == before[r]
            & col_mask) by {
            let x = before[r];
            assert(col_mask & x == x & col_mask) by (bit_vector);
        }
        // Bring a one into the diagonal entry from a following row.
        if col_mask & matrix[col] == 0 {
            let mut row: usize = col + 1;
            while row < 32 && col_mask & matrix[row] == 0
                invariant
                    col < 32,
                    col + 1 <= row <= 32,
                    matrix@ == before,
                    before.len() == 32,
                    forall|r: int|
                        0 <= r < 32 ==> (col_mask & #[trigger] before[r] == before[r]
                            & col_mask),
                    first_pivot(before, col_mask, col + 1) == first_pivot(
                        before,
                        col_mask,
                        row as int,
                    ),
                decreases 32 - row,
            {
                row += 1;
            }
            if row < 32 {
                let t = matrix[row];
                matrix[row] = matrix[col];
                matrix[col] = t;
                assert(matrix@ =~= swap_rows(before, row as int, col as int));
            }
        }
        let ghost pivoted = matrix@;
        assert forall|r: int| 0 <= r < 32 implies (col_mask & #[trigger] pivoted[r] == pivoted[r]
            & col_mask) by {
            let x = pivoted[r];
            assert(col_mask & x == x & col_mask) by (bit_vector);
        }
        // Clear the column in the following rows.
        if col_mask & matrix[col] != 0 {
            let pivot_val = matrix[col];
            let mut row: usize = col + 1;
            while row < 32
                invariant
                    col < 32,
                    col + 1 <= row <= 32,
                    matrix@.len() == 32,
                    pivot_val == pivoted[col as int],
                    forall|r: int|
                        0 <= r < 32 ==> (col_mask & #[trigger] pivoted[r] == pivoted[r]
                            & col_mask),
                    forall|r: int|
                        0 <= r < 32 ==> #[trigger] matrix@[r] == (if r > col && r < row
                            && pivoted[r] & col_mask != 0 {
                            pivoted[r] ^ pivot_val
                        } else {
                            pivoted[r]
                        }),
                decreases 32 - row,
            {
                if col_mask & matrix[row] != 0 {
                    matrix[row] = matrix[row] ^ pivot_val;
                }
                row += 1;
            }
            assert(matrix@ =~= clear_below(pivoted, col as int, col_mask));
        }
        assert(matrix@ == nist_forward_step(before, col as int));
        col += 1;
    }
    // Reverse step.
    let mut k: usize = 32;
    while k > 0
        invariant
            k <= 32,
            matrix@.len() == 32,
            nist_backward(matrix@, k as int) == nist_backward(nist_forward(matrix_input@, 0), 32),
        decreases k,
    {
        let col: usize = k - 1;
        let ghost before = matrix@;
        let col_mask: u32 = 1u32 << ((31 - col) as u32);
        assert forall|r: int| 0 <= r < 32 implies (col_mask & #[trigger] before[r] == before[r]
            & col_mask) by {
            let x = before[r];
            assert(col_mask & x == x & col_mask) by (bit_vector);
        }
        if col_mask & matrix[col] == 0 {
            let mut row: usize = col;
            while row > 0 && col_mask & matrix[row - 1] == 0
                invariant
                    col < 32,
                    row <= col,
                    matrix@ == before,
                    before.len() == 32,
                    forall|r: int|
                        0 <= r < 32 ==> (col_mask & #[trigger] before[r] == before[r]
                            & col_mask),
                    last_pivot(before, col_mask, col - 1) == last_pivot(
                        before,
                        col_mask,
                        row - 1,
                    ),
                decreases row,
            {
                row -= 1;
            }
            if row > 0 {
                let t = matrix[row - 1];
                matrix[row - 1] = matrix[col];
                matrix[col] = t;
                assert(matrix@ =~= swap_rows(before, row - 1, col as int));
            }
        }
        let ghost pivoted = matrix@;
        assert forall|r: int| 0 <= r < 32 implies (col_mask & #[trigger] pivoted[r] == pivoted[r]
            & col_mask) by {
            let x = pivoted[r];
            assert(col_mask & x == x & col_mask) by (bit_vector);
        }
        if col_mask & matrix[col] != 0 {
            let pivot_val = matrix[col];
            let mut row: usize = 0;
            while row < col
                invariant
                    col < 32,
                    row <= col,
                    matrix@.len() == 32,
                    pivot_val == pivoted[col as int],
                    forall|r: int|
                        0 <= r < 32 ==> (col_mask & #[trigger] pivoted[r] == pivoted[r]
                            & col_mask),
                    forall|r: int|
                        0 <= r < 32 ==> #[trigger] matrix@[r] == (if r < row
                            && pivoted[r] & col_mask != 0 {
                            pivoted[r] ^ pivot_val
                        } else {
                            pivoted[r]
                        }),
                decreases col - row,
            {
                if col_mask & matrix[row] != 0 {
                    matrix[row] = matrix[row] ^ pivot_val;
                }
                row += 1;
            }
            assert(matrix@ =~= clear_above(pivoted, col as int, col_mask));
        }
        assert(matrix@ == nist_backward_step(before, col as int));
        k -= 1;
    }
    // Count the zero rows.
    let ghost reduced = matrix@;
    let mut rank: usize = 32;
    let mut i: usize = 0;
    while i < 32
        invariant
            i <= 32,
            matrix@ == reduced,
            reduced.len() == 32,
            rank as int == 32 - zero_rows(reduced, i as int),
        decreases 32 - i,
    {
        proof {
            lemma_zero_rows_bounds(reduced, i as int);
        }
        if matrix[i] == 0 {
            rank -= 1;
        }
        i += 1;
    }
    proof {
        lemma_zero_rows_bounds(reduced, 32);
    }
    rank
}

/// The 32x32 identity matrix.
pub open spec fn identity_matrix() -> Seq<u32> {
    Seq::new(32, |r: int| col_mask(r))
}

/// The 32x32 zero matrix.
pub open spec fn zero_matrix() -> Seq<u32> {
    Seq::new(32, |r: int| 0u32)
}

proof fn lemma_unit_bits(r: int, c: int)
    requires
        0 <= r < 32,
        0 <= c < 32,
    ensures
        (col_mask(r) & col_mask(c) != 0) <==> r == c,
        col_mask(r) != 0,
{
    let a = (31 - r) as u32;
    let b = (31 - c) as u32;
    assert(a < 32 && b < 32 ==> ((((1u32 << a) & (1u32 << b)) != 0) <==> a == b)) by (bit_vector);
    assert(a < 32 ==> (1u32 << a) != 0) by (bit_vector);
}

proof fn lemma_zero_and(mask: u32)
    ensures
        0u32 & mask == 0,
{
    assert(0u32 & mask == 0) by (bit_vector);
}

proof fn lemma_first_pivot_none(m: Seq<u32>, mask: u32, r: int)
    requires
        0 <= r <= 32,
        m.len() == 32,
        forall|i: int| r <= i < 32 ==> #[trigger] m[i] & mask == 0,
    ensures
        first_pivot(m, mask, r) == 32,
    decreases 32 - r,
{
    if r < 32 {
        lemma_first_pivot_none(m, mask, r + 1);
    }
}

proof fn lemma_last_pivot_none(m: Seq<u32>, mask: u32, r: int)
    requires
        -1 <= r < 32,
        m.len() == 32,
        forall|i: int| 0 <= i <= r ==> #[trigger] m[i] & mask == 0,
    ensures
        last_pivot(m, mask, r) == -1,
    decreases r + 1,
{
    if r >= 0 {
        lemma_last_pivot_none(m, mask, r - 1);
    }
}

proof fn lemma_zero_matrix_steps(col: int)
    requires
        0 <= col < 32,
    ensures
        first_pivot(zero_matrix(), col_mask(col), 0) == 32,
        nist_forward_step(zero_matrix(), col) == zero_matrix(),
        nist_backward_step(zero_matrix(), col) == zero_matrix(),
{
    let z = zero_matrix();
    let mask = col_mask(col);
    lemma_zero_and(mask);
    lemma_first_pivot_none(z, mask, 0);
    lemma_first_pivot_none(z, mask, col + 1);
    lemma_last_pivot_none(z, mask, col - 1);
}

proof fn lemma_identity_steps(col: int)
    requires
        0 <= col < 32,
    ensures
        first_pivot(identity_matrix(), col_mask(col), col) == col,
        clear_below(swap_rows(identity_matrix(), col, col), col, col_mask(col)) == identity_matrix(),
        nist_forward_step(identity_matrix(), col) == identity_matrix(),
        nist_backward_step(identity_matrix(), col) == identity_matrix(),
{
    let id = identity_matrix();
    let mask = col_mask(col);
    lemma_unit_bits(col, col);
    assert forall|r: int| 0 <= r < 32 implies (#[trigger] id[r] & mask != 0) <==> r == col by {
        lemma_unit_bits(r, col);
    }
    assert(swap_rows(id, col, col) =~= id);
    assert(clear_below(id, col, mask) =~= id);
    assert(clear_above(id, col, mask) =~= id);
}

proof fn lemma_echelon_rank_zero(col: int)
    requires
        0 <= col <= 32,
    ensures
        echelon_rank(zero_matrix(), col, 0) == 0,
    decreases 32 - col,
{
    if col < 32 {
        lemma_zero_matrix_steps(col);
        lemma_echelon_rank_zero(col + 1);
    }
}

proof fn lemma_echelon_rank_identity(col: int)
    requires
        0 <= col <= 32,
    ensures
        echelon_rank(identity_matrix(), col, col) == 32,
    decreases 32 - col,
{
    if col < 32 {
        lemma_identity_steps(col);
        lemma_echelon_rank_identity(col + 1);
    }
}

proof fn lemma_nist_fixed(m: Seq<u32>, col: int, k: int)
    requires
        0 <= col <= 32,
        0 <= k <= 32,
        forall|c: int| 0 <= c < 32 ==> #[trigger] nist_forward_step(m, c) == m,
        forall|c: int| 0 <= c < 32 ==> #[trigger] nist_backward_step(m, c) == m,
    ensures
        nist_forward(m, col) == m,
        nist_backward(m, k) == m,
    decreases 32 - col + k,
{
    if col < 32 {
        lemma_nist_fixed(m, col + 1, k);
    }
    if k > 0 {
        lemma_nist_fixed(m, col, k - 1);
    }
}

proof fn lemma_zero_rows_count(m: Seq<u32>, n: int, all_zero: bool)
    requires
        0 <= n <= m.len(),
        forall|i: int| 0 <= i < n ==> (#[trigger] m[i] == 0) == all_zero,
    ensures
        zero_rows(m, n) == if all_zero {
            n
        } else {
            0
        },
    decreases n,
{
    if n > 0 {
        lemma_zero_rows_count(m, n - 1, all_zero);
    }
}

/// The identity matrix has rank 32 and the zero matrix rank 0, by both the
/// forward elimination and the reference procedure.
pub proof fn lemma_rank_identity_and_zero()
    ensures
        gf2_rank(identity_matrix()) == 32,
        nist_rank(identity_matrix()) == 32,
        gf2_rank(zero_matrix()) == 0,
        nist_rank(zero_matrix()) == 0,
{
    lemma_echelon_rank_identity(0);
    lemma_echelon_rank_zero(0);
    assert forall|c: int| 0 <= c < 32 implies #[trigger] nist_forward_step(identity_matrix(), c)
        == identity_matrix() by {
        lemma_identity_steps(c);
    }
    assert forall|c: int| 0 <= c < 32 implies #[trigger] nist_backward_step(identity_matrix(), c)
        == identity_matrix() by {
        lemma_identity_steps(c);
    }
    assert forall|c: int| 0 <= c < 32 implies #[trigger] nist_forward_step(zero_matrix(), c)
        == zero_matrix() by {
        lemma_zero_matrix_steps(c);
    }
    assert forall|c: int| 0 <= c < 32 implies #[trigger] nist_backward_step(zero_matrix(), c)
        == zero_matrix() by {
        lemma_zero_matrix_steps(c);
    }
    lemma_nist_fixed(identity_matrix(), 0, 32);
    lemma_nist_fixed(zero_matrix(), 0, 32);
    assert forall|i: int| 0 <= i < 32 implies (#[trigger] identity_matrix()[i] == 0) == false by {
        lemma_unit_bits(i, i);
    }
    lemma_zero_rows_count(identity_matrix(), 32, false);
    lemma_zero_rows_count(zero_matrix(), 32, true);
}

/// The unit that a count of `n` bytes is written in, as its size in bytes.
pub open spec fn unit_size(n: nat) -> nat {
    if n >= 1073741824 {
        1073741824
    } else if n >= 1048576 {
        1048576
    } else if n >= 1024 {
        1024
    } else {
        1
    }
}

/// The name of the unit that a count of `n` bytes is written in.
pub open spec fn unit_name(n: nat) -> Seq<char> {
    if n >= 1073741824 {
        seq!['G', 'i', 'B']
    } else if n >= 1048576 {
        seq!['M', 'i', 'B']
    } else if n >= 1024 {
        seq!['K', 'i', 'B']
    } else {
        seq!['B']
    }
}

/// `n / d` in hundredths, rounded to the nearest, ties to even.
pub open spec fn rounded_hundredths(n: nat, d: nat) -> nat {
    let q = n * 100 / d;
    let r = n * 100 % d;
    if 2 * r > d || (2 * r == d && q % 2 == 1) {
        q + 1
    } else {
        q
    }
}

/// A byte count written with two decimals in the largest binary unit
/// (B, KiB, MiB, GiB) that it reaches, such as "1.50 KiB".
pub open spec fn byte_count_text(n: nat) -> Seq<char> {
    let h = rounded_hundredths(n, unit_size(n));
    decimal(h / 100) + seq!['.'] + zero_padded(h % 100, 2) + seq![' '] + unit_name(n)
}

/// Write a number of bytes in binary units with two decimals;
/// 1048576 gives "1.00 MiB".
pub fn format_byte_count(num_bytes: usize) -> (r: String)
    ensures
        r@ == byte_count_text(num_bytes as nat),
{
    let n: u128 = num_bytes as u128;
    let d: u128 = if n >= 1073741824 {
        1073741824
    } else if n >= 1048576 {
        1048576
    } else if n >= 1024 {
        1024
    } else {
        1
    };
    let num: u128 = n * 100;
    let q: u128 = num / d;
    let rem: u128 = num % d;
    assert(q <= num) by (nonlinear_arith)
        requires
            d >= 1,
            q == num / d,
    ;
    let h: u128 = if 2 * rem > d || (2 * rem == d && q % 2 == 1) {
        q + 1
    } else {
        q
    };
    let mut s = String::new();
    push_decimal(&mut s, h / 100);
    proof {
        reveal_strlit(".");
        reveal_strlit(" ");
        reveal_strlit("GiB");
        reveal_strlit("MiB");
        reveal_strlit("KiB");
        reveal_strlit("B");
    }
    s.append(".");
    push_zero_padded(&mut s, h % 100, 2);
    s.append(" ");
    if n >= 1073741824 {
        s.append("GiB");
    } else if n >= 1048576 {
        s.append("MiB");
    } else if n >= 1024 {
        s.append("KiB");
    } else {
        s.append("B");
    }
    assert(s@ =~= byte_count_text(num_bytes as nat));
    s
}

/// An elapsed time of `nanos` nanoseconds in its unit, in ten-thousandths
/// (truncated).
pub open spec fn scaled_elapsed(nanos: nat) -> nat {
    if nanos >= 1_000_000_000 {
        nanos / 100_000
    } else if nanos >= 1_000_000 {
        nanos / 100
    } else if nanos >= 1000 {
        nanos * 10
    } else {
        nanos * 10000
    }
}

/// The unit of an elapsed time of `nanos` nanoseconds, three characters wide.
pub open spec fn elapsed_unit(nanos: nat) -> Seq<char> {
    if nanos >= 1_000_000_000 {
        seq![' ', 's', ' ']
    } else if nanos >= 1_000_000 {
        seq![' ', 'm', 's']
    } else if nanos >= 1000 {
        seq![' ', '\u{b5}', 's']
    } else {
        seq![' ', 'n', 's']
    }
}

/// The `width` digits of the fraction `f`, trailing zeros dropped.
pub open spec fn trimmed_fraction(f: nat, width: nat) -> Seq<char>
    decreases width,
{
    if width > 1 && f % 10 == 0 {
        trimmed_fraction(f / 10, (width - 1) as nat)
    } else {
        zero_padded(f, width)
    }
}

/// `x / 10000` written with up to four decimals and no trailing zeros.
pub open spec fn fixed_point(x: nat) -> Seq<char> {
    if x % 10000 == 0 {
        decimal(x / 10000)
    } else {
        decimal(x / 10000) + seq!['.'] + trimmed_fraction(x % 10000, 4)
    }
}

/// An elapsed time of `nanos` nanoseconds as fixed-width text: the number in
/// its unit, left-aligned in eight characters, then the unit.
pub open spec fn elapsed_text(nanos: nat) -> Seq<char> {
    left_aligned(fixed_point(scaled_elapsed(nanos)), 8) + elapsed_unit(nanos)
}

fn push_trimmed_fraction(s: &mut String, f: u128, width: usize) -> (r: usize)
    requires
        1 <= width <= 39,
    ensures
        final(s)@ == old(s)@ + trimmed_fraction(f as nat, width as nat),
        r == trimmed_fraction(f as nat, width as nat).len(),
        r <= 39,
    decreases width,
{
    if width > 1 && f % 10 == 0 {
        push_trimmed_fraction(s, f / 10, width - 1)
    } else {
        push_zero_padded(s, f, width);
        let d = digit_count(f);
        if d < width {
            width
        } else {
            d
        }
    }
}

/// Write an elapsed time of `nanos` nanoseconds in a fixed width.
pub fn format_elapsed_nanos(nanos: u128) -> (r: String)
    ensures
        r@ == elapsed_text(nanos as nat),
{
    let x: u128 = if nanos >= 1_000_000_000 {
        nanos / 100_000
    } else if nanos >= 1_000_000 {
        nanos / 100
    } else if nanos >= 1000 {
        nanos * 10
    } else {
        nanos * 10000
    };
    let mut number = String::new();
    push_decimal(&mut number, x / 10000);
    let mut len = digit_count(x / 10000);
    if x % 10000 != 0 {
        proof {
            reveal_strlit(".");
        }
        number.append(".");
        let f = push_trimmed_fraction(&mut number, x % 10000, 4);
        len = len + 1 + f;
    }
    assert(number@ =~= fixed_point(scaled_elapsed(nanos as nat)));
    let mut s = String::new();
    s.append(number.as_str());
    assert(len == number@.len());
    if len < 8 {
        push_spaces(&mut s, 8 - len);
    }
    proof {
        reveal_strlit(" s ");
        reveal_strlit(" ms");
        reveal_strlit(" \u{b5}s");
        reveal_strlit(" ns");
    }
    if nanos >= 1_000_000_000 {
        s.append(" s ");
    } else if nanos >= 1_000_000 {
        s.append(" ms");
    } else if nanos >= 1000 {
        s.append(" \u{b5}s");
    } else {
        s.append(" ns");
    }
    assert(s@ =~= elapsed_text(nanos as nat));
    s
}

/// Relies on `Duration::as_nanos`: the total number of whole nanoseconds.
#[verifier::external_body]
fn duration_nanos(d: &std::time::Duration) -> u128 {
    d.as_nanos()
}

/// Write a duration in a fixed width, in seconds, milliseconds, microseconds
/// or nanoseconds.
pub fn format_elapsed_time(duration: std::time::Duration) -> (r: String)
    ensures
        exists|nanos: nat| r@ == elapsed_text(nanos),
{
    format_elapsed_nanos(duration_nanos(&duration))
}

/// XOR the words of `b` into those of `a`, pairwise, as far as both reach.
pub fn xor_in_place(a: &mut [u64], b: &[u64])
    ensures
        final(a)@.len() == old(a)@.len(),
        forall|i: int|
            0 <= i < old(a)@.len() ==> #[trigger] final(a)@[i] == if i < b@.len() {
                old(a)@[i] ^ b@[i]
            } else {
                old(a)@[i]
            },
{
    let n: usize = if a.len() < b.len() {
        a.len()
    } else {
        b.len()
    };
    let mut i: usize = 0;
    while i < n
        invariant
            i <= n,
            n <= a@.len(),
            n <= b@.len(),
            n == old(a)@.len() || n == b@.len(),
            n < old(a)@.len() ==> n == b@.len(),
            a@.len() == old(a)@.len(),
            forall|j: int|
                0 <= j < old(a)@.len() ==> #[trigger] a@[j] == if j < i {
                    old(a)@[j] ^ b@[j]
                } else {
                    old(a)@[j]
                },
        decreases n - i,
    {
        a[i] = a[i] ^ b[i];
        i += 1;
    }
}

} // verus!
