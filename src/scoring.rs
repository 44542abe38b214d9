//! Aggregation of scored test results: the histogram of log statistics, the
//! overall verdict, the summary text and the weak seeds.
//!
//! A result is scored by its caller from its p-value: the integer part of
//! its log statistic (0 to 9) and its class.

use vstd::prelude::*;
use vstd::string::StringExecFns;
use crate::text::{decimal, push_decimal, push_zero_padded, right_aligned, zero_padded};

verus! {

/// The class of one test result.
#[derive(Debug, Clone, Copy, PartialEq, Eq, Structural)]
pub enum Verdict {
    /// Log statistic below 2.
    Passed,
    /// Log statistic from 2 to 4.
    Marginal,
    /// Log statistic above 4.
    Failed,
}

/// One scored test result.
#[derive(Debug, Clone, Copy, PartialEq, Eq, Structural)]
pub struct Score {
    /// The integer part of the log statistic; 9 or more share the last bin.
    pub bucket: u8,
    pub verdict: Verdict,
}

/// The counts that the summary reports.
#[derive(Debug, Clone, Copy)]
pub struct Tally {
    /// Results by integer part of their log statistic, the last bin for 9 and more.
    pub bins: [u64; 10],
    pub passed: u64,
    pub marginal: u64,
    pub failed: u64,
    pub total: u64,
}

/// The histogram bin of a bucket.
pub open spec fn bin_of(bucket: u8) -> int {
    if bucket >= 9 {
        9
    } else {
        bucket as int
    }
}

/// How many of the first `n` scores fall in bin `b`.
pub open spec fn bin_count(s: Seq<Score>, n: int, b: int) -> nat
    decreases n,
{
    if n <= 0 {
        0
    } else {
        bin_count(s, n - 1, b) + if bin_of(s[n - 1].bucket) == b {
            1nat
        } else {
            0nat
        }
    }
}

/// How many of the first `n` scores have verdict `v`.
pub open spec fn verdict_count(s: Seq<Score>, n: int, v: Verdict) -> nat
    decreases n,
{
    if n <= 0 {
        0
    } else {
        verdict_count(s, n - 1, v) + if s[n - 1].verdict == v {
            1nat
        } else {
            0nat
        }
    }
}

proof fn lemma_counts_sum(s: Seq<Score>, n: int)
    requires
        0 <= n <= s.len(),
    ensures
        verdict_count(s, n, Verdict::Passed) + verdict_count(s, n, Verdict::Marginal)
            + verdict_count(s, n, Verdict::Failed) == n,
    decreases n,
{
    if n > 0 {
        lemma_counts_sum(s, n - 1);
    }
}

/// Count the scores by bin and by verdict.
pub fn tally_scores(scores: &[Score]) -> (t: Tally)
    ensures
        forall|b: int| 0 <= b < 10 ==> #[trigger] t.bins@[b] == bin_count(scores@, scores@.len() as int, b),
        t.passed == verdict_count(scores@, scores@.len() as int, Verdict::Passed),
        t.marginal == verdict_count(scores@, scores@.len() as int, Verdict::Marginal),
        t.failed == verdict_count(scores@, scores@.len() as int, Verdict::Failed),
        t.total == scores@.len(),
{
    let mut t = Tally { bins: [0; 10], passed: 0, marginal: 0, failed: 0, total: 0 };
    let len = scores.len();
    let mut i: usize = 0;
    while i < len
        invariant
            i <= len,
            len == scores@.len(),
            forall|b: int| 0 <= b < 10 ==> #[trigger] t.bins@[b] == bin_count(scores@, i as int, b),
            forall|b: int| 0 <= b < 10 ==> #[trigger] t.bins@[b] <= i,
            t.passed == verdict_count(scores@, i as int, Verdict::Passed),
            t.marginal == verdict_count(scores@, i as int, Verdict::Marginal),
            t.failed == verdict_count(scores@, i as int, Verdict::Failed),
            t.total == i,
        decreases len - i,
    {
        proof {
            lemma_counts_sum(scores@, i as int);
        }
        let score = scores[i];
        let b: usize = if score.bucket >= 9 {
            9
        } else {
            score.bucket as usize
        };
        t.bins[b] = t.bins[b] + 1;
        match score.verdict {
            Verdict::Passed => {
                t.passed = t.passed + 1;
            },
            Verdict::Marginal => {
                t.marginal = t.marginal + 1;
            },
            Verdict::Failed => {
                t.failed = t.failed + 1;
            },
        }
        t.total = t.total + 1;
        i += 1;
    }
    t
}

/// A suite passes when no test failed and at most 5% of the tests were marginal.
pub open spec fn suite_passes(failed: nat, marginal: nat, total: nat) -> bool {
    failed == 0 && 20 * marginal <= total
}

/// Whether the tallied results pass as a whole.
pub fn overall_passed(t: &Tally) -> (r: bool)
    ensures
        r == suite_passes(t.failed as nat, t.marginal as nat, t.total as nat),
{
    t.failed == 0 && (t.marginal as u128) * 20 <= t.total as u128
}

/// One bin of the histogram line: `" b : cccc|"`, the last one `" 9+ : cccc"`.
pub open spec fn bin_text(b: nat, count: nat) -> Seq<char> {
    if b == 9 {
        right_aligned(decimal(b), 2) + "+ : "@ + zero_padded(count, 4)
    } else {
        right_aligned(decimal(b), 2) + " : "@ + zero_padded(count, 4) + "|"@
    }
}

/// The first `n` bins of the histogram line.
pub open spec fn bins_text(bins: Seq<u64>, n: nat) -> Seq<char>
    decreases n,
{
    if n == 0 {
        Seq::empty()
    } else {
        bins_text(bins, (n - 1) as nat) + bin_text((n - 1) as nat, bins[n - 1] as nat)
    }
}

/// The summary of a suite: the histogram of log statistics, then the
/// overall result with the counts of each class.
pub open spec fn summary_text(bins: Seq<u64>, marginal: nat, failed: nat, total: nat) -> Seq<
    char,
> {
    "P log stats: \n"@ + bins_text(bins, 10) + "\nOverall result: "@ + (if suite_passes(
        failed,
        marginal,
        total,
    ) {
        "PASSED"@
    } else {
        "FAILED!!"@
    }) + "          ( "@ + decimal((total - failed - marginal) as nat) + " passed; "@ + decimal(
        marginal,
    ) + " marginal; "@ + decimal(failed) + " failed; "@ + decimal(total) + " total)"@
}

/// Write the summary of a tally.
pub fn format_tally(t: &Tally) -> (r: String)
    requires
        t.passed + t.marginal + t.failed == t.total,
    ensures
        r@ == summary_text(t.bins@, t.marginal as nat, t.failed as nat, t.total as nat),
{
    let mut s = String::new();
    s.append("P log stats: \n");
    let mut b: usize = 0;
    while b < 10
        invariant
            b <= 10,
            s@ == "P log stats: \n"@ + bins_text(t.bins@, b as nat),
        decreases 10 - b,
    {
        proof {
            reveal_strlit(" ");
        }
        let ghost before = s@;
        if b < 10 {
            s.append(" ");
        }
        push_decimal(&mut s, b as u128);
        assert(right_aligned(decimal(b as nat), 2) == " "@ + decimal(b as nat)) by {
            reveal_with_fuel(decimal, 2);
        }
        if b == 9 {
            s.append("+ : ");
            push_zero_padded(&mut s, t.bins[b] as u128, 4);
        } else {
            s.append(" : ");
            push_zero_padded(&mut s, t.bins[b] as u128, 4);
            s.append("|");
        }
        assert(s@ =~= "P log stats: \n"@ + bins_text(t.bins@, (b + 1) as nat));
        b += 1;
    }
    s.append("\nOverall result: ");
    if overall_passed(t) {
        s.append("PASSED");
    } else {
        s.append("FAILED!!");
    }
    s.append("          ( ");
    push_decimal(&mut s, (t.total - t.failed - t.marginal) as u128);
    s.append(" passed; ");
    push_decimal(&mut s, t.marginal as u128);
    s.append(" marginal; ");
    push_decimal(&mut s, t.failed as u128);
    s.append(" failed; ");
    push_decimal(&mut s, t.total as u128);
    s.append(" total)");
    assert(s@ =~= summary_text(t.bins@, t.marginal as nat, t.failed as nat, t.total as nat));
    s
}

/// The histogram of a sequence of scores.
pub open spec fn histogram(s: Seq<Score>) -> Seq<u64> {
    Seq::new(10, |b: int| bin_count(s, s.len() as int, b) as u64)
}

/// Tally the scores and write the summary.
pub fn format_test_results_summary(scores: &[Score]) -> (r: String)
    ensures
        r@ == summary_text(
            histogram(scores@),
            verdict_count(scores@, scores@.len() as int, Verdict::Marginal),
            verdict_count(scores@, scores@.len() as int, Verdict::Failed),
            scores@.len(),
        ),
{
    let t = tally_scores(scores);
    proof {
        lemma_counts_sum(scores@, scores@.len() as int);
        assert(t.bins@ =~= histogram(scores@));
    }
    format_tally(&t)
}

/// Whether some score of a seed is a failure: such a seed is weak.
pub open spec fn has_failure(s: Seq<Score>) -> bool {
    exists|i: int| 0 <= i < s.len() && #[trigger] s[i].verdict == Verdict::Failed
}

/// Whether one of the scores is a failure.
pub fn any_failed(scores: &[Score]) -> (r: bool)
    ensures
        r == has_failure(scores@),
{
    let mut i: usize = 0;
    while i < scores.len()
        invariant
            i <= scores@.len(),
            forall|j: int| 0 <= j < i ==> #[trigger] scores@[j].verdict != Verdict::Failed,
        decreases scores@.len() - i,
    {
        if scores[i].verdict == Verdict::Failed {
            return true;
        }
        i += 1;
    }
    false
}

/// The seeds, in their order, whose scores hold a failure; `results[i]` are
/// the scores of `seeds[i]`.
pub fn select_weak_seeds(seeds: &[u64], results: &Vec<Vec<Score>>) -> (r: Vec<u64>)
    requires
        seeds@.len() == results@.len(),
    ensures
        r@ == weak_subsequence(
            seeds@,
            results@.map_values(|v: Vec<Score>| v@),
            seeds@.len() as int,
        ),
{
    let mut found: Vec<u64> = Vec::new();
    let mut i: usize = 0;
    while i < seeds.len()
        invariant
            i <= seeds@.len(),
            seeds@.len() == results@.len(),
            found@ == weak_subsequence(seeds@, results@.map_values(|v: Vec<Score>| v@), i as int),
        decreases seeds@.len() - i,
    {
        if any_failed(results[i].as_slice()) {
            found.push(seeds[i]);
        }
        i += 1;
    }
    found
}

/// The seeds among the first `n` whose scores hold a failure.
pub open spec fn weak_subsequence(seeds: Seq<u64>, results: Seq<Seq<Score>>, n: int) -> Seq<u64>
    decreases n,
{
    if n <= 0 {
        Seq::empty()
    } else if has_failure(results[n - 1]) {
        weak_subsequence(seeds, results, n - 1).push(seeds[n - 1])
    } else {
        weak_subsequence(seeds, results, n - 1)
    }
}

} // verus!
