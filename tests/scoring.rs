use pearlacid::scoring::{
    any_failed, format_test_results_summary, overall_passed, select_weak_seeds, tally_scores,
    Score, Verdict,
};

fn score(bucket: u8, verdict: Verdict) -> Score {
    Score { bucket, verdict }
}

#[test]
fn tally_counts_bins_and_classes() {
    let scores = [
        score(0, Verdict::Passed),
        score(1, Verdict::Passed),
        score(3, Verdict::Marginal),
        score(9, Verdict::Failed),
        score(12, Verdict::Failed),
    ];
    let t = tally_scores(&scores);
    assert_eq!(t.bins, [1, 1, 0, 1, 0, 0, 0, 0, 0, 2]);
    assert_eq!((t.passed, t.marginal, t.failed, t.total), (2, 1, 2, 5));
    assert!(!overall_passed(&t));
}

#[test]
fn verdict_allows_five_percent_marginal() {
    let mut scores = vec![score(0, Verdict::Passed); 19];
    scores.push(score(2, Verdict::Marginal));
    assert!(overall_passed(&tally_scores(&scores)));
    scores.push(score(3, Verdict::Marginal));
    assert!(!overall_passed(&tally_scores(&scores)));
    assert!(overall_passed(&tally_scores(&[])));
}

#[test]
fn summary_text_layout() {
    let scores = [
        score(0, Verdict::Passed),
        score(0, Verdict::Passed),
        score(2, Verdict::Marginal),
    ];
    let text = format_test_results_summary(&scores);
    assert_eq!(
        text,
        "P log stats: \n 0 : 0002| 1 : 0000| 2 : 0001| 3 : 0000| 4 : 0000| 5 : 0000| 6 : 0000| 7 : 0000| 8 : 0000| 9+ : 0000\nOverall result: FAILED!!          ( 2 passed; 1 marginal; 0 failed; 3 total)"
    );
    let passing = format_test_results_summary(&[score(1, Verdict::Passed)]);
    assert!(passing.ends_with("Overall result: PASSED          ( 1 passed; 0 marginal; 0 failed; 1 total)"));
}

#[test]
fn weak_seeds_are_those_with_a_failure() {
    let seeds = [10u64, 20, 30];
    let results = vec![
        vec![score(0, Verdict::Passed), score(3, Verdict::Marginal)],
        vec![score(0, Verdict::Passed), score(9, Verdict::Failed)],
        vec![score(5, Verdict::Failed)],
    ];
    assert_eq!(select_weak_seeds(&seeds, &results), vec![20, 30]);
    assert!(!any_failed(&results[0]));
    assert!(any_failed(&results[2]));
}
