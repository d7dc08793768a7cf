use atref::frecency::{recency_weight_quarters, score_quarters, scores_quarters, DAY, HOUR, MONTH, WEEK};

fn recency_weight(age_secs: u64) -> f64 {
    recency_weight_quarters(age_secs) as f64 / 4.0
}

fn score(count: u32, age_secs: u64) -> f64 {
    score_quarters(count, age_secs) as f64 / 4.0
}

#[test]
fn never_picked_scores_zero() {
    assert_eq!(score(0, 0), 0.0);
    assert_eq!(score(0, WEEK), 0.0);
}

#[test]
fn recency_buckets_match_fr5() {
    assert_eq!(recency_weight(0), 4.0);
    assert_eq!(recency_weight(HOUR), 4.0);
    assert_eq!(recency_weight(HOUR + 1), 2.0);
    assert_eq!(recency_weight(DAY), 2.0);
    assert_eq!(recency_weight(DAY + 1), 1.0);
    assert_eq!(recency_weight(WEEK), 1.0);
    assert_eq!(recency_weight(WEEK + 1), 0.5);
    assert_eq!(recency_weight(MONTH), 0.5);
    assert_eq!(recency_weight(MONTH + 1), 0.25);
}

#[test]
fn frequency_scales_linearly_within_a_bucket() {
    assert_eq!(score(1, 0), 4.0);
    assert_eq!(score(3, 0), 12.0);
    assert!(score(1, 0) > score(3, MONTH + 1));
    assert!(score(5, DAY) > score(1, 0));
}

#[test]
fn scores_follow_the_picks_in_order() {
    let picks = vec![None, Some((2, 0)), Some((1, MONTH + 5)), Some((u32::MAX, 0))];
    assert_eq!(
        scores_quarters(&picks),
        vec![0, 32, 1, u32::MAX as u64 * 16]
    );
}
