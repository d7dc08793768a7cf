//! Frecency: pick count times a bucketed recency weight. Weights are kept in
//! quarters (`4` = weight 1) so that every weight and score is an exact
//! integer; the caller divides by four where it needs the real-valued score.

use vstd::prelude::*;

verus! {

pub const HOUR: u64 = 3_600;
pub const DAY: u64 = 24 * HOUR;
pub const WEEK: u64 = 7 * DAY;
pub const MONTH: u64 = 30 * DAY;

/// The recency weight, in quarters, of a pick `age` seconds old:
/// within an hour x4, a day x2, a week x1, thirty days x0.5, older x0.25.
pub open spec fn weight_quarters(age: u64) -> u64 {
    if age <= HOUR {
        16
    } else if age <= DAY {
        8
    } else if age <= WEEK {
        4
    } else if age <= MONTH {
        2
    } else {
        1
    }
}

/// Recency multiplier, in quarters, for a pick `age_secs` old.
pub fn recency_weight_quarters(age_secs: u64) -> (r: u64)
    ensures
        r == weight_quarters(age_secs),
{
    if age_secs <= HOUR {
        16
    } else if age_secs <= DAY {
        8
    } else if age_secs <= WEEK {
        4
    } else if age_secs <= MONTH {
        2
    } else {
        1
    }
}

/// `frecency = pick_count x recency_weight(age)`, in quarters; a file never
/// picked (`count == 0`) scores `0`.
pub fn score_quarters(count: u32, age_secs: u64) -> (r: u64)
    ensures
        r == count * weight_quarters(age_secs),
{
    if count == 0 {
        0
    } else {
        count as u64 * recency_weight_quarters(age_secs)
    }
}

/// Frecency scores, in quarters, for picks given as `(count, age in
/// seconds)`; an entry never picked scores `0`.
pub fn scores_quarters(picks: &[Option<(u32, u64)>]) -> (r: Vec<u64>)
    ensures
        r@.len() == picks@.len(),
        forall|i: int|
            0 <= i < picks@.len() ==> #[trigger] r@[i] == match picks@[i] {
                Some((c, age)) => c * weight_quarters(age),
                None => 0,
            },
{
    let mut out: Vec<u64> = Vec::new();
    let mut i: usize = 0;
    while i < picks.len()
        invariant
            i <= picks@.len(),
            out@.len() == i,
            forall|j: int|
                0 <= j < i ==> #[trigger] out@[j] == match picks@[j] {
                    Some((c, age)) => c * weight_quarters(age),
                    None => 0,
                },
        decreases picks@.len() - i,
    {
        let s = match picks[i] {
            Some((c, age)) => score_quarters(c, age),
            None => 0,
        };
        out.push(s);
        i += 1;
    }
    out
}

/// A more recent pick never weighs less.
pub proof fn law_recency_is_monotone(newer: u64, older: u64)
    requires
        newer <= older,
    ensures
        weight_quarters(newer) >= weight_quarters(older),
{
}

/// Within a recency bucket more picks never score less, and a file never
/// picked scores zero whatever its age.
pub proof fn law_more_picks_score_more(fewer: u32, more: u32, age: u64)
    requires
        fewer <= more,
    ensures
        fewer * weight_quarters(age) <= more * weight_quarters(age),
        0 * weight_quarters(age) == 0,
{
    assert(fewer * weight_quarters(age) <= more * weight_quarters(age)) by (nonlinear_arith)
        requires
            fewer <= more,
            weight_quarters(age) >= 1,
    ;
}

} // verus!
