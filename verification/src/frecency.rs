//! Frecency: how recently and how often a path was visited, as a score.
//!
//! The visits themselves are kept elsewhere; here are the rules that turn
//! them into scores.

use crate::scoring::{Score, SCORE_LIMIT};
use vstd::prelude::*;

verus! {

/// Seconds in an hour.
pub const HOUR: u64 = 3600;

/// Seconds in a day.
pub const DAY: u64 = 86400;

/// Seconds in a week.
pub const WEEK: u64 = 604800;

/// What one visit is worth, in hundredths of a point, by the age of the
/// last access: four points within the hour, two within the day, half a
/// point within the week, a quarter after that.
pub const WEIGHT_HOUR: i128 = 400;

/// What one visit is worth where the last access is within the day.
pub const WEIGHT_DAY: i128 = 200;

/// What one visit is worth where the last access is within the week.
pub const WEIGHT_WEEK: i128 = 50;

/// What one visit is worth where the last access is older than a week.
pub const WEIGHT_OLDER: i128 = 25;

/// A bound on scores before scaling: two to the seventy-second.
pub const RAW_SCORE_LIMIT: i128 = 0x100_0000_0000_0000_0000;

/// What was recorded of one path: its visits together, and its last access
/// in seconds since the epoch.
#[derive(Debug, Clone)]
pub struct Visits {
    pub path: String,
    pub visits: i64,
    pub last_accessed: u64,
}

/// A path with its score.
#[derive(Debug, Clone, PartialEq)]
pub struct PathScore {
    pub path: String,
    pub score: Score,
}

/// The seconds between the last access and now; zero for an access in the future.
pub open spec fn age(last_accessed: int, now: int) -> int {
    if now > last_accessed {
        now - last_accessed
    } else {
        0
    }
}

/// What one visit is worth at this age.
pub open spec fn recency_weight(age: int) -> int {
    if age < HOUR {
        WEIGHT_HOUR as int
    } else if age < DAY {
        WEIGHT_DAY as int
    } else if age < WEEK {
        WEIGHT_WEEK as int
    } else {
        WEIGHT_OLDER as int
    }
}

/// The score of a path before scaling: its visits, weighted by the age of
/// the last access.
pub open spec fn raw_score(visits: int, last_accessed: int, now: int) -> int {
    visits * recency_weight(age(last_accessed, now))
}

/// `numerator / denominator`, rounded to the nearest whole number, halves
/// away from zero. The denominator is positive.
pub open spec fn rounded_quotient(numerator: int, denominator: int) -> int {
    if numerator >= 0 {
        (2 * numerator + denominator) / (2 * denominator)
    } else {
        -((-2 * numerator + denominator) / (2 * denominator))
    }
}

/// A score scaled so that `max` becomes a hundred points, rounded to whole
/// points. Scores stay as they are where `max` is not positive.
pub open spec fn scaled_score(score: int, max: int) -> int {
    if max > 0 {
        100 * rounded_quotient(100 * score, max)
    } else {
        score
    }
}

/// The greatest of the first `upto` scores; none for no scores.
pub open spec fn max_of(scores: Seq<PathScore>, upto: int) -> Option<int>
    decreases upto,
{
    if upto <= 0 {
        None
    } else {
        match max_of(scores, upto - 1) {
            Some(m) => if scores[upto - 1].score > m {
                Some(scores[upto - 1].score as int)
            } else {
                Some(m)
            },
            None => Some(scores[upto - 1].score as int),
        }
    }
}

/// The score of `path` among the first `upto` entries, taken from the first
/// entry for it; zero where there is none.
pub open spec fn score_of(scores: Seq<PathScore>, path: Seq<char>, from: int) -> int
    decreases scores.len() - from,
{
    if from < 0 || from >= scores.len() {
        0
    } else if scores[from].path@ == path {
        scores[from].score as int
    } else {
        score_of(scores, path, from + 1)
    }
}

/// The greatest score before scaling among the first `upto` records.
pub open spec fn max_raw_score(records: Seq<Visits>, now: int, upto: int) -> Option<int>
    decreases upto,
{
    if upto <= 0 {
        None
    } else {
        let score = raw_score(
            records[upto - 1].visits as int,
            records[upto - 1].last_accessed as int,
            now,
        );
        match max_raw_score(records, now, upto - 1) {
            Some(m) => if score > m {
                Some(score)
            } else {
                Some(m)
            },
            None => Some(score),
        }
    }
}

/// The greatest of the scores of some records is the greatest score of
/// those records.
pub proof fn lemma_max_of_raw(records: Seq<Visits>, scores: Seq<PathScore>, now: int, upto: int)
    requires
        0 <= upto <= records.len(),
        scores.len() == records.len(),
        forall|i: int|
            0 <= i < scores.len() ==> (#[trigger] scores[i]).score == raw_score(
                records[i].visits as int,
                records[i].last_accessed as int,
                now,
            ),
    ensures
        max_of(scores, upto) == max_raw_score(records, now, upto),
    decreases upto,
{
    if upto > 0 {
        lemma_max_of_raw(records, scores, now, upto - 1);
    }
}

/// The score of a path before scaling.
pub fn calculate_score(visits: i64, last_accessed: u64, now: u64) -> (r: Score)
    ensures
        r == raw_score(visits as int, last_accessed as int, now as int),
        -RAW_SCORE_LIMIT <= r <= RAW_SCORE_LIMIT,
{
    let age: u64 = if now > last_accessed {
        now - last_accessed
    } else {
        0
    };
    let weight: Score = if age < HOUR {
        WEIGHT_HOUR
    } else if age < DAY {
        WEIGHT_DAY
    } else if age < WEEK {
        WEIGHT_WEEK
    } else {
        WEIGHT_OLDER
    };
    let visits: Score = visits as Score;
    assert(-0x8000_0000_0000_0000 * 400 <= visits * weight <= 0x8000_0000_0000_0000 * 400)
        by (nonlinear_arith)
        requires
            -0x8000_0000_0000_0000 <= visits <= 0x8000_0000_0000_0000,
            0 <= weight <= 400,
    ;
    visits * weight
}

/// The scores of the recorded paths before scaling, in the order of the records.
pub fn raw_scores(records: &Vec<Visits>, now: u64) -> (r: Vec<PathScore>)
    ensures
        r@.len() == records@.len(),
        forall|i: int|
            0 <= i < r@.len() ==> {
                &&& (#[trigger] r@[i]).path@ == records@[i].path@
                &&& r@[i].score == raw_score(
                    records@[i].visits as int,
                    records@[i].last_accessed as int,
                    now as int,
                )
                &&& -RAW_SCORE_LIMIT <= r@[i].score <= RAW_SCORE_LIMIT
            },
{
    let mut out: Vec<PathScore> = Vec::new();
    let mut i: usize = 0;
    while i < records.len()
        invariant
            i <= records.len(),
            out@.len() == i,
            forall|k: int|
                0 <= k < i ==> {
                    &&& (#[trigger] out@[k]).path@ == records@[k].path@
                    &&& out@[k].score == raw_score(
                        records@[k].visits as int,
                        records@[k].last_accessed as int,
                        now as int,
                    )
                    &&& -RAW_SCORE_LIMIT <= out@[k].score <= RAW_SCORE_LIMIT
                },
        decreases records.len() - i,
    {
        out.push(
            PathScore {
                path: records[i].path.clone(),
                score: calculate_score(records[i].visits, records[i].last_accessed, now),
            },
        );
        i += 1;
    }
    out
}

/// Rounds `numerator / denominator` to the nearest whole number, halves
/// away from zero.
pub fn round_quotient(numerator: Score, denominator: Score) -> (r: Score)
    requires
        0 < denominator <= RAW_SCORE_LIMIT,
        -100 * RAW_SCORE_LIMIT <= numerator <= 100 * RAW_SCORE_LIMIT,
    ensures
        r == rounded_quotient(numerator as int, denominator as int),
        -201 * RAW_SCORE_LIMIT <= r <= 201 * RAW_SCORE_LIMIT,
{
    if numerator >= 0 {
        let n = 2 * numerator + denominator;
        let d = 2 * denominator;
        proof {
            lemma_quotient_bounds(n as int, d as int);
        }
        n / d
    } else {
        let opposite = -numerator;
        let n = 2 * opposite + denominator;
        let d = 2 * denominator;
        proof {
            lemma_quotient_bounds(n as int, d as int);
        }
        -(n / d)
    }
}

/// A quotient of a number that is not negative by one that is at least one
/// lies between zero and the number.
pub proof fn lemma_quotient_bounds(n: int, d: int)
    requires
        0 <= n,
        1 <= d,
    ensures
        0 <= n / d <= n,
{
    vstd::arithmetic::div_mod::lemma_div_pos_is_pos(n, d);
    vstd::arithmetic::div_mod::lemma_div_is_ordered_by_denominator(n, 1, d);
    vstd::arithmetic::div_mod::lemma_div_basics(n);
}

/// Scales scores so that the greatest becomes a hundred points, each
/// rounded to whole points. Where the greatest is not positive, or there
/// are no scores, they stay as they are.
pub fn normalize_scores(scores: &mut Vec<PathScore>)
    requires
        forall|i: int|
            0 <= i < old(scores)@.len() ==> -RAW_SCORE_LIMIT <= (#[trigger] old(scores)@[i]).score
                <= RAW_SCORE_LIMIT,
    ensures
        final(scores)@.len() == old(scores)@.len(),
        forall|i: int|
            0 <= i < final(scores)@.len() ==> {
                &&& (#[trigger] final(scores)@[i]).path@ == old(scores)@[i].path@
                &&& -SCORE_LIMIT <= final(scores)@[i].score <= SCORE_LIMIT
                &&& final(scores)@[i].score == match max_of(
                    old(scores)@,
                    old(scores)@.len() as int,
                ) {
                    Some(max) => scaled_score(old(scores)@[i].score as int, max),
                    None => old(scores)@[i].score as int,
                }
            },
{
    let ghost initial = scores@;
    let n = scores.len();
    if n == 0 {
        return;
    }
    let mut max: Score = scores[0].score;
    let mut i: usize = 1;
    assert(max_of(initial, 0) is None);
    assert(max_of(initial, 1) == Some(max as int));
    while i < n
        invariant
            1 <= i <= n,
            n == scores@.len(),
            scores@ == initial,
            max_of(initial, i as int) == Some(max as int),
            -RAW_SCORE_LIMIT <= max <= RAW_SCORE_LIMIT,
            forall|k: int|
                0 <= k < initial.len() ==> -RAW_SCORE_LIMIT <= (#[trigger] initial[k]).score
                    <= RAW_SCORE_LIMIT,
        decreases n - i,
    {
        if scores[i].score > max {
            max = scores[i].score;
        }
        i += 1;
    }
    if max <= 0 {
        return;
    }
    let mut j: usize = 0;
    while j < n
        invariant
            j <= n,
            n == scores@.len(),
            n == initial.len(),
            0 < max <= RAW_SCORE_LIMIT,
            forall|k: int|
                0 <= k < initial.len() ==> -RAW_SCORE_LIMIT <= (#[trigger] initial[k]).score
                    <= RAW_SCORE_LIMIT,
            forall|k: int|
                0 <= k < j ==> (#[trigger] scores@[k]).path@ == initial[k].path@ && scores@[k].score
                    == scaled_score(initial[k].score as int, max as int) && -SCORE_LIMIT
                    <= scores@[k].score <= SCORE_LIMIT,
            forall|k: int| j <= k < n ==> (#[trigger] scores@[k]) == initial[k],
        decreases n - j,
    {
        let rounded = round_quotient(100 * scores[j].score, max);
        let path = scores[j].path.clone();
        scores.set(j, PathScore { path, score: 100 * rounded });
        j += 1;
    }
}

/// The score of `path`: that of the first entry for it, zero where there is none.
pub fn get_score(scores: &Vec<PathScore>, path: &str) -> (r: Score)
    ensures
        r == score_of(scores@, path@, 0),
{
    let mut i: usize = 0;
    while i < scores.len()
        invariant
            i <= scores.len(),
            score_of(scores@, path@, 0) == score_of(scores@, path@, i as int),
        decreases scores.len() - i,
    {
        if crate::shell_init::same_text(scores[i].path.as_str(), path) {
            return scores[i].score;
        }
        i += 1;
    }
    0
}

/// The scaled scores of the recorded paths, in the order of the records.
pub fn get_scores(records: &Vec<Visits>, now: u64) -> (r: Vec<PathScore>)
    ensures
        r@.len() == records@.len(),
        forall|i: int|
            0 <= i < r@.len() ==> {
                &&& (#[trigger] r@[i]).path@ == records@[i].path@
                &&& -SCORE_LIMIT <= r@[i].score <= SCORE_LIMIT
                &&& r@[i].score == match max_raw_score(records@, now as int, records@.len() as int) {
                    Some(max) => scaled_score(
                        raw_score(
                            records@[i].visits as int,
                            records@[i].last_accessed as int,
                            now as int,
                        ),
                        max,
                    ),
                    None => 0,
                }
            },
{
    let mut scores = raw_scores(records, now);
    proof {
        lemma_max_of_raw(records@, scores@, now as int, records@.len() as int);
    }
    normalize_scores(&mut scores);
    scores
}

} // verus!
