use world_nav::frecency::{
    calculate_score, get_score, get_scores, normalize_scores, round_quotient, PathScore, Visits,
};
use world_nav::scoring::Score;

fn scores(values: &[Score]) -> Vec<PathScore> {
    values
        .iter()
        .enumerate()
        .map(|(i, v)| PathScore { path: format!("/p/{i}"), score: *v })
        .collect()
}

fn values(scores: &[PathScore]) -> Vec<Score> {
    scores.iter().map(|s| s.score).collect()
}

#[test]
fn test_calculate_score_time_decay() {
    let now = 1000000;

    let score_recent = calculate_score(10, now - 1800, now);
    let score_today = calculate_score(10, now - 7200, now);
    let score_this_week = calculate_score(10, now - 86400, now);
    let score_old = calculate_score(10, now - 604800, now);

    assert!(score_recent > score_today);
    assert!(score_today > score_this_week);
    assert!(score_this_week > score_old);

    assert_eq!(score_recent, 4000);
    assert_eq!(score_today, 2000);
    assert_eq!(score_this_week, 500);
    assert_eq!(score_old, 250);
}

#[test]
fn ages_at_the_edges_of_hour_day_and_week() {
    let now = 10_000_000;
    assert_eq!(calculate_score(1, now, now), 400);
    assert_eq!(calculate_score(1, now + 50, now), 400);
    assert_eq!(calculate_score(1, now - 3599, now), 400);
    assert_eq!(calculate_score(1, now - 3600, now), 200);
    assert_eq!(calculate_score(1, now - 86399, now), 200);
    assert_eq!(calculate_score(1, now - 86400, now), 50);
    assert_eq!(calculate_score(1, now - 604799, now), 50);
    assert_eq!(calculate_score(1, now - 604800, now), 25);
    assert_eq!(calculate_score(0, now, now), 0);
    assert_eq!(calculate_score(i64::MAX, 0, u64::MAX), 25 * (i64::MAX as Score));
}

#[test]
fn normalization_scales_the_greatest_to_a_hundred_points() {
    let mut s = scores(&[40000, 20000, 4000]);
    normalize_scores(&mut s);
    assert_eq!(values(&s), vec![10000, 5000, 1000]);
    assert_eq!(s[1].path, "/p/1");

    let mut s = scores(&[300, 100, 200, 1, 2, 0]);
    normalize_scores(&mut s);
    // 33.33 rounds to 33, 66.67 to 67, 0.33 to 0, 0.67 to 1
    assert_eq!(values(&s), vec![10000, 3300, 6700, 0, 100, 0]);

    let mut s = scores(&[200, 1, 3, -1, -3]);
    normalize_scores(&mut s);
    // halves round away from zero: 0.5 to 1, 1.5 to 2, -0.5 to -1, -1.5 to -2
    assert_eq!(values(&s), vec![10000, 100, 200, -100, -200]);
}

#[test]
fn scores_without_a_positive_greatest_stay() {
    let mut s = scores(&[0, 0]);
    normalize_scores(&mut s);
    assert_eq!(values(&s), vec![0, 0]);
    let mut s = scores(&[-5, -7]);
    normalize_scores(&mut s);
    assert_eq!(values(&s), vec![-5, -7]);
    let mut s = scores(&[]);
    normalize_scores(&mut s);
    assert!(s.is_empty());
}

#[test]
fn rounding_of_quotients() {
    assert_eq!(round_quotient(7, 2), 4);
    assert_eq!(round_quotient(-7, 2), -4);
    assert_eq!(round_quotient(5, 3), 2);
    assert_eq!(round_quotient(4, 3), 1);
    assert_eq!(round_quotient(-4, 3), -1);
    assert_eq!(round_quotient(0, 9), 0);
    assert_eq!(round_quotient(9, 9), 1);
}

#[test]
fn unknown_paths_score_zero() {
    let records = vec![
        Visits { path: "/test/most_visited".to_string(), visits: 100, last_accessed: 1000 },
        Visits { path: "/test/medium_visited".to_string(), visits: 50, last_accessed: 1000 },
        Visits { path: "/test/least_visited".to_string(), visits: 10, last_accessed: 1000 },
        Visits { path: "/test/accessed".to_string(), visits: 0, last_accessed: 1000 },
    ];
    let scores = get_scores(&records, 1000);
    assert_eq!(get_score(&scores, "/test/most_visited"), 10000);
    assert_eq!(get_score(&scores, "/test/medium_visited"), 5000);
    assert_eq!(get_score(&scores, "/test/least_visited"), 1000);
    assert_eq!(get_score(&scores, "/test/accessed"), 0);
    assert_eq!(get_score(&scores, "/nonexistent/path"), 0);
    assert_eq!(get_score(&get_scores(&vec![], 1000), "/test/most_visited"), 0);
    let twice = vec![
        PathScore { path: "/a".to_string(), score: 1 },
        PathScore { path: "/a".to_string(), score: 2 },
    ];
    assert_eq!(get_score(&twice, "/a"), 1);
}
