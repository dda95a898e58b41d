use world_nav::candidate::Candidate;
use world_nav::navigator::{direct_selection, has_clear_winner, list, navigate, Navigation};
use world_nav::scoring::format_score;
use world_nav::path_shortener::{shorten_path, PathContext, PathType, ShortPath};
use world_nav::scorer::OptimalScorer;
use world_nav::scoring::Score;
use world_nav::worktree_collector::{sort_by_total, CandidateItem, WorktreeCollector};

fn regular(path: &str) -> Candidate {
    Candidate {
        path: path.to_string(),
        shortpath: shorten_path(path, &PathContext { repo: None, home: None }),
        branch: None,
    }
}

fn item(path: &str, score: Score, frecency_score: Score, worktree_adjustment: Score) -> CandidateItem {
    CandidateItem {
        candidate: regular(path),
        score,
        frecency_score,
        worktree_adjustment,
        show_scores: false,
        index: 0,
    }
}

fn with_totals(totals: &[Score]) -> Vec<CandidateItem> {
    totals.iter().enumerate().map(|(i, t)| item(&format!("/p/{i}"), *t, 0, 0)).collect()
}

fn paths(items: &[CandidateItem]) -> Vec<String> {
    items.iter().map(|i| i.candidate.path.clone()).collect()
}

#[test]
fn test_candidate_item_total_score() {
    let candidate = Candidate {
        path: "/test/path".to_string(),
        shortpath: shorten_path("/test/path", &PathContext { repo: None, home: None }),
        branch: None,
    };

    let item = CandidateItem {
        candidate,
        score: 5000,
        frecency_score: 3000,
        worktree_adjustment: 2000,
        show_scores: false,
        index: 0,
    };

    assert_eq!(item.total_score(), 10000);
}

#[test]
fn ranking_scenario_direct_selection_and_fall_through() {
    let clear = with_totals(&[30000, 5000]);
    assert_eq!(direct_selection(&clear), Some(0));
    assert_eq!(navigate(&clear, "q", false, true), Navigation::Paths(vec!["/p/0".to_string()]));

    let close = with_totals(&[12000, 10000]);
    assert_eq!(direct_selection(&close), None);
    assert_eq!(navigate(&close, "q", false, true), Navigation::Interactive);
}

#[test]
fn clear_winner_thresholds_are_strict() {
    // ratio exactly 1.5, difference exactly 100 points: neither holds
    assert!(!has_clear_winner(30000, 20000));
    assert!(!has_clear_winner(29999, 20000));
    assert!(has_clear_winner(30001, 20000));
    assert!(!has_clear_winner(150, 100));
    assert!(has_clear_winner(151, 100));
    assert!(!has_clear_winner(110000, 100000));
    assert!(has_clear_winner(110001, 100000));
    // a second total of zero: the quotient is unbounded for a positive first
    assert!(has_clear_winner(1, 0));
    assert!(!has_clear_winner(0, 0));
    assert!(!has_clear_winner(-1, 0));
    // a negative second total: only the difference can decide
    assert!(!has_clear_winner(1000, -5000));
    assert!(has_clear_winner(6000, -5000));
    assert!(!has_clear_winner(-2000, -5000));
    // two negative totals, the first below the second: the quotient decides
    assert!(!has_clear_winner(-7500, -5000));
    assert!(has_clear_winner(-7501, -5000));
}

#[test]
fn one_survivor_is_picked_and_none_is_not() {
    let one = with_totals(&[1]);
    assert_eq!(direct_selection(&one), Some(0));
    assert_eq!(navigate(&one, "q", false, true), Navigation::Paths(vec!["/p/0".to_string()]));
    let none: Vec<CandidateItem> = vec![];
    assert_eq!(direct_selection(&none), None);
    assert_eq!(navigate(&none, "q", false, true), Navigation::Interactive);
}

#[test]
fn without_a_terminal_all_paths_come_back() {
    let items = with_totals(&[12000, 10000, 50]);
    let all = Navigation::Paths(vec!["/p/0".to_string(), "/p/1".to_string(), "/p/2".to_string()]);
    assert_eq!(navigate(&items, "q", false, false), all);
    assert_eq!(navigate(&items, "", true, false), all);
    assert_eq!(navigate(&Vec::new(), "q", false, false), Navigation::Paths(vec![]));
}

#[test]
fn multi_selection_and_empty_query_always_ask() {
    let clear = with_totals(&[30000, 5000]);
    assert_eq!(navigate(&clear, "q", true, true), Navigation::Interactive);
    assert_eq!(navigate(&clear, "", false, true), Navigation::Interactive);
}

#[test]
fn sorting_is_by_total_greatest_first_and_stable() {
    let mut items = vec![
        item("/a", 100, 0, 0),
        item("/b", 50, 100, 0),
        item("/c", 300, 0, -250),
        item("/d", 0, 0, 150),
        item("/e", 149, 0, 0),
        item("/f", 10, 20, 20),
    ];
    sort_by_total(&mut items);
    assert_eq!(paths(&items), vec!["/b", "/d", "/e", "/a", "/c", "/f"]);
    let totals: Vec<Score> = items.iter().map(|i| i.total_score()).collect();
    assert_eq!(totals, vec![150, 150, 149, 100, 50, 50]);
    let mut empty: Vec<CandidateItem> = vec![];
    sort_by_total(&mut empty);
    assert!(empty.is_empty());
}

#[test]
fn filter_and_score_keeps_matches_and_ranks_them() {
    let candidates = vec![
        regular("/srv/alpha"),
        regular("/srv/beta"),
        Candidate {
            path: "/world/trees/main/src/areas/core/alphabet".to_string(),
            shortpath: ShortPath {
                path_type: PathType::WorldTree {
                    worktree: "main".to_string(),
                    project: "alphabet".to_string(),
                },
                segments: vec![],
            },
            branch: None,
        },
        regular("/srv/gamma"),
    ];
    let scorer = OptimalScorer::new("/world/trees/main/src/areas/core/other".to_string());
    let collector = WorktreeCollector::new(candidates, scorer, vec![0, 10000, 2500], true);

    let ranked = collector.filter_and_score("alpha");
    // the whole component "alpha" is spelled in the first, only begun in the second
    assert_eq!(
        paths(&ranked),
        vec!["/srv/alpha", "/world/trees/main/src/areas/core/alphabet"]
    );
    for (i, item) in ranked.iter().enumerate() {
        assert_eq!(item.index, i);
        assert!(item.score > 0);
        assert!(item.show_scores);
        assert_eq!(
            item.score,
            collector.scorer.score_candidate(&item.candidate, "alpha")
        );
    }
    assert_eq!(ranked[1].worktree_adjustment, 20000);
    assert_eq!(ranked[1].frecency_score, 2500);
    assert_eq!(ranked[0].worktree_adjustment, -5000);
    assert_eq!(ranked[0].frecency_score, 0);
    assert!(ranked[0].total_score() >= ranked[1].total_score());
    // "s/alpha": 200 + 100 + 200 + 400 + 400, + 750, - 50, - 0.5 * 2, + 500
    assert_eq!(ranked[0].score, 249900);
    assert_eq!(ranked[0].total_score(), 244900);

    assert!(collector.filter_and_score("zzz").is_empty());

    // a candidate whose best alignment scores below zero does not match
    let far = regular(&format!("/a{}b", "x".repeat(200)));
    assert!(OptimalScorer::default().score_candidate(&far, "ab") < 0);
    let distant = WorktreeCollector::new(vec![far], OptimalScorer::default(), vec![90000], false);
    assert!(distant.filter_and_score("ab").is_empty());
    assert_eq!(distant.filter_and_score("").len(), 1);

    let all = collector.filter_and_score("");
    assert_eq!(all.len(), 4);
    assert!(all.iter().all(|i| i.score == 0));
    // totals: 22500 for the worktree, then 5000, -5000, -5000 in input order
    assert_eq!(
        paths(&all),
        vec![
            "/world/trees/main/src/areas/core/alphabet",
            "/srv/beta",
            "/srv/alpha",
            "/srv/gamma"
        ]
    );
    assert_eq!(all[3].frecency_score, 0);
    assert_eq!(all.iter().map(|i| i.index).collect::<Vec<_>>(), vec![0, 1, 2, 3]);
}

#[test]
fn scores_are_written_with_two_decimals() {
    assert_eq!(format_score(0), "0.00");
    assert_eq!(format_score(5), "0.05");
    assert_eq!(format_score(-5), "-0.05");
    assert_eq!(format_score(50), "0.50");
    assert_eq!(format_score(100), "1.00");
    assert_eq!(format_score(43940), "439.40");
    assert_eq!(format_score(-5000), "-50.00");
    assert_eq!(format_score(123456789), "1234567.89");
    assert_eq!(format_score(-16150), "-161.50");
    assert_eq!(
        format_score(Score::MAX),
        "1701411834604692317316873037158841057.27"
    );
    assert_eq!(
        format_score(Score::MIN),
        "-1701411834604692317316873037158841057.28"
    );
}

#[test]
fn list_lines_with_and_without_scores() {
    let items = vec![item("/a", 39900, 10000, -5000), item("/b c", 150, 0, 0)];
    assert_eq!(list(&items, false), vec!["/a".to_string(), "/b c".to_string()]);
    assert_eq!(
        list(&items, true),
        vec![
            "(total:449.00, score:399.00, frecency:100.00, worktree:-50.00) /a".to_string(),
            "(total:1.50, score:1.50, frecency:0.00, worktree:0.00) /b c".to_string(),
        ]
    );
    let mut shown = item("/usr/bin", 150, 0, 0);
    assert_eq!(shown.display(), shown.candidate.display());
    assert_eq!(shown.text(), "u/bin");
    shown.show_scores = true;
    assert_eq!(
        shown.display(),
        format!("{} \x1b[2m(1.50)\x1b[0m", shown.candidate.display())
    );
}

#[test]
fn test_candidate_item_display() {
    let candidate = Candidate {
        path: "/test/path".to_string(),
        shortpath: shorten_path("/test/path", &PathContext { repo: None, home: None }),
        branch: Some("feature".to_string()),
    };

    let item = CandidateItem {
        candidate: candidate.duplicate(),
        score: 5000,
        frecency_score: 3000,
        worktree_adjustment: 2000,
        show_scores: false,
        index: 0,
    };

    assert_eq!(item.text(), candidate.get_match_text());

    let item_with_scores = CandidateItem {
        candidate: candidate.duplicate(),
        score: 5000,
        frecency_score: 3000,
        worktree_adjustment: 2000,
        show_scores: true,
        index: 0,
    };

    assert_eq!(item_with_scores.total_score(), 10000);
    assert!(item_with_scores.display().ends_with(" \x1b[2m(100.00)\x1b[0m"));
}
