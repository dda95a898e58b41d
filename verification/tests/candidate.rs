use world_nav::candidate::{Candidate, MatchSegment};
use world_nav::path_shortener::{
    create_regular_path, shorten_path, ComponentType, PathContext, PathType, ShortPath,
    ShortPathPart,
};

fn context() -> PathContext {
    PathContext { repo: None, home: dirs::home_dir().map(|h| h.to_string_lossy().into_owned()) }
}

fn create_test_candidate(
    worktree: Option<&str>,
    project: Option<&str>,
    owner: Option<&str>,
    repo: Option<&str>,
    branch: Option<&str>,
) -> Candidate {
    let path = if let (Some(wt), Some(proj)) = (worktree, project) {
        format!("/world/trees/{wt}/src/areas/category/{proj}")
    } else if let (Some(own), Some(rp)) = (owner, repo) {
        format!("/home/user/src/github.com/{own}/{rp}")
    } else {
        "/path/to/project".to_string()
    };

    Candidate {
        path: path.clone(),
        shortpath: shorten_path(&path, &context()),
        branch: branch.map(String::from),
    }
}

fn joined(segments: &[MatchSegment]) -> String {
    segments.iter().map(|s| s.text.as_str()).collect()
}

fn assert_partition(candidate: &Candidate) {
    let segments = candidate.get_segments();
    let text = candidate.get_match_text();
    assert_eq!(joined(&segments), text);
    let mut expected_start = 0;
    for segment in &segments {
        assert_eq!(segment.start, expected_start);
        assert!(segment.start <= segment.end);
        assert_eq!(segment.end - segment.start, segment.text.chars().count());
        assert_ne!(segment.component_type, ComponentType::Icon);
        expected_start = segment.end;
    }
    assert_eq!(expected_start, text.chars().count());
}

#[test]
fn test_display_without_branch() {
    let candidate = create_test_candidate(Some("root"), Some("analytics"), None, None, None);
    let display = candidate.display();

    assert!(!display.contains(" ["), "Should not contain branch brackets with space before");
    assert!(display.contains("\x1b["), "Should contain ANSI color codes");
}

#[test]
fn test_display_with_branch() {
    let candidate =
        create_test_candidate(Some("root"), Some("analytics"), None, None, Some("feature-branch"));
    let display = candidate.display();

    assert!(display.contains("[feature-branch]"), "Should contain branch in brackets");
    assert!(display.contains("\x1b[2m["), "Branch should be dimmed");
}

#[test]
fn test_match_string_without_branch() {
    let candidate = create_test_candidate(Some("root"), Some("analytics"), None, None, None);
    let match_str = candidate.get_match_text();

    assert_eq!(match_str, "root//analytics");
    assert!(!match_str.contains("["), "Should not contain branch brackets");
}

#[test]
fn test_match_string_with_branch() {
    let candidate =
        create_test_candidate(Some("root"), Some("analytics"), None, None, Some("feature-branch"));
    let match_str = candidate.get_match_text();

    assert!(match_str.contains("feature-branch"), "get_match_text should contain branch name");
    assert!(
        !match_str.contains("[feature-branch]"),
        "get_match_text should not contain brackets around branch"
    );
}

#[test]
fn test_segments_with_multibyte_chars() {
    let candidate = create_test_candidate(Some("root"), Some("api"), None, None, None);
    let segments = candidate.get_segments();

    assert_eq!(segments[0].text, "root");
    assert_eq!(segments[0].start, 0);
    assert_eq!(segments[0].end, 4);

    assert_eq!(segments[1].text, "//");
    assert_eq!(segments[1].start, 4);
    assert_eq!(segments[1].end, 6);

    assert_eq!(segments[2].text, "api");
    assert_eq!(segments[2].start, 6);
    assert_eq!(segments[2].end, 9);
}

#[test]
fn test_match_string_segments() {
    let candidate = create_test_candidate(Some("root"), Some("analytics"), None, None, None);
    let segments = candidate.get_segments();

    assert!(!segments.is_empty(), "Should have some segments");

    let full_string: String = segments.iter().map(|s| s.text.as_str()).collect();
    assert_eq!(full_string, candidate.get_match_text());

    let candidate =
        create_test_candidate(Some("root"), Some("shopify"), None, None, Some("feature"));
    let segments = candidate.get_segments();

    assert!(segments.iter().any(|s| s.component_type == ComponentType::Branch));

    let full_string: String = segments.iter().map(|s| s.text.as_str()).collect();
    assert!(full_string.contains("feature"));
    assert!(!full_string.contains("[feature]"), "Should not have brackets");

    let mut expected_end = 0;
    for segment in &segments {
        assert_eq!(segment.start, expected_end, "Segment should start where previous ended");
        expected_end = segment.end;
        assert_eq!(
            segment.end - segment.start,
            segment.text.chars().count(),
            "Segment length should match text character count"
        );
    }
}

#[test]
fn segments_partition_text_with_emoji_and_non_latin_scalars() {
    let candidate = Candidate {
        path: "/x".to_string(),
        shortpath: ShortPath {
            path_type: PathType::GitHub {
                owner: "\u{6771}\u{4eac}".to_string(),
                repo: "caf\u{00e9}-\u{1f680}".to_string(),
            },
            segments: vec![
                "\u{1f600}smile".to_string(),
                "\u{43f}\u{440}\u{438}\u{432}\u{435}\u{442}".to_string(),
                "end\u{1f44d}\u{1f3fd}".to_string(),
            ],
        },
        branch: Some("fix/\u{00fc}ml\u{00e4}ut".to_string()),
    };
    assert_eq!(
        candidate.get_match_text(),
        "\u{6771}\u{4eac}/caf\u{00e9}-\u{1f680}/\u{1f600}/\u{43f}/end\u{1f44d}\u{1f3fd} fix/\u{00fc}ml\u{00e4}ut"
    );
    assert_partition(&candidate);
    let segments = candidate.get_segments();
    assert_eq!(segments[0].part, ShortPathPart::Prefix);
    assert_eq!((segments[0].start, segments[0].end), (0, 2));
    assert_eq!((segments[2].start, segments[2].end), (3, 9));
    let last = segments.last().unwrap();
    assert_eq!(last.component_type, ComponentType::Branch);
    assert_eq!(last.end - last.start, 10);
}

#[test]
fn segments_partition_for_every_path_type() {
    let types = vec![
        PathType::WorldTree { worktree: "w".to_string(), project: "p".to_string() },
        PathType::GitHub { owner: "o".to_string(), repo: "r".to_string() },
        PathType::GitHubRemote { owner: "o".to_string(), repo: "r".to_string() },
        PathType::Git { repo_name: "r".to_string() },
        PathType::Home,
        PathType::Regular,
    ];
    for path_type in types {
        for branch in [None, Some("dev".to_string())] {
            for segments in [vec![], vec!["a".to_string()], vec!["ab".to_string(), "cd".to_string()]]
            {
                let candidate = Candidate {
                    path: "/x".to_string(),
                    shortpath: ShortPath { path_type: path_type.clone(), segments },
                    branch: branch.clone(),
                };
                assert_partition(&candidate);
            }
        }
    }
}

#[test]
fn match_text_of_a_regular_path_has_no_icon() {
    let candidate = Candidate {
        path: "/usr/local/bin".to_string(),
        shortpath: create_regular_path("/usr/local/bin"),
        branch: None,
    };
    assert_eq!(candidate.get_match_text(), "u/l/bin");
    let copy = candidate.duplicate();
    assert_eq!(copy.path, candidate.path);
    assert_eq!(copy.shortpath, candidate.shortpath);
    assert_eq!(copy.branch, candidate.branch);
}
