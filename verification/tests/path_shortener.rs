use world_nav::path_shortener::{
    check_git_path, check_home_path, check_world_tree_path, create_regular_path,
    extract_github_info, shorten_path, split_path, PathContext, PathType, RepoInfo, ShortPath,
    ShortPathPart, SYMBOL_GIT, SYMBOL_GITHUB, SYMBOL_GITHUB_INVERTED, SYMBOL_HOME, SYMBOL_ROOT,
    SYMBOL_WORLD,
};
use world_nav::path_shortener::ComponentType;
use world_nav::path_shortener::ShortPathPart::{BranchPart, Infix, Prefix, Suffix};

fn home_string() -> Option<String> {
    dirs::home_dir().map(|h| h.to_string_lossy().into_owned())
}

fn no_repo() -> PathContext {
    PathContext { repo: None, home: home_string() }
}

#[test]
fn path_shortener_test_regular_path() {
    let path = "/usr/local/share/man/man1/bash.1";
    let result = create_regular_path(path);
    assert_eq!(result.build(1, &[Prefix]), "/");
    assert_eq!(result.build(1, &[Infix]), "u/l/s/m/m");
    assert_eq!(result.build(1, &[Suffix]), "/bash.1");
    assert_eq!(result.build(1, &[Prefix, Infix, Suffix]), "/u/l/s/m/m/bash.1");

    let result = create_regular_path(path);
    assert_eq!(result.build(2, &[Prefix]), "/");
    assert_eq!(result.build(2, &[Infix]), "u/l/s/m");
    assert_eq!(result.build(2, &[Suffix]), "/man1/bash.1");
    assert_eq!(result.build(2, &[Prefix, Infix, Suffix]), "/u/l/s/m/man1/bash.1");
}

#[test]
fn path_shortener_test_home_path() {
    if let Some(home_dir) = dirs::home_dir() {
        let test_path = home_dir.join("Documents/projects/notes/todo.txt");
        let home = home_dir.to_string_lossy().into_owned();
        if let Some(result) = check_home_path(&test_path.to_string_lossy(), Some(home.as_str())) {
            assert_eq!(result.build(1, &[Prefix]), "~");
            assert!(
                !result.build(1, &[Infix]).is_empty() || !result.build(1, &[Suffix]).is_empty()
            );
        }
    }
}

#[test]
fn path_shortener_test_world_tree_path() {
    let path = "/Users/username/world/trees/project-name/src/areas/clients/some-web/components";
    let result = check_world_tree_path(path);
    assert!(result.is_some());

    let result = result.unwrap();
    assert_eq!(result.build(1, &[Prefix]), format!("{SYMBOL_WORLD}project-name//some-web"));
    assert_eq!(result.build(1, &[Infix]), "");
    assert_eq!(result.build(1, &[Suffix]), "/components");
    assert_eq!(
        result.build(1, &[Prefix, Infix, Suffix]),
        format!("{SYMBOL_WORLD}project-name//some-web/components")
    );
}

#[test]
fn path_shortener_test_create_regular_path_root() {
    let result = create_regular_path("/");
    assert_eq!(result.build(1, &[Prefix]), "/");
    assert_eq!(result.build(1, &[Infix]), "");
    assert_eq!(result.build(1, &[Suffix]), "");
    assert_eq!(result.build(1, &[Prefix, Infix, Suffix]), "/");
}

#[test]
fn path_shortener_test_create_regular_path_with_max_segments() {
    let path = "/a/b/c/d/e";

    let result = create_regular_path(path);
    assert_eq!(result.build(1, &[Prefix]), "/");
    assert_eq!(result.build(1, &[Infix]), "a/b/c/d");
    assert_eq!(result.build(1, &[Suffix]), "/e");
    assert_eq!(result.build(1, &[Prefix, Infix, Suffix]), "/a/b/c/d/e");

    let result = create_regular_path(path);
    assert_eq!(result.build(2, &[Prefix]), "/");
    assert_eq!(result.build(2, &[Infix]), "a/b/c");
    assert_eq!(result.build(2, &[Suffix]), "/d/e");
    assert_eq!(result.build(2, &[Prefix, Infix, Suffix]), "/a/b/c/d/e");

    let result = create_regular_path(path);
    assert_eq!(result.build(10, &[Prefix]), "/");
    assert_eq!(result.build(10, &[Infix]), "");
    assert_eq!(result.build(10, &[Suffix]), "a/b/c/d/e");
    assert_eq!(result.build(10, &[Prefix, Infix, Suffix]), "/a/b/c/d/e");
}

#[test]
fn path_shortener_test_extract_github_info() {
    assert_eq!(
        extract_github_info("/home/user/github.com/owner/repo"),
        Some(("owner".to_string(), "repo".to_string()))
    );
    assert_eq!(
        extract_github_info("/Users/user/work/github.com/myorg/myproject"),
        Some(("myorg".to_string(), "myproject".to_string()))
    );
    assert_eq!(
        extract_github_info("/some/deeply/nested/path/github.com/foo/bar"),
        Some(("foo".to_string(), "bar".to_string()))
    );
    assert_eq!(
        extract_github_info("/path/github.com/owner/repo/"),
        Some(("owner".to_string(), "repo".to_string()))
    );
    assert_eq!(
        extract_github_info("git@github.com:owner/repo.git"),
        Some(("owner".to_string(), "repo".to_string()))
    );
    assert_eq!(
        extract_github_info("git@github.com:owner/repo"),
        Some(("owner".to_string(), "repo".to_string()))
    );
    assert_eq!(
        extract_github_info("https://github.com/owner/repo.git"),
        Some(("owner".to_string(), "repo".to_string()))
    );
    assert_eq!(
        extract_github_info("https://github.com/owner/repo"),
        Some(("owner".to_string(), "repo".to_string()))
    );
    assert_eq!(
        extract_github_info("/some/path/to/github.com/too/many/parts/"),
        Some(("too".to_string(), "many".to_string()))
    );
    assert_eq!(
        extract_github_info("/path/github.com/owner/repo/subdir"),
        Some(("owner".to_string(), "repo".to_string()))
    );
    assert_eq!(extract_github_info("/path/github.com/onlyowner"), None);
    assert_eq!(extract_github_info("/path/github.com/"), None);
    assert_eq!(extract_github_info("/path/gitlab.com/owner/repo"), None);
    assert_eq!(extract_github_info("git@gitlab.com:owner/repo.git"), None);
    assert_eq!(extract_github_info("https://bitbucket.org/owner/repo.git"), None);
    assert_eq!(extract_github_info("git@github.com:owner"), None);
    assert_eq!(extract_github_info("https://github.com/owner"), None);
}

#[test]
fn test_display_world_tree() {
    let path = "/world/trees/myproject/src/areas/category/analytics";
    let result = check_world_tree_path(path).unwrap();

    let display = result.display(None);
    assert!(display.contains("\x1b[34m"), "Should contain blue color for world tree");
    assert!(display.contains(SYMBOL_WORLD), "Should contain world tree symbol");
    assert!(display.contains("myproject"), "Should contain worktree");
    assert!(display.contains("analytics"), "Should contain project");

    let display_with_branch = result.display(Some("feature-branch".to_string()));
    assert!(
        display_with_branch.contains("[feature-branch]"),
        "Should contain branch in brackets"
    );
    assert!(display_with_branch.contains("\x1b[2m["), "Branch should be dimmed");
}

#[test]
fn test_display_github() {
    let shortpath = ShortPath {
        path_type: PathType::GitHub { owner: "owner".to_string(), repo: "repo".to_string() },
        segments: vec!["src".to_string(), "main.rs".to_string()],
    };

    let display = shortpath.display(None);
    assert!(display.contains("\x1b[35m"), "Should contain magenta color for GitHub");
    assert!(display.contains(SYMBOL_GITHUB), "Should contain GitHub symbol");
    assert!(display.contains("owner"), "Should contain owner");
    assert!(display.contains("repo"), "Should contain repo");
}

#[test]
fn test_display_git() {
    let shortpath = ShortPath {
        path_type: PathType::Git { repo_name: "my-project".to_string() },
        segments: vec!["src".to_string(), "lib.rs".to_string()],
    };

    let display = shortpath.display(None);
    assert!(display.contains("\x1b[32m"), "Should contain green color for Git");
    assert!(display.contains(SYMBOL_GIT), "Should contain Git symbol");
    assert!(display.contains("my-project"), "Should contain repo name");
}

#[test]
fn test_display_github_remote() {
    let shortpath = ShortPath {
        path_type: PathType::GitHubRemote {
            owner: "microsoft".to_string(),
            repo: "vscode".to_string(),
        },
        segments: vec!["extensions".to_string()],
    };

    let display = shortpath.display(None);
    assert!(display.contains("\x1b[32m"), "Should contain green color for GitHub remote");
    assert!(display.contains(SYMBOL_GITHUB_INVERTED), "Should contain inverted GitHub symbol");
    assert!(display.contains("microsoft"), "Should contain owner");
    assert!(display.contains("vscode"), "Should contain repo");
}

#[test]
fn test_display_home() {
    if let Some(home_dir) = dirs::home_dir() {
        let test_path = home_dir.join("Documents/projects/notes.txt");
        let home = home_dir.to_string_lossy().into_owned();
        if let Some(result) = check_home_path(&test_path.to_string_lossy(), Some(home.as_str())) {
            let display = result.display(None);
            assert!(display.contains("\x1b[33m"), "Should contain yellow color for home");
            assert!(display.contains(SYMBOL_HOME), "Should contain home symbol");
        }
    }
}

#[test]
fn test_display_regular() {
    let path = "/usr/local/bin/cargo";
    let result = create_regular_path(path);

    let display = result.display(None);
    assert!(display.contains("\x1b[90m"), "Should contain dark gray color for regular");
    assert!(display.contains(SYMBOL_ROOT), "Should contain root symbol");
}

#[test]
fn test_display_colors_and_components() {
    let path = "/world/trees/shop/src/areas/category/analytics/components/chart.tsx";
    let result = check_world_tree_path(path).unwrap();
    let display = result.display(Some("main".to_string()));

    assert!(display.contains("\x1b["), "Should contain ANSI color codes");
    assert!(display.contains("\x1b[0m"), "Should contain reset codes");
    assert!(display.contains("\x1b[2m[main]"), "Branch should be dimmed");
}

#[test]
fn test_shortpath_colored_output() {
    let test_cases = vec![
        ("/world/trees/shop/src/areas/analytics/dashboard", true, vec!["shop", "dashboard"]),
        ("/tmp/github.com/owner/repo", true, vec!["/", "repo"]),
        ("~", true, vec!["~"]),
        ("/usr/local/bin", true, vec!["/", "bin"]),
    ];

    for (path, should_have_colors, should_contain) in test_cases {
        let shortpath = shorten_path(path, &no_repo());
        let colored = shortpath.display(None);

        if should_have_colors {
            assert!(
                colored.contains("\x1b["),
                "Output should contain ANSI color codes for path: {path}"
            );
        }

        for text in should_contain {
            assert!(colored.contains(text), "Output should contain '{text}' for path: {path}");
        }
    }
}

#[test]
fn test_shortpath_all_sections() {
    let path = "/world/trees/shop/src/areas/analytics/dashboard";
    let shortpath = shorten_path(path, &no_repo());

    let full = shortpath.build(
        1,
        &[ShortPathPart::Prefix, ShortPathPart::Infix, ShortPathPart::Suffix],
    );
    let prefix = shortpath.build(1, &[ShortPathPart::Prefix]);
    let _infix = shortpath.build(1, &[ShortPathPart::Infix]);
    let suffix = shortpath.build(1, &[ShortPathPart::Suffix]);
    let colored = shortpath.display(None);

    assert!(full.contains("shop"));
    assert!(prefix.contains("shop"));
    assert!(prefix.contains("dashboard"));
    assert_eq!(suffix, "");
    assert!(colored.contains("\x1b["), "Colored section should contain ANSI color codes");
}

#[test]
fn classification_scenario_world_tree() {
    let shortpath =
        shorten_path("/world/trees/shop/src/areas/analytics/dashboard", &no_repo());
    assert_eq!(
        shortpath.path_type,
        PathType::WorldTree { worktree: "shop".to_string(), project: "dashboard".to_string() }
    );
    assert!(shortpath.segments.is_empty());
    let prefix = shortpath.build(1, &[Prefix]);
    assert!(prefix.contains("shop") && prefix.contains("dashboard"));
    assert_eq!(shortpath.build(1, &[Suffix]), "");
}

#[test]
fn world_tree_without_project_folder() {
    let shortpath = check_world_tree_path("/home/u/world/trees/main/docs/guide").unwrap();
    assert_eq!(
        shortpath.path_type,
        PathType::WorldTree { worktree: "main".to_string(), project: String::new() }
    );
    assert_eq!(shortpath.segments, vec!["docs".to_string(), "guide".to_string()]);
    assert_eq!(shortpath.build(1, &[Prefix]), format!("{SYMBOL_WORLD}main//"));
    assert_eq!(shortpath.build(1, &[Infix]), "/d");
    assert_eq!(shortpath.build(1, &[Suffix]), "/guide");
    assert!(check_world_tree_path("/usr/local/bin").is_none());
}

#[test]
fn world_tree_wins_over_repository_and_home() {
    let context = PathContext {
        repo: Some(RepoInfo { root: "/home/u/world/trees/main".to_string(), origin_url: None }),
        home: Some("/home/u".to_string()),
    };
    let shortpath = shorten_path("/home/u/world/trees/main/src/areas/core/checkout/lib", &context);
    assert_eq!(
        shortpath.path_type,
        PathType::WorldTree { worktree: "main".to_string(), project: "checkout".to_string() }
    );
    assert_eq!(shortpath.segments, vec!["lib".to_string()]);
}

#[test]
fn repository_classifications() {
    let on_github =
        RepoInfo { root: "/home/u/src/github.com/acme/tool/".to_string(), origin_url: None };
    let p = check_git_path("/home/u/src/github.com/acme/tool/src/bin", &on_github).unwrap();
    assert_eq!(
        p.path_type,
        PathType::GitHub { owner: "acme".to_string(), repo: "tool".to_string() }
    );
    assert_eq!(p.segments, vec!["src".to_string(), "bin".to_string()]);
    assert_eq!(p.build(1, &[Prefix, Infix, Suffix]), format!("{SYMBOL_GITHUB}acme/tool/s/bin"));

    let by_origin = RepoInfo {
        root: "/work/tool".to_string(),
        origin_url: Some("git@github.com:acme/tool.git".to_string()),
    };
    let p = check_git_path("/work/tool", &by_origin).unwrap();
    assert_eq!(
        p.path_type,
        PathType::GitHubRemote { owner: "acme".to_string(), repo: "tool".to_string() }
    );
    assert!(p.segments.is_empty());

    let plain = RepoInfo {
        root: "/work/tool".to_string(),
        origin_url: Some("https://example.org/acme/tool.git".to_string()),
    };
    let p = check_git_path("/work/tool/docs", &plain).unwrap();
    assert_eq!(p.path_type, PathType::Git { repo_name: "tool".to_string() });
    assert_eq!(p.segments, vec!["docs".to_string()]);
    assert_eq!(p.build(1, &[Prefix]), format!("{SYMBOL_GIT}tool"));

    assert!(check_git_path("/elsewhere/docs", &plain).is_none());
    let context = PathContext { repo: Some(plain), home: None };
    assert_eq!(shorten_path("/elsewhere/docs", &context).path_type, PathType::Regular);
}

#[test]
fn home_is_a_textual_prefix() {
    let p = check_home_path("/home/user", Some("/home/user")).unwrap();
    assert_eq!(p.path_type, PathType::Home);
    assert!(p.segments.is_empty());
    let p = check_home_path("/home/username2/x", Some("/home/user")).unwrap();
    assert_eq!(p.segments, vec!["name2".to_string(), "x".to_string()]);
    assert!(check_home_path("/var/log", Some("/home/user")).is_none());
    assert!(check_home_path("/home/user/x", None).is_none());
    let context = PathContext { repo: None, home: Some("/home/user".to_string()) };
    let p = shorten_path("/home/user/a/b", &context);
    assert_eq!(p.build(1, &[Prefix, Infix, Suffix]), "~/a/b");
}

#[test]
fn empty_and_separator_only_paths_are_regular() {
    let context = PathContext { repo: None, home: None };
    for path in ["", "/", "///", "."] {
        let p = shorten_path(path, &context);
        assert_eq!(p.path_type, PathType::Regular);
        assert!(p.segments.iter().all(|s| !s.is_empty()));
    }
    assert!(shorten_path("///", &context).segments.is_empty());
    assert_eq!(split_path("//a///b/"), vec!["a".to_string(), "b".to_string()]);
}

#[test]
fn abbreviation_takes_the_first_scalar_not_the_first_byte() {
    let p = create_regular_path("/\u{00e9}t\u{00e9}/\u{65e5}\u{672c}\u{8a9e}/\u{1f600}grin/end");
    assert_eq!(p.build(1, &[Infix]), "\u{00e9}/\u{65e5}/\u{1f600}");
    assert_eq!(p.build(1, &[Suffix]), "/end");
    let components = p.components(1, Some("dev".to_string()));
    assert_eq!(components[0], (Prefix, ComponentType::Icon, "/".to_string()));
    assert_eq!(components[1], (Infix, ComponentType::Shortened, "\u{00e9}".to_string()));
    assert_eq!(components[2], (Infix, ComponentType::Separator, "/".to_string()));
    let n = components.len();
    assert_eq!(components[n - 2], (BranchPart, ComponentType::Separator, " ".to_string()));
    assert_eq!(components[n - 1], (BranchPart, ComponentType::Branch, "dev".to_string()));
}

#[test]
fn regular_reconstruction_on_single_scalar_segments() {
    let path = "/a/b/c/d/e";
    let p = create_regular_path(path);
    for n in 0..8usize {
        let rebuilt = format!("{}{}", p.build(n, &[Infix]), p.build(n, &[Suffix]));
        assert_eq!(rebuilt, &path[1..]);
    }
    let long = create_regular_path("/usr/local/bin");
    assert_eq!(format!("{}{}", long.build(5, &[Infix]), long.build(5, &[Suffix])), "usr/local/bin");
    assert_eq!(format!("{}{}", long.build(1, &[Infix]), long.build(1, &[Suffix])), "u/l/bin");
}

#[test]
fn classification_is_repeatable() {
    let context = PathContext {
        repo: Some(RepoInfo {
            root: "/w/r".to_string(),
            origin_url: Some("https://github.com/o/r".to_string()),
        }),
        home: Some("/w".to_string()),
    };
    for path in ["/w/r/a/b", "/w/x", "/world/trees/t/src/areas/c/p/q", "/z"] {
        assert_eq!(shorten_path(path, &context), shorten_path(path, &context));
    }
}
