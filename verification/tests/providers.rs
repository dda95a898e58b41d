use world_nav::candidate::Candidate;
use world_nav::candidate_provider::CandidateProvider;
use world_nav::config::{ConfigManager, WorldNavConfig};
use world_nav::path_shortener::{shorten_path, PathContext};
use world_nav::provider::Provider;
use world_nav::src_provider::SrcProvider;
use world_nav::utils::{branch_label, expand_path, is_expandable};
use world_nav::worktree_provider::WorktreeProvider;

const DEFAULT_DEPTH_LIMIT: usize = 3;

struct TestProvider;

impl Provider for TestProvider {
    fn add_candidates(&self, candidates: &mut Vec<Candidate>) {
        let path = "/test/path";
        candidates.push(Candidate {
            path: path.to_string(),
            shortpath: shorten_path(path, &PathContext { repo: None, home: None }),
            branch: Some("feature".to_string()),
        });
    }
}

struct Doubling;

impl Provider for Doubling {
    fn add_candidates(&self, candidates: &mut Vec<Candidate>) {
        let copies: Vec<Candidate> = candidates.iter().map(|c| c.duplicate()).collect();
        candidates.extend(copies);
    }
}

#[test]
fn candidate_provider_test_custom_providers() {
    let providers: Vec<Box<dyn Provider>> = vec![Box::new(TestProvider)];
    let provider = CandidateProvider::with_providers(providers);
    let candidates = provider.get_candidates();

    assert_eq!(candidates.len(), 1);
    assert_eq!(candidates[0].path, "/test/path");
    assert_eq!(candidates[0].branch, Some("feature".to_string()));
}

#[test]
fn providers_are_asked_in_order_with_the_list_so_far() {
    let provider = CandidateProvider::with_providers(vec![]);
    assert!(provider.get_candidates().is_empty());
    let provider = CandidateProvider::with_providers(vec![
        Box::new(TestProvider),
        Box::new(Doubling),
        Box::new(TestProvider),
    ]);
    assert_eq!(provider.get_candidates().len(), 3);
    let provider = CandidateProvider::with_providers(vec![
        Box::new(Doubling),
        Box::new(TestProvider),
        Box::new(TestProvider),
        Box::new(Doubling),
    ]);
    assert_eq!(provider.get_candidates().len(), 4);
}

#[test]
fn test_create_src_providers_with_multiple_paths() {
    let config = WorldNavConfig {
        src_paths: vec!["/path/one".to_string(), "/path/two".to_string(), "~/projects".to_string()],
        depth_limit: Some(5),
        ..WorldNavConfig::default()
    };

    assert_eq!(config.src_paths.len(), 3);
    assert!(config.src_paths.contains(&"/path/one".to_string()));
    assert!(config.src_paths.contains(&"/path/two".to_string()));
    assert!(config.src_paths.contains(&"~/projects".to_string()));
    assert_eq!(config.depth_limit, Some(5));

    let expected_provider_count = config.src_paths.len();
    assert_eq!(expected_provider_count, 3);

    let providers = CandidateProvider::create_src_providers(&config, Some("/home/tester"));
    assert_eq!(providers.len(), 3);
    assert_eq!(providers[0].base_path, "/path/one");
    assert_eq!(providers[2].base_path, "/home/tester/projects");
    assert!(providers.iter().all(|p| p.depth_limit == 5));
    let providers = CandidateProvider::create_src_providers(&config, None);
    assert_eq!(providers[2].base_path, "~/projects");
}

#[test]
fn test_create_src_providers_empty_paths() {
    let config = WorldNavConfig { src_paths: vec![], ..WorldNavConfig::default() };

    assert_eq!(config.src_paths.len(), 0);

    let should_use_default = config.src_paths.is_empty();
    assert!(should_use_default);
    assert!(CandidateProvider::create_src_providers(&config, Some("/home/tester")).is_empty());
}

#[test]
fn src_provider_test_src_provider_creation() {
    let home = dirs::home_dir().map(|h| h.to_string_lossy().into_owned());
    let provider = SrcProvider::new(home.as_deref());
    assert_eq!(provider.depth_limit, DEFAULT_DEPTH_LIMIT);
}

#[test]
fn test_src_provider_with_custom_path() {
    let home = dirs::home_dir().map(|h| h.to_string_lossy().into_owned());
    let provider = SrcProvider::with_path("/custom/path", home.as_deref());
    assert!(provider.base_path.contains("custom/path"));
}

#[test]
fn test_src_provider_with_depth_limit() {
    let home = dirs::home_dir().map(|h| h.to_string_lossy().into_owned());
    let provider = SrcProvider::new(home.as_deref()).with_depth_limit(5);
    assert_eq!(provider.depth_limit, 5);
}

#[test]
fn default_configuration_and_its_providers() {
    let config = WorldNavConfig::default();
    assert_eq!(config.world_path, Some("~/world/trees".to_string()));
    assert_eq!(config.src_paths, vec!["~/src".to_string()]);
    assert_eq!(config.depth_limit, Some(3));
    assert_eq!(config.frecency_db_path, "~/.local/share/world-nav/frecency.db");
    let providers = CandidateProvider::create_src_providers(
        &WorldNavConfig { depth_limit: None, ..WorldNavConfig::default() },
        Some("/home/tester"),
    );
    assert_eq!(providers.len(), 1);
    assert_eq!(providers[0].base_path, "/home/tester/src");
    assert_eq!(providers[0].depth_limit, 3);
    assert_eq!(WorktreeProvider::new(&config).world_trees_path, Some("~/world/trees".to_string()));
    let none = WorldNavConfig { world_path: None, ..WorldNavConfig::default() };
    assert_eq!(WorktreeProvider::new(&none).world_trees_path, None);
    assert_eq!(
        WorktreeProvider::with_path("/w".to_string()).world_trees_path,
        Some("/w".to_string())
    );
}

#[test]
fn blank_source_paths_are_refused() {
    assert!(ConfigManager::validate(&WorldNavConfig::default()).is_ok());
    for bad in ["", " ", "\t \n"] {
        let config = WorldNavConfig {
            src_paths: vec!["~/src".to_string(), bad.to_string()],
            ..WorldNavConfig::default()
        };
        assert_eq!(
            ConfigManager::validate(&config),
            Err("Configuration contains empty source paths".to_string())
        );
    }
    let config = WorldNavConfig { src_paths: vec![], ..WorldNavConfig::default() };
    assert!(ConfigManager::validate(&config).is_ok());
}

#[test]
fn hidden_directories_and_repositories_are_not_entered() {
    assert!(SrcProvider::is_hidden(Some(".git")));
    assert!(SrcProvider::is_hidden(Some("_build")));
    assert!(!SrcProvider::is_hidden(Some("src")));
    assert!(!SrcProvider::is_hidden(Some("")));
    assert!(!SrcProvider::is_hidden(None));
    assert!(SrcProvider::enters(0, Some(".hidden"), true));
    assert!(SrcProvider::enters(1, Some("repo"), false));
    assert!(!SrcProvider::enters(1, Some("repo"), true));
    assert!(!SrcProvider::enters(2, Some(".cache"), false));
    assert!(SrcProvider::enters(2, None, false));
}

#[test]
fn source_directories_are_kept_with_the_home_directory_filled_in() {
    let home = Some("/home/tester");
    assert_eq!(SrcProvider::new(home).base_path, "/home/tester/src");
    assert_eq!(SrcProvider::new(Some("/home/tester/")).base_path, "/home/tester/src");
    assert_eq!(SrcProvider::new(None).base_path, "~/src");
    assert_eq!(SrcProvider::new(home).depth_limit, 3);
    assert_eq!(SrcProvider::with_path("~/x", home).base_path, "/home/tester/x");
    assert_eq!(SrcProvider::with_path("~/x/y", home).base_path, "/home/tester/x/y");
    assert_eq!(SrcProvider::with_path("~/x", None).base_path, "~/x");
    assert_eq!(SrcProvider::with_path("/custom/path", home).base_path, "/custom/path");
    assert_eq!(SrcProvider::with_path("relative", home).base_path, "relative");
    assert_eq!(SrcProvider::with_path("~/x", home).depth_limit, 3);
    assert_eq!(SrcProvider::with_path("~/x", home).with_depth_limit(0).base_path, "/home/tester/x");
}

#[test]
fn a_lone_tilde_cannot_be_expanded() {
    let home = Some("/home/tester");
    assert!(is_expandable("~/x", home));
    assert!(is_expandable("~x", home));
    assert!(is_expandable("", home));
    assert!(is_expandable("/x", home));
    assert!(!is_expandable("~", home));
    assert!(!is_expandable("~\u{e9}t\u{e9}", home));
    assert!(is_expandable("~", None));
    assert!(is_expandable("~\u{e9}t\u{e9}", None));
    assert_eq!(expand_path("~", None), "~");
    assert_eq!(expand_path("~x", home), "/home/tester/");
    assert_eq!(expand_path("~xy", home), "/home/tester/y");
}

#[test]
fn test_expand_path_with_home() {
    let home = "/home/tester";
    assert_eq!(expand_path("~/test", Some(home)), "/home/tester/test");
    assert_eq!(expand_path("~/sub/path", Some(home)), "/home/tester/sub/path");
    assert_eq!(expand_path("~/x", Some("/home/tester/")), "/home/tester/x");
    assert_eq!(expand_path("~//etc", Some(home)), "/etc");
    assert_eq!(expand_path("~/", Some(home)), "/home/tester/");
    assert_eq!(expand_path("~/test", None), "~/test");
}

#[test]
fn test_expand_path_without_home() {
    assert_eq!(expand_path("/absolute/path", Some("/home/tester")), "/absolute/path");
    assert_eq!(expand_path("relative/path", Some("/home/tester")), "relative/path");
    assert_eq!(expand_path("", Some("/home/tester")), "");
}

#[test]
fn main_and_master_are_no_branch_labels() {
    assert_eq!(branch_label(true, Some("feature")), Some("feature".to_string()));
    assert_eq!(branch_label(true, Some("main")), None);
    assert_eq!(branch_label(true, Some("master")), None);
    assert_eq!(branch_label(true, Some("mainline")), Some("mainline".to_string()));
    assert_eq!(branch_label(false, Some("feature")), None);
    assert_eq!(branch_label(true, None), None);
}
