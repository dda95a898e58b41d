use world_nav::path_shortener::{check_world_tree_path, create_regular_path, SYMBOL_WORLD};
use world_nav::sections::{
    check_stdin_sections, parse_sections, render_section, render_section_lines, Section,
};
use world_nav::shell_init::{
    caret_requirement, check_version_compatibility, classify_version_argument, Shell,
    ShellInitArgs, VersionArgument,
};

#[test]
fn section_names_are_read_from_a_list() {
    assert_eq!(parse_sections("full"), Ok(vec![Section::Full]));
    assert_eq!(
        parse_sections("prefix,shortened,normal,full,colored,all"),
        Ok(vec![
            Section::Prefix,
            Section::Shortened,
            Section::Normal,
            Section::Full,
            Section::Colored,
            Section::All
        ])
    );
    assert_eq!(
        parse_sections(" prefix ,\tnormal\n"),
        Ok(vec![Section::Prefix, Section::Normal])
    );
}

#[test]
fn the_first_unknown_section_is_refused() {
    let message = |name: &str| {
        Err(format!(
            "Invalid section '{name}'. Valid sections are: prefix, shortened, normal, full, colored, all"
        ))
    };
    assert_eq!(parse_sections("prefix,bogus,normal,worse"), message("bogus"));
    assert_eq!(parse_sections(""), message(""));
    assert_eq!(parse_sections("prefix,"), message(""));
    assert_eq!(parse_sections(",prefix"), message(""));
    assert_eq!(parse_sections("prefix, ,x"), message(""));
    assert_eq!(parse_sections("Prefix"), message("Prefix"));
    assert_eq!(parse_sections("pre fix"), message("pre fix"));
    assert_eq!(parse_sections("  a b  ,full"), message("a b"));
}

#[test]
fn several_sections_do_not_go_with_stdin() {
    assert!(check_stdin_sections(&vec![Section::Full], true).is_ok());
    assert!(check_stdin_sections(&vec![], true).is_ok());
    assert!(check_stdin_sections(&vec![Section::Full, Section::Prefix], false).is_ok());
    assert_eq!(
        check_stdin_sections(&vec![Section::Full, Section::Prefix], true),
        Err("Multiple sections are not supported with --stdin".to_string())
    );
}

#[test]
fn sections_of_a_path() {
    let p = create_regular_path("/usr/local/bin");
    assert_eq!(render_section(&p, Section::Prefix, 1), "/");
    assert_eq!(render_section(&p, Section::Shortened, 1), "u/l");
    assert_eq!(render_section(&p, Section::Normal, 1), "/bin");
    assert_eq!(render_section(&p, Section::Full, 1), "/u/l/bin");
    assert_eq!(render_section(&p, Section::Full, 2), "/u/local/bin");
    assert_eq!(render_section(&p, Section::All, 1), "/u/l/bin");
    assert_eq!(render_section(&p, Section::Colored, 7), p.display(None));
    assert_eq!(render_section_lines(&p, Section::Normal, 1), vec!["/bin".to_string()]);
    assert_eq!(
        render_section_lines(&p, Section::All, 1),
        vec![
            "Full:       /u/l/bin".to_string(),
            "Prefix:     /".to_string(),
            "Shortened:  u/l".to_string(),
            "Normal:     /bin".to_string(),
            format!("Colored:    {}", p.display(None)),
        ]
    );
    let w = check_world_tree_path("/world/trees/t/src/areas/c/p/a/b").unwrap();
    assert_eq!(render_section(&w, Section::Full, 1), format!("{SYMBOL_WORLD}t//p/a/b"));
}

#[test]
fn the_version_argument_is_a_manifest_a_missing_file_or_a_requirement() {
    assert_eq!(classify_version_argument("Cargo.toml", true), VersionArgument::Manifest);
    assert_eq!(classify_version_argument("../x/Cargo.toml", true), VersionArgument::Manifest);
    assert_eq!(
        classify_version_argument("../x/Cargo.toml", false),
        VersionArgument::Missing("Version file not found: ../x/Cargo.toml".to_string())
    );
    assert_eq!(
        classify_version_argument("c:\\x", false),
        VersionArgument::Missing("Version file not found: c:\\x".to_string())
    );
    assert_eq!(
        classify_version_argument("^0.5.1", false),
        VersionArgument::Requirement("^0.5.1".to_string())
    );
    assert_eq!(
        classify_version_argument("Cargo.toml", false),
        VersionArgument::Requirement("Cargo.toml".to_string())
    );
    assert_eq!(caret_requirement("0.5.1"), "^0.5.1");
}

#[test]
fn versions_are_checked_by_semver_rules() {
    assert!(check_version_compatibility("^0.3.0", "0.3.7"));
    assert!(!check_version_compatibility("^0.3.0", "0.4.0"));
    assert!(check_version_compatibility("~0.3.0", "0.3.9"));
    assert!(check_version_compatibility(">=0.2.0", "1.0.0"));
    assert!(!check_version_compatibility(">=0.2.0", "0.1.9"));
    assert!(!check_version_compatibility("not a requirement", "1.0.0"));
    assert!(!check_version_compatibility("^1.0.0", "not a version"));
    assert!(!check_version_compatibility("1.0.0", "1"));
}

#[test]
fn templates_and_their_switches() {
    assert_eq!(Shell::Fish.template_name(), "fish");
    assert_eq!(Shell::Zsh.template_name(), "zsh");
    let args = ShellInitArgs {
        shell: Shell::Zsh,
        navigate: "j".to_string(),
        code: "jc".to_string(),
        require_version: None,
        no_navigate: false,
        no_code: true,
        no_frecency: false,
        no_segments: true,
    };
    let switches = args.switches();
    assert!(switches.init_navigate);
    assert!(!switches.init_code);
    assert!(switches.init_frecency);
    assert!(!switches.init_segments);
}
