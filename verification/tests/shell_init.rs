use world_nav::shell_init::{
    code_config, get_shell_function, get_shell_init, navigation_config, validate_function_name,
};

#[test]
fn test_shell_init_commands() {
    let exe_path = "/usr/local/bin/world-nav";
    let function_name = "j";

    let output =
        get_shell_init("fish", exe_path, Some(function_name), &navigation_config()).unwrap();
    assert!(output.contains("function j"));
    assert!(output.contains(exe_path));
    assert!(output.contains("cd"));

    let output =
        get_shell_init("zsh", exe_path, Some(function_name), &navigation_config()).unwrap();
    assert!(output.contains("j ()"));
    assert!(output.contains(exe_path));
    assert!(output.contains("cd"));
}

#[test]
fn test_validate_function_name() {
    assert!(validate_function_name("valid_name").is_ok());
    assert!(validate_function_name("valid-name").is_ok());
    assert!(validate_function_name("valid123").is_ok());
    assert!(validate_function_name("").is_ok());

    assert!(validate_function_name("invalid name").is_err());
    assert!(validate_function_name("invalid!name").is_err());
    assert!(validate_function_name("invalid@name").is_err());
}

#[test]
fn test_get_shell_function() {
    let output = get_shell_function("fish", "test_func", "/bin/world-nav", "--list", "cd");
    assert!(output.contains("function test_func"));
    assert!(output.contains("/bin/world-nav --list"));
    assert!(output.contains("cd $paths"));

    let output = get_shell_function("bash", "test_func", "/bin/world-nav", "--list", "cd");
    assert!(output.contains("test_func ()"));
    assert!(output.contains("/bin/world-nav --list"));
    assert!(output.contains("cd $paths"));

    let output = get_shell_function("zsh", "test_func", "/bin/world-nav", "--list", "cd");
    assert!(output.contains("test_func ()"));
    assert!(output.contains("/bin/world-nav --list"));
    assert!(output.contains("cd ${paths[@]}"));
}

#[test]
fn test_unsupported_shell() {
    let result = get_shell_init("powershell", "/bin/world-nav", Some("j"), &navigation_config());
    assert!(result.is_err());
    if let Err(err_msg) = result {
        assert!(err_msg.contains("Unsupported shell: powershell"));
    }
}

#[test]
fn shell_functions_are_spelled_out_exactly() {
    assert_eq!(
        get_shell_function("fish", "wl", "/bin/nav", "", "cd"),
        "function wl\n    set -l paths (/bin/nav  $argv)\n    if test (count $paths) -gt 0\n        cd $paths\n    end\nend"
    );
    assert_eq!(
        get_shell_function("bash", "jc", "nav", "--multi", "code"),
        "jc () {\n    local paths\n    paths=$(nav --multi \"$@\")\n    if [[ -n \"$paths\" ]]; then\n        code $paths\n    fi\n}"
    );
    assert_eq!(
        get_shell_function("zsh", "jc", "nav", "--multi", "code"),
        "jc () {\n    local paths\n    paths=($(nav --multi \"$@\"))\n    if [[ ${#paths[@]} -gt 0 ]]; then\n        code ${paths[@]}\n    fi\n}"
    );
    assert_eq!(get_shell_function("powershell", "jc", "nav", "--multi", "code"), "");
}

#[test]
fn default_names_and_error_messages() {
    let output = get_shell_init("bash", "nav", None, &code_config()).unwrap();
    assert!(output.starts_with("jc () {"));
    assert!(output.contains("paths=$(nav --multi \"$@\")"));
    let output = get_shell_init("fish", "nav", None, &navigation_config()).unwrap();
    assert!(output.starts_with("function wl\n"));
    assert_eq!(
        validate_function_name("a b"),
        Err("Function name 'a b' contains invalid characters. Use only letters, numbers, underscores, and hyphens.".to_string())
    );
    assert_eq!(
        get_shell_init("powershell", "nav", Some("a b"), &navigation_config()),
        Err("Function name 'a b' contains invalid characters. Use only letters, numbers, underscores, and hyphens.".to_string())
    );
    assert_eq!(
        get_shell_init("powershell", "nav", Some("ok"), &navigation_config()),
        Err("Unsupported shell: powershell".to_string())
    );
    assert!(validate_function_name("\u{00e9}t\u{00e9}_9").is_ok());
}
