//! Shell functions that call the navigator and act on the paths it prints.

use crate::text::{char_is_alphanumeric, chars_of, is_alphanumeric, same_chars};
use vstd::prelude::*;
use vstd::string::StringExecFns;

verus! {

/// How a shell function calls the program and what it does with the result.
pub struct ShellCommandConfig {
    /// Arguments for the program, in front of those of the user.
    pub args: &'static str,
    /// The command that is run on the paths that come back.
    pub result_command: &'static str,
    /// The name of the shell function where the user gives none.
    pub default_name: &'static str,
}

/// Change directory to the path that was picked.
pub fn navigation_config() -> (r: ShellCommandConfig)
    ensures
        r.args@ == ""@,
        r.result_command@ == "cd"@,
        r.default_name@ == "wl"@,
{
    ShellCommandConfig { args: "", result_command: "cd", default_name: "wl" }
}

/// Open the paths that were picked in the editor.
pub fn code_config() -> (r: ShellCommandConfig)
    ensures
        r.args@ == "--multi"@,
        r.result_command@ == "code"@,
        r.default_name@ == "jc"@,
{
    ShellCommandConfig { args: "--multi", result_command: "code", default_name: "jc" }
}

/// A scalar that may stand in the name of a shell function: a letter, a
/// digit, an underscore or a hyphen.
pub open spec fn is_name_char(c: char) -> bool {
    is_alphanumeric(c) || c == '_' || c == '-'
}

/// A name that a shell function may have. The empty name counts as one.
pub open spec fn is_valid_function_name(name: Seq<char>) -> bool {
    forall|i: int| 0 <= i < name.len() ==> is_name_char(#[trigger] name[i])
}

/// What is said of a name that no shell function may have.
pub open spec fn invalid_name_message(name: Seq<char>) -> Seq<char> {
    "Function name '"@ + name
        + "' contains invalid characters. Use only letters, numbers, underscores, and hyphens."@
}

/// What is said of a shell for which there is no function.
pub open spec fn unsupported_shell_message(shell: Seq<char>) -> Seq<char> {
    "Unsupported shell: "@ + shell
}

/// The program with its arguments.
pub open spec fn command_line(exe_path: Seq<char>, args: Seq<char>) -> Seq<char> {
    exe_path + " "@ + args
}

/// The function for fish.
pub open spec fn fish_function(
    function_name: Seq<char>,
    command: Seq<char>,
    result_command: Seq<char>,
) -> Seq<char> {
    "function "@ + function_name + "\n    set -l paths ("@ + command
        + " $argv)\n    if test (count $paths) -gt 0\n        "@ + result_command
        + " $paths\n    end\nend"@
}

/// The function for bash.
pub open spec fn bash_function(
    function_name: Seq<char>,
    command: Seq<char>,
    result_command: Seq<char>,
) -> Seq<char> {
    function_name + " () {\n    local paths\n    paths=$("@ + command
        + " \"$@\")\n    if [[ -n \"$paths\" ]]; then\n        "@ + result_command
        + " $paths\n    fi\n}"@
}

/// The function for zsh.
pub open spec fn zsh_function(
    function_name: Seq<char>,
    command: Seq<char>,
    result_command: Seq<char>,
) -> Seq<char> {
    function_name + " () {\n    local paths\n    paths=($("@ + command
        + " \"$@\"))\n    if [[ ${#paths[@]} -gt 0 ]]; then\n        "@ + result_command
        + " ${paths[@]}\n    fi\n}"@
}

/// Whether there is a function for this shell.
pub open spec fn is_supported_shell(shell: Seq<char>) -> bool {
    shell == "fish"@ || shell == "bash"@ || shell == "zsh"@
}

/// The function for `shell`; the empty text for a shell that has none.
pub open spec fn shell_function(
    shell: Seq<char>,
    function_name: Seq<char>,
    exe_path: Seq<char>,
    args: Seq<char>,
    result_command: Seq<char>,
) -> Seq<char> {
    let command = command_line(exe_path, args);
    if shell == "fish"@ {
        fish_function(function_name, command, result_command)
    } else if shell == "bash"@ {
        bash_function(function_name, command, result_command)
    } else if shell == "zsh"@ {
        zsh_function(function_name, command, result_command)
    } else {
        Seq::empty()
    }
}

/// The outcome of [`get_shell_init`]: the function under the given name or
/// the default one, unless the name is invalid or the shell has no function.
pub open spec fn shell_init(
    shell: Seq<char>,
    exe_path: Seq<char>,
    function_name: Option<Seq<char>>,
    config: ShellCommandConfig,
) -> Result<Seq<char>, Seq<char>> {
    let name = match function_name {
        Some(name) => name,
        None => config.default_name@,
    };
    if !is_valid_function_name(name) {
        Err(invalid_name_message(name))
    } else if !is_supported_shell(shell) {
        Err(unsupported_shell_message(shell))
    } else {
        Ok(shell_function(shell, name, exe_path, config.args@, config.result_command@))
    }
}

/// Whether two texts are the same.
pub fn same_text(a: &str, b: &str) -> (r: bool)
    ensures
        r == (a@ == b@),
{
    same_chars(&chars_of(a), &chars_of(b))
}

/// The text of a shell function named `function_name` that runs
/// `exe_path` with `args` and the arguments it is called with, and hands
/// the paths that come back to `result_command`. For a shell other than
/// fish, bash and zsh the text is empty.
pub fn get_shell_function(
    shell: &str,
    function_name: &str,
    exe_path: &str,
    args: &str,
    result_command: &str,
) -> (r: String)
    ensures
        r@ == shell_function(shell@, function_name@, exe_path@, args@, result_command@),
{
    let mut command = String::new();
    command.append(exe_path);
    command.append(" ");
    command.append(args);
    assert(command@ =~= command_line(exe_path@, args@));

    let mut out = String::new();
    if same_text(shell, "fish") {
        out.append("function ");
        out.append(function_name);
        out.append("\n    set -l paths (");
        out.append(command.as_str());
        out.append(" $argv)\n    if test (count $paths) -gt 0\n        ");
        out.append(result_command);
        out.append(" $paths\n    end\nend");
        assert(out@ =~= fish_function(function_name@, command@, result_command@));
    } else if same_text(shell, "bash") {
        out.append(function_name);
        out.append(" () {\n    local paths\n    paths=$(");
        out.append(command.as_str());
        out.append(" \"$@\")\n    if [[ -n \"$paths\" ]]; then\n        ");
        out.append(result_command);
        out.append(" $paths\n    fi\n}");
        assert(out@ =~= bash_function(function_name@, command@, result_command@));
    } else if same_text(shell, "zsh") {
        out.append(function_name);
        out.append(" () {\n    local paths\n    paths=($(");
        out.append(command.as_str());
        out.append(" \"$@\"))\n    if [[ ${#paths[@]} -gt 0 ]]; then\n        ");
        out.append(result_command);
        out.append(" ${paths[@]}\n    fi\n}");
        assert(out@ =~= zsh_function(function_name@, command@, result_command@));
    }
    out
}

/// Accepts a name made of letters, digits, underscores and hyphens only;
/// any other name is refused with a message that quotes it.
pub fn validate_function_name(name: &str) -> (r: Result<(), String>)
    ensures
        r is Ok <==> is_valid_function_name(name@),
        r matches Err(message) ==> message@ == invalid_name_message(name@),
{
    let chars = chars_of(name);
    let mut i: usize = 0;
    while i < chars.len()
        invariant
            i <= chars.len(),
            chars@ == name@,
            forall|k: int| 0 <= k < i ==> is_name_char(#[trigger] chars@[k]),
        decreases chars.len() - i,
    {
        let c = chars[i];
        if !(char_is_alphanumeric(c) || c == '_' || c == '-') {
            let mut message = String::new();
            message.append("Function name '");
            message.append(name);
            message.append(
                "' contains invalid characters. Use only letters, numbers, underscores, and hyphens.",
            );
            assert(message@ =~= invalid_name_message(name@));
            assert(!is_name_char(name@[i as int]));
            return Err(message);
        }
        i += 1;
    }
    Ok(())
}

/// The shell function for `shell` under `function_name`, or under the
/// default name of `config` where none is given. The name is checked
/// first; then a shell other than fish, bash and zsh is refused.
pub fn get_shell_init(
    shell: &str,
    exe_path: &str,
    function_name: Option<&str>,
    config: &ShellCommandConfig,
) -> (r: Result<String, String>)
    ensures
        match (r, shell_init(
            shell@,
            exe_path@,
            match function_name {
                Some(name) => Some(name@),
                None => None,
            },
            *config,
        )) {
            (Ok(text), Ok(expected)) => text@ == expected,
            (Err(message), Err(expected)) => message@ == expected,
            _ => false,
        },
{
    let function_name: &str = match function_name {
        Some(name) => name,
        None => config.default_name,
    };
    match validate_function_name(function_name) {
        Err(message) => {
            return Err(message);
        },
        Ok(_) => {},
    }
    if same_text(shell, "fish") || same_text(shell, "bash") || same_text(shell, "zsh") {
        Ok(get_shell_function(shell, function_name, exe_path, config.args, config.result_command))
    } else {
        let mut message = String::new();
        message.append("Unsupported shell: ");
        message.append(shell);
        assert(message@ =~= unsupported_shell_message(shell@));
        Err(message)
    }
}

/// What the argument for the required version is.
#[derive(Debug, Clone, PartialEq)]
pub enum VersionArgument {
    /// The path of a manifest to read the version from.
    Manifest,
    /// A path at which there is no manifest, with what is said of it.
    Missing(String),
    /// A version requirement.
    Requirement(String),
}

/// What a [`VersionArgument`] holds, as plain sequences.
pub enum VersionArgumentView {
    Manifest,
    Missing(Seq<char>),
    Requirement(Seq<char>),
}

impl View for VersionArgument {
    type V = VersionArgumentView;

    open spec fn view(&self) -> VersionArgumentView {
        match self {
            VersionArgument::Manifest => VersionArgumentView::Manifest,
            VersionArgument::Missing(message) => VersionArgumentView::Missing(message@),
            VersionArgument::Requirement(requirement) => VersionArgumentView::Requirement(
                requirement@,
            ),
        }
    }
}

/// What is said of a path at which there is no manifest.
pub open spec fn missing_version_file_message(argument: Seq<char>) -> Seq<char> {
    "Version file not found: "@ + argument
}

/// How the argument for the required version is read: as a manifest where
/// it is the path of one that exists; as a missing file where it looks
/// like a path, that is, holds a slash or a backslash; else as a requirement.
pub open spec fn version_argument(argument: Seq<char>, is_manifest: bool) -> VersionArgumentView {
    if is_manifest {
        VersionArgumentView::Manifest
    } else if argument.contains('/') || argument.contains('\\') {
        VersionArgumentView::Missing(missing_version_file_message(argument))
    } else {
        VersionArgumentView::Requirement(argument)
    }
}

/// Decides how the argument for the required version is read.
/// `is_manifest` says whether it is the path of an existing file whose
/// extension is `toml`.
pub fn classify_version_argument(argument: &str, is_manifest: bool) -> (r: VersionArgument)
    ensures
        r@ == version_argument(argument@, is_manifest),
{
    if is_manifest {
        return VersionArgument::Manifest;
    }
    let chars = chars_of(argument);
    if crate::text::has_char(&chars, '/') || crate::text::has_char(&chars, '\\') {
        let mut message = String::new();
        message.append("Version file not found: ");
        message.append(argument);
        assert(message@ =~= missing_version_file_message(argument@));
        VersionArgument::Missing(message)
    } else {
        VersionArgument::Requirement(argument.to_owned())
    }
}

/// The requirement that a version read from a manifest stands for: that
/// version or one compatible with it.
pub fn caret_requirement(version: &str) -> (r: String)
    ensures
        r@ == seq!['^'] + version@,
{
    let mut out = String::new();
    crate::text::push_char(&mut out, '^');
    out.append(version);
    assert(out@ =~= seq!['^'] + version@);
    out
}

/// Whether a version satisfies a requirement, as the `semver` crate
/// decides it; `None` where the version or the requirement cannot be read.
pub uninterp spec fn semver_matches(requirement: Seq<char>, version: Seq<char>) -> Option<bool>;

/// Reads `version` with `semver::Version::parse` and `requirement` with
/// `semver::VersionReq::parse`, and asks `VersionReq::matches`. The
/// contract gives the outcome its name and claims nothing else of it.
#[verifier::external_body]
pub(crate) fn requirement_matches(requirement: &str, version: &str) -> (r: Option<bool>)
    ensures
        r == semver_matches(requirement@, version@),
{
    let version = semver::Version::parse(version).ok()?;
    let requirement = semver::VersionReq::parse(requirement).ok()?;
    Some(requirement.matches(&version))
}

/// What comes of a check of a version against a requirement.
pub fn compatibility(matches: Option<bool>) -> (r: bool)
    ensures
        r == (matches == Some(true)),
{
    match matches {
        Some(satisfied) => satisfied,
        None => false,
    }
}

/// Whether the version of the program satisfies the requirement. A
/// version or a requirement that cannot be read satisfies nothing.
pub fn check_version_compatibility(require_version: &str, current_version: &str) -> (r: bool)
    ensures
        r == (semver_matches(require_version@, current_version@) == Some(true)),
{
    compatibility(requirement_matches(require_version, current_version))
}

/// A shell for which integration code is generated from a template.
#[derive(Debug, Clone, Copy, PartialEq, Eq, Structural)]
pub enum Shell {
    Fish,
    Zsh,
}

/// What the integration code is generated from.
#[derive(Debug, Clone)]
pub struct ShellInitArgs {
    /// The shell to generate code for.
    pub shell: Shell,
    /// The name of the navigation command.
    pub navigate: String,
    /// The name of the command that opens the editor.
    pub code: String,
    /// The version that is required, or the path of a manifest that holds it.
    pub require_version: Option<String>,
    /// Leave out the navigation function.
    pub no_navigate: bool,
    /// Leave out the editor function.
    pub no_code: bool,
    /// Leave out the hook that records visits.
    pub no_frecency: bool,
    /// Leave out the hook that updates the prompt segments.
    pub no_segments: bool,
}

/// The switches that a template is rendered with.
#[derive(Debug, Clone, Copy, PartialEq, Eq, Structural)]
pub struct TemplateSwitches {
    pub init_navigate: bool,
    pub init_code: bool,
    pub init_frecency: bool,
    pub init_segments: bool,
}

impl Shell {
    /// The name of the template for the shell.
    pub fn template_name(&self) -> (r: &'static str)
        ensures
            r@ == match self {
                Shell::Fish => "fish"@,
                Shell::Zsh => "zsh"@,
            },
    {
        match self {
            Shell::Fish => "fish",
            Shell::Zsh => "zsh",
        }
    }
}

impl ShellInitArgs {
    /// Each part is generated unless it is switched off.
    pub fn switches(&self) -> (r: TemplateSwitches)
        ensures
            r.init_navigate == !self.no_navigate,
            r.init_code == !self.no_code,
            r.init_frecency == !self.no_frecency,
            r.init_segments == !self.no_segments,
    {
        TemplateSwitches {
            init_navigate: !self.no_navigate,
            init_code: !self.no_code,
            init_frecency: !self.no_frecency,
            init_segments: !self.no_segments,
        }
    }
}

} // verus!
