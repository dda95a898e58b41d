//! Small rules on paths and branch names.

use crate::text::{chars_of, string_from_range, string_of_chars};
use vstd::prelude::*;
use vstd::string::StringExecFns;

verus! {

/// `path` below `base`: `path` alone where it starts at the root; else
/// `base`, a slash unless `base` is empty or ends in one, and `path`.
pub open spec fn joined(base: Seq<char>, path: Seq<char>) -> Seq<char> {
    if path.len() > 0 && path[0] == '/' {
        path
    } else if base.len() == 0 || base.last() == '/' {
        base + path
    } else {
        base + seq!['/'] + path
    }
}

/// A path with a leading `~` replaced by the home directory: what follows
/// the `~` and the scalar behind it is joined to `home`. A path without a
/// leading `~` stays as it is, and so does every path where no home
/// directory is known.
pub open spec fn expanded(path: Seq<char>, home: Option<Seq<char>>) -> Seq<char> {
    match home {
        Some(home) => if path.len() > 0 && path[0] == '~' {
            joined(home, path.skip(2))
        } else {
            path
        },
        None => path,
    }
}

/// Whether a path can be expanded: where the home directory is known, a
/// path that begins with `~` has to go on with one more scalar of one
/// byte, a slash as a rule, which is dropped with the `~`.
pub open spec fn can_expand(path: Seq<char>, home: Option<Seq<char>>) -> bool {
    home is Some && path.len() > 0 && path[0] == '~' ==> path.len() >= 2 && (path[1] as u32) < 128
}

/// Whether a path can be expanded.
pub fn is_expandable(path: &str, home: Option<&str>) -> (r: bool)
    ensures
        r == can_expand(
            path@,
            match home {
                Some(h) => Some(h@),
                None => None,
            },
        ),
{
    let chars = chars_of(path);
    match home {
        Some(_) => chars.len() == 0 || chars[0] != '~' || (chars.len() >= 2 && (chars[1] as u32)
            < 128),
        None => true,
    }
}

/// Replaces a leading `~` by the home directory.
pub fn expand_path(path: &str, home: Option<&str>) -> (r: String)
    requires
        can_expand(
            path@,
            match home {
                Some(h) => Some(h@),
                None => None,
            },
        ),
    ensures
        r@ == expanded(
            path@,
            match home {
                Some(h) => Some(h@),
                None => None,
            },
        ),
{
    let chars = chars_of(path);
    match home {
        Some(home) => {
            if chars.len() > 0 && chars[0] == '~' {
                let rest = string_from_range(&chars, 2, chars.len());
                assert(rest@ =~= path@.skip(2));
                let home_chars = chars_of(home);
                if chars.len() > 2 && chars[2] == '/' {
                    rest
                } else {
                    let mut out = string_of_chars(&home_chars);
                    if home_chars.len() > 0 && home_chars[home_chars.len() - 1] != '/' {
                        out.append("/");
                        proof {
                            reveal_strlit("/");
                            assert("/"@ =~= seq!['/']);
                        }
                    }
                    out.append(rest.as_str());
                    out
                }
            } else {
                path.to_owned()
            }
        },
        None => path.to_owned(),
    }
}

/// The branch that is shown for a repository whose head has the short name
/// `shorthand`: none unless the head is a branch, and none for the branches
/// `main` and `master`.
pub open spec fn shown_branch(is_branch: bool, shorthand: Option<Seq<char>>) -> Option<Seq<char>> {
    match shorthand {
        Some(name) => if is_branch && name != "master"@ && name != "main"@ {
            Some(name)
        } else {
            None
        },
        None => None,
    }
}

/// Picks the branch label of a candidate from the head of its repository.
pub fn branch_label(is_branch: bool, shorthand: Option<&str>) -> (r: Option<String>)
    ensures
        match r {
            Some(name) => shown_branch(
                is_branch,
                match shorthand {
                    Some(s) => Some(s@),
                    None => None,
                },
            ) == Some(name@),
            None => shown_branch(
                is_branch,
                match shorthand {
                    Some(s) => Some(s@),
                    None => None,
                },
            ) is None,
        },
{
    if !is_branch {
        return None;
    }
    match shorthand {
        Some(name) => {
            if crate::shell_init::same_text(name, "master") || crate::shell_init::same_text(
                name,
                "main",
            ) {
                None
            } else {
                Some(name.to_owned())
            }
        },
        None => None,
    }
}

} // verus!
