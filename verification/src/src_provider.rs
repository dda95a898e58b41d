//! Where repositories are looked for, and which directories the search enters.

use crate::config::{DEFAULT_DEPTH_LIMIT, DEFAULT_SRC_PATH};
use crate::text::chars_of;
use crate::utils::{can_expand, expand_path, expanded};
use vstd::prelude::*;

verus! {

/// A directory that is scanned for repositories, and how deep.
#[derive(Debug, Clone)]
pub struct SrcProvider {
    /// The directory the scan starts at, with a leading `~` replaced by the
    /// home directory where that is known.
    pub base_path: String,
    /// How many levels below the base path are entered: with 0 only the
    /// base path itself is looked at.
    pub depth_limit: usize,
}

/// A name that begins with a dot or an underscore.
pub open spec fn is_hidden_name(name: Seq<char>) -> bool {
    name.len() > 0 && (name[0] == '.' || name[0] == '_')
}

impl SrcProvider {
    /// The default source directory, below the home directory `home` where
    /// one is known, with the default depth.
    pub fn new(home: Option<&str>) -> (r: Self)
        ensures
            r.base_path@ == expanded(
                DEFAULT_SRC_PATH@,
                match home {
                    Some(h) => Some(h@),
                    None => None,
                },
            ),
            r.depth_limit == DEFAULT_DEPTH_LIMIT,
    {
        proof {
            reveal_strlit("~/src");
        }
        SrcProvider {
            base_path: expand_path(DEFAULT_SRC_PATH, home),
            depth_limit: DEFAULT_DEPTH_LIMIT,
        }
    }

    /// `path`, with a leading `~` replaced by the home directory `home`
    /// where one is known, and the default depth.
    pub fn with_path(path: &str, home: Option<&str>) -> (r: Self)
        requires
            can_expand(
                path@,
                match home {
                    Some(h) => Some(h@),
                    None => None,
                },
            ),
        ensures
            r.base_path@ == expanded(
                path@,
                match home {
                    Some(h) => Some(h@),
                    None => None,
                },
            ),
            r.depth_limit == DEFAULT_DEPTH_LIMIT,
    {
        SrcProvider { base_path: expand_path(path, home), depth_limit: DEFAULT_DEPTH_LIMIT }
    }

    /// The same directory with another depth.
    pub fn with_depth_limit(self, depth_limit: usize) -> (r: Self)
        ensures
            r.base_path == self.base_path,
            r.depth_limit == depth_limit,
    {
        let mut provider = self;
        provider.depth_limit = depth_limit;
        provider
    }

    /// Whether a directory is hidden: its name begins with a dot or an
    /// underscore. A directory whose name is no text is not hidden.
    pub fn is_hidden(name: Option<&str>) -> (r: bool)
        ensures
            r == match name {
                Some(name) => is_hidden_name(name@),
                None => false,
            },
    {
        match name {
            Some(name) => {
                let chars = chars_of(name);
                chars.len() > 0 && (chars[0] == '.' || chars[0] == '_')
            },
            None => false,
        }
    }

    /// Whether the scan enters a directory `depth` levels below the base
    /// path: always the base path itself; below it no hidden directory and
    /// no directory that lies directly in a repository.
    pub fn enters(depth: usize, name: Option<&str>, parent_is_repository: bool) -> (r: bool)
        ensures
            r == (depth == 0 || (!parent_is_repository && !match name {
                Some(name) => is_hidden_name(name@),
                None => false,
            })),
    {
        if depth == 0 {
            return true;
        }
        !Self::is_hidden(name) && !parent_is_repository
    }
}

} // verus!
