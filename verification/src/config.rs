//! The configuration of the navigator, as plain values.

use crate::path_shortener::{option_view, strings_view};
use crate::text::{char_is_whitespace, chars_of, is_whitespace};
use vstd::prelude::*;

verus! {

/// Where the world trees are looked for unless the configuration says otherwise.
pub const DEFAULT_WORLD_PATH: &'static str = "~/world/trees";

/// Where repositories are looked for unless the configuration says otherwise.
pub const DEFAULT_SRC_PATH: &'static str = "~/src";

/// How deep repositories are looked for unless the configuration says otherwise.
pub const DEFAULT_DEPTH_LIMIT: usize = 3;

/// Where the frecency database lies below the home directory.
pub const DEFAULT_FRECENCY_DB_PATH: &'static str = "~/.local/share/world-nav/frecency.db";

/// What is said of a configuration with a blank source path.
pub const EMPTY_SOURCE_PATH_MESSAGE: &'static str = "Configuration contains empty source paths";

/// The settings of the navigator. A leading `~` in a path stands for the
/// home directory.
#[derive(Debug, Clone)]
pub struct WorldNavConfig {
    /// Where the world trees are, if there are any.
    pub world_path: Option<String>,
    /// The directories that are scanned for repositories.
    pub src_paths: Vec<String>,
    /// How deep they are scanned; [`DEFAULT_DEPTH_LIMIT`] where this is `None`.
    pub depth_limit: Option<usize>,
    /// Where the frecency database is.
    pub frecency_db_path: String,
}

/// What a [`WorldNavConfig`] holds, as plain values.
pub struct WorldNavConfigView {
    pub world_path: Option<Seq<char>>,
    pub src_paths: Seq<Seq<char>>,
    pub depth_limit: Option<usize>,
    pub frecency_db_path: Seq<char>,
}

impl View for WorldNavConfig {
    type V = WorldNavConfigView;

    open spec fn view(&self) -> WorldNavConfigView {
        WorldNavConfigView {
            world_path: option_view(self.world_path),
            src_paths: strings_view(self.src_paths@),
            depth_limit: self.depth_limit,
            frecency_db_path: self.frecency_db_path@,
        }
    }
}

impl Default for WorldNavConfig {
    /// The settings of a user who has configured nothing. The database path
    /// is the usual place below the home directory; a caller that knows the
    /// data directory of the platform puts that in its place.
    fn default() -> (r: Self)
        ensures
            r@.world_path == Some(DEFAULT_WORLD_PATH@),
            r@.src_paths == seq![DEFAULT_SRC_PATH@],
            r@.depth_limit == Some(DEFAULT_DEPTH_LIMIT),
            r@.frecency_db_path == DEFAULT_FRECENCY_DB_PATH@,
    {
        let mut src_paths: Vec<String> = Vec::new();
        src_paths.push(DEFAULT_SRC_PATH.to_owned());
        assert(strings_view(src_paths@) =~= seq![DEFAULT_SRC_PATH@]);
        WorldNavConfig {
            world_path: Some(DEFAULT_WORLD_PATH.to_owned()),
            src_paths,
            depth_limit: Some(DEFAULT_DEPTH_LIMIT),
            frecency_db_path: DEFAULT_FRECENCY_DB_PATH.to_owned(),
        }
    }
}

/// A text of white space only; the empty text is one.
pub open spec fn is_blank(s: Seq<char>) -> bool {
    forall|i: int| 0 <= i < s.len() ==> is_whitespace(#[trigger] s[i])
}

/// Whether a text holds white space only.
pub fn blank(s: &str) -> (r: bool)
    ensures
        r == is_blank(s@),
{
    let chars = chars_of(s);
    let mut i: usize = 0;
    while i < chars.len()
        invariant
            i <= chars.len(),
            chars@ == s@,
            forall|k: int| 0 <= k < i ==> is_whitespace(#[trigger] chars@[k]),
        decreases chars.len() - i,
    {
        if !char_is_whitespace(chars[i]) {
            return false;
        }
        i += 1;
    }
    true
}

/// Checks configurations.
pub struct ConfigManager;

impl ConfigManager {
    /// A configuration is valid unless one of its source paths is blank.
    pub open spec fn is_valid(config: WorldNavConfigView) -> bool {
        forall|i: int| 0 <= i < config.src_paths.len() ==> !is_blank(#[trigger] config.src_paths[i])
    }

    /// Accepts a configuration unless one of its source paths is blank.
    pub fn validate(config: &WorldNavConfig) -> (r: Result<(), String>)
        ensures
            r is Ok <==> Self::is_valid(config@),
            r matches Err(message) ==> message@ == EMPTY_SOURCE_PATH_MESSAGE@,
    {
        let mut i: usize = 0;
        while i < config.src_paths.len()
            invariant
                i <= config.src_paths.len(),
                forall|k: int| 0 <= k < i ==> !is_blank(#[trigger] config@.src_paths[k]),
            decreases config.src_paths.len() - i,
        {
            assert(config@.src_paths[i as int] == config.src_paths@[i as int]@);
            if blank(config.src_paths[i].as_str()) {
                return Err(EMPTY_SOURCE_PATH_MESSAGE.to_owned());
            }
            i += 1;
        }
        Ok(())
    }
}

} // verus!
