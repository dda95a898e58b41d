//! Where world trees are looked for.

use crate::config::WorldNavConfig;
use crate::path_shortener::option_view;
use vstd::prelude::*;

verus! {

/// The directory that holds the world trees, if there is one. A leading `~`
/// stands for the home directory.
#[derive(Debug, Clone)]
pub struct WorktreeProvider {
    pub world_trees_path: Option<String>,
}

impl WorktreeProvider {
    /// The world trees of a configuration.
    pub fn new(config: &WorldNavConfig) -> (r: Self)
        ensures
            option_view(r.world_trees_path) == config@.world_path,
    {
        WorktreeProvider {
            world_trees_path: match &config.world_path {
                Some(path) => Some(path.clone()),
                None => None,
            },
        }
    }

    /// The world trees below `path`.
    pub fn with_path(path: String) -> (r: Self)
        ensures
            r.world_trees_path == Some(path),
    {
        WorktreeProvider { world_trees_path: Some(path) }
    }
}

} // verus!
