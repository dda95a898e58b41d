//! The candidates of all sources together.

use crate::candidate::{Candidate, CandidateView};
use crate::config::{DEFAULT_DEPTH_LIMIT, WorldNavConfig};
use crate::provider::{candidates_view, Provider};
use crate::src_provider::SrcProvider;
use crate::utils::{can_expand, expanded};
use vstd::prelude::*;

verus! {

/// Gathers the candidates of several sources, in the order of the sources.
pub struct CandidateProvider {
    providers: Vec<Box<dyn Provider>>,
}

impl CandidateProvider {
    /// The sources, in order.
    pub closed spec fn providers(&self) -> Seq<Box<dyn Provider>> {
        self.providers@
    }

    /// `lists` records a run through the first `upto` sources: it starts
    /// with the empty list, and each source makes the next list of the one
    /// before it.
    pub open spec fn is_run(&self, lists: Seq<Seq<CandidateView>>, upto: int) -> bool {
        &&& lists.len() == upto + 1
        &&& lists[0] == Seq::<CandidateView>::empty()
        &&& forall|i: int|
            0 <= i < upto ==> (#[trigger] self.providers()[i]).contributes(lists[i], lists[i + 1])
    }

    /// One source directory for each source path of the configuration, each
    /// with a leading `~` replaced by the home directory `home` where one
    /// is known, and with the depth limit of the configuration or, where it
    /// has none, the default one.
    pub fn create_src_providers(config: &WorldNavConfig, home: Option<&str>) -> (r: Vec<
        SrcProvider,
    >)
        requires
            forall|i: int|
                0 <= i < config@.src_paths.len() ==> can_expand(
                    #[trigger] config@.src_paths[i],
                    match home {
                        Some(h) => Some(h@),
                        None => None,
                    },
                ),
        ensures
            r@.len() == config@.src_paths.len(),
            forall|i: int|
                0 <= i < r@.len() ==> {
                    &&& (#[trigger] r@[i]).base_path@ == expanded(
                        config@.src_paths[i],
                        match home {
                            Some(h) => Some(h@),
                            None => None,
                        },
                    )
                    &&& r@[i].depth_limit == match config@.depth_limit {
                        Some(depth) => depth,
                        None => DEFAULT_DEPTH_LIMIT,
                    }
                },
    {
        let depth_limit = match config.depth_limit {
            Some(depth) => depth,
            None => DEFAULT_DEPTH_LIMIT,
        };
        let mut providers: Vec<SrcProvider> = Vec::new();
        let mut i: usize = 0;
        while i < config.src_paths.len()
            invariant
                i <= config.src_paths.len(),
                providers@.len() == i,
                forall|i: int|
                    0 <= i < config@.src_paths.len() ==> can_expand(
                        #[trigger] config@.src_paths[i],
                        match home {
                            Some(h) => Some(h@),
                            None => None,
                        },
                    ),
                forall|k: int|
                    0 <= k < i ==> {
                        &&& (#[trigger] providers@[k]).base_path@ == expanded(
                            config@.src_paths[k],
                            match home {
                                Some(h) => Some(h@),
                                None => None,
                            },
                        )
                        &&& providers@[k].depth_limit == depth_limit
                    },
            decreases config.src_paths.len() - i,
        {
            assert(config@.src_paths[i as int] == config.src_paths@[i as int]@);
            providers.push(
                SrcProvider::with_path(config.src_paths[i].as_str(), home).with_depth_limit(
                    depth_limit,
                ),
            );
            i += 1;
        }
        providers
    }

    /// A gatherer for these sources.
    pub fn with_providers(providers: Vec<Box<dyn Provider>>) -> (r: Self)
        ensures
            r.providers() == providers@,
    {
        CandidateProvider { providers }
    }

    /// Asks each source in turn to add its candidates. The first source is
    /// handed the empty list, each later one the list as the source before
    /// it left it, and the last list is the result.
    pub fn get_candidates(&self) -> (r: Vec<Candidate>)
        ensures
            exists|lists: Seq<Seq<CandidateView>>|
                self.is_run(lists, self.providers().len() as int) && #[trigger] lists.last()
                    == candidates_view(r@),
            self.providers().len() == 0 ==> r@.len() == 0,
    {
        let mut candidates: Vec<Candidate> = Vec::new();
        let ghost mut lists: Seq<Seq<CandidateView>> = seq![Seq::<CandidateView>::empty()];
        assert(candidates_view(candidates@) =~= Seq::<CandidateView>::empty());
        let mut i: usize = 0;
        while i < self.providers.len()
            invariant
                i <= self.providers.len(),
                self.is_run(lists, i as int),
                lists.last() == candidates_view(candidates@),
                i == 0 ==> candidates@.len() == 0,
            decreases self.providers.len() - i,
        {
            self.providers[i].add_candidates(&mut candidates);
            proof {
                let before = lists;
                lists = lists.push(candidates_view(candidates@));
                assert forall|k: int| 0 <= k < i + 1 implies (#[trigger] self.providers()[k]).contributes(
                    lists[k],
                    lists[k + 1],
                ) by {
                    if k < i {
                        assert(lists[k] == before[k]);
                        assert(lists[k + 1] == before[k + 1]);
                    }
                }
            }
            i += 1;
        }
        candidates
    }
}

} // verus!
