//! Sources of candidates.

use crate::candidate::{Candidate, CandidateView};
use vstd::prelude::*;

verus! {

/// The views of a list of candidates.
pub open spec fn candidates_view(candidates: Seq<Candidate>) -> Seq<CandidateView> {
    candidates.map_values(|c: Candidate| c@)
}

/// A source of candidates. It is handed the list that the sources before it
/// have filled and leaves the list as the next source is to find it.
pub trait Provider {
    /// What the source may make of a list: `after` is a list that the
    /// source may leave where it was handed `before`. A source that says
    /// nothing of itself may leave any list.
    open spec fn contributes(&self, before: Seq<CandidateView>, after: Seq<CandidateView>) -> bool {
        true
    }

    fn add_candidates(&self, candidates: &mut Vec<Candidate>)
        ensures
            self.contributes(candidates_view(old(candidates)@), candidates_view(final(candidates)@)),
    ;
}

} // verus!
