//! Candidates: a discovered directory with its classification, and the flat
//! text that a query is matched against.

use crate::path_shortener::{
    Component, components_view, ComponentType, ComponentView, not_icon, option_view, ShortPath,
    ShortPathPart, ShortPathView, texts_where,
};
use vstd::prelude::*;
use vstd::string::StringExecFns;

verus! {

/// One piece of the match text: a component and the range of scalar
/// offsets that its text takes in the match text.
#[derive(Debug, Clone, PartialEq)]
pub struct MatchSegment {
    pub part: ShortPathPart,
    pub component_type: ComponentType,
    pub text: String,
    pub start: usize,
    pub end: usize,
}

/// What a [`MatchSegment`] holds, as plain values.
pub struct MatchSegmentView {
    pub part: ShortPathPart,
    pub component_type: ComponentType,
    pub text: Seq<char>,
    pub start: int,
    pub end: int,
}

impl View for MatchSegment {
    type V = MatchSegmentView;

    open spec fn view(&self) -> MatchSegmentView {
        MatchSegmentView {
            part: self.part,
            component_type: self.component_type,
            text: self.text@,
            start: self.start as int,
            end: self.end as int,
        }
    }
}

/// The views of a list of match segments.
pub open spec fn segments_view(segments: Seq<MatchSegment>) -> Seq<MatchSegmentView> {
    segments.map_values(|s: MatchSegment| s@)
}

/// The match segments of a list of components: one for each component that
/// is no icon, starting where the one before it ends, the first at 0.
pub open spec fn match_segments(cs: Seq<ComponentView>) -> Seq<MatchSegmentView>
    decreases cs.len(),
{
    if cs.len() == 0 {
        Seq::empty()
    } else {
        let before = match_segments(cs.drop_last());
        let c = cs.last();
        if c.1 == ComponentType::Icon {
            before
        } else {
            let start = texts_where(cs.drop_last(), not_icon()).len() as int;
            before.push(
                MatchSegmentView {
                    part: c.0,
                    component_type: c.1,
                    text: c.2,
                    start,
                    end: start + c.2.len(),
                },
            )
        }
    }
}

/// The texts of a list of match segments, joined in order.
pub open spec fn joined_texts(segments: Seq<MatchSegmentView>) -> Seq<char>
    decreases segments.len(),
{
    if segments.len() == 0 {
        Seq::empty()
    } else {
        joined_texts(segments.drop_last()) + segments.last().text
    }
}

/// The segments cut `text` into adjoining pieces: the first starts at 0,
/// each starts where the one before it ends, each is as long as its text,
/// the last ends where `text` ends, and the texts joined are `text`.
pub open spec fn is_partition(segments: Seq<MatchSegmentView>, text: Seq<char>) -> bool {
    &&& joined_texts(segments) == text
    &&& forall|i: int|
        0 <= i < segments.len() ==> (#[trigger] segments[i]).end - segments[i].start
            == segments[i].text.len()
    &&& forall|i: int| 0 <= i < segments.len() ==> 0 <= (#[trigger] segments[i]).start
    &&& segments.len() > 0 ==> segments[0].start == 0
    &&& forall|i: int, j: int|
        0 <= i && j == i + 1 && j < segments.len() ==> (#[trigger] segments[i]).end == (
        #[trigger] segments[j]).start
    &&& segments.len() > 0 ==> segments.last().end == text.len()
    &&& segments.len() == 0 ==> text.len() == 0
}

/// The match segments of a list of components partition the text that the
/// components without the icons spell.
pub proof fn lemma_match_segments_partition(cs: Seq<ComponentView>)
    ensures
        is_partition(match_segments(cs), texts_where(cs, not_icon())),
    decreases cs.len(),
{
    if cs.len() > 0 {
        lemma_match_segments_partition(cs.drop_last());
        let before = match_segments(cs.drop_last());
        let c = cs.last();
        if c.1 != ComponentType::Icon {
            let segments = match_segments(cs);
            assert(segments.drop_last() == before);
            assert forall|i: int, j: int|
                0 <= i && j == i + 1 && j < segments.len() implies (#[trigger] segments[i]).end == (
            #[trigger] segments[j]).start by {
                if j < before.len() {
                    assert(before[i].end == before[j].start);
                } else {
                    assert(before.last().end == segments.last().start);
                }
            }
        }
    }
}

/// A discovered directory: its path, its classification, and the branch
/// that is checked out there, if it is worth showing.
#[derive(Debug, Clone)]
pub struct Candidate {
    pub path: String,
    pub shortpath: ShortPath,
    pub branch: Option<String>,
}

/// What a [`Candidate`] holds, as plain sequences.
pub struct CandidateView {
    pub path: Seq<char>,
    pub shortpath: ShortPathView,
    pub branch: Option<Seq<char>>,
}

impl View for Candidate {
    type V = CandidateView;

    open spec fn view(&self) -> CandidateView {
        CandidateView {
            path: self.path@,
            shortpath: self.shortpath@,
            branch: option_view(self.branch),
        }
    }
}

impl CandidateView {
    /// The components of the candidate: those of its path with the last
    /// segment kept in full, and its branch.
    pub open spec fn components(self) -> Seq<ComponentView> {
        self.shortpath.components(1, self.branch)
    }

    /// The text that a query is matched against: the components without the icons.
    pub open spec fn match_text(self) -> Seq<char> {
        texts_where(self.components(), not_icon())
    }

    /// The pieces of the match text, with their offsets.
    pub open spec fn segments(self) -> Seq<MatchSegmentView> {
        match_segments(self.components())
    }

    /// The colored rendering of the candidate.
    pub open spec fn display(self) -> Seq<char> {
        self.shortpath.display(self.branch)
    }
}

/// The match segments of a candidate partition its match text.
pub proof fn lemma_segments_partition(candidate: CandidateView)
    ensures
        is_partition(candidate.segments(), candidate.match_text()),
{
    lemma_match_segments_partition(candidate.components());
}

impl Candidate {
    /// A copy of the branch label.
    fn branch_copy(&self) -> (r: Option<String>)
        ensures
            option_view(r) == option_view(self.branch),
    {
        match &self.branch {
            Some(b) => Some(b.clone()),
            None => None,
        }
    }

    /// A copy that holds the same path, classification and branch.
    pub fn duplicate(&self) -> (r: Self)
        ensures
            r@ == self@,
    {
        Candidate {
            path: self.path.clone(),
            shortpath: self.shortpath.duplicate(),
            branch: self.branch_copy(),
        }
    }

    /// The colored rendering of the candidate, branch included.
    pub fn display(&self) -> (r: String)
        ensures
            r@ == self@.display(),
    {
        self.shortpath.display(self.branch_copy())
    }

    /// The text that a query is matched against: the texts of the
    /// components joined, the icons left out.
    pub fn get_match_text(&self) -> (r: String)
        ensures
            r@ == self@.match_text(),
    {
        let components = self.shortpath.components(1, self.branch_copy());
        join_without_icons(&components)
    }

    /// The pieces that make up the match text, each with the range of
    /// scalar offsets it takes there. They partition the match text.
    pub fn get_segments(&self) -> (r: Vec<MatchSegment>)
        ensures
            segments_view(r@) == self@.segments(),
            is_partition(segments_view(r@), self@.match_text()),
    {
        let components = self.shortpath.components(1, self.branch_copy());
        let ghost cs = components_view(components@);
        let text = join_without_icons(&components);
        let total: usize = text.as_str().unicode_len();
        let mut cursor: usize = 0;
        let mut segments: Vec<MatchSegment> = Vec::new();
        let mut i: usize = 0;
        assert(segments_view(segments@) =~= match_segments(cs.take(0)));
        while i < components.len()
            invariant
                i <= components.len(),
                cs == components_view(components@),
                total == texts_where(cs, not_icon()).len(),
                cursor == texts_where(cs.take(i as int), not_icon()).len(),
                segments_view(segments@) == match_segments(cs.take(i as int)),
            decreases components.len() - i,
        {
            proof {
                assert(cs.take(i + 1).drop_last() == cs.take(i as int));
                assert(cs.take(i + 1).last() == cs[i as int]);
                lemma_texts_where_prefix(cs, i + 1, not_icon());
            }
            if components[i].1 != ComponentType::Icon {
                let char_count: usize = components[i].2.as_str().unicode_len();
                let ghost before = segments_view(segments@);
                segments.push(
                    MatchSegment {
                        part: components[i].0,
                        component_type: components[i].1,
                        text: components[i].2.clone(),
                        start: cursor,
                        end: cursor + char_count,
                    },
                );
                assert(segments_view(segments@) =~= before.push(segments@.last()@));
                cursor = cursor + char_count;
            }
            i += 1;
        }
        proof {
            assert(cs.take(components.len() as int) == cs);
            lemma_segments_partition(self@);
        }
        segments
    }
}

/// The text of the first `n` components that `keep` accepts is no longer
/// than that of all of them.
pub proof fn lemma_texts_where_prefix(
    cs: Seq<ComponentView>,
    n: int,
    keep: spec_fn(ComponentView) -> bool,
)
    requires
        0 <= n <= cs.len(),
    ensures
        texts_where(cs.take(n), keep).len() <= texts_where(cs, keep).len(),
    decreases cs.len() - n,
{
    if n < cs.len() {
        lemma_texts_where_prefix(cs, n + 1, keep);
        assert(cs.take(n + 1).drop_last() == cs.take(n));
    } else {
        assert(cs.take(n) == cs);
    }
}

/// Joins the texts of the components that are no icon.
pub fn join_without_icons(components: &Vec<Component>) -> (r: String)
    ensures
        r@ == texts_where(components_view(components@), not_icon()),
{
    let ghost cs = components_view(components@);
    let mut result = String::new();
    let mut i: usize = 0;
    while i < components.len()
        invariant
            i <= components.len(),
            cs == components_view(components@),
            result@ == texts_where(cs.take(i as int), not_icon()),
        decreases components.len() - i,
    {
        if components[i].1 != ComponentType::Icon {
            result.append(components[i].2.as_str());
        }
        proof {
            assert(cs.take(i + 1).drop_last() == cs.take(i as int));
            assert(cs.take(i + 1).last() == cs[i as int]);
        }
        i += 1;
    }
    assert(cs.take(components.len() as int) == cs);
    result
}

} // verus!
