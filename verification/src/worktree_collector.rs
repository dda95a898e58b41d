//! Ranking: candidates filtered by a query, scored, and sorted by total score.

use crate::candidate::{Candidate, CandidateView};
use crate::scorer::{best_score, OptimalScorer};
use crate::scoring::{format_score, Score, SCORE_LIMIT, score_text};
use vstd::string::StringExecFns;
use vstd::prelude::*;
use vstd::seq_lib::to_multiset_insert;

verus! {

/// A candidate with the scores that rank it.
pub struct CandidateItem {
    pub candidate: Candidate,
    /// How well the query matches the candidate.
    pub score: Score,
    /// How recently and how often the candidate was visited.
    pub frecency_score: Score,
    /// What belonging to a workspace adds or takes.
    pub worktree_adjustment: Score,
    pub show_scores: bool,
    /// The rank of the item in the list it is part of.
    pub index: usize,
}

/// What a [`CandidateItem`] holds, as plain values.
pub struct CandidateItemView {
    pub candidate: CandidateView,
    pub score: int,
    pub frecency_score: int,
    pub worktree_adjustment: int,
    pub show_scores: bool,
    pub index: int,
}

impl View for CandidateItem {
    type V = CandidateItemView;

    open spec fn view(&self) -> CandidateItemView {
        CandidateItemView {
            candidate: self.candidate@,
            score: self.score as int,
            frecency_score: self.frecency_score as int,
            worktree_adjustment: self.worktree_adjustment as int,
            show_scores: self.show_scores,
            index: self.index as int,
        }
    }
}

impl CandidateItemView {
    /// The score that items are ranked by.
    pub open spec fn total_score(self) -> int {
        self.score + self.frecency_score + self.worktree_adjustment
    }

    /// No score is beyond [`SCORE_LIMIT`], so the total can be computed.
    pub open spec fn in_range(self) -> bool {
        &&& -SCORE_LIMIT <= self.score <= SCORE_LIMIT
        &&& -SCORE_LIMIT <= self.frecency_score <= SCORE_LIMIT
        &&& -SCORE_LIMIT <= self.worktree_adjustment <= SCORE_LIMIT
    }

    /// The item without its rank.
    pub open spec fn unranked(self) -> CandidateItemView {
        CandidateItemView { index: 0, ..self }
    }
}

/// The items of a list, as plain values.
pub open spec fn items_view(items: Seq<CandidateItem>) -> Seq<CandidateItemView> {
    items.map_values(|item: CandidateItem| item@)
}

/// The items of a list without their ranks.
pub open spec fn unranked(items: Seq<CandidateItemView>) -> Seq<CandidateItemView> {
    items.map_values(|item: CandidateItemView| item.unranked())
}

/// No item has a greater total than an item before it.
pub open spec fn sorted_by_total(items: Seq<CandidateItemView>) -> bool {
    forall|i: int, j: int|
        0 <= i <= j < items.len() ==> (#[trigger] items[i]).total_score() >= (
        #[trigger] items[j]).total_score()
}

impl CandidateItemView {
    /// What the picker shows for the item: the colored candidate and, where
    /// scores are shown, the total behind it, dimmed and in brackets.
    pub open spec fn display(self) -> Seq<char> {
        if self.show_scores {
            self.candidate.display() + " \x1b[2m("@ + score_text(self.total_score())
                + ")\x1b[0m"@
        } else {
            self.candidate.display()
        }
    }

    /// The line for the item in a plain list: with scores, the four scores
    /// in brackets and the path; without, the path alone.
    pub open spec fn list_line(self, show_scores: bool) -> Seq<char> {
        if show_scores {
            "(total:"@ + score_text(self.total_score()) + ", score:"@ + score_text(self.score)
                + ", frecency:"@ + score_text(self.frecency_score) + ", worktree:"@ + score_text(
                self.worktree_adjustment,
            ) + ") "@ + self.candidate.path
        } else {
            self.candidate.path
        }
    }
}

impl CandidateItem {
    /// The score that items are ranked by: match score, frecency score and
    /// worktree adjustment together.
    pub fn total_score(&self) -> (r: Score)
        requires
            self@.in_range(),
        ensures
            r == self@.total_score(),
    {
        self.score + self.frecency_score + self.worktree_adjustment
    }

    /// The text that a query is matched against.
    pub fn text(&self) -> (r: String)
        ensures
            r@ == self@.candidate.match_text(),
    {
        self.candidate.get_match_text()
    }

    /// What the picker shows for the item.
    pub fn display(&self) -> (r: String)
        requires
            self@.in_range(),
        ensures
            r@ == self@.display(),
    {
        let mut out = self.candidate.display();
        if self.show_scores {
            let ghost shown = out@;
            out.append(" \x1b[2m(");
            out.append(format_score(self.total_score()).as_str());
            out.append(")\x1b[0m");
            assert(out@ =~= shown + " \x1b[2m("@ + score_text(self@.total_score())
                + ")\x1b[0m"@);
        }
        out
    }

    /// The line for the item in a plain list.
    pub fn list_line(&self, show_scores: bool) -> (r: String)
        requires
            self@.in_range(),
        ensures
            r@ == self@.list_line(show_scores),
    {
        if show_scores {
            let mut out = String::new();
            out.append("(total:");
            out.append(format_score(self.total_score()).as_str());
            out.append(", score:");
            out.append(format_score(self.score).as_str());
            out.append(", frecency:");
            out.append(format_score(self.frecency_score).as_str());
            out.append(", worktree:");
            out.append(format_score(self.worktree_adjustment).as_str());
            out.append(") ");
            out.append(self.candidate.path.as_str());
            assert(out@ =~= self@.list_line(show_scores));
            out
        } else {
            self.candidate.path.clone()
        }
    }
}

/// The frecency score of candidate `j`: zero where none is known.
pub open spec fn frecency_at(frecency: Seq<Score>, j: int) -> int {
    if 0 <= j < frecency.len() {
        frecency[j] as int
    } else {
        0
    }
}

/// The candidates of a ranking invocation with what is needed to rank them.
pub struct WorktreeCollector {
    pub candidates: Vec<Candidate>,
    pub scorer: OptimalScorer,
    /// The frecency score of each candidate, in the order of `candidates`.
    pub frecency_scores: Vec<Score>,
    pub show_scores: bool,
}

impl WorktreeCollector {
    /// The views of the candidates.
    pub open spec fn candidate_views(&self) -> Seq<CandidateView> {
        self.candidates@.map_values(|c: Candidate| c@)
    }

    /// The frecency scores are within [`SCORE_LIMIT`].
    pub open spec fn wf(&self) -> bool {
        forall|j: int|
            0 <= j < self.frecency_scores@.len() ==> -SCORE_LIMIT <= (
            #[trigger] self.frecency_scores@[j]) <= SCORE_LIMIT
    }

    /// Whether candidate `j` stays in the list for `query`: it matches the
    /// query, or the query is empty.
    pub open spec fn keeps(&self, j: int, query: Seq<char>) -> bool {
        best_score(self.candidate_views()[j], query) > 0 || query.len() == 0
    }

    /// Candidate `j` with its scores for `query`, not yet ranked.
    pub open spec fn item(&self, j: int, query: Seq<char>) -> CandidateItemView {
        CandidateItemView {
            candidate: self.candidate_views()[j],
            score: best_score(self.candidate_views()[j], query),
            frecency_score: frecency_at(self.frecency_scores@, j),
            worktree_adjustment: self.scorer.adjustment(self.candidate_views()[j]),
            show_scores: self.show_scores,
            index: 0,
        }
    }

    /// The items of the first `upto` candidates that stay in the list for
    /// `query`, in the order of the candidates.
    pub open spec fn kept(&self, upto: int, query: Seq<char>) -> Seq<CandidateItemView>
        decreases upto,
    {
        if upto <= 0 {
            Seq::empty()
        } else if self.keeps(upto - 1, query) {
            self.kept(upto - 1, query).push(self.item(upto - 1, query))
        } else {
            self.kept(upto - 1, query)
        }
    }

    /// A collector for these candidates.
    pub fn new(
        candidates: Vec<Candidate>,
        scorer: OptimalScorer,
        frecency_scores: Vec<Score>,
        show_scores: bool,
    ) -> (r: Self)
        ensures
            r.candidates == candidates,
            r.scorer == scorer,
            r.frecency_scores == frecency_scores,
            r.show_scores == show_scores,
    {
        WorktreeCollector { candidates, scorer, frecency_scores, show_scores }
    }

    /// Ranks the candidates for `query`: those that match it (all of them
    /// for the empty query), each with its match score, frecency score and
    /// worktree adjustment, sorted by total score with the greatest first,
    /// each knowing its rank.
    pub fn filter_and_score(&self, query: &str) -> (r: Vec<CandidateItem>)
        requires
            self.wf(),
        ensures
            unranked(items_view(r@)) == stable_sorted(
                self.kept(self.candidates@.len() as int, query@),
            ),
            unranked(items_view(r@)).to_multiset() == self.kept(
                self.candidates@.len() as int,
                query@,
            ).to_multiset(),
            sorted_by_total(items_view(r@)),
            forall|i: int| 0 <= i < r@.len() ==> (#[trigger] r@[i]).index == i,
            forall|i: int| 0 <= i < r@.len() ==> (#[trigger] r@[i])@.in_range(),
    {
        let mut items: Vec<CandidateItem> = Vec::new();
        let mut j: usize = 0;
        assert(items_view(items@) =~= self.kept(0, query@));
        while j < self.candidates.len()
            invariant
                j <= self.candidates.len(),
                self.wf(),
                items_view(items@) == self.kept(j as int, query@),
                forall|i: int| 0 <= i < items@.len() ==> (#[trigger] items@[i])@.in_range(),
                forall|i: int| 0 <= i < items@.len() ==> (#[trigger] items@[i]).index == 0,
            decreases self.candidates.len() - j,
        {
            let candidate = &self.candidates[j];
            assert(self.candidate_views()[j as int] == candidate@);
            let score = self.scorer.score_candidate(candidate, query);
            if score > 0 || query.is_empty() {
                let frecency_score: Score = if j < self.frecency_scores.len() {
                    self.frecency_scores[j]
                } else {
                    0
                };
                let ghost before = items_view(items@);
                items.push(
                    CandidateItem {
                        candidate: candidate.duplicate(),
                        score,
                        frecency_score,
                        worktree_adjustment: self.scorer.worktree_adjustment(candidate),
                        show_scores: self.show_scores,
                        index: 0,
                    },
                );
                assert(items_view(items@) =~= before.push(self.item(j as int, query@)));
            }
            j += 1;
        }
        let ghost kept = items_view(items@);
        assert(unranked(kept) =~= kept);
        sort_by_total(&mut items);
        let ghost sorted = items_view(items@);
        assert(unranked(sorted) =~= sorted);

        let mut ranked: Vec<CandidateItem> = Vec::new();
        let mut i: usize = 0;
        let n = items.len();
        assert(unranked(items_view(ranked@)) =~= unranked(sorted).take(0));
        while items.len() > 0
            invariant
                i + items@.len() == n,
                n == sorted.len(),
                items_view(items@) == sorted.skip(i as int),
                ranked@.len() == i,
                unranked(items_view(ranked@)) == unranked(sorted).take(i as int),
                forall|k: int|
                    0 <= k < i ==> (#[trigger] items_view(ranked@)[k]).total_score()
                        == sorted[k].total_score(),
                forall|k: int| 0 <= k < i ==> (#[trigger] ranked@[k]).index == k,
                forall|k: int| 0 <= k < i ==> (#[trigger] ranked@[k])@.in_range(),
                forall|k: int| 0 <= k < items@.len() ==> (#[trigger] items@[k])@.in_range(),
            decreases items@.len(),
        {
            let ghost before = items_view(ranked@);
            let ghost rest = items_view(items@);
            let mut item = items.remove(0);
            assert(item@ == rest[0]);
            assert(items_view(items@) =~= rest.remove(0));
            assert(rest.remove(0) =~= sorted.skip(i + 1));
            item.index = i;
            ranked.push(item);
            assert(items_view(ranked@) =~= before.push(item@));
            assert(unranked(items_view(ranked@)) =~= unranked(sorted).take(i + 1));
            i += 1;
        }
        proof {
            assert(unranked(sorted).take(n as int) == unranked(sorted));
            assert forall|a: int, b: int| 0 <= a <= b < ranked@.len() implies (
            #[trigger] items_view(ranked@)[a]).total_score() >= (#[trigger] items_view(
                ranked@,
            )[b]).total_score() by {
                assert(sorted[a].total_score() >= sorted[b].total_score());
            }
        }
        ranked
    }
}

/// Where an item of total `total` goes in a sorted list, looking from
/// `from` on: in front of the first item with a smaller total, or at the end.
pub open spec fn insertion_point(sorted: Seq<CandidateItemView>, total: int, from: int) -> int
    decreases sorted.len() - from,
{
    if from < 0 || from >= sorted.len() || sorted[from].total_score() < total {
        from
    } else {
        insertion_point(sorted, total, from + 1)
    }
}

/// The items sorted by total score, the greatest first, with items of
/// equal total in the order they came in: each item in turn goes into the
/// sorted list of the items before it, behind every item whose total is at
/// least as great.
pub open spec fn stable_sorted(items: Seq<CandidateItemView>) -> Seq<CandidateItemView>
    decreases items.len(),
{
    if items.len() == 0 {
        Seq::empty()
    } else {
        let front = stable_sorted(items.drop_last());
        front.insert(insertion_point(front, items.last().total_score(), 0), items.last())
    }
}

/// The insertion point lies in the list or at its end; every item in front
/// of it, from `from` on, has a total at least as great, and the item at it
/// a smaller one.
pub proof fn lemma_insertion_point(sorted: Seq<CandidateItemView>, total: int, from: int)
    requires
        0 <= from <= sorted.len(),
    ensures
        from <= insertion_point(sorted, total, from) <= sorted.len(),
        forall|k: int|
            from <= k < insertion_point(sorted, total, from) ==> (#[trigger] sorted[k]).total_score()
                >= total,
        insertion_point(sorted, total, from) < sorted.len() ==> sorted[insertion_point(
            sorted,
            total,
            from,
        )].total_score() < total,
    decreases sorted.len() - from,
{
    if from < sorted.len() && sorted[from].total_score() >= total {
        lemma_insertion_point(sorted, total, from + 1);
    }
}

/// Sorting keeps every item, once each, and puts no item behind one with a
/// smaller total.
pub proof fn lemma_stable_sorted(items: Seq<CandidateItemView>)
    ensures
        stable_sorted(items).len() == items.len(),
        stable_sorted(items).to_multiset() == items.to_multiset(),
        sorted_by_total(stable_sorted(items)),
    decreases items.len(),
{
    broadcast use vstd::multiset::group_multiset_axioms;

    if items.len() == 0 {
        assert(items =~= Seq::<CandidateItemView>::empty());
    } else {
        let rest = items.drop_last();
        let x = items.last();
        lemma_stable_sorted(rest);
        let front = stable_sorted(rest);
        let p = insertion_point(front, x.total_score(), 0);
        lemma_insertion_point(front, x.total_score(), 0);
        let sorted = front.insert(p, x);
        to_multiset_insert(front, p, x);
        assert(items =~= rest.push(x));
        vstd::seq_lib::to_multiset_build(rest, x);
        assert forall|a: int, b: int| 0 <= a <= b < sorted.len() implies (#[trigger] sorted[a]).total_score()
            >= (#[trigger] sorted[b]).total_score() by {
            if a < p && b < p {
                assert(sorted[a] == front[a] && sorted[b] == front[b]);
            } else if a < p && b == p {
                assert(sorted[a] == front[a]);
            } else if a < p && b > p {
                assert(sorted[a] == front[a] && sorted[b] == front[b - 1]);
                assert(front[a].total_score() >= front[b - 1].total_score());
            } else if a == p && b > p {
                assert(sorted[b] == front[b - 1]);
                assert(front[p].total_score() >= front[b - 1].total_score());
            } else if a > p {
                assert(sorted[a] == front[a - 1] && sorted[b] == front[b - 1]);
                assert(front[a - 1].total_score() >= front[b - 1].total_score());
            }
        }
    }
}

/// Sorts items by total score, the greatest first. Items of equal total
/// stay in the order they came in.
#[verifier::rlimit(30)]
pub fn sort_by_total(items: &mut Vec<CandidateItem>)
    requires
        forall|i: int| 0 <= i < old(items)@.len() ==> (#[trigger] old(items)@[i])@.in_range(),
    ensures
        items_view(final(items)@) == stable_sorted(items_view(old(items)@)),
        items_view(final(items)@).to_multiset() == items_view(old(items)@).to_multiset(),
        sorted_by_total(items_view(final(items)@)),
        final(items)@.len() == old(items)@.len(),
        forall|i: int| 0 <= i < final(items)@.len() ==> (#[trigger] final(items)@[i])@.in_range(),
        forall|i: int|
            0 <= i < final(items)@.len() ==> (#[trigger] final(items)@[i]).index == 0
            <== forall|i: int| 0 <= i < old(items)@.len() ==> (#[trigger] old(items)@[i]).index == 0,
{
    let ghost initial = items_view(items@);
    let ghost all_zero = forall|i: int|
        0 <= i < items@.len() ==> (#[trigger] items@[i]).index == 0;
    let n = items.len();
    let mut done: usize = 0;
    assert(initial.take(0) =~= Seq::<CandidateItemView>::empty());
    assert(initial.skip(0) =~= initial);
    while done < n
        invariant
            done <= n,
            items@.len() == n,
            initial.len() == n,
            items_view(items@).take(done as int) == stable_sorted(initial.take(done as int)),
            items_view(items@).skip(done as int) == initial.skip(done as int),
            forall|i: int| 0 <= i < items@.len() ==> (#[trigger] items@[i])@.in_range(),
            all_zero ==> forall|i: int| 0 <= i < items@.len() ==> (#[trigger] items@[i]).index == 0,
        decreases n - done,
    {
        let ghost before = items_view(items@);
        let ghost before_items = items@;
        let ghost front = before.take(done as int);
        let item = items.remove(done);
        let total = item.total_score();
        proof {
            assert(items_view(items@) =~= before.remove(done as int));
            assert(item@ == before[done as int]);
            assert(before.skip(done as int)[0] == initial.skip(done as int)[0]);
            assert(item@ == initial[done as int]);
            assert(items_view(items@).take(done as int) =~= front);
        }
        let ghost without = items_view(items@);
        let mut at: usize = 0;
        while at < done && items[at].total_score() >= total
            invariant
                at <= done < n,
                items@.len() == n - 1,
                without == items_view(items@),
                front == without.take(done as int),
                forall|i: int| 0 <= i < items@.len() ==> (#[trigger] items@[i])@.in_range(),
                insertion_point(front, total as int, 0) == insertion_point(
                    front,
                    total as int,
                    at as int,
                ),
            decreases done - at,
        {
            assert(front[at as int] == items@[at as int]@);
            at += 1;
        }
        proof {
            if at < done {
                assert(front[at as int] == items@[at as int]@);
            }
            assert(insertion_point(front, total as int, 0) == at);
        }
        items.insert(at, item);
        proof {
            assert(items_view(items@) =~= without.insert(at as int, item@));
            let after = items_view(items@);
            assert(after.take(done + 1) =~= front.insert(at as int, item@));
            assert(initial.take(done + 1).drop_last() =~= initial.take(done as int));
            assert(initial.take(done + 1).last() == initial[done as int]);
            assert(after.skip(done + 1) =~= before.skip(done + 1));
            assert(before.skip(done + 1) =~= before.skip(done as int).skip(1));
            assert(initial.skip(done + 1) =~= initial.skip(done as int).skip(1));
            assert forall|i: int| 0 <= i < items@.len() implies (#[trigger] items@[i])@.in_range() by {
                if i < at {
                    assert(items@[i] == before_items.remove(done as int)[i]);
                } else if i > at {
                    assert(items@[i] == before_items.remove(done as int)[i - 1]);
                }
            }
            if all_zero {
                assert forall|i: int| 0 <= i < items@.len() implies (#[trigger] items@[i]).index
                    == 0 by {
                    if i < at {
                        assert(items@[i] == before_items.remove(done as int)[i]);
                    } else if i > at {
                        assert(items@[i] == before_items.remove(done as int)[i - 1]);
                    }
                }
            }
        }
        done += 1;
    }
    proof {
        assert(items_view(items@).take(n as int) == items_view(items@));
        assert(initial.take(n as int) == initial);
        assert(items_view(items@) == stable_sorted(initial));
        lemma_stable_sorted(initial);
    }
}

} // verus!
