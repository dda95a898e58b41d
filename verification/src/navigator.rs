//! The decision between picking a candidate at once and asking the user.

use crate::scoring::{Score, SCORE_LIMIT};
use crate::worktree_collector::{CandidateItem, CandidateItemView, items_view};
use vstd::prelude::*;

verus! {

/// The top total wins at once where it is more than this far ahead: a
/// hundred points.
pub const CLEAR_WINNER_MARGIN: i128 = 10000;

/// `first / second > 1.5`, in exact arithmetic. A quotient by zero counts
/// as greater where `first` is positive and as no number at all, and so
/// not greater, where it is not.
pub open spec fn ratio_exceeds_three_halves(first: int, second: int) -> bool {
    if second > 0 {
        2 * first > 3 * second
    } else if second < 0 {
        2 * first < 3 * second
    } else {
        first > 0
    }
}

/// The top total is far enough ahead of the second: more than one and a
/// half times as large, or more than a hundred points more.
pub open spec fn clear_winner(first: int, second: int) -> bool {
    ratio_exceeds_three_halves(first, second) || first - second > CLEAR_WINNER_MARGIN
}

/// Whether the top total is far enough ahead of the second to be picked at once.
pub fn has_clear_winner(first_score: Score, second_score: Score) -> (r: bool)
    requires
        -3 * SCORE_LIMIT <= first_score <= 3 * SCORE_LIMIT,
        -3 * SCORE_LIMIT <= second_score <= 3 * SCORE_LIMIT,
    ensures
        r == clear_winner(first_score as int, second_score as int),
{
    let ratio = if second_score > 0 {
        2 * first_score > 3 * second_score
    } else if second_score < 0 {
        2 * first_score < 3 * second_score
    } else {
        first_score > 0
    };
    ratio || first_score - second_score > CLEAR_WINNER_MARGIN
}

/// The rank of the item to pick without asking: the only item, or the
/// first of several where it is a clear winner over the second.
pub open spec fn direct_choice(items: Seq<CandidateItemView>) -> Option<int> {
    if items.len() == 1 {
        Some(0)
    } else if items.len() > 1 && clear_winner(items[0].total_score(), items[1].total_score()) {
        Some(0)
    } else {
        None
    }
}

/// Decides whether a ranked list has an item to pick without asking.
pub fn direct_selection(items: &Vec<CandidateItem>) -> (r: Option<usize>)
    requires
        forall|i: int| 0 <= i < items@.len() ==> (#[trigger] items@[i])@.in_range(),
    ensures
        match r {
            Some(i) => direct_choice(items_view(items@)) == Some(i as int),
            None => direct_choice(items_view(items@)) is None,
        },
{
    if items.len() == 1 {
        return Some(0);
    }
    if items.len() > 1 {
        assert(items_view(items@)[0] == items@[0]@);
        assert(items_view(items@)[1] == items@[1]@);
        let first_score = items[0].total_score();
        let second_score = items[1].total_score();
        if has_clear_winner(first_score, second_score) {
            return Some(0);
        }
    }
    None
}

/// The lines of a plain list of the items, in order.
pub open spec fn list_lines(items: Seq<CandidateItemView>, show_scores: bool) -> Seq<Seq<char>> {
    items.map_values(|item: CandidateItemView| item.list_line(show_scores))
}

/// The lines of a plain list of ranked items: the paths, each behind its
/// scores where scores are to be shown.
pub fn list(items: &Vec<CandidateItem>, show_scores: bool) -> (r: Vec<String>)
    requires
        forall|i: int| 0 <= i < items@.len() ==> (#[trigger] items@[i])@.in_range(),
    ensures
        r@.map_values(|p: String| p@) == list_lines(items_view(items@), show_scores),
{
    let mut paths: Vec<String> = Vec::new();
    let mut i: usize = 0;
    assert(paths@.map_values(|p: String| p@) =~= list_lines(items_view(items@), show_scores).take(
        0,
    ));
    while i < items.len()
        invariant
            i <= items.len(),
            forall|i: int| 0 <= i < items@.len() ==> (#[trigger] items@[i])@.in_range(),
            paths@.map_values(|p: String| p@) == list_lines(items_view(items@), show_scores).take(
                i as int,
            ),
        decreases items.len() - i,
    {
        let ghost before = paths@.map_values(|p: String| p@);
        let line = items[i].list_line(show_scores);
        paths.push(line);
        assert(paths@.map_values(|p: String| p@) =~= before.push(line@));
        assert(paths@.map_values(|p: String| p@) =~= list_lines(
            items_view(items@),
            show_scores,
        ).take(i + 1));
        i += 1;
    }
    assert(list_lines(items_view(items@), show_scores).take(items.len() as int) == list_lines(
        items_view(items@),
        show_scores,
    ));
    paths
}

/// What to do with a ranked list.
#[derive(Debug, Clone, PartialEq)]
pub enum Navigation {
    /// Hand these paths back.
    Paths(Vec<String>),
    /// Let the user pick.
    Interactive,
}

/// What a [`Navigation`] holds, as plain sequences.
pub enum NavigationView {
    Paths(Seq<Seq<char>>),
    Interactive,
}

impl View for Navigation {
    type V = NavigationView;

    open spec fn view(&self) -> NavigationView {
        match self {
            Navigation::Paths(paths) => NavigationView::Paths(paths@.map_values(|p: String| p@)),
            Navigation::Interactive => NavigationView::Interactive,
        }
    }
}

/// The paths of the items, in order.
pub open spec fn item_paths(items: Seq<CandidateItemView>) -> Seq<Seq<char>> {
    items.map_values(|item: CandidateItemView| item.candidate.path)
}

/// What to do with the list ranked for a query: without a terminal, hand
/// back every path; for a query that is not empty and asks for one path,
/// hand back the direct choice if there is one; else let the user pick.
pub open spec fn navigation(
    items: Seq<CandidateItemView>,
    query: Seq<char>,
    multi: bool,
    interactive: bool,
) -> NavigationView {
    if !interactive {
        NavigationView::Paths(item_paths(items))
    } else if !multi && query.len() > 0 {
        match direct_choice(items) {
            Some(i) => NavigationView::Paths(seq![items[i].candidate.path]),
            None => NavigationView::Interactive,
        }
    } else {
        NavigationView::Interactive
    }
}

/// Decides what to do with the list that was ranked for `query`.
/// `interactive` says whether the input is a terminal.
pub fn navigate(items: &Vec<CandidateItem>, query: &str, multi: bool, interactive: bool) -> (r:
    Navigation)
    requires
        forall|i: int| 0 <= i < items@.len() ==> (#[trigger] items@[i])@.in_range(),
    ensures
        r@ == navigation(items_view(items@), query@, multi, interactive),
{
    if !interactive {
        let mut paths: Vec<String> = Vec::new();
        let mut i: usize = 0;
        assert(paths@.map_values(|p: String| p@) =~= item_paths(items_view(items@)).take(0));
        while i < items.len()
            invariant
                i <= items.len(),
                paths@.map_values(|p: String| p@) == item_paths(items_view(items@)).take(i as int),
            decreases items.len() - i,
        {
            let ghost before = paths@.map_values(|p: String| p@);
            paths.push(items[i].candidate.path.clone());
            assert(paths@.map_values(|p: String| p@) =~= before.push(items@[i as int].candidate.path@));
            assert(paths@.map_values(|p: String| p@) =~= item_paths(items_view(items@)).take(
                i + 1,
            ));
            i += 1;
        }
        assert(item_paths(items_view(items@)).take(items.len() as int) == item_paths(
            items_view(items@),
        ));
        return Navigation::Paths(paths);
    }
    if !multi && !query.is_empty() {
        if let Some(i) = direct_selection(items) {
            let mut paths: Vec<String> = Vec::new();
            paths.push(items[i].candidate.path.clone());
            assert(paths@.map_values(|p: String| p@) =~= seq![
                items_view(items@)[i as int].candidate.path,
            ]);
            return Navigation::Paths(paths);
        }
    }
    Navigation::Interactive
}

} // verus!
