//! Fuzzy scoring of a candidate against a query.
//!
//! A query occurs in a candidate where its scalars, lowercased, occur in the
//! lowercased match text in order. Every way in which they occur is
//! scored, and the score of the candidate is that of its best alignment,
//! whatever its sign. A score of zero or less says that the candidate does
//! not match; zero is also the score for the empty query, which matches
//! everything unscored, and for a query that does not occur.

use crate::alignment::{
    comes_before, copy_positions, find_all_matches, is_alignment, is_all_matches,
    lemma_comes_before_asymmetric, lemma_increasing, lemma_matches_are_alignments,
};
use crate::candidate::{Candidate, CandidateView, MatchSegment, MatchSegmentView, segments_view};
use crate::path_shortener::{
    check_world_tree_path, classify, ComponentType, PathContextView, PathKind, PathType,
    regex_captures, ShortPathView, world_tree_of, WORLD_TREES_PATTERN,
};
use crate::scoring::{
    char_score, lemma_alignment_score_bound, lemma_char_score_step,
    alignment_score, all_at_boundaries, all_consecutive, ALL_CONSECUTIVE_BONUS,
    ALL_WORD_BOUNDARIES_BONUS, BASE_CHAR_SCORE, boundary_char_score, boundary_count,
    boundary_run, characters_score, consecutive_multiplier, consecutive_run,
    DISTANCE_FROM_START_PENALTY, EXACT_MATCH_BONUS, first_before_last, get_main_content_start,
    get_section_type, is_all_consecutive, is_all_within, is_exact_match, is_prefix_match,
    is_word_boundary, lemma_boundary_count, lemma_score_parts_bounds, main_content_start,
    matched_text, next_boundary_value, next_multiplier, NON_WORKTREE_PENALTY, penalties,
    PERFECT_MATCH_BONUS, PREFIX_MATCH_BONUS, quality_bonus, scaled, Score, SCORE_LIMIT,
    section_boost_of, SPAN_PENALTY, special_bonus, word_boundary, WORD_BOUNDARY_SCORE,
    WORKTREE_PROXIMITY_BONUS,
};
use crate::text::{
    chars_of, has_char, lowercase, lowercase_chars, same_chars, trim_end, trimmed_len,
};
use vstd::prelude::*;

verus! {

/// The query as it is compared: without trailing white space, in lowercase.
pub open spec fn query_chars(query: Seq<char>) -> Seq<char> {
    lowercase(trim_end(query))
}

/// `a` is a way in which `query` occurs in the match text of `candidate`,
/// case apart.
pub open spec fn is_candidate_alignment(
    candidate: CandidateView,
    query: Seq<char>,
    a: Seq<usize>,
) -> bool {
    is_alignment(lowercase(candidate.match_text()), query_chars(query), a)
}

/// The score of alignment `a` of `query` in the match text of `candidate`.
/// A slash or a blank anywhere in the query as typed shifts the section
/// weights.
pub open spec fn candidate_alignment_score(
    candidate: CandidateView,
    query: Seq<char>,
    a: Seq<usize>,
) -> int {
    alignment_score(
        candidate.match_text(),
        candidate.segments(),
        a,
        query_chars(query).len() as int,
        query.contains('/'),
        query.contains(' '),
    )
}

/// The query occurs in the match text of `candidate`, case apart.
pub open spec fn has_alignment(candidate: CandidateView, query: Seq<char>) -> bool {
    exists|a: Seq<usize>| is_candidate_alignment(candidate, query, a)
}

/// `score` is the score of `candidate` for `query`: the greatest score of
/// an alignment, whatever its sign. It is zero for the empty query and for
/// a query that has no alignment.
pub open spec fn is_best_score(candidate: CandidateView, query: Seq<char>, score: int) -> bool {
    if query.len() == 0 || !has_alignment(candidate, query) {
        score == 0
    } else {
        &&& forall|a: Seq<usize>| #[trigger]
            is_candidate_alignment(candidate, query, a) ==> candidate_alignment_score(
                candidate,
                query,
                a,
            ) <= score
        &&& exists|a: Seq<usize>| #[trigger]
            is_candidate_alignment(candidate, query, a) && candidate_alignment_score(
                candidate,
                query,
                a,
            ) == score
    }
}

/// `positions` is alignment `i` of `lists`, it scores `score`, and every
/// alignment in front of it scores less.
pub open spec fn is_first_with_score(
    text: Seq<char>,
    segments: Seq<MatchSegmentView>,
    n: int,
    has_slash: bool,
    has_space: bool,
    lists: Seq<Vec<usize>>,
    score: int,
    positions: Seq<usize>,
    i: int,
) -> bool {
    &&& 0 <= i < lists.len()
    &&& lists[i]@ == positions
    &&& alignment_score(text, segments, positions, n, has_slash, has_space) == score
    &&& forall|j: int|
        0 <= j < i ==> alignment_score(
            text,
            segments,
            (#[trigger] lists[j])@,
            n,
            has_slash,
            has_space,
        ) < score
}

/// `score` and `positions` are the best of the alignments `lists`: no
/// alignment scores more, and `positions` is the first alignment of the
/// list with that score. For an empty list the score is zero and
/// `positions` is empty.
pub open spec fn is_best_of(
    text: Seq<char>,
    segments: Seq<MatchSegmentView>,
    n: int,
    has_slash: bool,
    has_space: bool,
    lists: Seq<Vec<usize>>,
    score: int,
    positions: Seq<usize>,
) -> bool {
    &&& forall|j: int|
        0 <= j < lists.len() ==> alignment_score(
            text,
            segments,
            (#[trigger] lists[j])@,
            n,
            has_slash,
            has_space,
        ) <= score
    &&& lists.len() == 0 ==> score == 0 && positions.len() == 0
    &&& lists.len() > 0 ==> exists|i: int|
        is_first_with_score(text, segments, n, has_slash, has_space, lists, score, positions, i)
}

/// The best of a list of one alignment is that alignment.
proof fn lemma_best_of_first(
    text: Seq<char>,
    segments: Seq<MatchSegmentView>,
    n: int,
    has_slash: bool,
    has_space: bool,
    lists: Seq<Vec<usize>>,
)
    requires
        lists.len() > 0,
    ensures
        is_best_of(
            text,
            segments,
            n,
            has_slash,
            has_space,
            lists.take(1),
            alignment_score(text, segments, lists[0]@, n, has_slash, has_space),
            lists[0]@,
        ),
{
    let one = lists.take(1);
    let score = alignment_score(text, segments, lists[0]@, n, has_slash, has_space);
    assert(one[0] == lists[0]);
    assert(is_first_with_score(text, segments, n, has_slash, has_space, one, score, lists[0]@, 0));
}

/// The best of the first `k + 1` alignments, from the best of the first
/// `k`: alignment `k` where it scores more, else what was best before.
proof fn lemma_best_of_next(
    text: Seq<char>,
    segments: Seq<MatchSegmentView>,
    n: int,
    has_slash: bool,
    has_space: bool,
    lists: Seq<Vec<usize>>,
    k: int,
    score: int,
    positions: Seq<usize>,
)
    requires
        1 <= k < lists.len(),
        is_best_of(text, segments, n, has_slash, has_space, lists.take(k), score, positions),
    ensures
        ({
            let next = alignment_score(text, segments, lists[k]@, n, has_slash, has_space);
            if next > score {
                is_best_of(text, segments, n, has_slash, has_space, lists.take(k + 1), next, lists[k]@)
            } else {
                is_best_of(
                    text,
                    segments,
                    n,
                    has_slash,
                    has_space,
                    lists.take(k + 1),
                    score,
                    positions,
                )
            }
        }),
{
    let next = alignment_score(text, segments, lists[k]@, n, has_slash, has_space);
    let front = lists.take(k);
    let longer = lists.take(k + 1);
    assert forall|j: int| 0 <= j < k implies #[trigger] longer[j] == front[j] by {}
    assert(longer[k] == lists[k]);
    if next > score {
        assert forall|j: int| 0 <= j < longer.len() implies alignment_score(
            text,
            segments,
            (#[trigger] longer[j])@,
            n,
            has_slash,
            has_space,
        ) <= next by {
            if j < k {
                assert(longer[j] == front[j]);
            }
        }
        assert forall|j: int| 0 <= j < k implies alignment_score(
            text,
            segments,
            (#[trigger] longer[j])@,
            n,
            has_slash,
            has_space,
        ) < next by {
            assert(longer[j] == front[j]);
        }
        assert(is_first_with_score(
            text,
            segments,
            n,
            has_slash,
            has_space,
            longer,
            next,
            lists[k]@,
            k,
        ));
    } else {
        assert forall|j: int| 0 <= j < longer.len() implies alignment_score(
            text,
            segments,
            (#[trigger] longer[j])@,
            n,
            has_slash,
            has_space,
        ) <= score by {
            if j < k {
                assert(longer[j] == front[j]);
            }
        }
        let i = choose|i: int|
            is_first_with_score(text, segments, n, has_slash, has_space, front, score, positions, i);
        assert(longer[i] == front[i]);
        assert forall|j: int| 0 <= j < i implies alignment_score(
            text,
            segments,
            (#[trigger] longer[j])@,
            n,
            has_slash,
            has_space,
        ) < score by {
            assert(longer[j] == front[j]);
        }
        assert(is_first_with_score(
            text,
            segments,
            n,
            has_slash,
            has_space,
            longer,
            score,
            positions,
            i,
        ));
    }
}

/// The best of all the alignments of a query in a candidate is the score
/// of the candidate, and the alignment that comes with it is the first of
/// the best in dictionary order. Where the list is empty the query has no
/// alignment.
#[verifier::rlimit(30)]
proof fn lemma_best_of_all(
    candidate: CandidateView,
    query: Seq<char>,
    lists: Seq<Vec<usize>>,
    score: int,
    positions: Seq<usize>,
)
    requires
        query.len() > 0,
        is_all_matches(
            lowercase(candidate.match_text()),
            query_chars(query).skip(0),
            0,
            Seq::<usize>::empty(),
            lists,
        ),
        is_best_of(
            candidate.match_text(),
            candidate.segments(),
            query_chars(query).len() as int,
            query.contains('/'),
            query.contains(' '),
            lists,
            score,
            positions,
        ),
    ensures
        has_alignment(candidate, query) == (lists.len() > 0),
        is_best_score(candidate, query, score),
        is_best_alignment(candidate, query, score, positions),
{
    let text = lowercase(candidate.match_text());
    let q = query_chars(query);
    assert(q.skip(0) == q);
    lemma_matches_are_alignments(text, q, lists);
    assert forall|a: Seq<usize>| #[trigger]
        is_candidate_alignment(candidate, query, a) implies lists.len() > 0
        && candidate_alignment_score(candidate, query, a) <= score by {
        let j = choose|j: int|
            0 <= j < lists.len() && (#[trigger] lists[j])@ == Seq::<usize>::empty() + a;
        assert(Seq::<usize>::empty() + a =~= a);
    }
    if lists.len() > 0 {
        let i = choose|i: int|
            is_first_with_score(
                candidate.match_text(),
                candidate.segments(),
                q.len() as int,
                query.contains('/'),
                query.contains(' '),
                lists,
                score,
                positions,
                i,
            );
        assert(is_candidate_alignment(candidate, query, lists[i]@));
        assert(has_alignment(candidate, query));
        assert forall|a: Seq<usize>| #[trigger]
            is_candidate_alignment(candidate, query, a) && comes_before(
                a,
                positions,
            ) implies candidate_alignment_score(candidate, query, a) < score by {
            let j = choose|j: int|
                0 <= j < lists.len() && (#[trigger] lists[j])@ == Seq::<usize>::empty() + a;
            assert(Seq::<usize>::empty() + a =~= a);
            lemma_comes_before_asymmetric(a, positions);
            if j > i {
                assert(comes_before(lists[i]@, lists[j]@));
            }
        }
    }
}

/// `positions` is the alignment that `score` comes from: where the query
/// is not empty and occurs, the first alignment in dictionary order with
/// the score; else no alignment at all.
pub open spec fn is_best_alignment(
    candidate: CandidateView,
    query: Seq<char>,
    score: int,
    positions: Seq<usize>,
) -> bool {
    if query.len() == 0 || !has_alignment(candidate, query) {
        positions.len() == 0
    } else {
        &&& is_candidate_alignment(candidate, query, positions)
        &&& candidate_alignment_score(candidate, query, positions) == score
        &&& forall|a: Seq<usize>|
            #[trigger] is_candidate_alignment(candidate, query, a) && comes_before(a, positions)
                ==> candidate_alignment_score(candidate, query, a) < score
    }
}

/// The score of `candidate` for `query`.
pub open spec fn best_score(candidate: CandidateView, query: Seq<char>) -> int {
    choose|score: int| is_best_score(candidate, query, score)
}

/// A candidate has one score for a query and no other.
pub proof fn lemma_best_score_unique(
    candidate: CandidateView,
    query: Seq<char>,
    first: int,
    second: int,
)
    requires
        is_best_score(candidate, query, first),
        is_best_score(candidate, query, second),
    ensures
        first == second,
{
    if query.len() > 0 && has_alignment(candidate, query) {
        if first < second {
            let a = choose|a: Seq<usize>| #[trigger]
                is_candidate_alignment(candidate, query, a) && candidate_alignment_score(
                    candidate,
                    query,
                    a,
                ) == second;
            assert(candidate_alignment_score(candidate, query, a) <= first);
        } else if second < first {
            let a = choose|a: Seq<usize>| #[trigger]
                is_candidate_alignment(candidate, query, a) && candidate_alignment_score(
                    candidate,
                    query,
                    a,
                ) == first;
            assert(candidate_alignment_score(candidate, query, a) <= second);
        }
    }
}

/// Where a query that is not empty has an alignment, there is a score that
/// no alignment exceeds and one attains: the scores of alignments are whole
/// numbers and bounded.
proof fn lemma_some_score_is_best(candidate: CandidateView, query: Seq<char>, a: Seq<usize>)
    requires
        query.len() > 0,
        is_candidate_alignment(candidate, query, a),
    ensures
        exists|score: int| is_best_score(candidate, query, score),
    decreases 630000 * query_chars(query).len() + 50000 - candidate_alignment_score(
        candidate,
        query,
        a,
    ),
{
    let score = candidate_alignment_score(candidate, query, a);
    lemma_candidate_score_bound(candidate, query, a);
    assert(has_alignment(candidate, query));
    if forall|b: Seq<usize>| #[trigger]
        is_candidate_alignment(candidate, query, b) ==> candidate_alignment_score(
            candidate,
            query,
            b,
        ) <= score {
        assert(is_best_score(candidate, query, score));
    } else {
        let b = choose|b: Seq<usize>| #[trigger]
            is_candidate_alignment(candidate, query, b) && candidate_alignment_score(
                candidate,
                query,
                b,
            ) > score;
        lemma_candidate_score_bound(candidate, query, b);
        lemma_some_score_is_best(candidate, query, b);
    }
}

/// No alignment of a query in a candidate scores more than 6300 points for
/// each scalar of the query and 500 points.
proof fn lemma_candidate_score_bound(candidate: CandidateView, query: Seq<char>, a: Seq<usize>)
    requires
        is_candidate_alignment(candidate, query, a),
    ensures
        candidate_alignment_score(candidate, query, a) <= 630000 * query_chars(query).len()
            + 50000,
{
    if a.len() > 0 {
        lemma_increasing(a, 0, a.len() - 1);
    }
    lemma_alignment_score_bound(
        candidate.match_text(),
        candidate.segments(),
        a,
        query_chars(query).len() as int,
        query.contains('/'),
        query.contains(' '),
    );
}

/// Every candidate has a score for every query, and [`best_score`] is it.
pub proof fn lemma_best_score_exists(candidate: CandidateView, query: Seq<char>)
    ensures
        is_best_score(candidate, query, best_score(candidate, query)),
{
    if query.len() == 0 || !has_alignment(candidate, query) {
        assert(is_best_score(candidate, query, 0));
    } else {
        let a = choose|a: Seq<usize>| is_candidate_alignment(candidate, query, a);
        lemma_some_score_is_best(candidate, query, a);
    }
}

/// The score of a candidate for a query that is not empty and occurs in it
/// is the greatest score of an alignment: no alignment scores more, and
/// one scores as much.
pub proof fn lemma_best_score_is_maximum(candidate: CandidateView, query: Seq<char>)
    requires
        query.len() > 0,
        has_alignment(candidate, query),
    ensures
        forall|a: Seq<usize>| #[trigger]
            is_candidate_alignment(candidate, query, a) ==> candidate_alignment_score(
                candidate,
                query,
                a,
            ) <= best_score(candidate, query),
        exists|a: Seq<usize>| #[trigger]
            is_candidate_alignment(candidate, query, a) && candidate_alignment_score(
                candidate,
                query,
                a,
            ) == best_score(candidate, query),
{
    lemma_best_score_exists(candidate, query);
}

/// The empty query scores zero for every candidate.
pub proof fn lemma_empty_query_scores_zero(candidate: CandidateView)
    ensures
        is_best_score(candidate, Seq::<char>::empty(), 0),
        best_score(candidate, Seq::<char>::empty()) == 0,
{
    let query = Seq::<char>::empty();
    assert(is_best_score(candidate, query, 0));
    lemma_best_score_unique(candidate, query, 0, best_score(candidate, query));
}

/// A query that does not occur in the match text of a candidate, case
/// apart, scores zero.
pub proof fn lemma_no_alignment_scores_zero(candidate: CandidateView, query: Seq<char>)
    requires
        forall|a: Seq<usize>| !#[trigger] is_candidate_alignment(candidate, query, a),
    ensures
        is_best_score(candidate, query, 0),
        best_score(candidate, query) == 0,
{
    assert(!has_alignment(candidate, query));
    assert(is_best_score(candidate, query, 0));
    lemma_best_score_unique(candidate, query, 0, best_score(candidate, query));
}

/// Two queries are alike to the scorer: both are empty or neither is; they
/// are the same once trailing white space is dropped and case is folded;
/// and a slash, and a blank, is in both or in neither.
pub open spec fn same_folded(first: Seq<char>, second: Seq<char>) -> bool {
    &&& (first.len() == 0) == (second.len() == 0)
    &&& query_chars(first) == query_chars(second)
    &&& first.contains('/') == second.contains('/')
    &&& first.contains(' ') == second.contains(' ')
}

/// Case symmetry: queries that are alike to the scorer, as a query and its
/// uppercase form are when both lowercase to the same text, score alike
/// in every candidate.
pub proof fn lemma_case_symmetry(candidate: CandidateView, first: Seq<char>, second: Seq<char>)
    requires
        same_folded(first, second),
    ensures
        best_score(candidate, first) == best_score(candidate, second),
{
    lemma_best_score_exists(candidate, first);
    lemma_same_folded(candidate, first, second, best_score(candidate, first));
}

/// Queries that are alike to the scorer have the same alignments in every
/// candidate, with the same scores, and so the same score.
pub proof fn lemma_same_folded(
    candidate: CandidateView,
    first: Seq<char>,
    second: Seq<char>,
    score: int,
)
    requires
        same_folded(first, second),
        is_best_score(candidate, first, score),
    ensures
        forall|a: Seq<usize>|
            is_candidate_alignment(candidate, first, a) == is_candidate_alignment(
                candidate,
                second,
                a,
            ),
        forall|a: Seq<usize>|
            candidate_alignment_score(candidate, first, a) == candidate_alignment_score(
                candidate,
                second,
                a,
            ),
        is_best_score(candidate, second, score),
        best_score(candidate, first) == score,
        best_score(candidate, second) == score,
{
    if has_alignment(candidate, first) {
        let a = choose|a: Seq<usize>| is_candidate_alignment(candidate, first, a);
        assert(is_candidate_alignment(candidate, second, a));
    }
    if has_alignment(candidate, second) {
        let a = choose|a: Seq<usize>| is_candidate_alignment(candidate, second, a);
        assert(is_candidate_alignment(candidate, first, a));
    }
    assert(has_alignment(candidate, first) == has_alignment(candidate, second));
    if first.len() > 0 && has_alignment(candidate, first) {
        let a = choose|a: Seq<usize>| #[trigger]
            is_candidate_alignment(candidate, first, a) && candidate_alignment_score(
                candidate,
                first,
                a,
            ) == score;
        assert(is_candidate_alignment(candidate, second, a));
        assert(candidate_alignment_score(candidate, second, a) == score);
        assert forall|a: Seq<usize>| #[trigger]
            is_candidate_alignment(candidate, second, a) implies candidate_alignment_score(
            candidate,
            second,
            a,
        ) <= score by {
            assert(is_candidate_alignment(candidate, first, a));
            assert(candidate_alignment_score(candidate, first, a) <= score);
        }
    }
    assert(is_best_score(candidate, second, score));
    lemma_best_score_unique(candidate, first, score, best_score(candidate, first));
    lemma_best_score_unique(candidate, second, score, best_score(candidate, second));
}

/// Scores candidates against queries.
pub struct OptimalScorer {
    current_dir_worktree: Option<String>,
}

/// The worktree of a classified path, if it lies in one.
pub open spec fn worktree_of(path: ShortPathView) -> Option<Seq<char>> {
    match path.path_type {
        PathKind::WorldTree { worktree, .. } => Some(worktree),
        _ => None,
    }
}

/// The worktree that a directory lies in, if it lies in one.
pub open spec fn worktree_of_dir(dir: Seq<char>) -> Option<Seq<char>> {
    match world_tree_of(regex_captures(WORLD_TREES_PATTERN@, dir)) {
        Some(p) => worktree_of(p),
        None => None,
    }
}

/// The worktree of a directory is that of its classification, whatever
/// surrounds the directory: the world-tree rule comes first, and no other
/// rule yields a worktree.
pub proof fn lemma_worktree_of_dir(dir: Seq<char>, context: PathContextView)
    ensures
        worktree_of_dir(dir) == worktree_of(classify(dir, context)),
{
}

impl OptimalScorer {
    /// The worktree of the current directory, if it lies in one.
    pub closed spec fn current_worktree(&self) -> Option<Seq<char>> {
        match self.current_dir_worktree {
            Some(w) => Some(w@),
            None => None,
        }
    }

    /// A scorer for a caller whose current directory is `current_dir`: it
    /// knows the worktree that the classification of the directory names,
    /// if it names one.
    pub fn new(current_dir: String) -> (r: Self)
        ensures
            r.current_worktree() == worktree_of_dir(current_dir@),
            forall|context: PathContextView|
                r.current_worktree() == worktree_of(#[trigger] classify(current_dir@, context)),
    {
        proof {
            assert forall|context: PathContextView|
                worktree_of_dir(current_dir@) == worktree_of(
                    #[trigger] classify(current_dir@, context),
                ) by {
                lemma_worktree_of_dir(current_dir@, context);
            }
        }
        let current_dir_worktree = match check_world_tree_path(current_dir.as_str()) {
            Some(shortpath) => match shortpath.path_type {
                PathType::WorldTree { worktree, .. } => Some(worktree),
                _ => None,
            },
            None => None,
        };
        OptimalScorer { current_dir_worktree }
    }

    /// What belonging to a workspace adds to the total of a candidate.
    pub open spec fn adjustment(&self, candidate: CandidateView) -> int {
        match candidate.shortpath.path_type {
            PathKind::WorldTree { worktree, .. } => if self.current_worktree() == Some(worktree) {
                WORKTREE_PROXIMITY_BONUS as int
            } else {
                0
            },
            _ => NON_WORKTREE_PENALTY as int,
        }
    }

    /// The bonus for a candidate in the worktree of the current directory,
    /// the penalty for one that lies in no worktree, zero for any other.
    pub fn worktree_adjustment(&self, candidate: &Candidate) -> (r: Score)
        ensures
            r == self.adjustment(candidate@),
    {
        match &candidate.shortpath.path_type {
            PathType::WorldTree { worktree, .. } => match &self.current_dir_worktree {
                Some(current_wt) => if *current_wt == *worktree {
                    WORKTREE_PROXIMITY_BONUS
                } else {
                    0
                },
                None => 0,
            },
            _ => NON_WORKTREE_PENALTY,
        }
    }

    /// Scores the matched scalars one by one and counts those at word
    /// boundaries.
    #[verifier::rlimit(30)]
    pub fn score_character_matches(
        &self,
        text_chars: &Vec<char>,
        positions: &Vec<usize>,
        query_has_slash: bool,
        query_has_space: bool,
        segments: &Vec<MatchSegment>,
    ) -> (r: (Score, usize))
        ensures
            r.0 == characters_score(
                text_chars@,
                segments_view(segments@),
                positions@,
                positions@.len() as int,
                query_has_slash,
                query_has_space,
            ),
            r.1 == boundary_count(text_chars@, positions@, positions@.len() as int),
            r.1 == positions@.len() <==> all_at_boundaries(text_chars@, positions@),
            0 <= r.0 <= 600000 * positions@.len(),
    {
        proof {
            lemma_boundary_count(text_chars@, positions@, positions@.len() as int);
        }
        let ghost text = text_chars@;
        let ghost sv = segments_view(segments@);
        let ghost a = positions@;
        let mut score: Score = 0;
        let mut multiplier: Score = 1;
        let mut boundary_value: Score = WORD_BOUNDARY_SCORE;
        let mut word_boundary_count: usize = 0;
        let mut last_was_boundary = false;
        let mut i: usize = 0;
        while i < positions.len()
            invariant
                i <= positions.len(),
                text == text_chars@,
                sv == segments_view(segments@),
                a == positions@,
                i > 0 ==> last_was_boundary == word_boundary(text, a[i - 1] as int),
                i > 0 && last_was_boundary ==> boundary_value == boundary_char_score(
                    boundary_run(text, a, i - 1),
                ),
                i > 0 ==> multiplier == consecutive_multiplier(consecutive_run(a, i - 1)),
                20000 <= boundary_value <= 50000,
                1 <= multiplier <= 8,
                score == characters_score(text, sv, a, i as int, query_has_slash, query_has_space),
                0 <= score <= 600000 * i,
                word_boundary_count == boundary_count(text, a, i as int),
                word_boundary_count <= i,
            decreases positions.len() - i,
        {
            let pos = positions[i];
            proof {
                lemma_char_score_step(
                    text,
                    sv,
                    a,
                    i as int,
                    query_has_slash,
                    query_has_space,
                    boundary_value as int,
                    multiplier as int,
                );
            }
            let mut value: Score = BASE_CHAR_SCORE;
            let is_boundary = is_word_boundary(text_chars, pos);
            if is_boundary {
                word_boundary_count += 1;
                if i > 0 && last_was_boundary {
                    boundary_value = next_boundary_value(boundary_value);
                } else {
                    boundary_value = WORD_BOUNDARY_SCORE;
                }
                value = boundary_value;
            }
            last_was_boundary = is_boundary;
            let boost = section_boost_of(
                get_section_type(pos, segments),
                query_has_slash,
                query_has_space,
            );
            if i > 0 && pos > 0 && positions[i - 1] == pos - 1 {
                multiplier = next_multiplier(multiplier);
            } else {
                multiplier = 1;
            }
            let added = scaled(value, boost, multiplier);
            assert(added == char_score(text, sv, a, i as int, query_has_slash, query_has_space));
            score = score + added;
            i += 1;
        }
        (score, word_boundary_count)
    }

    /// Adds the bonus for the quality of the alignment: all at word
    /// boundaries and contiguous, or all at word boundaries, or contiguous.
    pub fn apply_match_bonuses(
        &self,
        score: Score,
        positions: &Vec<usize>,
        query_chars: &Vec<char>,
        word_boundary_count: usize,
    ) -> (r: Score)
        requires
            -SCORE_LIMIT <= score <= SCORE_LIMIT,
        ensures
            r == score + quality_bonus(
                positions@,
                query_chars@.len() as int,
                word_boundary_count as int,
            ),
    {
        let all_consecutive = is_all_consecutive(positions);
        let n: Score = query_chars.len() as Score;
        if word_boundary_count == query_chars.len() && all_consecutive {
            score + PERFECT_MATCH_BONUS * n
        } else if word_boundary_count == query_chars.len() {
            score + ALL_WORD_BOUNDARIES_BONUS * n
        } else if all_consecutive {
            score + ALL_CONSECUTIVE_BONUS * n
        } else {
            score
        }
    }

    /// Takes off the cost of the span of the alignment and of its distance
    /// from the start of the main content.
    pub fn apply_penalties(
        &self,
        score: Score,
        positions: &Vec<usize>,
        segments: &Vec<MatchSegment>,
    ) -> (r: Score)
        requires
            first_before_last(positions@),
            -SCORE_LIMIT <= score <= SCORE_LIMIT,
        ensures
            r == score - penalties(segments_view(segments@), positions@),
    {
        if positions.len() == 0 {
            return score;
        }
        let first = positions[0];
        let last = positions[positions.len() - 1];
        let span: Score = (last - first) as Score + 1;
        let mut result = score - span * SPAN_PENALTY;
        let main_content_start = get_main_content_start(segments);
        if first > main_content_start {
            let distance_from_main: Score = (first - main_content_start) as Score;
            result = result - distance_from_main * DISTANCE_FROM_START_PENALTY;
        }
        result
    }

    /// Adds the bonus for an alignment that spells a whole component or,
    /// failing that, is contiguous and begins one.
    pub fn check_special_bonuses(
        &self,
        score: Score,
        positions: &Vec<usize>,
        text_chars: &Vec<char>,
        segments: &Vec<MatchSegment>,
    ) -> (r: Score)
        requires
            -SCORE_LIMIT <= score <= SCORE_LIMIT,
        ensures
            r == score + special_bonus(text_chars@, segments_view(segments@), positions@),
    {
        let ghost sv = segments_view(segments@);
        let ghost a = positions@;
        let mut matched: Vec<char> = Vec::new();
        let mut i: usize = 0;
        while i < positions.len()
            invariant
                i <= positions.len(),
                matched@ == matched_text(text_chars@, positions@).take(i as int),
            decreases positions.len() - i,
        {
            let c = if positions[i] < text_chars.len() {
                text_chars[positions[i]]
            } else {
                '\0'
            };
            matched.push(c);
            assert(matched@ =~= matched_text(text_chars@, positions@).take(i + 1));
            i += 1;
        }
        assert(matched@ =~= matched_text(text_chars@, positions@));
        let matched_lower = lowercase_chars(&matched);

        let mut k: usize = 0;
        while k < segments.len()
            invariant
                k <= segments.len(),
                sv == segments_view(segments@),
                a == positions@,
                matched@ == matched_text(text_chars@, a),
                matched_lower@ == lowercase(matched@),
                -SCORE_LIMIT <= score <= SCORE_LIMIT,
                forall|j: int| 0 <= j < k ==> !is_exact_match(#[trigger] sv[j], matched@, a),
            decreases segments.len() - k,
        {
            assert(sv[k as int] == segments@[k as int]@);
            let segment = &segments[k];
            let content = match segment.component_type {
                ComponentType::Icon | ComponentType::Separator => false,
                _ => true,
            };
            if content && positions.len() > 0 {
                let first = positions[0];
                let last = positions[positions.len() - 1];
                if first >= segment.start && first < segment.end && last >= segment.start && last
                    < segment.end {
                    let segment_lower = lowercase_chars(&chars_of(segment.text.as_str()));
                    if same_chars(&segment_lower, &matched_lower) {
                        assert(is_exact_match(sv[k as int], matched@, a));
                        return score + EXACT_MATCH_BONUS;
                    }
                }
            }
            k += 1;
        }

        if is_all_consecutive(positions) && positions.len() > 0 {
            let first = positions[0];
            let mut k: usize = 0;
            while k < segments.len()
                invariant
                    k <= segments.len(),
                    sv == segments_view(segments@),
                    a == positions@,
                    a.len() > 0,
                    first == a[0],
                    all_consecutive(a),
                    -SCORE_LIMIT <= score <= SCORE_LIMIT,
                    forall|j: int|
                        0 <= j < sv.len() ==> !is_exact_match(
                            #[trigger] sv[j],
                            matched_text(text_chars@, a),
                            a,
                        ),
                    forall|j: int| 0 <= j < k ==> !is_prefix_match(#[trigger] sv[j], a),
                decreases segments.len() - k,
            {
                assert(sv[k as int] == segments@[k as int]@);
                let segment = &segments[k];
                if first == segment.start && is_all_within(positions, segment.start, segment.end) {
                    assert(is_prefix_match(sv[k as int], a));
                    return score + PREFIX_MATCH_BONUS;
                }
                k += 1;
            }
        }
        score
    }

    /// Scores one alignment: what its matches add, the bonus for its
    /// quality, the cost of its span and distance, and the bonus for
    /// spelling or beginning a component.
    pub fn score_match(
        &self,
        text_chars: &Vec<char>,
        positions: &Vec<usize>,
        query_chars: &Vec<char>,
        query_has_slash: bool,
        query_has_space: bool,
        segments: &Vec<MatchSegment>,
    ) -> (r: Score)
        requires
            first_before_last(positions@),
        ensures
            r == alignment_score(
                text_chars@,
                segments_view(segments@),
                positions@,
                query_chars@.len() as int,
                query_has_slash,
                query_has_space,
            ),
            -SCORE_LIMIT <= r <= SCORE_LIMIT,
    {
        reveal(alignment_score);
        let (base_score, word_boundary_count) = self.score_character_matches(
            text_chars,
            positions,
            query_has_slash,
            query_has_space,
            segments,
        );
        let matched: usize = positions.len();
        let asked: usize = query_chars.len();
        proof {
            assert forall|k: int| 0 <= k < segments@.len() implies 0 <= (#[trigger] segments_view(
                segments@,
            )[k]).end by {
                assert(segments_view(segments@)[k] == segments@[k]@);
            }
            lemma_score_parts_bounds(
                segments_view(segments@),
                positions@,
                asked as int,
                word_boundary_count as int,
            );
        }
        let score_with_bonuses = self.apply_match_bonuses(
            base_score,
            positions,
            query_chars,
            word_boundary_count,
        );
        let score_with_penalties = self.apply_penalties(score_with_bonuses, positions, segments);
        self.check_special_bonuses(score_with_penalties, positions, text_chars, segments)
    }

    /// Scores each alignment of a list and returns the greatest score,
    /// whatever its sign, with the first alignment that has it; zero and no
    /// alignment for an empty list.
    pub fn best_match(
        &self,
        text_chars: &Vec<char>,
        query_chars: &Vec<char>,
        query_has_slash: bool,
        query_has_space: bool,
        segments: &Vec<MatchSegment>,
        all_matches: &Vec<Vec<usize>>,
    ) -> (r: (Score, Vec<usize>))
        requires
            forall|j: int|
                0 <= j < all_matches@.len() ==> first_before_last((#[trigger] all_matches@[j])@),
        ensures
            is_best_of(
                text_chars@,
                segments_view(segments@),
                query_chars@.len() as int,
                query_has_slash,
                query_has_space,
                all_matches@,
                r.0 as int,
                r.1@,
            ),
            -SCORE_LIMIT <= r.0 <= SCORE_LIMIT,
    {
        if all_matches.len() == 0 {
            return (0, Vec::new());
        }
        let mut best_score: Score = self.score_match(
            text_chars,
            &all_matches[0],
            query_chars,
            query_has_slash,
            query_has_space,
            segments,
        );
        let mut best_positions: Vec<usize> = copy_positions(&all_matches[0]);
        proof {
            lemma_best_of_first(
                text_chars@,
                segments_view(segments@),
                query_chars@.len() as int,
                query_has_slash,
                query_has_space,
                all_matches@,
            );
        }
        let mut k: usize = 1;
        while k < all_matches.len()
            invariant
                1 <= k <= all_matches.len(),
                forall|j: int|
                    0 <= j < all_matches@.len() ==> first_before_last(
                        (#[trigger] all_matches@[j])@,
                    ),
                is_best_of(
                    text_chars@,
                    segments_view(segments@),
                    query_chars@.len() as int,
                    query_has_slash,
                    query_has_space,
                    all_matches@.take(k as int),
                    best_score as int,
                    best_positions@,
                ),
                -SCORE_LIMIT <= best_score <= SCORE_LIMIT,
            decreases all_matches.len() - k,
        {
            let positions = &all_matches[k];
            let score = self.score_match(
                text_chars,
                positions,
                query_chars,
                query_has_slash,
                query_has_space,
                segments,
            );
            let ghost old_score = best_score as int;
            let ghost old_positions = best_positions@;
            if score > best_score {
                best_score = score;
                best_positions = copy_positions(positions);
            }
            proof {
                lemma_best_of_next(
                    text_chars@,
                    segments_view(segments@),
                    query_chars@.len() as int,
                    query_has_slash,
                    query_has_space,
                    all_matches@,
                    k as int,
                    old_score,
                    old_positions,
                );
            }
            k += 1;
        }
        assert(all_matches@.take(all_matches.len() as int) == all_matches@);
        (best_score, best_positions)
    }

    /// Scores a candidate against a query and returns the alignment that
    /// the score comes from. The score is the greatest score, whatever its
    /// sign, of all the ways in which the query, without its trailing white
    /// space and case apart, occurs in the match text; the alignment is the
    /// first in dictionary order that has it. For the empty query, and for
    /// a query that does not occur, the score is zero and there is no
    /// alignment. A score of zero or less says that the candidate does not
    /// match.
    pub fn score_candidate_with_positions(&self, candidate: &Candidate, query: &str) -> (r: (
        Score,
        Vec<usize>,
    ))
        ensures
            is_best_score(candidate@, query@, r.0 as int),
            r.0 == best_score(candidate@, query@),
            is_best_alignment(candidate@, query@, r.0 as int, r.1@),
            -SCORE_LIMIT <= r.0 <= SCORE_LIMIT,
    {
        if query.is_empty() {
            proof {
                lemma_best_score_unique(candidate@, query@, 0, best_score(candidate@, query@));
            }
            return (0, Vec::new());
        }
        let segments = candidate.get_segments();
        let text = candidate.get_match_text();
        let text_chars = chars_of(text.as_str());
        let mut query_chars = chars_of(query);
        let query_has_slash = has_char(&query_chars, '/');
        let query_has_space = has_char(&query_chars, ' ');
        let trimmed = trimmed_len(&query_chars);
        query_chars.truncate(trimmed);
        assert(query_chars@ =~= trim_end(query@));
        let query_chars = lowercase_chars(&query_chars);
        let text_lower = lowercase_chars(&text_chars);
        assert(query_chars@.skip(0) == query_chars@);

        let all_matches = find_all_matches(&text_lower, &query_chars, 0, 0, Vec::new());
        proof {
            lemma_matches_are_alignments(text_lower@, query_chars@, all_matches@);
            assert forall|j: int| 0 <= j < all_matches@.len() implies first_before_last(
                (#[trigger] all_matches@[j])@,
            ) by {
                if all_matches@[j]@.len() > 0 {
                    lemma_increasing(all_matches@[j]@, 0, all_matches@[j]@.len() - 1);
                }
            }
        }
        let (score, positions) = self.best_match(
            &text_chars,
            &query_chars,
            query_has_slash,
            query_has_space,
            &segments,
            &all_matches,
        );
        proof {
            lemma_best_of_all(candidate@, query@, all_matches@, score as int, positions@);
            lemma_best_score_unique(
                candidate@,
                query@,
                score as int,
                best_score(candidate@, query@),
            );
        }
        (score, positions)
    }

    /// Scores a candidate against a query: see
    /// [`OptimalScorer::score_candidate_with_positions`].
    pub fn score_candidate(&self, candidate: &Candidate, query: &str) -> (r: Score)
        ensures
            is_best_score(candidate@, query@, r as int),
            r == best_score(candidate@, query@),
            -SCORE_LIMIT <= r <= SCORE_LIMIT,
    {
        let (score, _) = self.score_candidate_with_positions(candidate, query);
        score
    }
}

impl Default for OptimalScorer {
    fn default() -> (r: Self)
        ensures
            r.current_worktree() == worktree_of_dir(Seq::<char>::empty()),
    {
        Self::new(String::new())
    }
}

} // verus!
