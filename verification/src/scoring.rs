//! The scoring scheme: what an alignment is worth.
//!
//! Scores are whole numbers of hundredths of a point, so every weight of the
//! scheme, fractions of a point included, is exact.

use crate::candidate::{MatchSegment, MatchSegmentView, segments_view};
use crate::path_shortener::ComponentType;
use crate::text::{
    char_is_alphanumeric, decimal, digit, digit_char, is_alphanumeric, lowercase, push_char,
    push_decimal,
};
use vstd::prelude::*;

verus! {

/// A score, in hundredths of a point.
pub type Score = i128;

/// Hundredths in one point.
pub const POINT: i128 = 100;

/// What a matched scalar is worth where it is at no word boundary.
pub const BASE_CHAR_SCORE: i128 = 5000;

/// What a matched scalar at a word boundary is worth before any multiplier.
pub const WORD_BOUNDARY_SCORE: i128 = 20000;

/// The most that a matched scalar at a word boundary is worth after the
/// multiplier for a run of boundary matches: two and a half times
/// [`WORD_BOUNDARY_SCORE`].
pub const MAX_WORD_BOUNDARY_SCORE: i128 = 50000;

/// The multiplier for a run of boundary matches, in tenths: each further
/// boundary match in a row is worth 1.3 times the one before it.
pub const WORD_BOUNDARY_MULTIPLIER_TENTHS: i128 = 13;

/// Each further match at the very next offset doubles the multiplier.
pub const CONSECUTIVE_MULTIPLIER: i128 = 2;

/// The multiplier for matches at successive offsets grows no further than this.
pub const MAX_CONSECUTIVE_MULTIPLIER: i128 = 8;

/// The section multiplier, in tenths, of a match in project or repository
/// where the query holds a slash.
pub const PROJECT_REPO_SLASH_BOOST_TENTHS: i128 = 15;

/// The section multiplier of a match in worktree or owner where the query
/// holds a slash.
pub const WORKTREE_OWNER_SLASH_BOOST_TENTHS: i128 = 12;

/// The section multiplier of a match in worktree or owner where the query
/// holds no slash.
pub const WORKTREE_OWNER_NO_SLASH_PENALTY_TENTHS: i128 = 7;

/// The section multiplier of a match in the branch where the query holds a blank.
pub const BRANCH_SPACE_BOOST_TENTHS: i128 = 11;

/// The section multiplier of a match in the branch where the query holds no blank.
pub const BRANCH_NO_SPACE_PENALTY_TENTHS: i128 = 5;

/// The section multiplier of any other match: one.
pub const NEUTRAL_BOOST_TENTHS: i128 = 10;

/// Bonus for each scalar of an alignment that is all at word boundaries and contiguous.
pub const PERFECT_MATCH_BONUS: i128 = 30000;

/// Bonus for each scalar of an alignment that is all at word boundaries.
pub const ALL_WORD_BOUNDARIES_BONUS: i128 = 5000;

/// Bonus for each scalar of a contiguous alignment.
pub const ALL_CONSECUTIVE_BONUS: i128 = 15000;

/// Bonus for an alignment that spells a whole component.
pub const EXACT_MATCH_BONUS: i128 = 50000;

/// Bonus for a contiguous alignment that begins a component.
pub const PREFIX_MATCH_BONUS: i128 = 5000;

/// Bonus for a candidate in the worktree of the current directory.
pub const WORKTREE_PROXIMITY_BONUS: i128 = 20000;

/// Cost of each offset that an alignment spans.
pub const SPAN_PENALTY: i128 = 1000;

/// Cost of each offset between the main content's start and the first match.
pub const DISTANCE_FROM_START_PENALTY: i128 = 50;

/// What is added for a candidate that lies in no worktree.
pub const NON_WORKTREE_PENALTY: i128 = -5000;

/// The most that one matched scalar adds to a score.
pub const MAX_CHAR_SCORE: i128 = 600000;

/// Offset `pos` of `text` is a word boundary: it is the start of the text,
/// or it lies in the text behind a scalar that is neither letter nor digit.
pub open spec fn word_boundary(text: Seq<char>, pos: int) -> bool {
    pos == 0 || (pos < text.len() && !is_alphanumeric(text[pos - 1]))
}

/// The role of the first segment that offset `pos` falls in, looking from
/// segment `i` on; `Path` where it falls in none.
pub open spec fn section_type_from(segments: Seq<MatchSegmentView>, i: int, pos: int) -> ComponentType
    decreases segments.len() - i,
{
    if i < 0 || i >= segments.len() {
        ComponentType::Path
    } else if segments[i].start <= pos < segments[i].end {
        segments[i].component_type
    } else {
        section_type_from(segments, i + 1, pos)
    }
}

/// The role of the segment that offset `pos` falls in.
pub open spec fn section_type(segments: Seq<MatchSegmentView>, pos: int) -> ComponentType {
    section_type_from(segments, 0, pos)
}

/// Where the main content starts, looking from segment `i` on with
/// `main_start` found so far: icon, worktree and owner each move it to their
/// end; so does a separator that follows one of them (`after_prefix`); the
/// first segment of any other role ends the search.
pub open spec fn main_content_start_from(
    segments: Seq<MatchSegmentView>,
    i: int,
    main_start: int,
    after_prefix: bool,
) -> int
    decreases segments.len() - i,
{
    if i < 0 || i >= segments.len() {
        main_start
    } else {
        match segments[i].component_type {
            ComponentType::Icon | ComponentType::Worktree | ComponentType::Owner => {
                main_content_start_from(segments, i + 1, segments[i].end, true)
            },
            ComponentType::Separator => main_content_start_from(
                segments,
                i + 1,
                if after_prefix {
                    segments[i].end
                } else {
                    main_start
                },
                after_prefix,
            ),
            _ => main_start,
        }
    }
}

/// The offset at which the main content starts: just behind the leading
/// icon, worktree or owner and the separator that follows them; zero where
/// the segments begin with none of these.
pub open spec fn main_content_start(segments: Seq<MatchSegmentView>) -> int {
    main_content_start_from(segments, 0, 0, false)
}

/// Whether offset `pos` of `text_chars` is at a word boundary.
pub fn is_word_boundary(text_chars: &Vec<char>, pos: usize) -> (r: bool)
    ensures
        r == word_boundary(text_chars@, pos as int),
{
    if pos == 0 {
        return true;
    }
    if pos >= text_chars.len() {
        return false;
    }
    !char_is_alphanumeric(text_chars[pos - 1])
}

/// The role of the segment that offset `pos` falls in: that of the first
/// segment whose range holds it, `Path` where none does.
pub fn get_section_type(pos: usize, segments: &Vec<MatchSegment>) -> (r: ComponentType)
    ensures
        r == section_type(segments_view(segments@), pos as int),
{
    let ghost sv = segments_view(segments@);
    let mut i: usize = 0;
    while i < segments.len()
        invariant
            i <= segments.len(),
            sv == segments_view(segments@),
            section_type(sv, pos as int) == section_type_from(sv, i as int, pos as int),
        decreases segments.len() - i,
    {
        assert(sv[i as int] == segments@[i as int]@);
        if pos >= segments[i].start && pos < segments[i].end {
            return segments[i].component_type;
        }
        i += 1;
    }
    ComponentType::Path
}

/// The offset at which the main content starts.
pub fn get_main_content_start(segments: &Vec<MatchSegment>) -> (r: usize)
    ensures
        r == main_content_start(segments_view(segments@)),
{
    let ghost sv = segments_view(segments@);
    let mut main_start: usize = 0;
    let mut after_prefix = false;
    let mut i: usize = 0;
    while i < segments.len()
        invariant
            i <= segments.len(),
            sv == segments_view(segments@),
            main_content_start(sv) == main_content_start_from(
                sv,
                i as int,
                main_start as int,
                after_prefix,
            ),
        decreases segments.len() - i,
    {
        assert(sv[i as int] == segments@[i as int]@);
        match segments[i].component_type {
            ComponentType::Icon | ComponentType::Worktree | ComponentType::Owner => {
                main_start = segments[i].end;
                after_prefix = true;
            },
            ComponentType::Separator => {
                if after_prefix {
                    main_start = segments[i].end;
                }
            },
            _ => {
                return main_start;
            },
        }
        i += 1;
    }
    main_start
}

/// What a matched scalar at a word boundary is worth when `run` boundary
/// matches stand in a row right before it: [`WORD_BOUNDARY_SCORE`], times
/// 1.3 for each of them, but no more than [`MAX_WORD_BOUNDARY_SCORE`].
pub open spec fn boundary_char_score(run: nat) -> int
    decreases run,
{
    if run == 0 {
        WORD_BOUNDARY_SCORE as int
    } else {
        let grown = boundary_char_score((run - 1) as nat) * WORD_BOUNDARY_MULTIPLIER_TENTHS / 10;
        if grown < MAX_WORD_BOUNDARY_SCORE {
            grown
        } else {
            MAX_WORD_BOUNDARY_SCORE as int
        }
    }
}

/// The multiplier of a match when `run` matches at successive offsets stand
/// right before it: doubled for each of them, but no more than
/// [`MAX_CONSECUTIVE_MULTIPLIER`].
pub open spec fn consecutive_multiplier(run: nat) -> int
    decreases run,
{
    if run == 0 {
        1
    } else {
        let grown = consecutive_multiplier((run - 1) as nat) * CONSECUTIVE_MULTIPLIER;
        if grown < MAX_CONSECUTIVE_MULTIPLIER {
            grown
        } else {
            MAX_CONSECUTIVE_MULTIPLIER as int
        }
    }
}

/// How many matches in a row right before match `i` are at word boundaries.
pub open spec fn boundary_run(text: Seq<char>, a: Seq<usize>, i: int) -> nat
    decreases i,
{
    if i <= 0 || !word_boundary(text, a[i - 1] as int) {
        0
    } else {
        boundary_run(text, a, i - 1) + 1
    }
}

/// How many matches right before match `i` are each at the offset just
/// before the next.
pub open spec fn consecutive_run(a: Seq<usize>, i: int) -> nat
    decreases i,
{
    if i <= 0 || a[i - 1] + 1 != a[i] {
        0
    } else {
        consecutive_run(a, i - 1) + 1
    }
}

/// The section multiplier, in tenths, of a match in a segment of role
/// `kind`: project and repository gain where the query holds a slash;
/// worktree and owner gain a little there and lose without it; a branch
/// gains a little where the query holds a blank and loses without it.
pub open spec fn section_boost(kind: ComponentType, has_slash: bool, has_space: bool) -> int {
    match kind {
        ComponentType::Project | ComponentType::Repo => if has_slash {
            PROJECT_REPO_SLASH_BOOST_TENTHS as int
        } else {
            NEUTRAL_BOOST_TENTHS as int
        },
        ComponentType::Worktree | ComponentType::Owner => if has_slash {
            WORKTREE_OWNER_SLASH_BOOST_TENTHS as int
        } else {
            WORKTREE_OWNER_NO_SLASH_PENALTY_TENTHS as int
        },
        ComponentType::Branch => if has_space {
            BRANCH_SPACE_BOOST_TENTHS as int
        } else {
            BRANCH_NO_SPACE_PENALTY_TENTHS as int
        },
        _ => NEUTRAL_BOOST_TENTHS as int,
    }
}

/// What match `i` of alignment `a` adds to the score.
pub open spec fn char_score(
    text: Seq<char>,
    segments: Seq<MatchSegmentView>,
    a: Seq<usize>,
    i: int,
    has_slash: bool,
    has_space: bool,
) -> int {
    let value = if word_boundary(text, a[i] as int) {
        boundary_char_score(boundary_run(text, a, i))
    } else {
        BASE_CHAR_SCORE as int
    };
    value * section_boost(section_type(segments, a[i] as int), has_slash, has_space) / 10
        * consecutive_multiplier(consecutive_run(a, i))
}

/// What the first `upto` matches of alignment `a` add to the score.
pub open spec fn characters_score(
    text: Seq<char>,
    segments: Seq<MatchSegmentView>,
    a: Seq<usize>,
    upto: int,
    has_slash: bool,
    has_space: bool,
) -> int
    decreases upto,
{
    if upto <= 0 {
        0
    } else {
        characters_score(text, segments, a, upto - 1, has_slash, has_space) + char_score(
            text,
            segments,
            a,
            upto - 1,
            has_slash,
            has_space,
        )
    }
}

/// How many of the first `upto` matches are at word boundaries.
pub open spec fn boundary_count(text: Seq<char>, a: Seq<usize>, upto: int) -> nat
    decreases upto,
{
    if upto <= 0 {
        0
    } else {
        boundary_count(text, a, upto - 1) + if word_boundary(text, a[upto - 1] as int) {
            1nat
        } else {
            0nat
        }
    }
}

/// Every match is at the offset just behind the match before it.
pub open spec fn all_consecutive(a: Seq<usize>) -> bool {
    forall|i: int, j: int|
        0 <= i && j == i + 1 && j < a.len() ==> (#[trigger] a[i]) + 1 == (#[trigger] a[j])
}

/// The bonus for the quality of an alignment of a query of `n` scalars, of
/// which `boundaries` are matched at word boundaries: one of three, for
/// each scalar of the query.
pub open spec fn quality_bonus(a: Seq<usize>, n: int, boundaries: int) -> int {
    if boundaries == n && all_consecutive(a) {
        PERFECT_MATCH_BONUS * n
    } else if boundaries == n {
        ALL_WORD_BOUNDARIES_BONUS * n
    } else if all_consecutive(a) {
        ALL_CONSECUTIVE_BONUS * n
    } else {
        0
    }
}

/// The cost of the span of an alignment and of its distance from the main content.
pub open spec fn penalties(segments: Seq<MatchSegmentView>, a: Seq<usize>) -> int {
    if a.len() == 0 {
        0
    } else {
        let span = a.last() - a[0] + 1;
        let start = main_content_start(segments);
        SPAN_PENALTY * span + if a[0] > start {
            DISTANCE_FROM_START_PENALTY * (a[0] - start)
        } else {
            0
        }
    }
}

/// The scalars of `text` at the offsets of `a`; U+0000 for an offset
/// behind the end of the text.
pub open spec fn matched_text(text: Seq<char>, a: Seq<usize>) -> Seq<char> {
    Seq::new(
        a.len(),
        |i: int|
            if a[i] < text.len() {
                text[a[i] as int]
            } else {
                '\0'
            },
    )
}

/// Every offset of `a` lies in `start..end`.
pub open spec fn all_within(a: Seq<usize>, start: int, end: int) -> bool {
    forall|i: int| 0 <= i < a.len() ==> start <= (#[trigger] a[i]) < end
}

/// The alignment spells the whole of `segment`, which is neither icon nor
/// separator: case apart, the matched scalars are its text, and the first
/// and the last of them lie in its range.
pub open spec fn is_exact_match(segment: MatchSegmentView, matched: Seq<char>, a: Seq<usize>) -> bool {
    &&& segment.component_type != ComponentType::Icon
    &&& segment.component_type != ComponentType::Separator
    &&& lowercase(segment.text) == lowercase(matched)
    &&& a.len() > 0
    &&& segment.start <= a[0] < segment.end
    &&& segment.start <= a.last() < segment.end
}

/// The alignment starts where `segment` starts and stays inside it.
pub open spec fn is_prefix_match(segment: MatchSegmentView, a: Seq<usize>) -> bool {
    &&& a.len() > 0
    &&& a[0] == segment.start
    &&& all_within(a, segment.start, segment.end)
}

/// The bonus for an alignment that spells a whole component or, failing
/// that, is contiguous and begins one.
pub open spec fn special_bonus(text: Seq<char>, segments: Seq<MatchSegmentView>, a: Seq<usize>) -> int {
    if exists|k: int|
        0 <= k < segments.len() && is_exact_match(#[trigger] segments[k], matched_text(text, a), a) {
        EXACT_MATCH_BONUS as int
    } else if all_consecutive(a) && exists|k: int|
        0 <= k < segments.len() && is_prefix_match(#[trigger] segments[k], a) {
        PREFIX_MATCH_BONUS as int
    } else {
        0
    }
}

/// The score of alignment `a` of a query of `n` scalars in `text`, cut
/// into `segments`.
#[verifier::opaque]
pub open spec fn alignment_score(
    text: Seq<char>,
    segments: Seq<MatchSegmentView>,
    a: Seq<usize>,
    n: int,
    has_slash: bool,
    has_space: bool,
) -> int {
    characters_score(text, segments, a, a.len() as int, has_slash, has_space) + quality_bonus(
        a,
        n,
        boundary_count(text, a, a.len() as int) as int,
    ) - penalties(segments, a) + special_bonus(text, segments, a)
}

/// A bound that no score computed here comes near: two to the hundredth.
pub const SCORE_LIMIT: i128 = 0x10_0000_0000_0000_0000_0000_0000;

/// The value of a boundary match lies between the plain value and the cap.
pub proof fn lemma_boundary_char_score_bounds(run: nat)
    ensures
        WORD_BOUNDARY_SCORE <= boundary_char_score(run) <= MAX_WORD_BOUNDARY_SCORE,
    decreases run,
{
    if run > 0 {
        lemma_boundary_char_score_bounds((run - 1) as nat);
    }
}

/// The multiplier of successive matches lies between one and its cap.
pub proof fn lemma_consecutive_multiplier_bounds(run: nat)
    ensures
        1 <= consecutive_multiplier(run) <= MAX_CONSECUTIVE_MULTIPLIER,
    decreases run,
{
    if run > 0 {
        lemma_consecutive_multiplier_bounds((run - 1) as nat);
    }
}

/// One match adds something, and no more than [`MAX_CHAR_SCORE`].
pub proof fn lemma_char_score_bounds(
    text: Seq<char>,
    segments: Seq<MatchSegmentView>,
    a: Seq<usize>,
    i: int,
    has_slash: bool,
    has_space: bool,
)
    ensures
        0 <= char_score(text, segments, a, i, has_slash, has_space) <= MAX_CHAR_SCORE,
{
    lemma_boundary_char_score_bounds(boundary_run(text, a, i));
    lemma_consecutive_multiplier_bounds(consecutive_run(a, i));
    let value = if word_boundary(text, a[i] as int) {
        boundary_char_score(boundary_run(text, a, i))
    } else {
        BASE_CHAR_SCORE as int
    };
    let boost = section_boost(section_type(segments, a[i] as int), has_slash, has_space);
    let mult = consecutive_multiplier(consecutive_run(a, i));
    lemma_scaled_bounds(value, boost, mult);
}

/// The matches of an alignment add something, and no more than
/// [`MAX_CHAR_SCORE`] each.
pub proof fn lemma_characters_score_bounds(
    text: Seq<char>,
    segments: Seq<MatchSegmentView>,
    a: Seq<usize>,
    upto: int,
    has_slash: bool,
    has_space: bool,
)
    requires
        0 <= upto,
    ensures
        0 <= characters_score(text, segments, a, upto, has_slash, has_space) <= 600000 * upto,
    decreases upto,
{
    if upto > 0 {
        lemma_characters_score_bounds(text, segments, a, upto - 1, has_slash, has_space);
        lemma_char_score_bounds(text, segments, a, upto - 1, has_slash, has_space);
    }
}

/// No alignment of a query of `n` scalars scores more than 6300 points for
/// each scalar and 500 points.
pub proof fn lemma_alignment_score_bound(
    text: Seq<char>,
    segments: Seq<MatchSegmentView>,
    a: Seq<usize>,
    n: int,
    has_slash: bool,
    has_space: bool,
)
    requires
        a.len() == n,
        first_before_last(a),
    ensures
        alignment_score(text, segments, a, n, has_slash, has_space) <= 630000 * n + 50000,
{
    reveal(alignment_score);
    lemma_characters_score_bounds(text, segments, a, n, has_slash, has_space);
    let boundaries = boundary_count(text, a, n) as int;
    assert(quality_bonus(a, n, boundaries) <= 30000 * n);
    if a.len() > 0 {
        let span = a.last() - a[0] + 1;
        assert(SPAN_PENALTY * span >= 0) by (nonlinear_arith)
            requires
                span >= 1,
        ;
        let start = main_content_start(segments);
        if a[0] > start {
            let d = a[0] - start;
            assert(DISTANCE_FROM_START_PENALTY * d >= 0) by (nonlinear_arith)
                requires
                    d >= 0,
            ;
        }
    }
}

/// The arithmetic of one match: a value of at most 50000 hundredths, a
/// section multiplier of at most 15 tenths and a multiplier of at most 8.
pub proof fn lemma_scaled_bounds(value: int, boost: int, mult: int)
    requires
        0 <= value <= MAX_WORD_BOUNDARY_SCORE,
        0 <= boost <= PROJECT_REPO_SLASH_BOOST_TENTHS,
        0 <= mult <= MAX_CONSECUTIVE_MULTIPLIER,
    ensures
        0 <= value * boost <= 750000,
        0 <= value * boost / 10 <= 75000,
        0 <= value * boost / 10 * mult <= MAX_CHAR_SCORE,
{
    assert(0 <= value * boost <= 750000) by (nonlinear_arith)
        requires
            0 <= value <= 50000,
            0 <= boost <= 15,
    ;
    let scaled = value * boost / 10;
    assert(0 <= scaled <= 75000);
    assert(0 <= scaled * mult <= 600000) by (nonlinear_arith)
        requires
            0 <= scaled <= 75000,
            0 <= mult <= 8,
    ;
}

/// What match `i` of an alignment is worth, from the value and the
/// multiplier that the match before it was given.
pub proof fn lemma_char_score_step(
    text: Seq<char>,
    segments: Seq<MatchSegmentView>,
    a: Seq<usize>,
    i: int,
    has_slash: bool,
    has_space: bool,
    previous_value: int,
    previous_multiplier: int,
)
    requires
        0 <= i < a.len(),
        i > 0 && word_boundary(text, a[i - 1] as int) ==> previous_value == boundary_char_score(
            boundary_run(text, a, i - 1),
        ),
        i > 0 ==> previous_multiplier == consecutive_multiplier(consecutive_run(a, i - 1)),
    ensures
        boundary_char_score(boundary_run(text, a, i)) == (if i > 0 && word_boundary(
            text,
            a[i - 1] as int,
        ) {
            if previous_value * 13 / 10 < 50000 {
                previous_value * 13 / 10
            } else {
                50000
            }
        } else {
            20000
        }),
        consecutive_multiplier(consecutive_run(a, i)) == (if i > 0 && a[i - 1] + 1 == a[i] {
            if previous_multiplier * 2 < 8 {
                previous_multiplier * 2
            } else {
                8
            }
        } else {
            1
        }),
        characters_score(text, segments, a, i + 1, has_slash, has_space) == characters_score(
            text,
            segments,
            a,
            i,
            has_slash,
            has_space,
        ) + char_score(text, segments, a, i, has_slash, has_space),
        boundary_count(text, a, i + 1) == boundary_count(text, a, i) + if word_boundary(
            text,
            a[i] as int,
        ) {
            1nat
        } else {
            0nat
        },
{
    if i > 0 && word_boundary(text, a[i - 1] as int) {
        assert(boundary_run(text, a, i) == boundary_run(text, a, i - 1) + 1);
    } else {
        assert(boundary_run(text, a, i) == 0);
    }
    if i > 0 && a[i - 1] + 1 == a[i] {
        assert(consecutive_run(a, i) == consecutive_run(a, i - 1) + 1);
    } else {
        assert(consecutive_run(a, i) == 0);
    }
}

/// Every match of the alignment is at a word boundary.
pub open spec fn all_at_boundaries(text: Seq<char>, a: Seq<usize>) -> bool {
    forall|i: int| 0 <= i < a.len() ==> word_boundary(text, #[trigger] a[i] as int)
}

/// No more matches are at word boundaries than there are matches, and all
/// of them are exactly where each one is.
pub proof fn lemma_boundary_count(text: Seq<char>, a: Seq<usize>, upto: int)
    requires
        0 <= upto,
    ensures
        boundary_count(text, a, upto) <= upto,
        boundary_count(text, a, upto) == upto <==> forall|i: int|
            0 <= i < upto ==> word_boundary(text, #[trigger] a[i] as int),
    decreases upto,
{
    if upto > 0 {
        lemma_boundary_count(text, a, upto - 1);
    }
}

/// The section multiplier of a role, in tenths.
pub fn section_boost_of(kind: ComponentType, has_slash: bool, has_space: bool) -> (r: Score)
    ensures
        r == section_boost(kind, has_slash, has_space),
        5 <= r <= 15,
{
    match kind {
        ComponentType::Project | ComponentType::Repo => if has_slash {
            PROJECT_REPO_SLASH_BOOST_TENTHS
        } else {
            NEUTRAL_BOOST_TENTHS
        },
        ComponentType::Worktree | ComponentType::Owner => if has_slash {
            WORKTREE_OWNER_SLASH_BOOST_TENTHS
        } else {
            WORKTREE_OWNER_NO_SLASH_PENALTY_TENTHS
        },
        ComponentType::Branch => if has_space {
            BRANCH_SPACE_BOOST_TENTHS
        } else {
            BRANCH_NO_SPACE_PENALTY_TENTHS
        },
        _ => NEUTRAL_BOOST_TENTHS,
    }
}

/// The value of the next boundary match in a row.
pub fn next_boundary_value(previous: Score) -> (r: Score)
    requires
        20000 <= previous <= 50000,
    ensures
        r == if previous * 13 / 10 < 50000 {
            previous * 13 / 10
        } else {
            50000
        },
        20000 <= r <= 50000,
{
    let grown = previous * WORD_BOUNDARY_MULTIPLIER_TENTHS / 10;
    if grown < MAX_WORD_BOUNDARY_SCORE {
        grown
    } else {
        MAX_WORD_BOUNDARY_SCORE
    }
}

/// The multiplier of the next match at a successive offset.
pub fn next_multiplier(previous: Score) -> (r: Score)
    requires
        1 <= previous <= 8,
    ensures
        r == if previous * 2 < 8 {
            previous * 2
        } else {
            8
        },
        1 <= r <= 8,
{
    let grown = previous * CONSECUTIVE_MULTIPLIER;
    if grown < MAX_CONSECUTIVE_MULTIPLIER {
        grown
    } else {
        MAX_CONSECUTIVE_MULTIPLIER
    }
}

/// What a match adds: its value, times its section multiplier in tenths,
/// times its multiplier for successive offsets.
pub fn scaled(value: Score, boost: Score, multiplier: Score) -> (r: Score)
    requires
        0 <= value <= 50000,
        0 <= boost <= 15,
        0 <= multiplier <= 8,
    ensures
        r == value * boost / 10 * multiplier,
        0 <= r <= 600000,
{
    proof {
        lemma_scaled_bounds(value as int, boost as int, multiplier as int);
    }
    value * boost / 10 * multiplier
}

/// Whether every match is at the offset just behind the match before it.
pub fn is_all_consecutive(positions: &Vec<usize>) -> (r: bool)
    ensures
        r == all_consecutive(positions@),
{
    let mut i: usize = 1;
    while i < positions.len()
        invariant
            1 <= i,
            forall|k: int, j: int|
                0 <= k && j == k + 1 && j < i ==> (#[trigger] positions@[k]) + 1 == (
                #[trigger] positions@[j]),
        decreases positions.len() - i,
    {
        if positions[i] == 0 || positions[i - 1] != positions[i] - 1 {
            assert(positions@[i - 1] + 1 != positions@[i as int]);
            return false;
        }
        i += 1;
    }
    true
}

/// Whether every offset lies in `start..end`.
pub fn is_all_within(positions: &Vec<usize>, start: usize, end: usize) -> (r: bool)
    ensures
        r == all_within(positions@, start as int, end as int),
{
    let mut i: usize = 0;
    while i < positions.len()
        invariant
            i <= positions.len(),
            forall|k: int| 0 <= k < i ==> start <= (#[trigger] positions@[k]) < end,
        decreases positions.len() - i,
    {
        if !(positions[i] >= start && positions[i] < end) {
            return false;
        }
        i += 1;
    }
    true
}

/// The first offset is no later than the last.
pub open spec fn first_before_last(a: Seq<usize>) -> bool {
    a.len() > 0 ==> a[0] <= a.last()
}

/// How far the bonus for quality and the penalties can go.
pub proof fn lemma_score_parts_bounds(
    segments: Seq<MatchSegmentView>,
    a: Seq<usize>,
    n: int,
    boundaries: int,
)
    requires
        first_before_last(a),
        0 <= n <= usize::MAX,
        forall|k: int| 0 <= k < segments.len() ==> 0 <= (#[trigger] segments[k]).end,
    ensures
        0 <= quality_bonus(a, n, boundaries) <= 30000 * 0x1_0000_0000_0000_0000,
        0 <= penalties(segments, a) <= 1050 * 0x1_0000_0000_0000_0000,
{
    assert(0 <= PERFECT_MATCH_BONUS * n <= 30000 * 0x1_0000_0000_0000_0000) by (nonlinear_arith)
        requires
            0 <= n <= 0x1_0000_0000_0000_0000,
    ;
    assert(0 <= ALL_WORD_BOUNDARIES_BONUS * n <= 30000 * 0x1_0000_0000_0000_0000)
        by (nonlinear_arith)
        requires
            0 <= n <= 0x1_0000_0000_0000_0000,
    ;
    assert(0 <= ALL_CONSECUTIVE_BONUS * n <= 30000 * 0x1_0000_0000_0000_0000) by (nonlinear_arith)
        requires
            0 <= n <= 0x1_0000_0000_0000_0000,
    ;
    if a.len() > 0 {
        let span = a.last() - a[0] + 1;
        assert(0 <= SPAN_PENALTY * span <= 1000 * 0x1_0000_0000_0000_0000) by (nonlinear_arith)
            requires
                0 <= span <= 0x1_0000_0000_0000_0000,
        ;
        let start = main_content_start(segments);
        if a[0] > start {
            let d = a[0] - start;
            lemma_main_content_start_from_nonnegative(segments, 0, 0, false);
            assert(0 <= DISTANCE_FROM_START_PENALTY * d <= 50 * 0x1_0000_0000_0000_0000)
                by (nonlinear_arith)
                requires
                    0 <= d <= 0x1_0000_0000_0000_0000,
            ;
        }
    }
}

/// The main content starts at an offset that some segment ends at, or at
/// the offset that the search began with.
pub proof fn lemma_main_content_start_from_nonnegative(
    segments: Seq<MatchSegmentView>,
    i: int,
    main_start: int,
    after_prefix: bool,
)
    requires
        0 <= main_start,
        forall|k: int| 0 <= k < segments.len() ==> 0 <= (#[trigger] segments[k]).end,
    ensures
        0 <= main_content_start_from(segments, i, main_start, after_prefix),
    decreases segments.len() - i,
{
    if 0 <= i < segments.len() {
        lemma_main_content_start_from_nonnegative(segments, i + 1, segments[i].end, true);
        lemma_main_content_start_from_nonnegative(segments, i + 1, segments[i].end, after_prefix);
        lemma_main_content_start_from_nonnegative(segments, i + 1, main_start, after_prefix);
    }
}

/// A score in points with two decimals: a minus sign for a score below
/// zero, the whole points, a point, and the hundredths in two digits.
pub open spec fn score_text(score: int) -> Seq<char> {
    let magnitude = if score < 0 {
        -score
    } else {
        score
    };
    let sign: Seq<char> = if score < 0 {
        seq!['-']
    } else {
        Seq::empty()
    };
    sign + decimal((magnitude / 100) as nat) + seq![
        '.',
        digit_char(magnitude % 100 / 10),
        digit_char(magnitude % 10),
    ]
}

/// Writes a score in points with two decimals.
pub fn format_score(score: Score) -> (r: String)
    ensures
        r@ == score_text(score as int),
{
    let mut out = String::new();
    let magnitude: u128 = if score < 0 {
        push_char(&mut out, '-');
        (-(score + 1)) as u128 + 1
    } else {
        score as u128
    };
    let ghost sign = out@;
    push_decimal(&mut out, magnitude / 100);
    push_char(&mut out, '.');
    push_char(&mut out, digit(magnitude % 100 / 10));
    push_char(&mut out, digit(magnitude % 10));
    assert(out@ =~= sign + decimal((magnitude / 100) as nat) + seq![
        '.',
        digit_char((magnitude % 100 / 10) as int),
        digit_char((magnitude % 10) as int),
    ]);
    out
}

} // verus!
