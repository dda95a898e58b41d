//! Alignments: the ways in which a query occurs in a text.
//!
//! An alignment holds one offset of the text for each scalar of the query,
//! each offset later than the one before it and each holding its scalar.

use vstd::prelude::*;

verus! {

/// `a` is a way in which `query` occurs in `text` from offset `start` on:
/// one offset for each scalar of the query, each holding that scalar, the
/// first at `start` or later, each later than the one before it.
pub open spec fn is_alignment_from(
    text: Seq<char>,
    query: Seq<char>,
    start: int,
    a: Seq<usize>,
) -> bool {
    &&& a.len() == query.len()
    &&& forall|i: int|
        0 <= i < a.len() ==> (#[trigger] a[i]) < text.len() && text[a[i] as int] == query[i]
    &&& a.len() > 0 ==> start <= a[0]
    &&& forall|i: int, j: int|
        0 <= i && j == i + 1 && j < a.len() ==> (#[trigger] a[i]) < (#[trigger] a[j])
}

/// `a` is a way in which `query` occurs in `text`.
pub open spec fn is_alignment(text: Seq<char>, query: Seq<char>, a: Seq<usize>) -> bool {
    is_alignment_from(text, query, 0, a)
}

/// Each offset is later than the one before it.
pub open spec fn strictly_increasing(a: Seq<usize>) -> bool {
    forall|i: int, j: int| 0 <= i && j == i + 1 && j < a.len() ==> (#[trigger] a[i]) < (#[trigger] a[j])
}

/// A copy of a list of offsets.
pub fn copy_positions(positions: &Vec<usize>) -> (r: Vec<usize>)
    ensures
        r@ == positions@,
{
    let mut out: Vec<usize> = Vec::new();
    let mut i: usize = 0;
    while i < positions.len()
        invariant
            i <= positions.len(),
            out@ == positions@.take(i as int),
        decreases positions.len() - i,
    {
        out.push(positions[i]);
        assert(out@ =~= positions@.take(i + 1));
        i += 1;
    }
    assert(positions@.take(positions.len() as int) == positions@);
    out
}

/// Putting an offset that holds the first scalar of `query` in front of an
/// alignment of the rest of `query` behind that offset gives an alignment
/// of `query`. Here `m` is the whole list of offsets: `current`, then the
/// new offset `idx`, then the alignment of the rest.
pub proof fn lemma_alignment_extend(
    text: Seq<char>,
    query: Seq<char>,
    start: int,
    idx: usize,
    current: Seq<usize>,
    m: Seq<usize>,
)
    requires
        query.len() > 0,
        start <= idx < text.len(),
        text[idx as int] == query[0],
        m.len() == current.len() + query.len(),
        m.take(current.len() as int + 1) == current.push(idx),
        is_alignment_from(text, query.skip(1), idx + 1, m.skip(current.len() as int + 1)),
    ensures
        m.take(current.len() as int) == current,
        is_alignment_from(text, query, start, m.skip(current.len() as int)),
{
    let chosen = current.push(idx);
    let tail = m.skip(current.len() as int + 1);
    let rest = query.skip(1);
    let a = m.skip(current.len() as int);
    assert(m.take(current.len() as int) =~= current) by {
        assert forall|i: int| 0 <= i < current.len() implies m[i] == current[i] by {
            assert(m.take(current.len() as int + 1)[i] == chosen[i]);
        }
    }
    assert(a[0] == idx) by {
        assert(m.take(current.len() as int + 1)[current.len() as int] == chosen[current.len() as int]);
    }
    assert forall|i: int| 0 <= i < a.len() implies (#[trigger] a[i]) < text.len() && text[a[i] as int]
        == query[i] by {
        if i > 0 {
            assert(a[i] == tail[i - 1]);
            assert(rest[i - 1] == query[i]);
        }
    }
    assert forall|i: int, j: int| 0 <= i && j == i + 1 && j < a.len() implies (#[trigger] a[i]) < (
    #[trigger] a[j]) by {
        if i == 0 {
            assert(a[1] == tail[0]);
        } else {
            assert(a[i] == tail[i - 1]);
            assert(a[j] == tail[j - 1]);
        }
    }
}

/// An alignment of a query that is not empty is its first offset, which
/// holds the first scalar of the query, and an alignment of the rest of the
/// query behind that offset.
pub proof fn lemma_alignment_split(text: Seq<char>, query: Seq<char>, start: int, a: Seq<usize>)
    requires
        query.len() > 0,
        is_alignment_from(text, query, start, a),
    ensures
        start <= a[0] < text.len(),
        text[a[0] as int] == query[0],
        is_alignment_from(text, query.skip(1), a[0] + 1, a.skip(1)),
{
    let tail = a.skip(1);
    let rest = query.skip(1);
    assert forall|i: int| 0 <= i < tail.len() implies (#[trigger] tail[i]) < text.len()
        && text[tail[i] as int] == rest[i] by {
        assert(tail[i] == a[i + 1]);
    }
    assert forall|i: int, j: int| 0 <= i && j == i + 1 && j < tail.len() implies (#[trigger] tail[i])
        < (#[trigger] tail[j]) by {
        assert(tail[i] == a[i + 1]);
        assert(tail[j] == a[j + 1]);
    }
    if tail.len() > 0 {
        assert(tail[0] == a[1]);
        assert(a[0] < a[1]);
    }
}

/// `a` comes before `b` in the order of a dictionary: at the first place
/// where they differ, `a` holds the smaller offset.
pub open spec fn comes_before(a: Seq<usize>, b: Seq<usize>) -> bool {
    exists|k: int|
        0 <= k < a.len() && k < b.len() && #[trigger] a[k] < b[k] && a.take(k) == b.take(k)
}

/// Of two lists, not each comes before the other, and none comes before itself.
pub proof fn lemma_comes_before_asymmetric(a: Seq<usize>, b: Seq<usize>)
    requires
        comes_before(a, b),
    ensures
        !comes_before(b, a),
        a != b,
{
    let k = choose|k: int|
        0 <= k < a.len() && k < b.len() && #[trigger] a[k] < b[k] && a.take(k) == b.take(k);
    if comes_before(b, a) {
        let j = choose|j: int|
            0 <= j < b.len() && j < a.len() && #[trigger] b[j] < a[j] && b.take(j) == a.take(j);
        if j < k {
            assert(a.take(k)[j] == b.take(k)[j]);
        } else if k < j {
            assert(b.take(j)[k] == a.take(j)[k]);
        }
    }
}

/// Each list comes before every list behind it.
pub open spec fn in_dictionary_order(lists: Seq<Vec<usize>>) -> bool {
    forall|i: int, j: int|
        0 <= i < j < lists.len() ==> comes_before((#[trigger] lists[i])@, (#[trigger] lists[j])@)
}

/// Lists in dictionary order that all begin alike and go on with an offset
/// below `idx`, followed by lists in dictionary order that all begin in
/// that same way and go on with `idx`, are in dictionary order together.
proof fn lemma_append_keeps_order(
    before: Seq<Vec<usize>>,
    sub: Seq<Vec<usize>>,
    all: Seq<Vec<usize>>,
    current: Seq<usize>,
    idx: usize,
)
    requires
        all == before + sub,
        in_dictionary_order(before),
        in_dictionary_order(sub),
        forall|i: int|
            0 <= i < before.len() ==> (#[trigger] before[i])@.len() > current.len() && before[i]@.take(
                current.len() as int,
            ) == current && before[i]@[current.len() as int] < idx,
        forall|i: int|
            0 <= i < sub.len() ==> (#[trigger] sub[i])@.len() > current.len() && sub[i]@.take(
                current.len() as int + 1,
            ) == current.push(idx),
    ensures
        in_dictionary_order(all),
        forall|i: int|
            0 <= i < all.len() ==> (#[trigger] all[i])@.len() > current.len() && all[i]@.take(
                current.len() as int,
            ) == current && all[i]@[current.len() as int] < idx + 1,
{
    let c = current.len() as int;
    assert forall|i: int| 0 <= i < all.len() implies (#[trigger] all[i])@.len() > current.len()
        && all[i]@.take(c) == current && all[i]@[c] < idx + 1 by {
        if i < before.len() {
            assert(all[i] == before[i]);
        } else {
            let m = sub[i - before.len()]@;
            assert(all[i] == sub[i - before.len()]);
            assert(m.take(c + 1)[c] == current.push(idx)[c]);
            assert(m.take(c) =~= m.take(c + 1).take(c));
            assert(current.push(idx).take(c) =~= current);
        }
    }
    assert forall|i: int, j: int| 0 <= i < j < all.len() implies comes_before(
        (#[trigger] all[i])@,
        (#[trigger] all[j])@,
    ) by {
        if j < before.len() {
            assert(all[i] == before[i]);
            assert(all[j] == before[j]);
        } else if i >= before.len() {
            assert(all[i] == sub[i - before.len()]);
            assert(all[j] == sub[j - before.len()]);
        } else {
            assert(all[i] == before[i]);
            assert(all[j] == sub[j - before.len()]);
            let a = all[i]@;
            let b = all[j]@;
            assert(b.take(c + 1)[c] == current.push(idx)[c]);
            assert(b[c] == idx);
            assert(b.take(c) =~= b.take(c + 1).take(c));
            assert(current.push(idx).take(c) =~= current);
            assert(a[c] < b[c]);
            assert(a.take(c) == b.take(c));
        }
    }
}

/// What [`find_all_matches`] promises of each list it returns: it is
/// `current`, then an alignment of `query` from `start` on.
pub open spec fn extends_with_alignment(
    text: Seq<char>,
    query: Seq<char>,
    start: int,
    current: Seq<usize>,
    m: Seq<usize>,
) -> bool {
    &&& m.len() == current.len() + query.len()
    &&& m.take(current.len() as int) == current
    &&& is_alignment_from(text, query, start, m.skip(current.len() as int))
}

/// `lists` are all the ways in which `query` occurs in `text` from offset
/// `start` on, each behind the offsets `current`: every list is `current`
/// and then such an alignment, every such alignment is there, and the
/// lists are in dictionary order, so none is there twice.
pub open spec fn is_all_matches(
    text: Seq<char>,
    query: Seq<char>,
    start: int,
    current: Seq<usize>,
    lists: Seq<Vec<usize>>,
) -> bool {
    &&& forall|k: int|
        0 <= k < lists.len() ==> extends_with_alignment(
            text,
            query,
            start,
            current,
            (#[trigger] lists[k])@,
        )
    &&& forall|a: Seq<usize>|
        #[trigger] is_alignment_from(text, query, start, a) ==> exists|k: int|
            0 <= k < lists.len() && (#[trigger] lists[k])@ == current + a
    &&& in_dictionary_order(lists)
}

/// `lists` are all the ways in which a query that is not empty occurs in
/// `text` from `start` on with its first scalar before offset `idx`.
pub open spec fn is_matches_before(
    text: Seq<char>,
    query: Seq<char>,
    start: int,
    current: Seq<usize>,
    lists: Seq<Vec<usize>>,
    idx: int,
) -> bool {
    &&& forall|k: int|
        0 <= k < lists.len() ==> extends_with_alignment(
            text,
            query,
            start,
            current,
            (#[trigger] lists[k])@,
        )
    &&& forall|a: Seq<usize>|
        #[trigger] is_alignment_from(text, query, start, a) && a[0] < idx ==> exists|k: int|
            0 <= k < lists.len() && (#[trigger] lists[k])@ == current + a
    &&& in_dictionary_order(lists)
    &&& forall|i: int|
        0 <= i < lists.len() ==> (#[trigger] lists[i])@.len() > current.len() && lists[i]@.take(
            current.len() as int,
        ) == current && lists[i]@[current.len() as int] < idx
}

/// The matches with the first scalar before `idx`, and then all matches of
/// the rest of the query behind a first scalar at `idx`, are the matches
/// with the first scalar before `idx + 1`.
proof fn lemma_matches_step(
    text: Seq<char>,
    query: Seq<char>,
    start: int,
    idx: usize,
    current: Seq<usize>,
    before: Seq<Vec<usize>>,
    sub: Seq<Vec<usize>>,
)
    requires
        query.len() > 0,
        start <= idx < text.len(),
        text[idx as int] == query[0],
        is_matches_before(text, query, start, current, before, idx as int),
        is_all_matches(text, query.skip(1), idx + 1, current.push(idx), sub),
    ensures
        is_matches_before(text, query, start, current, before + sub, idx + 1),
{
    let all = before + sub;
    let chosen = current.push(idx);
    let rest = query.skip(1);
    assert forall|i: int| 0 <= i < sub.len() implies (#[trigger] sub[i])@.len() > current.len()
        && sub[i]@.take(current.len() as int + 1) == current.push(idx) by {
        assert(extends_with_alignment(text, rest, idx + 1, chosen, sub[i]@));
    }
    lemma_append_keeps_order(before, sub, all, current, idx);
    assert forall|k: int| 0 <= k < all.len() implies extends_with_alignment(
        text,
        query,
        start,
        current,
        (#[trigger] all[k])@,
    ) by {
        if k < before.len() {
            assert(all[k] == before[k]);
        } else {
            assert(all[k] == sub[k - before.len()]);
            assert(extends_with_alignment(text, rest, idx + 1, chosen, sub[k - before.len()]@));
            lemma_alignment_extend(text, query, start, idx, current, sub[k - before.len()]@);
        }
    }
    assert forall|a: Seq<usize>| #[trigger]
        is_alignment_from(text, query, start, a) && a[0] < idx + 1 implies exists|k: int|
        0 <= k < all.len() && (#[trigger] all[k])@ == current + a by {
        if a[0] < idx {
            let k = choose|k: int| 0 <= k < before.len() && (#[trigger] before[k])@ == current + a;
            assert(all[k] == before[k]);
        } else {
            lemma_alignment_split(text, query, start, a);
            let tail = a.skip(1);
            let k = choose|k: int| 0 <= k < sub.len() && (#[trigger] sub[k])@ == chosen + tail;
            assert(all[before.len() + k] == sub[k]);
            assert(chosen + tail =~= current + a);
        }
    }
}

/// Where offset `idx` does not hold the first scalar of the query, the
/// matches with the first scalar before `idx` are those with it before
/// `idx + 1`.
proof fn lemma_matches_skip(
    text: Seq<char>,
    query: Seq<char>,
    start: int,
    idx: usize,
    current: Seq<usize>,
    lists: Seq<Vec<usize>>,
)
    requires
        query.len() > 0,
        idx < text.len(),
        text[idx as int] != query[0],
        is_matches_before(text, query, start, current, lists, idx as int),
    ensures
        is_matches_before(text, query, start, current, lists, idx + 1),
{
    assert forall|a: Seq<usize>| #[trigger]
        is_alignment_from(text, query, start, a) && a[0] < idx + 1 implies exists|k: int|
        0 <= k < lists.len() && (#[trigger] lists[k])@ == current + a by {
        if a[0] == idx {
            assert(text[a[0] as int] == query[0]);
        }
    }
}

/// The matches with the first scalar before the end of the text are all matches.
proof fn lemma_matches_done(
    text: Seq<char>,
    query: Seq<char>,
    start: int,
    idx: int,
    current: Seq<usize>,
    lists: Seq<Vec<usize>>,
)
    requires
        query.len() > 0,
        idx >= text.len(),
        is_matches_before(text, query, start, current, lists, idx),
    ensures
        is_all_matches(text, query, start, current, lists),
{
    assert forall|a: Seq<usize>| #[trigger]
        is_alignment_from(text, query, start, a) implies exists|k: int|
        0 <= k < lists.len() && (#[trigger] lists[k])@ == current + a by {
        assert(a[0] < text.len());
    }
}

/// The one match of the empty query: no further offset.
proof fn lemma_matches_of_empty_query(
    text: Seq<char>,
    query: Seq<char>,
    start: int,
    current: Seq<usize>,
    lists: Seq<Vec<usize>>,
)
    requires
        query.len() == 0,
        lists.len() == 1,
        lists[0]@ == current,
    ensures
        is_all_matches(text, query, start, current, lists),
{
    assert(lists[0]@.take(current.len() as int) == current);
    assert(lists[0]@.skip(current.len() as int) =~= Seq::<usize>::empty());
    assert forall|a: Seq<usize>| #[trigger]
        is_alignment_from(text, query, start, a) implies exists|k: int|
        0 <= k < lists.len() && (#[trigger] lists[k])@ == current + a by {
        assert(a =~= Seq::<usize>::empty());
        assert(lists[0]@ =~= current + a);
    }
}

/// Every way in which `query_chars[from..]` occurs in `text_chars` at
/// offset `start_pos` or later, each behind the offsets `current_match`
/// that were chosen for the scalars before, in dictionary order.
///
/// For each scalar every occurrence is tried, not only the nearest, so no
/// alignment is missed.
pub fn find_all_matches(
    text_chars: &Vec<char>,
    query_chars: &Vec<char>,
    from: usize,
    start_pos: usize,
    current_match: Vec<usize>,
) -> (r: Vec<Vec<usize>>)
    requires
        from <= query_chars.len(),
    ensures
        is_all_matches(
            text_chars@,
            query_chars@.skip(from as int),
            start_pos as int,
            current_match@,
            r@,
        ),
    decreases query_chars.len() - from,
{
    let ghost query = query_chars@.skip(from as int);
    if from == query_chars.len() {
        let mut all: Vec<Vec<usize>> = Vec::new();
        all.push(current_match);
        proof {
            lemma_matches_of_empty_query(
                text_chars@,
                query,
                start_pos as int,
                current_match@,
                all@,
            );
        }
        return all;
    }
    let char_to_find = query_chars[from];
    let mut all: Vec<Vec<usize>> = Vec::new();
    let mut idx: usize = start_pos;
    while idx < text_chars.len()
        invariant
            from < query_chars.len(),
            query == query_chars@.skip(from as int),
            char_to_find == query[0],
            start_pos <= idx,
            is_matches_before(
                text_chars@,
                query,
                start_pos as int,
                current_match@,
                all@,
                idx as int,
            ),
        decreases text_chars.len() - idx,
    {
        if text_chars[idx] == char_to_find {
            let mut new_match = copy_positions(&current_match);
            new_match.push(idx);
            let mut sub_matches = find_all_matches(
                text_chars,
                query_chars,
                from + 1,
                idx + 1,
                new_match,
            );
            let ghost before = all@;
            let ghost sub = sub_matches@;
            all.append(&mut sub_matches);
            proof {
                assert(query_chars@.skip(from + 1) =~= query.skip(1));
                lemma_matches_step(
                    text_chars@,
                    query,
                    start_pos as int,
                    idx,
                    current_match@,
                    before,
                    sub,
                );
            }
        } else {
            proof {
                lemma_matches_skip(
                    text_chars@,
                    query,
                    start_pos as int,
                    idx,
                    current_match@,
                    all@,
                );
            }
        }
        idx += 1;
    }
    proof {
        lemma_matches_done(
            text_chars@,
            query,
            start_pos as int,
            idx as int,
            current_match@,
            all@,
        );
    }
    all
}

/// In a list of rising offsets, an earlier one is no greater than a later one.
pub proof fn lemma_increasing(a: Seq<usize>, i: int, j: int)
    requires
        strictly_increasing(a),
        0 <= i <= j < a.len(),
    ensures
        a[i] <= a[j],
        i < j ==> a[i] < a[j],
    decreases j - i,
{
    if i < j {
        lemma_increasing(a, i, j - 1);
        assert(a[j - 1] < a[j]);
    }
}

/// Each list that [`find_all_matches`] returns for a whole query is an
/// alignment, and its offsets rise.
pub proof fn lemma_matches_are_alignments(text: Seq<char>, query: Seq<char>, lists: Seq<Vec<usize>>)
    requires
        is_all_matches(text, query.skip(0), 0, Seq::<usize>::empty(), lists),
    ensures
        forall|j: int| 0 <= j < lists.len() ==> is_alignment(text, query, (#[trigger] lists[j])@),
        forall|j: int| 0 <= j < lists.len() ==> strictly_increasing((#[trigger] lists[j])@),
{
    assert(query.skip(0) == query);
    assert forall|j: int| 0 <= j < lists.len() implies is_alignment(
        text,
        query,
        (#[trigger] lists[j])@,
    ) && strictly_increasing(lists[j]@) by {
        assert(extends_with_alignment(text, query, 0, Seq::<usize>::empty(), lists[j]@));
        assert(lists[j]@.skip(0) =~= lists[j]@);
    }
}

} // verus!
