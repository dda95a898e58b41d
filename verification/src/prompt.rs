//! A shortened path in three parts for a prompt that styles each part on
//! its own: the prefix, the abbreviated segments and the segments kept in
//! full. Each separator goes with the part in front of it, so that no part
//! starts with one.

use crate::path_shortener::{
    abbreviation, first_scalar, in_regions, lemma_texts_where_concat, lemma_texts_where_one,
    texts_where, ComponentType, ComponentView, ShortPath, ShortPathPart, ShortPathView, SEPARATOR,
};
use vstd::prelude::*;
use vstd::string::StringExecFns;

verus! {

/// The three parts of a shortened path.
#[derive(Debug, Clone, PartialEq)]
pub struct PromptParts {
    /// The icon and the identity fields, and the separator behind them.
    pub prefix: String,
    /// The abbreviated segments, each with the separator behind it.
    pub shortened: String,
    /// The segments kept in full, with the separators between them.
    pub normal: String,
}

/// What [`PromptParts`] hold, as plain sequences.
pub struct PromptPartsView {
    pub prefix: Seq<char>,
    pub shortened: Seq<char>,
    pub normal: Seq<char>,
}

impl View for PromptParts {
    type V = PromptPartsView;

    open spec fn view(&self) -> PromptPartsView {
        PromptPartsView {
            prefix: self.prefix@,
            shortened: self.shortened@,
            normal: self.normal@,
        }
    }
}

impl PromptPartsView {
    /// The three parts together.
    pub open spec fn full(self) -> Seq<char> {
        self.prefix + self.shortened + self.normal
    }
}

/// The three regions of a path without its branch.
pub open spec fn path_regions() -> Seq<ShortPathPart> {
    seq![ShortPathPart::Prefix, ShortPathPart::Infix, ShortPathPart::Suffix]
}

impl ShortPathView {
    /// The separator that stands in front of segment `i`, if there is such
    /// a segment and it has one.
    pub open spec fn separator_before(self, i: int) -> Seq<char> {
        if 0 <= i < self.segments.len() && self.needs_separator(i) {
            SEPARATOR@
        } else {
            Seq::empty()
        }
    }

    /// The text of the prefix components.
    pub open spec fn prefix_text(self) -> Seq<char> {
        texts_where(self.prefix_components(), in_regions(path_regions()))
    }

    /// The abbreviations of those of the first `upto` segments that are
    /// abbreviated, each with the separator behind it.
    pub open spec fn shortened_upto(self, upto: int, shorten_count: int) -> Seq<char>
        decreases upto,
    {
        if upto <= 0 {
            Seq::empty()
        } else if upto - 1 < shorten_count {
            self.shortened_upto(upto - 1, shorten_count) + abbreviation(self.segments[upto - 1])
                + self.separator_before(upto)
        } else {
            self.shortened_upto(upto - 1, shorten_count)
        }
    }

    /// Those of the first `upto` segments that are kept in full, each with
    /// the separator behind it.
    pub open spec fn normal_upto(self, upto: int, shorten_count: int) -> Seq<char>
        decreases upto,
    {
        if upto <= 0 {
            Seq::empty()
        } else if upto - 1 < shorten_count {
            self.normal_upto(upto - 1, shorten_count)
        } else {
            self.normal_upto(upto - 1, shorten_count) + self.segments[upto - 1]
                + self.separator_before(upto)
        }
    }

    /// The three parts of the path where the last `max_keep` segments are
    /// kept in full.
    pub open spec fn parts(self, max_keep: nat) -> PromptPartsView {
        let n = self.segments.len() as int;
        let shorten_count = self.shorten_count(max_keep);
        PromptPartsView {
            prefix: self.prefix_text() + self.separator_before(0),
            shortened: self.shortened_upto(n, shorten_count),
            normal: self.normal_upto(n, shorten_count),
        }
    }
}

/// The parts of the first `upto` segments are together the text of their
/// components, and the separator in front of the next segment.
proof fn lemma_parts_upto(sp: ShortPathView, shorten_count: int, upto: int)
    requires
        0 <= upto <= sp.segments.len(),
    ensures
        sp.separator_before(0) + sp.shortened_upto(upto, shorten_count) + sp.normal_upto(
            upto,
            shorten_count,
        ) == texts_where(sp.segment_components(upto, shorten_count), in_regions(path_regions()))
            + sp.separator_before(upto),
        upto <= shorten_count ==> sp.normal_upto(upto, shorten_count) == Seq::<char>::empty(),
    decreases upto,
{
    let keep = in_regions(path_regions());
    if upto == 0 {
        assert(sp.separator_before(0) + Seq::<char>::empty() + Seq::<char>::empty()
            =~= Seq::<char>::empty() + sp.separator_before(0));
    } else {
        let k = upto - 1;
        lemma_parts_upto(sp, shorten_count, k);
        let before = sp.segment_components(k, shorten_count);
        let piece = sp.segment_piece(k, shorten_count);
        lemma_texts_where_concat(before, piece, keep);
        let region = if k < shorten_count {
            ShortPathPart::Infix
        } else {
            ShortPathPart::Suffix
        };
        let separator: ComponentView = (region, ComponentType::Separator, SEPARATOR@);
        let body: ComponentView = if k < shorten_count {
            (region, ComponentType::Shortened, abbreviation(sp.segments[k]))
        } else {
            (region, ComponentType::Path, sp.segments[k])
        };
        assert(path_regions()[1] == ShortPathPart::Infix);
        assert(path_regions()[2] == ShortPathPart::Suffix);
        assert(keep(separator));
        assert(keep(body));
        lemma_texts_where_one(separator, keep);
        lemma_texts_where_one(body, keep);
        if sp.needs_separator(k) {
            assert(piece =~= seq![separator] + seq![body]);
            lemma_texts_where_concat(seq![separator], seq![body], keep);
        } else {
            assert(piece =~= seq![body]);
        }
        let s0 = sp.separator_before(0);
        let sh = sp.shortened_upto(k, shorten_count);
        let no = sp.normal_upto(k, shorten_count);
        let t = texts_where(before, keep);
        let sk = sp.separator_before(k);
        let next = sp.separator_before(upto);
        assert(s0 + sh + no == t + sk);
        if k < shorten_count {
            assert(no == Seq::<char>::empty());
            assert(s0 + (sh + body.2 + next) + no =~= (s0 + sh + no) + body.2 + next);
        } else {
            assert(s0 + sh + (no + body.2 + next) =~= (s0 + sh + no) + body.2 + next);
        }
        assert((t + sk) + body.2 + next =~= (t + (sk + body.2)) + next);
    }
}

/// The three parts of a path are together its full text: prefix, abbreviated
/// segments and segments kept in full, with every separator.
pub proof fn lemma_parts_full(sp: ShortPathView, max_keep: nat)
    ensures
        sp.parts(max_keep).full() == sp.build(max_keep, path_regions()),
{
    let keep = in_regions(path_regions());
    let n = sp.segments.len() as int;
    let sc = sp.shorten_count(max_keep);
    lemma_parts_upto(sp, sc, n);
    let segments = sp.segment_components(n, sc);
    assert(sp.components(max_keep, None) =~= sp.prefix_components() + segments);
    lemma_texts_where_concat(sp.prefix_components(), segments, keep);
    assert(sp.separator_before(n) == Seq::<char>::empty());
    let p = sp.prefix_text();
    let s0 = sp.separator_before(0);
    let sh = sp.shortened_upto(n, sc);
    let no = sp.normal_upto(n, sc);
    assert((p + s0) + sh + no =~= p + (s0 + sh + no));
    assert(p + (texts_where(segments, keep) + Seq::<char>::empty()) =~= p + texts_where(
        segments,
        keep,
    ));
}

impl PromptParts {
    /// The three parts together.
    pub fn full(&self) -> (r: String)
        ensures
            r@ == self@.full(),
    {
        let mut out = self.prefix.clone();
        out.append(self.shortened.as_str());
        out.append(self.normal.as_str());
        out
    }
}

impl ShortPath {
    /// Cuts the shortened path into the three parts of a prompt, with the
    /// last `max_segments` segments kept in full. Together the parts are
    /// the full text of the path.
    pub fn parts(&self, max_segments: usize) -> (r: PromptParts)
        ensures
            r@ == self@.parts(max_segments as nat),
            r@.full() == self@.build(max_segments as nat, path_regions()),
    {
        proof {
            lemma_parts_full(self@, max_segments as nat);
        }
        let regions = [ShortPathPart::Prefix, ShortPathPart::Infix, ShortPathPart::Suffix];
        assert(regions@ =~= path_regions());
        let empty = ShortPath { path_type: self.path_type.duplicate(), segments: Vec::new() };
        let mut prefix = empty.build(max_segments, regions.as_slice());
        proof {
            let keep = in_regions(path_regions());
            assert(empty@.segments =~= Seq::<Seq<char>>::empty());
            assert(empty@.prefix_components() == self@.prefix_components());
            assert(empty@.segment_components(0, empty@.shorten_count(max_segments as nat))
                =~= Seq::<ComponentView>::empty());
            assert(empty@.components(max_segments as nat, None) =~= self@.prefix_components());
        }
        let regular = match &self.path_type {
            crate::path_shortener::PathType::Regular => true,
            _ => false,
        };
        let n = self.segments.len();
        let shorten_count: usize = if n > max_segments {
            n - max_segments
        } else {
            0
        };
        if n > 0 && !regular {
            prefix.append(SEPARATOR);
        }
        let mut shortened = String::new();
        let mut normal = String::new();
        let mut i: usize = 0;
        while i < n
            invariant
                i <= n,
                n == self.segments.len(),
                shorten_count as int == self@.shorten_count(max_segments as nat),
                shortened@ == self@.shortened_upto(i as int, shorten_count as int),
                normal@ == self@.normal_upto(i as int, shorten_count as int),
            decreases n - i,
        {
            assert(self@.segments[i as int] == self.segments@[i as int]@);
            if i < shorten_count {
                shortened.append(first_scalar(self.segments[i].as_str()).as_str());
                if i + 1 < n {
                    shortened.append(SEPARATOR);
                }
            } else {
                normal.append(self.segments[i].as_str());
                if i + 1 < n {
                    normal.append(SEPARATOR);
                }
            }
            i += 1;
        }
        PromptParts { prefix, shortened, normal }
    }
}

} // verus!
