//! The sections of a shortened path that can be asked for by name.

use crate::path_shortener::{ShortPath, ShortPathPart, ShortPathView};
use crate::text::{char_is_whitespace, chars_of, is_whitespace, same_chars, trim_end};
use vstd::prelude::*;
use vstd::string::StringExecFns;

verus! {

/// A part of a shortened path, or a way to show all of it.
#[derive(Debug, Clone, Copy, PartialEq, Eq, Structural)]
pub enum Section {
    /// The icon and the identity fields.
    Prefix,
    /// The abbreviated segments.
    Shortened,
    /// The segments kept in full.
    Normal,
    /// Prefix, abbreviated segments and full segments together.
    Full,
    /// The whole path in color.
    Colored,
    /// Each of the others on a line of its own, with its name.
    All,
}

/// A text without its leading white space.
pub open spec fn trim_start(s: Seq<char>) -> Seq<char>
    decreases s.len(),
{
    if s.len() > 0 && is_whitespace(s[0]) {
        trim_start(s.skip(1))
    } else {
        s
    }
}

/// A text without white space at either end.
pub open spec fn trim(s: Seq<char>) -> Seq<char> {
    trim_start(trim_end(s))
}

/// The state of a left-to-right scan for the pieces between commas: the
/// pieces completed so far, and the scalars read since the last comma.
pub open spec fn comma_scan(s: Seq<char>) -> (Seq<Seq<char>>, Seq<char>)
    decreases s.len(),
{
    if s.len() == 0 {
        (Seq::empty(), Seq::empty())
    } else {
        let (done, current) = comma_scan(s.drop_last());
        if s.last() == ',' {
            (done.push(current), Seq::empty())
        } else {
            (done, current.push(s.last()))
        }
    }
}

/// The pieces of a text between its commas, empty ones included: one more
/// piece than there are commas.
pub open spec fn split_commas(s: Seq<char>) -> Seq<Seq<char>> {
    let (done, current) = comma_scan(s);
    done.push(current)
}

/// The section of a name; none for a text that names no section.
pub open spec fn section_of(name: Seq<char>) -> Option<Section> {
    if name == "prefix"@ {
        Some(Section::Prefix)
    } else if name == "shortened"@ {
        Some(Section::Shortened)
    } else if name == "normal"@ {
        Some(Section::Normal)
    } else if name == "full"@ {
        Some(Section::Full)
    } else if name == "colored"@ {
        Some(Section::Colored)
    } else if name == "all"@ {
        Some(Section::All)
    } else {
        None
    }
}

/// What is said of a text that names no section.
pub open spec fn invalid_section_message(name: Seq<char>) -> Seq<char> {
    "Invalid section '"@ + name
        + "'. Valid sections are: prefix, shortened, normal, full, colored, all"@
}

/// The sections that the first `upto` pieces name, each piece trimmed; or
/// what is said of the first piece that names none.
pub open spec fn sections_of(pieces: Seq<Seq<char>>, upto: int) -> Result<Seq<Section>, Seq<char>>
    decreases upto,
{
    if upto <= 0 {
        Ok(Seq::empty())
    } else {
        match sections_of(pieces, upto - 1) {
            Ok(before) => match section_of(trim(pieces[upto - 1])) {
                Some(section) => Ok(before.push(section)),
                None => Err(invalid_section_message(trim(pieces[upto - 1]))),
            },
            Err(message) => Err(message),
        }
    }
}

/// The sections that a comma-separated list names.
pub open spec fn parsed_sections(list: Seq<char>) -> Result<Seq<Section>, Seq<char>> {
    sections_of(split_commas(list), split_commas(list).len() as int)
}

/// The text of a section of a path. `All` stands for the full text here.
pub open spec fn section_text(shortpath: ShortPathView, section: Section, max_keep: nat) -> Seq<
    char,
> {
    match section {
        Section::Prefix => shortpath.build(max_keep, seq![ShortPathPart::Prefix]),
        Section::Shortened => shortpath.build(max_keep, seq![ShortPathPart::Infix]),
        Section::Normal => shortpath.build(max_keep, seq![ShortPathPart::Suffix]),
        Section::Colored => shortpath.display(None),
        _ => shortpath.build(
            max_keep,
            seq![ShortPathPart::Prefix, ShortPathPart::Infix, ShortPathPart::Suffix],
        ),
    }
}

/// The lines that are printed for a section of a path: one line with its
/// text, or for `All` five lines, each a section behind its name.
pub open spec fn section_lines(shortpath: ShortPathView, section: Section, max_keep: nat) -> Seq<
    Seq<char>,
> {
    match section {
        Section::All => seq![
            "Full:       "@ + section_text(shortpath, Section::Full, max_keep),
            "Prefix:     "@ + section_text(shortpath, Section::Prefix, max_keep),
            "Shortened:  "@ + section_text(shortpath, Section::Shortened, max_keep),
            "Normal:     "@ + section_text(shortpath, Section::Normal, max_keep),
            "Colored:    "@ + section_text(shortpath, Section::Colored, max_keep),
        ],
        _ => seq![section_text(shortpath, section, max_keep)],
    }
}

/// The scalars of `chars[from..to]` without white space at either end.
pub fn trimmed(chars: &Vec<char>, from: usize, to: usize) -> (r: Vec<char>)
    requires
        from <= to <= chars.len(),
    ensures
        r@ == trim(chars@.subrange(from as int, to as int)),
{
    let ghost s = chars@.subrange(from as int, to as int);
    let mut end: usize = to;
    assert(s.take(end - from) == s);
    while end > from && char_is_whitespace(chars[end - 1])
        invariant
            from <= end <= to <= chars.len(),
            s == chars@.subrange(from as int, to as int),
            trim_end(s.take(end - from)) == trim_end(s),
        decreases end,
    {
        assert(s.take(end - from).last() == chars@[end - 1]);
        assert(s.take(end - from).drop_last() == s.take(end - 1 - from));
        end -= 1;
    }
    assert(trim_end(s) == s.take(end - from)) by {
        if end > from {
            assert(s.take(end - from).last() == chars@[end - 1]);
        }
    }
    let ghost t = s.take(end - from);
    let mut start: usize = from;
    assert(t.skip(0) == t);
    while start < end && char_is_whitespace(chars[start])
        invariant
            from <= start <= end <= to <= chars.len(),
            t == chars@.subrange(from as int, end as int),
            trim_start(t.skip(start - from)) == trim_start(t),
        decreases end - start,
    {
        assert(t.skip(start - from)[0] == chars@[start as int]);
        assert(t.skip(start - from).skip(1) == t.skip(start + 1 - from));
        start += 1;
    }
    assert(trim_start(t) == t.skip(start - from)) by {
        if start < end {
            assert(t.skip(start - from)[0] == chars@[start as int]);
        }
    }
    let mut out: Vec<char> = Vec::new();
    let mut i: usize = start;
    while i < end
        invariant
            start <= i <= end <= chars.len(),
            out@ == chars@.subrange(start as int, i as int),
        decreases end - i,
    {
        out.push(chars[i]);
        assert(out@ =~= chars@.subrange(start as int, i + 1));
        i += 1;
    }
    assert(out@ =~= t.skip(start - from));
    out
}

/// The section that a text names, if it names one.
pub fn parse_section(name: &Vec<char>) -> (r: Option<Section>)
    ensures
        r == section_of(name@),
{
    if same_chars(name, &chars_of("prefix")) {
        Some(Section::Prefix)
    } else if same_chars(name, &chars_of("shortened")) {
        Some(Section::Shortened)
    } else if same_chars(name, &chars_of("normal")) {
        Some(Section::Normal)
    } else if same_chars(name, &chars_of("full")) {
        Some(Section::Full)
    } else if same_chars(name, &chars_of("colored")) {
        Some(Section::Colored)
    } else if same_chars(name, &chars_of("all")) {
        Some(Section::All)
    } else {
        None
    }
}

/// The message for a piece that names no section.
fn invalid_section(name: &Vec<char>) -> (r: String)
    ensures
        r@ == invalid_section_message(name@),
{
    let mut message = String::new();
    message.append("Invalid section '");
    message.append(crate::text::string_of_chars(name).as_str());
    message.append("'. Valid sections are: prefix, shortened, normal, full, colored, all");
    assert(message@ =~= invalid_section_message(name@));
    message
}

/// Reads a comma-separated list of section names. White space around a
/// name is dropped. The first piece that names no section is refused with
/// a message that quotes it.
pub fn parse_sections(list: &str) -> (r: Result<Vec<Section>, String>)
    ensures
        match r {
            Ok(sections) => parsed_sections(list@) == Ok::<Seq<Section>, Seq<char>>(sections@),
            Err(message) => parsed_sections(list@) == Err::<Seq<Section>, Seq<char>>(message@),
        },
{
    let chars = chars_of(list);
    let mut sections: Vec<Section> = Vec::new();
    let mut start: usize = 0;
    let mut i: usize = 0;
    let ghost mut done: Seq<Seq<char>> = Seq::empty();
    assert(chars@.take(0) =~= Seq::<char>::empty());
    assert(chars@.subrange(0, 0) =~= Seq::<char>::empty());
    while i < chars.len()
        invariant
            start <= i <= chars.len(),
            chars@ == list@,
            comma_scan(chars@.take(i as int)) == (done, chars@.subrange(start as int, i as int)),
            sections_of(done, done.len() as int) == Ok::<Seq<Section>, Seq<char>>(sections@),
        decreases chars.len() - i,
    {
        let ghost current = chars@.subrange(start as int, i as int);
        proof {
            assert(chars@.take(i + 1).drop_last() == chars@.take(i as int));
            assert(chars@.take(i + 1).last() == chars@[i as int]);
        }
        if chars[i] == ',' {
            let name = trimmed(&chars, start, i);
            proof {
                lemma_sections_of_push(done, current);
            }
            match parse_section(&name) {
                Some(section) => {
                    sections.push(section);
                },
                None => {
                    proof {
                        lemma_sections_of_error(
                            split_commas(list@),
                            done.push(current),
                            invalid_section_message(name@),
                            chars@,
                            i + 1,
                        );
                    }
                    return Err(invalid_section(&name));
                },
            }
            proof {
                done = done.push(current);
            }
            start = i + 1;
            assert(chars@.subrange(start as int, i + 1) =~= Seq::<char>::empty());
        } else {
            assert(chars@.subrange(start as int, i + 1) =~= current.push(chars@[i as int]));
        }
        i += 1;
    }
    assert(chars@.take(chars.len() as int) == chars@);
    let ghost current = chars@.subrange(start as int, i as int);
    let name = trimmed(&chars, start, i);
    proof {
        lemma_sections_of_push(done, current);
    }
    match parse_section(&name) {
        Some(section) => {
            sections.push(section);
            Ok(sections)
        },
        None => Err(invalid_section(&name)),
    }
}

/// Reading one more piece: the sections read before, then the section of
/// the new piece, unless an earlier piece or the new one names none.
pub proof fn lemma_sections_of_push(pieces: Seq<Seq<char>>, piece: Seq<char>)
    ensures
        sections_of(pieces.push(piece), pieces.len() as int + 1) == match sections_of(
            pieces,
            pieces.len() as int,
        ) {
            Ok(before) => match section_of(trim(piece)) {
                Some(section) => Ok(before.push(section)),
                None => Err(invalid_section_message(trim(piece))),
            },
            Err(message) => Err::<Seq<Section>, Seq<char>>(message),
        },
{
    lemma_sections_of_prefix(pieces.push(piece), pieces, pieces.len() as int);
}

/// What the first pieces name does not depend on the pieces behind them.
pub proof fn lemma_sections_of_prefix(all: Seq<Seq<char>>, front: Seq<Seq<char>>, upto: int)
    requires
        0 <= upto <= front.len() <= all.len(),
        forall|i: int| 0 <= i < front.len() ==> all[i] == front[i],
    ensures
        sections_of(all, upto) == sections_of(front, upto),
    decreases upto,
{
    if upto > 0 {
        lemma_sections_of_prefix(all, front, upto - 1);
    }
}

/// Once a piece has named no section, reading on changes nothing.
pub proof fn lemma_sections_of_stays_error(pieces: Seq<Seq<char>>, from: int, upto: int)
    requires
        0 <= from <= upto,
        sections_of(pieces, from) is Err,
    ensures
        sections_of(pieces, upto) == sections_of(pieces, from),
    decreases upto - from,
{
    if from < upto {
        lemma_sections_of_stays_error(pieces, from, upto - 1);
    }
}

/// The pieces that a scan has completed are the first pieces of the whole text.
pub proof fn lemma_comma_scan_prefix(s: Seq<char>, n: int)
    requires
        0 <= n <= s.len(),
    ensures
        comma_scan(s.take(n)).0.len() <= comma_scan(s).0.len(),
        forall|i: int|
            0 <= i < comma_scan(s.take(n)).0.len() ==> comma_scan(s).0[i] == comma_scan(
                s.take(n),
            ).0[i],
    decreases s.len() - n,
{
    if n < s.len() {
        lemma_comma_scan_prefix(s, n + 1);
        assert(s.take(n + 1).drop_last() == s.take(n));
    } else {
        assert(s.take(n) == s);
    }
}

/// Where the pieces read so far end in one that names no section, the
/// whole list is refused with the message for that piece.
proof fn lemma_sections_of_error(
    all: Seq<Seq<char>>,
    read: Seq<Seq<char>>,
    message: Seq<char>,
    s: Seq<char>,
    n: int,
)
    requires
        0 <= n <= s.len(),
        all == split_commas(s),
        read == comma_scan(s.take(n)).0,
        read.len() > 0,
        sections_of(read, read.len() as int) == Err::<Seq<Section>, Seq<char>>(message),
    ensures
        sections_of(all, all.len() as int) == Err::<Seq<Section>, Seq<char>>(message),
{
    lemma_comma_scan_prefix(s, n);
    let (done, current) = comma_scan(s);
    assert(all == done.push(current));
    assert forall|i: int| 0 <= i < read.len() implies all[i] == read[i] by {
        assert(done[i] == read[i]);
    }
    lemma_sections_of_prefix(all, read, read.len() as int);
    lemma_sections_of_stays_error(all, read.len() as int, all.len() as int);
}

/// What is said where several sections are asked for paths read from the
/// standard input.
pub const STDIN_SECTIONS_MESSAGE: &'static str =
    "Multiple sections are not supported with --stdin";

/// Paths that are read from the standard input are shown in one section
/// only: more than one is refused there.
pub fn check_stdin_sections(sections: &Vec<Section>, use_stdin: bool) -> (r: Result<(), String>)
    ensures
        r is Ok <==> !(use_stdin && sections@.len() > 1),
        r matches Err(message) ==> message@ == STDIN_SECTIONS_MESSAGE@,
{
    if use_stdin && sections.len() > 1 {
        Err(STDIN_SECTIONS_MESSAGE.to_owned())
    } else {
        Ok(())
    }
}

/// The text of a section of a path.
pub fn render_section(shortpath: &ShortPath, section: Section, max_segments: usize) -> (r: String)
    ensures
        r@ == section_text(shortpath@, section, max_segments as nat),
{
    match section {
        Section::Prefix => {
            let parts = [ShortPathPart::Prefix];
            assert(parts@ =~= seq![ShortPathPart::Prefix]);
            shortpath.build(max_segments, parts.as_slice())
        },
        Section::Shortened => {
            let parts = [ShortPathPart::Infix];
            assert(parts@ =~= seq![ShortPathPart::Infix]);
            shortpath.build(max_segments, parts.as_slice())
        },
        Section::Normal => {
            let parts = [ShortPathPart::Suffix];
            assert(parts@ =~= seq![ShortPathPart::Suffix]);
            shortpath.build(max_segments, parts.as_slice())
        },
        Section::Colored => shortpath.display(None),
        _ => {
            let parts = [ShortPathPart::Prefix, ShortPathPart::Infix, ShortPathPart::Suffix];
            assert(parts@ =~= seq![
                ShortPathPart::Prefix,
                ShortPathPart::Infix,
                ShortPathPart::Suffix,
            ]);
            shortpath.build(max_segments, parts.as_slice())
        },
    }
}

/// The lines that are printed for a section of a path.
pub fn render_section_lines(shortpath: &ShortPath, section: Section, max_segments: usize) -> (r:
    Vec<String>)
    ensures
        r@.map_values(|line: String| line@) == section_lines(
            shortpath@,
            section,
            max_segments as nat,
        ),
{
    let mut lines: Vec<String> = Vec::new();
    match section {
        Section::All => {
            lines.push(labelled("Full:       ", shortpath, Section::Full, max_segments));
            lines.push(labelled("Prefix:     ", shortpath, Section::Prefix, max_segments));
            lines.push(labelled("Shortened:  ", shortpath, Section::Shortened, max_segments));
            lines.push(labelled("Normal:     ", shortpath, Section::Normal, max_segments));
            lines.push(labelled("Colored:    ", shortpath, Section::Colored, max_segments));
        },
        _ => {
            lines.push(render_section(shortpath, section, max_segments));
        },
    }
    assert(lines@.map_values(|line: String| line@) =~= section_lines(
        shortpath@,
        section,
        max_segments as nat,
    ));
    lines
}

/// A section behind its name.
fn labelled(label: &str, shortpath: &ShortPath, section: Section, max_segments: usize) -> (r:
    String)
    ensures
        r@ == label@ + section_text(shortpath@, section, max_segments as nat),
{
    let mut line = String::new();
    line.append(label);
    line.append(render_section(shortpath, section, max_segments).as_str());
    assert(line@ =~= label@ + section_text(shortpath@, section, max_segments as nat));
    line
}

} // verus!
