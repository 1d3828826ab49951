//! Suggestions rendered as a diff: the affected source lines removed, and
//! the same lines with the replacements applied added.
use vstd::prelude::*;
use vstd::string::StringSliceAdditionalSpecFns;
use vstd::utf8::{decode_utf8, encode_utf8_decode_utf8, encode_utf8_valid_utf8, is_char_boundary};

use crate::level::DiagnosticLevel;
use crate::out::{
    diff_line_end, diff_line_start, diff_source_line, display_char, gutter_line, styled,
    HumanRenderer,
};
use crate::seqs::{lemma_first_index_is, sort_by};
use crate::source_map::{bytes_of, FileView, SourceMap};
use crate::span::Span;
use crate::styles::{Palette, StyleKind};
use crate::suggestion::Suggestion;
use crate::text::{line_begin, line_bytes, line_col_of, substr};
use crate::width::{decimal, decimal_width};

verus! {

/// One replacement of a suggestion.
pub struct PartView {
    pub span: Span,
    pub replacement: Seq<char>,
}

pub open spec fn part_views<'a>(s: Seq<(Span, &'a str)>) -> Seq<PartView> {
    s.map_values(|p: (Span, &'a str)| PartView { span: p.0, replacement: p.1@ })
}

/// Parts are ordered by their start offset.
pub open spec fn part_key() -> spec_fn(PartView) -> int {
    |p: PartView| p.span.lo() as int
}

/// The parts all lie in the first part's file and do not overlap.
pub open spec fn parts_ordered(ps: Seq<PartView>) -> bool {
    forall|i: int|
        0 <= i < ps.len() ==> (#[trigger] ps[i]).span.file() == ps[0].span.file() && (i > 0
            ==> ps[i].span.lo() >= ps[i - 1].span.hi())
}

/// Every part lies on character boundaries of its file, when the map has it.
pub open spec fn parts_on_boundaries(m: Seq<FileView>, ps: Seq<PartView>) -> bool {
    forall|i: int|
        0 <= i < ps.len() && (#[trigger] ps[i]).span.file().id() < m.len() ==> {
            &&& is_char_boundary(bytes_of(m[ps[i].span.file().id() as int]), ps[i].span.lo() as int)
            &&& is_char_boundary(bytes_of(m[ps[i].span.file().id() as int]), ps[i].span.hi() as int)
        }
}

/// Whether the diff of parts sorted by start is shown: they are ordered
/// and lie in a file of the map, and the first start and the last end are
/// offsets of that file on character boundaries.
pub open spec fn diff_shown(m: Seq<FileView>, ps: Seq<PartView>) -> bool {
    &&& ps.len() > 0
    &&& parts_ordered(ps)
    &&& ps[0].span.file().id() < m.len()
    &&& line_col_of(bytes_of(m[ps[0].span.file().id() as int]), ps[0].span.lo() as int) is Some
    &&& line_col_of(bytes_of(m[ps[0].span.file().id() as int]), ps.last().span.hi() as int) is Some
}

/// The source is sliced at the parts of a shown diff only, so those lie on
/// character boundaries; parts sorted by start.
pub open spec fn sorted_parts_fit(m: Seq<FileView>, ps: Seq<PartView>) -> bool {
    diff_shown(m, ps) ==> parts_on_boundaries(m, ps)
}

/// The parts of a suggestion can be rendered: where its diff is shown,
/// every part lies on character boundaries.
pub open spec fn parts_fit(m: Seq<FileView>, ps: Seq<PartView>) -> bool {
    sorted_parts_fit(m, sort_by(ps, part_key()))
}

/// The parts of a suggestion can be rendered.
pub open spec fn suggestion_on_boundaries(m: Seq<FileView>, s: Suggestion) -> bool {
    parts_fit(m, suggestion_parts(s))
}

/// A suggestion's message.
pub open spec fn suggestion_message(s: Suggestion) -> Seq<char> {
    match s {
        Suggestion::Replacement { message, .. } => message@,
        Suggestion::MultiPart { message, .. } => message@,
    }
}

/// A suggestion's replacements.
pub open spec fn suggestion_parts(s: Suggestion) -> Seq<PartView> {
    match s {
        Suggestion::Replacement { span, replacement, .. } => seq![
            PartView { span, replacement: replacement@ },
        ],
        Suggestion::MultiPart { parts, .. } => parts@.map_values(
            |p: (Span, crate::acow::Acow)| PartView { span: p.0, replacement: p.1@ },
        ),
    }
}

/// Line numbers do not grow past the largest `usize`.
pub open spec fn bump(line: nat) -> nat {
    if line < usize::MAX {
        line + 1
    } else {
        line
    }
}

/// The line number after the line breaks of `cs`.
pub open spec fn line_after(cs: Seq<char>, line: nat) -> nat
    decreases cs.len(),
{
    if cs.len() == 0 {
        line
    } else if cs.last() == '\n' {
        bump(line_after(cs.drop_last(), line))
    } else {
        line_after(cs.drop_last(), line)
    }
}

/// How one character of added text is shown: a line break ends the diff
/// line and starts the next one.
pub open spec fn chunk_char(color: Option<Palette>, w: nat, ch: char, line: nat) -> Seq<char> {
    if ch == '\n' {
        diff_line_end(color) + diff_line_start(color, w, bump(line), '+', StyleKind::Addition)
    } else {
        display_char(ch)
    }
}

/// Added text, continuing diff line `line`.
pub open spec fn chunks(color: Option<Palette>, w: nat, cs: Seq<char>, line: nat) -> Seq<char>
    decreases cs.len(),
{
    if cs.len() == 0 {
        Seq::empty()
    } else {
        chunks(color, w, cs.drop_last(), line) + chunk_char(
            color,
            w,
            cs.last(),
            line_after(cs.drop_last(), line),
        )
    }
}

/// The added lines from part `i` on: the source up to the part, then its
/// replacement; after the last part, the rest of the window. A part outside
/// the window ends the diff early.
pub open spec fn parts_from(
    color: Option<Palette>,
    w: nat,
    src: Seq<u8>,
    ws: int,
    we: int,
    ps: Seq<PartView>,
    i: int,
    cursor: int,
    line: nat,
) -> Seq<char>
    decreases ps.len() - i,
{
    if i < 0 || i >= ps.len() {
        let rest = decode_utf8(src.subrange(cursor, we));
        chunks(color, w, rest, line) + diff_line_end(color)
    } else {
        let p = ps[i];
        if p.span.lo() < ws || p.span.hi() > we {
            diff_line_end(color)
        } else {
            let before = decode_utf8(src.subrange(cursor, p.span.lo() as int));
            let l1 = line_after(before, line);
            chunks(color, w, before, line) + chunks(color, w, p.replacement, l1) + parts_from(
                color,
                w,
                src,
                ws,
                we,
                ps,
                i + 1,
                p.span.hi() as int,
                line_after(p.replacement, l1),
            )
        }
    }
}

/// The added lines of a suggestion's diff.
pub open spec fn replacement_lines(
    color: Option<Palette>,
    w: nat,
    start_line: nat,
    src: Seq<u8>,
    ws: int,
    we: int,
    ps: Seq<PartView>,
) -> Seq<char> {
    diff_line_start(color, w, start_line, '+', StyleKind::Addition) + parts_from(
        color,
        w,
        src,
        ws,
        we,
        ps,
        0,
        ws,
        start_line,
    )
}

/// The removed lines `lo..hi` of a suggestion's diff.
pub open spec fn removal_lines(color: Option<Palette>, w: nat, src: Seq<u8>, lo: int, hi: int) -> Seq<char>
    decreases hi - lo,
{
    if hi <= lo {
        Seq::empty()
    } else {
        removal_lines(color, w, src, lo, hi - 1) + match line_bytes(src, hi - 1) {
            Some(lb) => diff_source_line(
                color,
                w,
                (hi - 1) as nat,
                '-',
                decode_utf8(lb),
                StyleKind::Removal,
            ),
            None => Seq::empty(),
        }
    }
}

/// The headline of a suggestion.
pub open spec fn help_line(color: Option<Palette>, message: Seq<char>) -> Seq<char> {
    styled(color, StyleKind::Level(DiagnosticLevel::Help), "help"@) + seq![':', ' '] + message
        + seq!['\n']
}

/// The diff of a suggestion whose parts, sorted, are `ps`; nothing when the
/// parts overlap, span files, or fall outside their file.
pub open spec fn diff_text(color: Option<Palette>, m: Seq<FileView>, ps: Seq<PartView>) -> Seq<char> {
    let f = ps[0].span.file().id() as int;
    if !parts_ordered(ps) || f >= m.len() {
        Seq::empty()
    } else {
        let b = bytes_of(m[f]);
        match (
            line_col_of(b, ps[0].span.lo() as int),
            line_col_of(b, ps.last().span.hi() as int),
        ) {
            (Some((sl, _)), Some((el, _))) => match line_bytes(b, el) {
                None => Seq::empty(),
                Some(lb) => {
                    let ws = line_begin(b, ps[0].span.lo() as int);
                    let we = line_begin(b, ps.last().span.hi() as int) + lb.len();
                    let a = decimal(el as nat).len();
                    let c = decimal(sl as nat).len();
                    let w: nat = if a >= c {
                        a
                    } else {
                        c
                    };
                    gutter_line(color, w, Seq::empty()) + removal_lines(color, w, b, sl, el + 1)
                        + replacement_lines(color, w, sl as nat, b, ws, we, ps) + gutter_line(
                        color,
                        w,
                        Seq::empty(),
                    )
                },
            },
            _ => Seq::empty(),
        }
    }
}

/// A suggestion with the given message and parts, rendered.
pub open spec fn suggestion_parts_text(
    color: Option<Palette>,
    m: Seq<FileView>,
    message: Seq<char>,
    parts: Seq<PartView>,
) -> Seq<char> {
    help_line(color, message) + if parts.len() == 0 {
        Seq::empty()
    } else {
        diff_text(color, m, sort_by(parts, part_key()))
    }
}

/// A suggestion, rendered.
pub open spec fn suggestion_text(color: Option<Palette>, m: Seq<FileView>, s: Suggestion) -> Seq<char> {
    suggestion_parts_text(color, m, suggestion_message(s), suggestion_parts(s))
}

impl HumanRenderer {
    pub(crate) fn write_diff_line_chunks(&mut self, line_width: usize, text: &str, line: usize) -> (r: usize)
        ensures
            final(self).extends(
                old(self),
                chunks(old(self).colored(), line_width as nat, text@, line as nat),
            ),
            r == line_after(text@, line as nat),
    {
        broadcast use crate::out::lemma_seq_add_assoc;

        let ghost t0 = self.text();
        let ghost c = self.colored();
        let ghost w = line_width as nat;
        let mut current = line;
        for ch in it: text.chars()
            invariant
                it.seq() == text@,
                self.cfg() == old(self).cfg(),
                self.pal() == old(self).pal(),
                c == self.colored(),
                w == line_width as nat,
                t0 == old(self).text(),
                self.text() == t0 + chunks(c, w, text@.take(it.index() as int), line as nat),
                current == line_after(text@.take(it.index() as int), line as nat),
        {
            let ghost i = it.index() as int;
            let ghost before = self.text();
            proof {
                assert(text@.take(i + 1).drop_last() =~= text@.take(i));
                assert(text@.take(i + 1).last() == ch);
            }
            if ch == '\n' {
                self.write_diff_line_end();
                current = if current < usize::MAX {
                    current + 1
                } else {
                    current
                };
                self.write_diff_line_start(line_width, current, '+', StyleKind::Addition);
            } else {
                self.write_display_char(ch);
            }
            assert(self.text() == before + chunk_char(c, w, ch, line_after(text@.take(i), line as nat)));
        }
        assert(text@.take(text@.len() as int) =~= text@);
        current
    }

    fn sort_parts<'a>(parts: &Vec<(Span, &'a str)>) -> (r: Vec<(Span, &'a str)>)
        ensures
            part_views(r@) == sort_by(part_views(parts@), part_key()),
    {
        let mut sorted: Vec<(Span, &'a str)> = Vec::new();
        let mut i: usize = 0;
        while i < parts.len()
            invariant
                i <= parts@.len(),
                part_views(sorted@) == sort_by(part_views(parts@.take(i as int)), part_key()),
            decreases parts@.len() - i,
        {
            let p = parts[i];
            let ghost x = PartView { span: p.0, replacement: p.1@ };
            let ghost before = part_views(sorted@);
            let mut j: usize = 0;
            while j < sorted.len() && sorted[j].0.start() <= p.0.start()
                invariant
                    j <= sorted@.len(),
                    part_views(sorted@) == before,
                    x.span == p.0,
                    forall|q: int|
                        0 <= q < j ==> !(part_key()(#[trigger] before[q]) > part_key()(x)),
                decreases sorted@.len() - j,
            {
                assert(before[j as int].span == sorted@[j as int].0);
                j += 1;
            }
            proof {
                let pr = |y: PartView| part_key()(y) > part_key()(x);
                if j < sorted@.len() {
                    assert(before[j as int].span == sorted@[j as int].0);
                    assert(pr(before[j as int]));
                }
                lemma_first_index_is(before, pr, j as int);
                assert(part_views(parts@.take(i + 1)).drop_last() =~= part_views(parts@.take(i as int)));
                assert(part_views(parts@.take(i + 1)).last() == x);
            }
            sorted.insert(j, p);
            i += 1;
            assert(part_views(sorted@) =~= sort_by(part_views(parts@.take(i as int)), part_key()));
        }
        assert(parts@.take(i as int) =~= parts@);
        sorted
    }

    fn parts_in_order(parts: &Vec<(Span, &str)>) -> (r: bool)
        requires
            parts@.len() > 0,
        ensures
            r == parts_ordered(part_views(parts@)),
    {
        let ghost ps = part_views(parts@);
        let file_id = parts[0].0.file_id();
        let mut previous_end = parts[0].0.start();
        let mut idx: usize = 0;
        while idx < parts.len()
            invariant
                ps == part_views(parts@),
                parts@.len() > 0,
                idx <= parts@.len(),
                file_id == ps[0].span.file(),
                idx == 0 ==> previous_end == ps[0].span.lo(),
                idx > 0 ==> previous_end == ps[idx - 1].span.hi(),
                forall|q: int|
                    0 <= q < idx ==> (#[trigger] ps[q]).span.file() == ps[0].span.file() && (q > 0
                        ==> ps[q].span.lo() >= ps[q - 1].span.hi()),
            decreases parts@.len() - idx,
        {
            let span = parts[idx].0;
            assert(ps[idx as int].span == span);
            if span.file_id() != file_id || (idx != 0 && span.start() < previous_end) {
                assert(!(ps[idx as int].span.file() == ps[0].span.file() && (idx > 0
                    ==> ps[idx as int].span.lo() >= ps[idx - 1].span.hi())));
                return false;
            }
            previous_end = span.end();
            idx += 1;
        }
        true
    }
}

impl HumanRenderer {
    #[verifier::rlimit(40)]
    pub(crate) fn write_replacement_diff_lines(
        &mut self,
        line_width: usize,
        start_line: usize,
        source: &str,
        window_start: usize,
        window_end: usize,
        parts: &Vec<(Span, &str)>,
    )
        requires
            window_start <= source.spec_bytes().len(),
            window_end <= source.spec_bytes().len(),
            is_char_boundary(source.spec_bytes(), window_start as int),
            is_char_boundary(source.spec_bytes(), window_end as int),
            parts@.len() > 0,
            parts_ordered(part_views(parts@)),
            forall|i: int|
                0 <= i < parts@.len() ==> {
                    &&& is_char_boundary(source.spec_bytes(), (#[trigger] parts@[i]).0.lo() as int)
                    &&& is_char_boundary(source.spec_bytes(), parts@[i].0.hi() as int)
                },
        ensures
            final(self).extends(
                old(self),
                replacement_lines(
                    old(self).colored(),
                    line_width as nat,
                    start_line as nat,
                    source.spec_bytes(),
                    window_start as int,
                    window_end as int,
                    part_views(parts@),
                ),
            ),
    {
        broadcast use crate::out::lemma_seq_add_assoc;

        let ghost t0 = self.text();
        let ghost c = self.colored();
        let ghost w = line_width as nat;
        let ghost b = source.spec_bytes();
        let ghost ps = part_views(parts@);
        let ghost ws = window_start as int;
        let ghost we = window_end as int;
        proof {
            encode_utf8_valid_utf8(source@);
        }
        let mut line = start_line;
        self.write_diff_line_start(line_width, line, '+', StyleKind::Addition);
        let ghost t1 = self.text();
        let mut cursor = window_start;
        let mut i: usize = 0;
        while i < parts.len()
            invariant
                b == source.spec_bytes(),
                ps == part_views(parts@),
                ws == window_start as int,
                we == window_end as int,
                w == line_width as nat,
                window_start <= b.len(),
                window_end <= b.len(),
                is_char_boundary(b, window_end as int),
                vstd::utf8::valid_utf8(b),
                parts_ordered(ps),
                forall|q: int|
                    0 <= q < parts@.len() ==> {
                        &&& is_char_boundary(b, (#[trigger] parts@[q]).0.lo() as int)
                        &&& is_char_boundary(b, parts@[q].0.hi() as int)
                    },
                i <= parts@.len(),
                i > 0 ==> cursor <= window_end,
                is_char_boundary(b, cursor as int),
                i == 0 ==> cursor == window_start,
                i > 0 ==> cursor == ps[i - 1].span.hi(),
                c == self.colored(),
                self.cfg() == old(self).cfg(),
                self.pal() == old(self).pal(),
                t0 == old(self).text(),
                t1 == t0 + diff_line_start(c, w, start_line as nat, '+', StyleKind::Addition),
                self.text() + parts_from(c, w, b, ws, we, ps, i as int, cursor as int, line as nat)
                    == t1 + parts_from(c, w, b, ws, we, ps, 0, ws, start_line as nat),
            decreases parts@.len() - i,
        {
            let (span, replacement) = parts[i];
            assert(ps[i as int].span == span && ps[i as int].replacement == replacement@);
            if span.start() < window_start || span.end() > window_end {
                let ghost before = self.text();
                self.write_diff_line_end();
                assert(self.text() == t1 + parts_from(c, w, b, ws, we, ps, 0, ws, start_line as nat));
                assert(self.text() == t0 + replacement_lines(c, w, start_line as nat, b, ws, we, ps));
                return;
            }
            proof {
                if i > 0 {
                    assert(ps[i as int].span.lo() >= ps[i - 1].span.hi());
                }
            }
            let ghost before_text = self.text();
            let ghost l0 = line as nat;
            let head = substr(source, cursor, span.start());
            line = self.write_diff_line_chunks(line_width, head, line);
            line = self.write_diff_line_chunks(line_width, replacement, line);
            cursor = span.end();
            i += 1;
        }
        let rest = substr(source, cursor, window_end);
        line = self.write_diff_line_chunks(line_width, rest, line);
        self.write_diff_line_end();
        assert(self.text() == t0 + replacement_lines(c, w, start_line as nat, b, ws, we, ps));
    }

    fn print_removal_lines(
        &mut self,
        source_map: &SourceMap,
        file_id: crate::span::FileId,
        line_width: usize,
        start_line: usize,
        end_line: usize,
    )
        requires
            source_map.wf(),
            file_id.id() < source_map@.len(),
            end_line < usize::MAX,
        ensures
            final(self).extends(
                old(self),
                removal_lines(
                    old(self).colored(),
                    line_width as nat,
                    bytes_of(source_map@[file_id.id() as int]),
                    start_line as int,
                    end_line + 1,
                ),
            ),
    {
        broadcast use crate::out::lemma_seq_add_assoc;

        let ghost t0 = self.text();
        let ghost c = self.colored();
        let ghost b = bytes_of(source_map@[file_id.id() as int]);
        if start_line > end_line {
            assert(self.text() == t0 + Seq::<char>::empty());
            return;
        }
        let mut line = start_line;
        while line <= end_line
            invariant
                source_map.wf(),
                file_id.id() < source_map@.len(),
                b == bytes_of(source_map@[file_id.id() as int]),
                end_line < usize::MAX,
                start_line <= line <= end_line + 1,
                c == self.colored(),
                self.cfg() == old(self).cfg(),
                self.pal() == old(self).pal(),
                t0 == old(self).text(),
                self.text() == t0 + removal_lines(c, line_width as nat, b, start_line as int, line as int),
            decreases end_line + 1 - line,
        {
            let ghost before = self.text();
            if let Some(source_line) = source_map.line(file_id, line) {
                proof {
                    encode_utf8_decode_utf8(source_line@);
                }
                self.write_diff_source_line(line_width, line, '-', source_line, StyleKind::Removal);
            }
            assert(self.text() == before + match line_bytes(b, line as int) {
                Some(lb) => diff_source_line(c, line_width as nat, line as nat, '-', decode_utf8(lb), StyleKind::Removal),
                None => Seq::empty(),
            });
            line += 1;
        }
    }
}

impl HumanRenderer {
    /// The diff of already sorted parts.
    #[verifier::rlimit(60)]
    fn print_sorted_parts(&mut self, source_map: &SourceMap, parts: &Vec<(Span, &str)>)
        requires
            source_map.wf(),
            parts@.len() > 0,
            sorted_parts_fit(source_map@, part_views(parts@)),
        ensures
            final(self).extends(old(self), diff_text(old(self).colored(), source_map@, part_views(parts@))),
    {
        broadcast use crate::out::lemma_seq_add_assoc;

        let ghost t0 = self.text();
        let ghost c = self.colored();
        let ghost m = source_map@;
        let ghost ps = part_views(parts@);
        if !Self::parts_in_order(parts) {
            assert(self.text() == t0 + Seq::<char>::empty());
            return;
        }
        let first_span = parts[0].0;
        let last_span = parts[parts.len() - 1].0;
        assert(ps[0].span == first_span);
        assert(ps.last().span == last_span);
        assert(ps[ps.len() - 1].span.file() == ps[0].span.file());
        let file_id = first_span.file_id();
        let source = match source_map.source(file_id) {
            Some(text) => text,
            None => {
                assert(self.text() == t0 + Seq::<char>::empty());
                return;
            },
        };
        let ghost b = bytes_of(m[file_id.id() as int]);
        assert(source.spec_bytes() == b);
        let (start_line, _) = match source_map.line_col(file_id, first_span.start()) {
            Some(lc) => lc,
            None => {
                assert(self.text() == t0 + Seq::<char>::empty());
                return;
            },
        };
        let (end_line, _) = match source_map.line_col(file_id, last_span.end()) {
            Some(lc) => lc,
            None => {
                assert(self.text() == t0 + Seq::<char>::empty());
                return;
            },
        };
        assert(diff_shown(m, ps));
        let window_start = match source_map.line_start(file_id, first_span.start()) {
            Some(start) => start,
            None => {
                assert(false);
                return;
            },
        };
        let window_end_line_start = match source_map.line_start(file_id, last_span.end()) {
            Some(start) => start,
            None => {
                assert(false);
                return;
            },
        };
        let window_end_line = match source_map.line(file_id, end_line) {
            Some(text) => text,
            None => {
                assert(self.text() == t0 + Seq::<char>::empty());
                return;
            },
        };
        proof {
            source_map.lemma_fits(file_id.id() as int);
            encode_utf8_valid_utf8(m[file_id.id() as int].text);
            crate::text::lemma_line_index(b, last_span.hi() as int);
            crate::text::lemma_line_range(b, end_line as int);
            crate::text::lemma_line_index(b, first_span.lo() as int);
            crate::text::lemma_line_start_boundary(b, crate::text::newlines_before(b, first_span.lo() as int) as int);
            let k = end_line as int;
            if k < crate::text::line_starts(b).len() {
                crate::text::lemma_line_start_boundary(b, k);
            } else {
                vstd::utf8::is_char_boundary_start_end_of_seq(b);
            }
            crate::text::lemma_starts_shape(b, b.len() as int);
        }
        let window_end = window_end_line_start + window_end_line.as_bytes().len();
        let end_width = decimal_width(end_line);
        let start_width = decimal_width(start_line);
        let line_width = if end_width >= start_width {
            end_width
        } else {
            start_width
        };
        proof {
            reveal_strlit("");
        }
        self.write_gutter(line_width, "");
        self.print_removal_lines(source_map, file_id, line_width, start_line, end_line);
        proof {
            assert forall|i: int| 0 <= i < parts@.len() implies {
                &&& is_char_boundary(source.spec_bytes(), (#[trigger] parts@[i]).0.lo() as int)
                &&& is_char_boundary(source.spec_bytes(), parts@[i].0.hi() as int)
            } by {
                assert(ps[i].span == parts@[i].0);
            }
        }
        self.write_replacement_diff_lines(
            line_width,
            start_line,
            source,
            window_start,
            window_end,
            parts,
        );
        self.write_gutter(line_width, "");
        assert(self.text() == t0 + diff_text(c, m, ps));
    }

    pub(crate) fn print_suggestion_parts(
        &mut self,
        source_map: &SourceMap,
        message: &str,
        parts: &Vec<(Span, &str)>,
    )
        requires
            source_map.wf(),
            parts_fit(source_map@, part_views(parts@)),
        ensures
            final(self).extends(
                old(self),
                suggestion_parts_text(old(self).colored(), source_map@, message@, part_views(parts@)),
            ),
    {
        broadcast use crate::out::lemma_seq_add_assoc;

        let ghost t0 = self.text();
        let ghost c = self.colored();
        self.write_styled(StyleKind::Level(DiagnosticLevel::Help), "help");
        self.push(':');
        self.push(' ');
        self.push_str(message);
        self.push('\n');
        assert(self.text() == t0 + help_line(c, message@));
        if parts.len() == 0 {
            assert(self.text() == t0 + suggestion_parts_text(c, source_map@, message@, part_views(parts@)));
            return;
        }
        let sorted = Self::sort_parts(parts);
        proof {
            let ps = part_views(parts@);
            let qs = part_views(sorted@);
            crate::seqs::lemma_sort_by_len(ps, part_key());
            assert(sorted_parts_fit(source_map@, qs));
        }
        self.print_sorted_parts(source_map, &sorted);
        assert(self.text() == t0 + suggestion_parts_text(c, source_map@, message@, part_views(parts@)));
    }

    pub(crate) fn print_suggestion_replacement(
        &mut self,
        source_map: &SourceMap,
        span: Span,
        message: &str,
        replacement: &str,
    )
        requires
            source_map.wf(),
            parts_fit(source_map@, seq![PartView { span, replacement: replacement@ }]),
        ensures
            final(self).extends(
                old(self),
                suggestion_parts_text(
                    old(self).colored(),
                    source_map@,
                    message@,
                    seq![PartView { span, replacement: replacement@ }],
                ),
            ),
    {
        let mut parts: Vec<(Span, &str)> = Vec::new();
        parts.push((span, replacement));
        assert(part_views(parts@) =~= seq![PartView { span, replacement: replacement@ }]);
        self.print_suggestion_parts(source_map, message, &parts);
    }

    /// Whether parts can be rendered: the parts of a shown diff lie on
    /// character boundaries.
    pub(crate) fn check_parts_fit(source_map: &SourceMap, parts: &Vec<(Span, &str)>) -> (r: bool)
        requires
            source_map.wf(),
        ensures
            r == parts_fit(source_map@, part_views(parts@)),
    {
        let ghost m = source_map@;
        let ghost ps = part_views(parts@);
        if parts.len() == 0 {
            assert(sort_by(ps, part_key()).len() == 0);
            return true;
        }
        let sorted = Self::sort_parts(parts);
        let ghost qs = part_views(sorted@);
        proof {
            crate::seqs::lemma_sort_by_len(ps, part_key());
        }
        if !Self::parts_in_order(&sorted) {
            return true;
        }
        let first_span = sorted[0].0;
        let last_span = sorted[sorted.len() - 1].0;
        assert(qs[0].span == first_span);
        assert(qs.last().span == last_span);
        let file_id = first_span.file_id();
        let text = match source_map.source(file_id) {
            Some(text) => text,
            None => {
                return true;
            },
        };
        if source_map.line_col(file_id, first_span.start()).is_none() || source_map.line_col(
            file_id,
            last_span.end(),
        ).is_none() {
            return true;
        }
        assert(diff_shown(m, qs));
        let ghost b = bytes_of(m[file_id.id() as int]);
        assert(text.spec_bytes() == b);
        proof {
            encode_utf8_valid_utf8(m[file_id.id() as int].text);
        }
        let mut i: usize = 0;
        while i < sorted.len()
            invariant
                qs == part_views(sorted@),
                ps == part_views(parts@),
                qs == sort_by(ps, part_key()),
                diff_shown(m, qs),
                m == source_map@,
                parts_ordered(qs),
                qs.len() > 0,
                file_id == qs[0].span.file(),
                file_id.id() < m.len(),
                b == bytes_of(m[file_id.id() as int]),
                text.spec_bytes() == b,
                vstd::utf8::valid_utf8(b),
                i <= sorted@.len(),
                forall|q: int|
                    0 <= q < i ==> is_char_boundary(b, (#[trigger] qs[q]).span.lo() as int)
                        && is_char_boundary(b, qs[q].span.hi() as int),
            decreases sorted@.len() - i,
        {
            let span = sorted[i].0;
            assert(qs[i as int].span == span);
            if !text.is_char_boundary(span.start()) || !text.is_char_boundary(span.end()) {
                assert(qs[i as int].span.file() == file_id);
                assert(!(is_char_boundary(b, qs[i as int].span.lo() as int) && is_char_boundary(
                    b,
                    qs[i as int].span.hi() as int,
                )));
                assert(!parts_on_boundaries(m, qs));
                return false;
            }
            i += 1;
        }
        assert forall|q: int| 0 <= q < qs.len() && (#[trigger] qs[q]).span.file().id() < m.len() implies {
            &&& is_char_boundary(bytes_of(m[qs[q].span.file().id() as int]), qs[q].span.lo() as int)
            &&& is_char_boundary(bytes_of(m[qs[q].span.file().id() as int]), qs[q].span.hi() as int)
        } by {
            assert(qs[q].span.file() == file_id);
        }
        true
    }

    pub(crate) fn print_suggestion(&mut self, source_map: &SourceMap, suggestion: &Suggestion)
        requires
            source_map.wf(),
            suggestion_on_boundaries(source_map@, *suggestion),
        ensures
            final(self).extends(
                old(self),
                suggestion_text(old(self).colored(), source_map@, *suggestion),
            ),
    {
        match suggestion {
            Suggestion::Replacement { span, message, replacement, .. } => {
                self.print_suggestion_replacement(
                    source_map,
                    *span,
                    message.as_str(),
                    replacement.as_str(),
                );
            },
            Suggestion::MultiPart { parts, message, .. } => {
                let mut suggestion_parts_vec: Vec<(Span, &str)> = Vec::new();
                let mut i: usize = 0;
                while i < parts.len()
                    invariant
                        i <= parts@.len(),
                        suggestion_parts_vec@.len() == i,
                        forall|q: int|
                            0 <= q < i ==> (#[trigger] suggestion_parts_vec@[q]).0 == parts@[q].0
                                && suggestion_parts_vec@[q].1@ == parts@[q].1@,
                    decreases parts@.len() - i,
                {
                    let part = &parts[i];
                    suggestion_parts_vec.push((part.0, part.1.as_str()));
                    i += 1;
                }
                assert(part_views(suggestion_parts_vec@) =~= suggestion_parts(*suggestion));
                self.print_suggestion_parts(source_map, message.as_str(), &suggestion_parts_vec);
            },
        }
    }
}

} // verus!
