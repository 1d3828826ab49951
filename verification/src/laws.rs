//! Properties of the library as a whole.
use vstd::prelude::*;
use vstd::utf8::{
    decode_utf8, decode_utf8_split, encode_utf8, encode_utf8_valid_utf8, is_char_boundary,
    is_char_boundary_start_end_of_seq,
};

use crate::config::{
    color_named, color_setting, eq_ignore_ascii_case, format_named, format_setting,
    EmitterConfig,
};
use crate::builder::DiagnosticBuilder;
use crate::diagnostic::Diagnostic;
use crate::labels::{
    add_child, add_children, add_span_label, add_spans, diagnostic_labels, is_primary_label,
    label_position, line_positions, primary_labels, span_bounds, unlabeled_primary, LabelView,
    PosView,
};
use crate::seqs::{first_index, lemma_first_index};
use crate::emit::{trailing_children, trailing_text};
use crate::level::level_name;
use crate::out::{
    diff_line_end, diff_line_start, display_text, gutter_line, gutter_prefix, line_number_text,
    repeat, right_aligned, spaces, styled,
};
use crate::lines::{has_marker, inline_text, marker_line, marker_piece, markers_from, next_col};
use crate::styles::Palette;
use crate::width::{char_width, decimal};
use crate::window::{window_step, windows_upto, WindowView};
use crate::lines::{
    ends_inside, ends_inside_primary, source_prefix, starts_at_line_start,
    starts_at_line_start_primary,
};
use crate::suggest::{parts_from, replacement_lines};
use crate::seqs::{concat_map, lemma_sort_by_len, sort_by};
use crate::styles::StyleKind;
use crate::sub_diag::SubDiagnostic;
use crate::suggest::{bump, chunks, help_line, line_after, part_key, suggestion_parts_text, PartView};
use crate::emit::emit_text;
use crate::out::HumanRenderer;
use crate::source_map::{bytes_of, FileView, SourceMap};
use crate::width::{display_col_of, lemma_str_width_concat};
use crate::level::DiagnosticLevel;
use crate::span::{FileId, Span};
use crate::text::{
    lemma_boundary_in_slice, lemma_line_index, lemma_line_range, lemma_line_start_boundary, lemma_starts_shape, line_begin,
    line_bytes, line_col_of, line_range, line_starts, newlines_before, text_fits,
};

verus! {

/// A file added to a source map reads back: at the id `add_file` returns,
/// `source` and `filename` give the added text and name, and every file
/// added before keeps its text and name.
pub proof fn law_added_file_reads_back(
    before: SourceMap,
    after: SourceMap,
    id: FileId,
    name: Seq<char>,
    text: Seq<char>,
)
    requires
        id.id() == before@.len(),
        after@ == before@.push(FileView { name, text }),
    ensures
        id.id() < after@.len(),
        after@[id.id() as int].text == text,
        after@[id.id() as int].name == name,
        forall|i: int| 0 <= i < before@.len() ==> #[trigger] after@[i] == before@[i],
{
}

/// Line numbers never decrease as the offset grows.
proof fn lemma_newlines_monotone(b: Seq<u8>, o1: int, o2: int)
    requires
        o1 <= o2,
    ensures
        newlines_before(b, o1) <= newlines_before(b, o2),
    decreases o2 - o1,
{
    if o1 < o2 {
        lemma_newlines_monotone(b, o1, o2 - 1);
    }
}

/// The first character of every line is at column 1 of that line: for the
/// line start that `line_start_for_line(n)` gives, `line_col` answers `(n, 1)`.
pub proof fn law_line_start_is_column_one(f: FileView, n: int)
    requires
        text_fits(bytes_of(f)),
        1 <= n <= line_starts(bytes_of(f)).len(),
    ensures
        line_col_of(bytes_of(f), line_starts(bytes_of(f))[n - 1] as int) == Some((n, 1int)),
{
    let b = bytes_of(f);
    let s = line_starts(b);
    let st = s[n - 1] as int;
    encode_utf8_valid_utf8(f.text);
    lemma_starts_shape(b, b.len() as int);
    lemma_line_start_boundary(b, n - 1);
    lemma_line_index(b, st);
    let nb = newlines_before(b, st) as int;
    assert(n - 1 <= nb);
    if n < s.len() {
        assert(s[n - 1] < s[n]);
        assert(!(s[n] <= st));
    }
    assert(nb == n - 1);
    assert(b.subrange(st, st) =~= Seq::<u8>::empty());
    assert(decode_utf8(Seq::<u8>::empty()) =~= Seq::<char>::empty());
}

/// `line_col` and `line_start` agree: the offset at which the line that
/// `line_col` names begins is the one `line_start` gives, and the column
/// counts the characters between that start and the offset.
pub proof fn law_line_col_agrees_with_line_start(f: FileView, o: int, l: int, c: int)
    requires
        text_fits(bytes_of(f)),
        line_col_of(bytes_of(f), o) == Some((l, c)),
    ensures
        1 <= l <= line_starts(bytes_of(f)).len(),
        line_starts(bytes_of(f))[l - 1] == line_begin(bytes_of(f), o),
        c == decode_utf8(bytes_of(f).subrange(line_starts(bytes_of(f))[l - 1] as int, o)).len()
            + 1,
{
    lemma_line_index(bytes_of(f), o);
}

/// A later offset never lies on an earlier line.
pub proof fn law_line_numbers_monotone(f: FileView, o1: int, o2: int, l1: int, c1: int, l2: int, c2: int)
    requires
        o1 <= o2,
        line_col_of(bytes_of(f), o1) == Some((l1, c1)),
        line_col_of(bytes_of(f), o2) == Some((l2, c2)),
    ensures
        l1 <= l2,
{
    lemma_newlines_monotone(bytes_of(f), o1, o2);
}

/// The text of a line holds no line break.
pub proof fn law_line_has_no_break(f: FileView, n: int, k: int)
    requires
        text_fits(bytes_of(f)),
        line_bytes(bytes_of(f), n) matches Some(t) && 0 <= k < t.len(),
    ensures
        line_bytes(bytes_of(f), n).unwrap()[k] != 10u8,
{
    let b = bytes_of(f);
    let s = line_starts(b);
    lemma_starts_shape(b, b.len() as int);
    lemma_line_range(b, n);
    let (lo, hi) = line_range(b, n);
    let j = lo + k;
    assert(line_bytes(b, n).unwrap()[k] == b[j]);
    if b[j] == 10u8 {
        lemma_line_index(b, j + 1);
        assert(line_begin(b, j + 1) == j + 1);
        let m = newlines_before(b, j + 1) as int;
        assert(s[m] == j + 1);
        assert(!(s[m] <= lo)) by {
            assert(s[n - 1] == lo);
        }
        if m <= n - 1 {
            if m < n - 1 {
                assert(s[m] < s[n - 1]);
            }
        }
        assert(m >= n);
        if n < s.len() {
            if m > n {
                assert(s[n as int] < s[m]);
            }
            assert(hi == s[n as int] - 1);
        }
    }
}

/// Format and color names are recognized whatever the case of their ASCII
/// letters: two names that differ only in case select the same setting.
pub proof fn law_names_ignore_case(a: Seq<u8>, b: Seq<u8>)
    requires
        eq_ignore_ascii_case(a, b),
    ensures
        format_named(a) == format_named(b),
        color_named(a) == color_named(b),
{
    assert forall|x: Seq<u8>| eq_ignore_ascii_case(a, x) <==> eq_ignore_ascii_case(b, x) by {
        if eq_ignore_ascii_case(a, x) {
            assert forall|i: int| 0 <= i < b.len() implies crate::config::ascii_lower(#[trigger] b[i])
                == crate::config::ascii_lower(x[i]) by {
                assert(crate::config::ascii_lower(a[i]) == crate::config::ascii_lower(b[i]));
                assert(crate::config::ascii_lower(a[i]) == crate::config::ascii_lower(x[i]));
            }
        }
        if eq_ignore_ascii_case(b, x) {
            assert forall|i: int| 0 <= i < a.len() implies crate::config::ascii_lower(#[trigger] a[i])
                == crate::config::ascii_lower(x[i]) by {
                assert(crate::config::ascii_lower(a[i]) == crate::config::ascii_lower(b[i]));
                assert(crate::config::ascii_lower(b[i]) == crate::config::ascii_lower(x[i]));
            }
        }
    }
}

/// A configuration that `EmitterConfig::build` settled settles to itself
/// again when no override is given: its color is never left `Auto`, and
/// without overrides the format and color stay.
pub proof fn law_settled_config_is_stable(c: EmitterConfig)
    requires
        !(c.color is Auto),
    ensures
        format_setting(None, c.format) == c.format,
        color_setting(None, c.color) == c.color,
        !(color_setting(None, c.color) is Auto),
{
}

/// Display columns never decrease along a line: of two character
/// boundaries, the later one starts at a column at least as large.
pub proof fn law_display_col_monotone(line: Seq<char>, o1: int, o2: int)
    requires
        0 <= o1 <= o2 <= encode_utf8(line).len(),
        is_char_boundary(encode_utf8(line), o1),
        is_char_boundary(encode_utf8(line), o2),
    ensures
        display_col_of(encode_utf8(line), o1) matches Some(c1) && display_col_of(
            encode_utf8(line),
            o2,
        ) matches Some(c2) && c1 <= c2,
{
    let b = encode_utf8(line);
    encode_utf8_valid_utf8(line);
    is_char_boundary_start_end_of_seq(b);
    lemma_boundary_in_slice(b, 0, o2, o1);
    let p = b.subrange(0, o2);
    decode_utf8_split(p, o1);
    assert(p.subrange(0, o1) =~= b.subrange(0, o1));
    lemma_str_width_concat(
        decode_utf8(p.subrange(0, o1)),
        decode_utf8(p.subrange(o1, p.len() as int)),
    );
}

/// Rendering appends: two diagnostics emitted one after the other leave the
/// earlier output, then the first diagnostic's text, then the second's, and
/// the configuration unchanged.
pub proof fn law_emits_concatenate(
    r0: HumanRenderer,
    r1: HumanRenderer,
    r2: HumanRenderer,
    d1: Diagnostic,
    d2: Diagnostic,
    m: Seq<FileView>,
)
    requires
        r1.extends(&r0, emit_text(r0.colored(), d1, m)),
        r2.extends(&r1, emit_text(r1.colored(), d2, m)),
    ensures
        r2.cfg() == r0.cfg(),
        r2.text() == r0.text() + emit_text(r0.colored(), d1, m) + emit_text(r0.colored(), d2, m),
{
}

/// Whether a byte is a line break.
pub open spec fn is_newline() -> spec_fn(u8) -> bool {
    |x: u8| x == 10u8
}

/// The line breaks among the first `n` bytes are those `filter` keeps.
proof fn lemma_newlines_filter(b: Seq<u8>, n: int)
    requires
        0 <= n <= b.len(),
    ensures
        newlines_before(b, n) == b.subrange(0, n).filter(is_newline()).len(),
    decreases n,
{
    reveal(Seq::filter);
    if n > 0 {
        lemma_newlines_filter(b, n - 1);
        assert(b.subrange(0, n).drop_last() =~= b.subrange(0, n - 1));
        assert(b.subrange(0, n).last() == b[n - 1]);
    } else {
        assert(b.subrange(0, n).len() == 0);
    }
}

/// The line `line_col` gives is one more than the number of line breaks
/// before the offset.
pub proof fn law_line_counts_newlines(f: FileView, o: int, l: int, c: int)
    requires
        line_col_of(bytes_of(f), o) == Some((l, c)),
    ensures
        l == 1 + bytes_of(f).subrange(0, o).filter(is_newline()).len(),
{
    lemma_newlines_filter(bytes_of(f), o);
}

/// The start of the line holding an offset, as `line_start` gives it, is
/// just past the last line break before the offset, or 0 when there is none.
pub proof fn law_line_start_after_last_newline(b: Seq<u8>, o: int)
    requires
        0 <= o <= b.len(),
    ensures
        0 <= line_begin(b, o) <= o,
        line_begin(b, o) > 0 ==> b[line_begin(b, o) - 1] == 10u8,
        forall|k: int| line_begin(b, o) <= k < o ==> b[k] != 10u8,
    decreases o,
{
    if o > 0 {
        law_line_start_after_last_newline(b, o - 1);
    }
}

/// The lines of a text are the pieces between its line breaks: there is one
/// more line than there are line breaks, line `n` begins after the
/// `n - 1`-th line break (or at 0), ends at the next line break (or at the
/// end), and holds none.
pub proof fn law_lines_split_at_newlines(f: FileView, n: int)
    requires
        text_fits(bytes_of(f)),
        1 <= n <= line_starts(bytes_of(f)).len(),
    ensures
        line_starts(bytes_of(f)).len() == newlines_before(bytes_of(f), bytes_of(f).len() as int) + 1,
        newlines_before(bytes_of(f), line_range(bytes_of(f), n).0) == n - 1,
        line_range(bytes_of(f), n).0 == 0 || bytes_of(f)[line_range(bytes_of(f), n).0 - 1] == 10u8,
        line_range(bytes_of(f), n).1 == bytes_of(f).len() || bytes_of(f)[line_range(bytes_of(f), n).1]
            == 10u8,
        forall|k: int|
            line_range(bytes_of(f), n).0 <= k < line_range(bytes_of(f), n).1 ==> bytes_of(f)[k]
                != 10u8,
{
    let b = bytes_of(f);
    let s = line_starts(b);
    lemma_starts_shape(b, b.len() as int);
    lemma_line_range(b, n);
    law_line_start_is_column_one(f, n);
    let (lo, hi) = line_range(b, n);
    if n < s.len() {
        assert(s[n as int] > 0);
        assert(b[s[n as int] - 1] == 10u8);
    }
    assert forall|k: int| lo <= k < hi implies b[k] != 10u8 by {
        law_line_has_no_break(f, n, k - lo);
        assert(line_bytes(b, n).unwrap()[k - lo] == b[k]);
    }
}

/// Added text splits at its first line break and continues on the next line.
proof fn lemma_chunks_concat(c: Option<Palette>, w: nat, x: Seq<char>, y: Seq<char>, line: nat)
    ensures
        chunks(c, w, x + y, line) == chunks(c, w, x, line) + chunks(c, w, y, line_after(x, line)),
        line_after(x + y, line) == line_after(y, line_after(x, line)),
    decreases y.len(),
{
    if y.len() == 0 {
        assert(x + y =~= x);
        assert(chunks(c, w, x, line) + Seq::<char>::empty() =~= chunks(c, w, x, line));
    } else {
        lemma_chunks_concat(c, w, x, y.drop_last(), line);
        assert((x + y).drop_last() =~= x + y.drop_last());
        assert((x + y).last() == y.last());
        crate::out::lemma_seq_add_assoc(
            chunks(c, w, x, line),
            chunks(c, w, y.drop_last(), line_after(x, line)),
            crate::suggest::chunk_char(c, w, y.last(), line_after(y.drop_last(), line_after(x, line))),
        );
    }
}

/// Text without line breaks is shown as it is and keeps the line number.
proof fn lemma_chunks_no_break(c: Option<Palette>, w: nat, a: Seq<char>, line: nat)
    requires
        forall|k: int| 0 <= k < a.len() ==> a[k] != '\n',
    ensures
        chunks(c, w, a, line) == display_text(a),
        line_after(a, line) == line,
    decreases a.len(),
{
    if a.len() > 0 {
        lemma_chunks_no_break(c, w, a.drop_last(), line);
        assert(a.last() == a[a.len() - 1]);
    }
}

/// Added text is written line by line: text without a line break is shown
/// as it is, and at the first line break the diff line ends, the next one
/// (numbered one higher) begins, and the rest follows on it.
pub proof fn law_diff_chunks_split_on_newline(c: Option<Palette>, w: nat, a: Seq<char>, rest: Seq<char>, line: nat)
    requires
        forall|k: int| 0 <= k < a.len() ==> a[k] != '\n',
    ensures
        chunks(c, w, a, line) == display_text(a),
        chunks(c, w, a + seq!['\n'] + rest, line) == display_text(a) + diff_line_end(c)
            + diff_line_start(c, w, bump(line), '+', StyleKind::Addition) + chunks(
            c,
            w,
            rest,
            bump(line),
        ),
{
    lemma_chunks_no_break(c, w, a, line);
    lemma_chunks_concat(c, w, a, seq!['\n'], line);
    lemma_chunks_concat(c, w, a + seq!['\n'], rest, line);
    assert(seq!['\n'].drop_last() =~= Seq::<char>::empty());
    assert(line_after(seq!['\n'], line) == bump(line));
    assert(seq!['\n'].last() == '\n');
    assert(chunks(c, w, Seq::<char>::empty(), line) == Seq::<char>::empty());
    let piece = diff_line_end(c) + diff_line_start(c, w, bump(line), '+', StyleKind::Addition);
    assert(Seq::<char>::empty() + piece =~= piece);
    assert(chunks(c, w, seq!['\n'], line) == diff_line_end(c) + diff_line_start(
        c,
        w,
        bump(line),
        '+',
        StyleKind::Addition,
    ));
    crate::out::lemma_seq_add_assoc(
        display_text(a),
        diff_line_end(c),
        diff_line_start(c, w, bump(line), '+', StyleKind::Addition),
    );
}

/// The trailing line of each note, as `trailing_text` gives it.
pub open spec fn note_text() -> spec_fn(SubDiagnostic) -> Seq<char> {
    |s: SubDiagnostic| trailing_text(s)
}

proof fn lemma_trailing_children_concat(cs: Seq<SubDiagnostic>, k: int)
    requires
        0 <= k <= cs.len(),
    ensures
        trailing_children(cs, k) == concat_map(cs.take(k), note_text()),
    decreases k,
{
    if k > 0 {
        lemma_trailing_children_concat(cs, k - 1);
        assert(cs.take(k).drop_last() =~= cs.take(k - 1));
        assert(cs.take(k).last() == cs[k - 1]);
    } else {
        assert(cs.take(k).len() == 0);
    }
}

/// Trailing notes are written in pre-order: a note's own line (when it has
/// no span), then its notes, each with all of its own, in order.
pub proof fn law_trailing_notes_in_preorder(sub: SubDiagnostic)
    ensures
        trailing_text(sub) == (if sub.spans@.len() == 0 {
            "  = "@ + level_name(sub.level) + seq![':', ' '] + sub.message@ + seq!['\n']
        } else {
            Seq::empty()
        }) + concat_map(sub.children@, note_text()),
{
    lemma_trailing_children_concat(sub.children@, sub.children@.len() as int);
    assert(sub.children@.take(sub.children@.len() as int) =~= sub.children@);
}

/// A suggestion whose parts are none, lie in different files or overlap
/// once sorted by start shows only its help line and no diff.
pub proof fn law_suggestion_without_diff(c: Option<Palette>, m: Seq<FileView>, message: Seq<char>, parts: Seq<PartView>)
    requires
        parts.len() == 0 || (exists|i: int|
            0 <= i < parts.len() && (#[trigger] sort_by(parts, part_key())[i]).span.file() != sort_by(
                parts,
                part_key(),
            )[0].span.file()) || (exists|k: int|
            1 <= k < parts.len() && (#[trigger] sort_by(parts, part_key())[k]).span.lo() < sort_by(
                parts,
                part_key(),
            )[k - 1].span.hi()),
    ensures
        suggestion_parts_text(c, m, message, parts) == help_line(c, message),
{
    lemma_sort_by_len(parts, part_key());
    if parts.len() == 0 {
        assert(help_line(c, message) + Seq::<char>::empty() =~= help_line(c, message));
    } else {
        assert(!crate::suggest::parts_ordered(sort_by(parts, part_key())));
        assert(help_line(c, message) + Seq::<char>::empty() =~= help_line(c, message));
    }
}

/// An eager label or note added to a builder goes after the children added
/// before it and before every label whose message a closure gives: the
/// children `build` yields keep the order of the calls that added them.
pub proof fn law_eager_child_precedes_closure_labels(b: DiagnosticBuilder, r: DiagnosticBuilder)
    requires
        r.spec_children().len() == b.spec_children().len() + 1,
        r.spec_children().take(b.spec_children().len() as int) == b.spec_children(),
        r.spec_lazy_labels() == b.spec_lazy_labels(),
    ensures
        r.spec_children() + r.spec_lazy_labels() == b.spec_children() + seq![
            r.spec_children().last(),
        ] + b.spec_lazy_labels(),
{
    assert(r.spec_children() =~= b.spec_children() + seq![r.spec_children().last()]);
}

/// A label whose message a closure gives comes after every child and every
/// such label added before it.
pub proof fn law_closure_label_comes_last(b: DiagnosticBuilder, r: DiagnosticBuilder)
    requires
        r.spec_children() == b.spec_children(),
        r.spec_lazy_labels().len() == b.spec_lazy_labels().len() + 1,
        r.spec_lazy_labels().take(b.spec_lazy_labels().len() as int) == b.spec_lazy_labels(),
    ensures
        r.spec_children() + r.spec_lazy_labels() == b.spec_children() + b.spec_lazy_labels()
            + seq![r.spec_lazy_labels().last()],
{
    assert(r.spec_lazy_labels() =~= b.spec_lazy_labels() + seq![r.spec_lazy_labels().last()]);
    assert(r.spec_children() + r.spec_lazy_labels() =~= b.spec_children() + b.spec_lazy_labels()
        + seq![r.spec_lazy_labels().last()]);
}

/// A note, or one of the notes under it, has a span.
pub open spec fn note_has_span(sub: SubDiagnostic) -> bool
    decreases sub,
{
    sub.spans@.len() > 0 || notes_have_span(sub.children@, sub.children@.len() as int)
}

/// One of the first `k` notes of `cs`, or a note under one, has a span.
pub open spec fn notes_have_span(cs: Seq<SubDiagnostic>, k: int) -> bool
    decreases cs, k,
{
    if k <= 0 || k > cs.len() {
        false
    } else {
        notes_have_span(cs, k - 1) || note_has_span(cs[k - 1])
    }
}

/// `new` keeps the span, level and primacy of every label of `old`, and the
/// labels it adds carry a message and are secondary.
pub open spec fn keeps_labels(old: Seq<LabelView>, new: Seq<LabelView>) -> bool {
    &&& old.len() <= new.len()
    &&& forall|i: int|
        0 <= i < old.len() ==> (#[trigger] new[i]).span == old[i].span && new[i].level
            == old[i].level && new[i].is_primary == old[i].is_primary && (old[i].message is Some
            ==> new[i].message is Some)
    &&& forall|i: int|
        old.len() <= i < new.len() ==> (#[trigger] new[i]).message is Some && !new[i].is_primary
}

proof fn lemma_keeps_labels_trans(a: Seq<LabelView>, b: Seq<LabelView>, c: Seq<LabelView>)
    requires
        keeps_labels(a, b),
        keeps_labels(b, c),
    ensures
        keeps_labels(a, c),
{
    assert forall|i: int| a.len() <= i < c.len() implies (#[trigger] c[i]).message is Some
        && !c[i].is_primary by {
        if i < b.len() {
            assert(b[i].message is Some);
        }
    }
    assert forall|i: int| 0 <= i < a.len() implies (#[trigger] c[i]).span == a[i].span && c[i].level
        == a[i].level && c[i].is_primary == a[i].is_primary && (a[i].message is Some
        ==> c[i].message is Some) by {
        assert(b[i].span == a[i].span);
    }
}

proof fn lemma_add_span_label(ls: Seq<LabelView>, span: Span, message: Seq<char>, level: DiagnosticLevel)
    ensures
        keeps_labels(ls, add_span_label(ls, span, message, level)),
        add_span_label(ls, span, message, level).len() > 0,
{
    lemma_first_index(ls, unlabeled_primary(span));
}

proof fn lemma_add_spans(ls: Seq<LabelView>, spans: Seq<Span>, message: Seq<char>, level: DiagnosticLevel)
    ensures
        keeps_labels(ls, add_spans(ls, spans, message, level)),
        add_spans(ls, spans, message, level).len() == 0 <==> ls.len() == 0 && spans.len() == 0,
    decreases spans.len(),
{
    if spans.len() > 0 {
        let mid = add_spans(ls, spans.drop_last(), message, level);
        lemma_add_spans(ls, spans.drop_last(), message, level);
        lemma_add_span_label(mid, spans.last(), message, level);
        lemma_keeps_labels_trans(ls, mid, add_spans(ls, spans, message, level));
    }
}

proof fn lemma_add_child(ls: Seq<LabelView>, child: SubDiagnostic)
    ensures
        keeps_labels(ls, add_child(ls, child)),
        add_child(ls, child).len() == 0 <==> ls.len() == 0 && !note_has_span(child),
    decreases child,
{
    let mid = add_spans(ls, child.spans@, child.message@, child.level);
    lemma_add_spans(ls, child.spans@, child.message@, child.level);
    lemma_add_children(mid, child.children@, child.children@.len() as int);
    lemma_keeps_labels_trans(ls, mid, add_child(ls, child));
}

proof fn lemma_add_children(ls: Seq<LabelView>, cs: Seq<SubDiagnostic>, k: int)
    ensures
        keeps_labels(ls, add_children(ls, cs, k)),
        add_children(ls, cs, k).len() == 0 <==> ls.len() == 0 && !notes_have_span(cs, k),
    decreases cs, k,
{
    if !(k <= 0 || k > cs.len()) {
        let mid = add_children(ls, cs, k - 1);
        lemma_add_children(ls, cs, k - 1);
        lemma_add_child(mid, cs[k - 1]);
        lemma_keeps_labels_trans(ls, mid, add_children(ls, cs, k));
    } else {
        assert(keeps_labels(ls, ls));
    }
}

/// The labels of a diagnostic: first one primary label, without message,
/// for each of its spans in order; then the labels its notes add, each with
/// a message and secondary, except that the first becomes primary when the
/// diagnostic has no span. There are none exactly when neither the
/// diagnostic nor any note under it has a span.
pub proof fn law_collected_labels(diag: Diagnostic)
    ensures
        diag.spans@.len() <= diagnostic_labels(diag).len(),
        forall|i: int|
            0 <= i < diag.spans@.len() ==> (#[trigger] diagnostic_labels(diag)[i]).span
                == diag.spans@[i] && diagnostic_labels(diag)[i].level == diag.level
                && diagnostic_labels(diag)[i].is_primary,
        forall|i: int|
            diag.spans@.len() <= i < diagnostic_labels(diag).len() ==> (#[trigger] diagnostic_labels(
                diag,
            )[i]).message is Some && diagnostic_labels(diag)[i].is_primary == (diag.spans@.len()
                == 0 && i == 0),
        diagnostic_labels(diag).len() == 0 <==> diag.spans@.len() == 0 && !notes_have_span(
            diag.children@,
            diag.children@.len() as int,
        ),
{
    let base = primary_labels(diag.spans@, diag.level);
    let ls = add_children(base, diag.children@, diag.children@.len() as int);
    lemma_add_children(base, diag.children@, diag.children@.len() as int);
    lemma_first_index(ls, is_primary_label());
    if diag.spans@.len() > 0 {
        assert(is_primary_label()(ls[0]));
    }
}

/// Where labels sit on a line: the positions are those of the labels that
/// touch the line, in label order, each at most once. Each names a label of
/// the line's file whose span covers the line, starts and ends on it exactly
/// when the span's first and last lines are this one, is multi-line exactly
/// when those differ, and covers at least one column from column 1 on.
pub proof fn law_line_positions(m: Seq<FileView>, file: FileId, line: int, ls: Seq<LabelView>) -> (idx:
    Seq<int>)
    ensures
        idx.len() == line_positions(m, file, line, ls).len(),
        forall|j: int, k: int| 0 <= j < k < idx.len() ==> idx[j] < idx[k],
        forall|j: int|
            0 <= j < idx.len() ==> 0 <= #[trigger] idx[j] < ls.len() && label_position(
                m,
                file,
                line,
                ls[idx[j]],
            ) == Some(line_positions(m, file, line, ls)[j]),
        forall|i: int|
            0 <= i < ls.len() && label_position(m, file, line, #[trigger] ls[i]) is Some ==> exists|
                j: int,
            | 0 <= j < idx.len() && idx[j] == i,
        forall|j: int|
            0 <= j < idx.len() ==> {
                let p = #[trigger] line_positions(m, file, line, ls)[j];
                &&& p.label == ls[idx[j]]
                &&& p.label.span.file() == file
                &&& span_bounds(m, p.label.span) matches Some((sl, _, el)) && sl <= line <= el
                    && p.is_start == (line == sl) && p.is_end == (line == el) && p.is_multiline == (
                sl != el)
                &&& 1 <= p.start < p.end
            },
    decreases ls.len(),
{
    if ls.len() == 0 {
        Seq::empty()
    } else {
        let rest = law_line_positions(m, file, line, ls.drop_last());
        let last = ls.len() - 1;
        assert forall|j: int| 0 <= j < rest.len() implies ls[rest[j]] == ls.drop_last()[rest[j]] by {}
        match label_position(m, file, line, ls.last()) {
            Some(p) => {
                let idx = rest.push(last);
                assert(line_positions(m, file, line, ls) == line_positions(m, file, line, ls.drop_last()).push(p));
                assert forall|i: int|
                    0 <= i < ls.len() && label_position(m, file, line, #[trigger] ls[i]) is Some implies exists|
                    j: int,
                | 0 <= j < idx.len() && idx[j] == i by {
                    if i == last {
                        assert(idx[rest.len() as int] == i);
                    } else {
                        assert(ls[i] == ls.drop_last()[i]);
                        let j = choose|j: int| 0 <= j < rest.len() && rest[j] == i;
                        assert(idx[j] == i);
                    }
                }
                idx
            },
            None => {
                assert forall|i: int|
                    0 <= i < ls.len() && label_position(m, file, line, #[trigger] ls[i]) is Some implies exists|
                    j: int,
                | 0 <= j < rest.len() && rest[j] == i by {
                    assert(i != last);
                    assert(ls[i] == ls.drop_last()[i]);
                }
                rest
            },
        }
    }
}

/// Without colors, styled text is the text itself, and the gutter is
/// spaces, a bar and a space: the rendered lines take the plain forms that
/// the specs of the line printers spell out.
pub proof fn law_plain_rendering(w: nat, style: StyleKind, t: Seq<char>, line: nat)
    ensures
        styled(None, style, t) == t,
        gutter_prefix(None, w) == spaces(w) + seq![' ', '|', ' '],
        gutter_line(None, w, Seq::empty()) == spaces(w) + seq![' ', '|', '\n'],
        line_number_text(None, w, line) == right_aligned(decimal(line), w),
{
    assert(Seq::<char>::empty() + t + Seq::<char>::empty() =~= t);
    assert(styled(None, StyleKind::Gutter, seq!['|']) == seq!['|']) by {
        assert(Seq::<char>::empty() + seq!['|'] + Seq::<char>::empty() =~= seq!['|']);
    }
    assert(spaces(w) + seq![' '] + seq!['|'] + seq![' '] =~= spaces(w) + seq![' ', '|', ' ']);
    assert(spaces(w) + seq![' '] + seq!['|'] + seq!['\n'] =~= spaces(w) + seq![' ', '|', '\n']);
    let d = right_aligned(decimal(line), w);
    assert(Seq::<char>::empty() + d + Seq::<char>::empty() =~= d);
}

/// No line break in a text.
pub open spec fn no_break(t: Seq<char>) -> bool {
    forall|k: int| 0 <= k < t.len() ==> t[k] != '\n'
}

proof fn lemma_no_break_concat(a: Seq<char>, b: Seq<char>)
    requires
        no_break(a),
        no_break(b),
    ensures
        no_break(a + b),
{
    assert forall|k: int| 0 <= k < (a + b).len() implies (a + b)[k] != '\n' by {
        if k < a.len() {
            assert((a + b)[k] == a[k]);
        } else {
            assert((a + b)[k] == b[k - a.len()]);
        }
    }
}

proof fn lemma_markers_no_break(ps: Seq<PosView>, level: DiagnosticLevel, i: int, col: int)
    ensures
        no_break(markers_from(None, ps, level, i, col)),
    decreases ps.len() - i,
{
    if !(i < 0 || i >= ps.len()) {
        lemma_markers_no_break(ps, level, i + 1, next_col(ps[i], col));
        let p = ps[i];
        let st = crate::lines::label_style(p, level);
        law_plain_rendering(0, st, seq!['|'], 0);
        law_plain_rendering(0, st, repeat('_', crate::labels::sat_sub(p.end, 2) as nat), 0);
        law_plain_rendering(0, st, seq![crate::lines::marker_char(p)], 0);
        let s0 = if p.start > col { p.start } else { col };
        law_plain_rendering(
            0,
            st,
            repeat(crate::lines::marker_char(p), crate::labels::sat_sub(p.end, s0) as nat),
            0,
        );
        assert(no_break(seq!['|']));
        assert(no_break(seq![crate::lines::marker_char(p)]));
        assert(no_break(repeat('_', crate::labels::sat_sub(p.end, 2) as nat)));
        assert(no_break(repeat(crate::lines::marker_char(p), crate::labels::sat_sub(p.end, s0) as nat)));
        assert(no_break(spaces((s0 - col) as nat)));
        assert(no_break(Seq::<char>::empty()));
        lemma_no_break_concat(seq!['|'], repeat('_', crate::labels::sat_sub(p.end, 2) as nat));
        lemma_no_break_concat(
            seq!['|'] + repeat('_', crate::labels::sat_sub(p.end, 2) as nat),
            seq![crate::lines::marker_char(p)],
        );
        lemma_no_break_concat(
            spaces((s0 - col) as nat),
            repeat(crate::lines::marker_char(p), crate::labels::sat_sub(p.end, s0) as nat),
        );
        assert(no_break(marker_piece(None, p, level, col)));
        lemma_no_break_concat(
            marker_piece(None, p, level, col),
            markers_from(None, ps, level, i + 1, next_col(ps[i], col)),
        );
    }
}

/// Without colors, and when no label message holds a line break, the marker
/// line under a source line is empty when no label needs a marker, and
/// otherwise exactly one line: the plain gutter, then markers and the inline
/// message, with its only line break at the end.
pub proof fn law_marker_line_is_one_line(
    w: nat,
    ps: Seq<PosView>,
    level: DiagnosticLevel,
    inline: Option<int>,
)
    requires
        forall|i: int|
            0 <= i < ps.len() && (#[trigger] ps[i]).label.message is Some ==> no_break(
                ps[i].label.message.unwrap(),
            ),
    ensures
        !has_marker(ps) ==> marker_line(None, w, ps, level, inline) == Seq::<char>::empty(),
        has_marker(ps) ==> {
            let t = marker_line(None, w, ps, level, inline);
            &&& t.len() >= w + 4
            &&& t.take(w + 3int) == spaces(w) + seq![' ', '|', ' ']
            &&& t.last() == '\n'
            &&& no_break(t.drop_last())
        },
{
    if has_marker(ps) {
        let g = gutter_prefix(None, w);
        let body = markers_from(None, ps, level, 0, 1);
        let msg = inline_text(None, ps, level, inline);
        law_plain_rendering(w, StyleKind::Gutter, seq!['|'], 0);
        lemma_markers_no_break(ps, level, 0, 1);
        assert(no_break(msg)) by {
            match inline {
                Some(k) => {
                    if 0 <= k < ps.len() {
                        match ps[k].label.message {
                            Some(m) => {
                                law_plain_rendering(0, crate::lines::label_style(ps[k], level), m, 0);
                                assert(no_break(seq![' ']));
                                lemma_no_break_concat(seq![' '], m);
                            },
                            None => {},
                        }
                    }
                },
                None => {},
            }
        }
        assert(no_break(g));
        lemma_no_break_concat(g, body);
        lemma_no_break_concat(g + body, msg);
        let t = marker_line(None, w, ps, level, inline);
        assert(t == g + body + msg + seq!['\n']);
        assert(t.drop_last() =~= g + body + msg);
        assert(t.take(w + 3int) =~= spaces(w) + seq![' ', '|', ' ']);
    }
}

/// No label is left out of a line it covers: a label of the line's file
/// whose span covers an existing line gets a position on it, and so (by
/// `law_line_positions`) appears among the positions of that line.
pub proof fn law_covering_label_has_position(m: Seq<FileView>, file: FileId, line: int, l: LabelView)
    requires
        l.span.file() == file,
        file.id() < m.len(),
        text_fits(bytes_of(m[file.id() as int])),
        1 <= line <= line_starts(bytes_of(m[file.id() as int])).len(),
        span_bounds(m, l.span) matches Some((sl, _, el)) && sl <= line <= el,
    ensures
        label_position(m, file, line, l) is Some,
{
    let b = bytes_of(m[file.id() as int]);
    let s = line_starts(b);
    encode_utf8_valid_utf8(m[file.id() as int].text);
    lemma_starts_shape(b, b.len() as int);
    lemma_line_range(b, line);
    let (ls, le) = line_range(b, line);
    lemma_line_start_boundary(b, line - 1);
    if line < s.len() {
        lemma_line_start_boundary(b, line);
    } else {
        is_char_boundary_start_end_of_seq(b);
    }
    let lb = line_bytes(b, line).unwrap();
    assert(lb == b.subrange(ls, le));
    lemma_boundary_in_slice(b, ls, le, ls);
    let lo = l.span.lo() as int;
    let (sl, sc, el) = span_bounds(m, l.span).unwrap();
    if line == sl {
        lemma_line_index(b, lo);
        assert(newlines_before(b, lo) == line - 1);
        assert(ls == line_begin(b, lo));
        if line < s.len() {
            assert(!(s[line] <= lo));
        }
        lemma_boundary_in_slice(b, ls, le, lo);
        assert(display_col_of(lb, lo - ls) is Some);
    } else {
        is_char_boundary_start_end_of_seq(lb);
        assert(display_col_of(lb, 0) is Some);
    }
}

/// Window `w` shows the lines `sl..=el` of a label of file `f`.
pub open spec fn shows(w: WindowView, f: FileId, sl: int, el: int) -> bool {
    &&& w.span.file() == f
    &&& w.start_line <= sl
    &&& el <= w.end_line
}

/// Every label among the first `k` that resolves in the map is shown by
/// some window of its own file.
pub open spec fn all_shown(m: Seq<FileView>, ws: Seq<WindowView>, labels: Seq<LabelView>, k: int) -> bool {
    forall|i: int|
        0 <= i < k ==> (span_bounds(m, #[trigger] labels[i].span) matches Some((sl, _, el))
            ==> exists|j: int| 0 <= j < ws.len() && shows(ws[j], labels[i].span.file(), sl, el))
}

proof fn lemma_windows_show_labels(
    m: Seq<FileView>,
    primary: Span,
    psl: int,
    pel: int,
    labels: Seq<LabelView>,
    k: int,
)
    requires
        0 <= k <= labels.len(),
        psl <= pel,
    ensures
        windows_upto(m, primary, psl, pel, labels, k).len() >= 1,
        windows_upto(m, primary, psl, pel, labels, k)[0].span == primary,
        windows_upto(m, primary, psl, pel, labels, k)[0].end_line == pel,
        all_shown(m, windows_upto(m, primary, psl, pel, labels, k), labels, k),
    decreases k,
{
    if k > 0 {
        lemma_windows_show_labels(m, primary, psl, pel, labels, k - 1);
        let ws = windows_upto(m, primary, psl, pel, labels, k - 1);
        let l = labels[k - 1];
        let nw = window_step(m, primary, psl, pel, ws, l);
        assert(nw == windows_upto(m, primary, psl, pel, labels, k));
        assert forall|i: int|
            0 <= i < k implies (span_bounds(m, #[trigger] labels[i].span) matches Some((sl, _, el))
            ==> exists|j: int| 0 <= j < nw.len() && shows(nw[j], labels[i].span.file(), sl, el)) by {
            match span_bounds(m, labels[i].span) {
                Some((sl, _, el)) => {
                    if i < k - 1 {
                        let j = choose|j: int| 0 <= j < ws.len() && shows(ws[j], labels[i].span.file(), sl, el);
                        assert(nw.len() >= ws.len());
                        assert(shows(nw[j], labels[i].span.file(), sl, el));
                    } else {
                        match span_bounds(m, l.span) {
                            Some((lsl, _, lel)) => {
                                if l.span.file() == primary.file() && psl != pel && lel + 1 == psl {
                                    assert(shows(nw[0], l.span.file(), sl, el));
                                } else if exists|q: int| 0 <= q < ws.len() && crate::window::covers(#[trigger] ws[q], l.span, lsl, lel) {
                                    let q = choose|q: int| 0 <= q < ws.len() && crate::window::covers(ws[q], l.span, lsl, lel);
                                    assert(shows(nw[q], l.span.file(), sl, el));
                                } else {
                                    assert(shows(nw[ws.len() as int], l.span.file(), sl, el));
                                }
                            },
                            None => {},
                        }
                    }
                },
                None => {},
            }
        }
    }
}

/// Every label whose span resolves in the source map is shown: some source
/// window of the label's own file covers all of the label's lines (a window
/// of another file never stands in for it).
pub proof fn law_every_label_is_shown(m: Seq<FileView>, primary: Span, labels: Seq<LabelView>, i: int)
    requires
        primary.lo() <= primary.hi(),
        span_bounds(m, primary) is Some,
        0 <= i < labels.len(),
        span_bounds(m, labels[i].span) is Some,
    ensures
        ({
            let (psl, _, pel) = span_bounds(m, primary).unwrap();
            let (sl, _, el) = span_bounds(m, labels[i].span).unwrap();
            let ws = windows_upto(m, primary, psl, pel, labels, labels.len() as int);
            exists|j: int| 0 <= j < ws.len() && shows(ws[j], labels[i].span.file(), sl, el)
        }),
{
    let (psl, _, pel) = span_bounds(m, primary).unwrap();
    let b = bytes_of(m[primary.file().id() as int]);
    lemma_newlines_monotone(b, primary.lo() as int, primary.hi() as int);
    assert(psl <= pel);
    lemma_windows_show_labels(m, primary, psl, pel, labels, labels.len() as int);
}

/// A multi-line label started above goes on through the line.
pub open spec fn continues_here(ps: Seq<PosView>, primary_only: bool) -> bool {
    exists|i: int|
        0 <= i < ps.len() && (#[trigger] ps[i]).is_multiline && !ps[i].is_start && (primary_only
            ==> ps[i].label.is_primary)
}

/// A multi-line label starts at the line's first column.
pub open spec fn starts_at_column_one(ps: Seq<PosView>, primary_only: bool) -> bool {
    exists|i: int|
        0 <= i < ps.len() && (#[trigger] ps[i]).is_multiline && ps[i].is_start && ps[i].start == 1
            && (primary_only ==> ps[i].label.is_primary)
}

/// The bar in front of a source line: a multi-line label that continues
/// through the line (started above) draws `|`; otherwise one that starts at
/// the line's first column draws `/`; otherwise there is none. The bar takes
/// the primary label's style when a primary label qualifies, else the
/// secondary style.
pub proof fn law_source_line_bar(ps: Seq<PosView>, level: DiagnosticLevel)
    ensures
        continues_here(ps, false) ==> {
            &&& source_prefix(ps, level) is Some
            &&& source_prefix(ps, level).unwrap().1 == '|'
            &&& (source_prefix(ps, level).unwrap().0 == StyleKind::PrimaryLabel(level)
                <==> continues_here(ps, true))
        },
        !continues_here(ps, false) && starts_at_column_one(ps, false) ==> {
            &&& source_prefix(ps, level) is Some
            &&& source_prefix(ps, level).unwrap().1 == '/'
            &&& (source_prefix(ps, level).unwrap().0 == StyleKind::PrimaryLabel(level)
                <==> starts_at_column_one(ps, true))
        },
        !continues_here(ps, false) && !starts_at_column_one(ps, false) ==> source_prefix(ps, level)
            is None,
{
    lemma_first_index(ps, ends_inside_primary());
    lemma_first_index(ps, ends_inside());
    lemma_first_index(ps, starts_at_line_start_primary());
    lemma_first_index(ps, starts_at_line_start());
    if continues_here(ps, false) {
        let i = choose|i: int|
            0 <= i < ps.len() && (#[trigger] ps[i]).is_multiline && !ps[i].is_start && (false
                ==> ps[i].label.is_primary);
        assert(ends_inside()(ps[i]));
        if continues_here(ps, true) {
            let j = choose|j: int|
                0 <= j < ps.len() && (#[trigger] ps[j]).is_multiline && !ps[j].is_start && (true
                    ==> ps[j].label.is_primary);
            assert(ends_inside_primary()(ps[j]));
        } else {
            assert forall|j: int| 0 <= j < ps.len() implies !ends_inside_primary()(#[trigger] ps[j]) by {
                if ends_inside_primary()(ps[j]) {
                    assert(ps[j].is_multiline && !ps[j].is_start && (true ==> ps[j].label.is_primary));
                }
            }
        }
    } else if starts_at_column_one(ps, false) {
        let i = choose|i: int|
            0 <= i < ps.len() && (#[trigger] ps[i]).is_multiline && ps[i].is_start && ps[i].start == 1
                && (false ==> ps[i].label.is_primary);
        assert(starts_at_line_start()(ps[i]));
        assert forall|j: int| 0 <= j < ps.len() implies !ends_inside()(#[trigger] ps[j]) by {
            if ends_inside()(ps[j]) {
                assert(ps[j].is_multiline && !ps[j].is_start && (false ==> ps[j].label.is_primary));
            }
        }
        assert forall|j: int| 0 <= j < ps.len() implies !ends_inside_primary()(#[trigger] ps[j]) by {
            if ends_inside_primary()(ps[j]) {
                assert(ps[j].is_multiline && !ps[j].is_start && (false ==> ps[j].label.is_primary));
            }
        }
        if starts_at_column_one(ps, true) {
            let j = choose|j: int|
                0 <= j < ps.len() && (#[trigger] ps[j]).is_multiline && ps[j].is_start && ps[j].start
                    == 1 && (true ==> ps[j].label.is_primary);
            assert(starts_at_line_start_primary()(ps[j]));
        } else {
            assert forall|j: int| 0 <= j < ps.len() implies !starts_at_line_start_primary()(#[trigger] ps[j]) by {
                if starts_at_line_start_primary()(ps[j]) {
                    assert(ps[j].is_multiline && ps[j].is_start && ps[j].start == 1 && (true
                        ==> ps[j].label.is_primary));
                }
            }
        }
    } else {
        assert forall|j: int| 0 <= j < ps.len() implies !ends_inside()(#[trigger] ps[j]) by {
            if ends_inside()(ps[j]) {
                assert(ps[j].is_multiline && !ps[j].is_start && (false ==> ps[j].label.is_primary));
            }
        }
        assert forall|j: int| 0 <= j < ps.len() implies !ends_inside_primary()(#[trigger] ps[j]) by {
            if ends_inside_primary()(ps[j]) {
                assert(ps[j].is_multiline && !ps[j].is_start && (false ==> ps[j].label.is_primary));
            }
        }
        assert forall|j: int| 0 <= j < ps.len() implies !starts_at_line_start()(#[trigger] ps[j]) by {
            if starts_at_line_start()(ps[j]) {
                assert(ps[j].is_multiline && ps[j].is_start && ps[j].start == 1 && (false
                    ==> ps[j].label.is_primary));
            }
        }
        assert forall|j: int| 0 <= j < ps.len() implies !starts_at_line_start_primary()(#[trigger] ps[j]) by {
            if starts_at_line_start_primary()(ps[j]) {
                assert(ps[j].is_multiline && ps[j].is_start && ps[j].start == 1 && (false
                    ==> ps[j].label.is_primary));
            }
        }
    }
}

/// The window text with parts `i..` applied, continuing at byte `cursor`:
/// the source up to each part, the part's replacement, and after the last
/// part the rest of the window.
pub open spec fn applied_from(src: Seq<u8>, we: int, ps: Seq<PartView>, i: int, cursor: int) -> Seq<char>
    decreases ps.len() - i,
{
    if i < 0 || i >= ps.len() {
        decode_utf8(src.subrange(cursor, we))
    } else {
        decode_utf8(src.subrange(cursor, ps[i].span.lo() as int)) + ps[i].replacement + applied_from(
            src,
            we,
            ps,
            i + 1,
            ps[i].span.hi() as int,
        )
    }
}

proof fn lemma_parts_from_applied(
    c: Option<Palette>,
    w: nat,
    src: Seq<u8>,
    ws: int,
    we: int,
    ps: Seq<PartView>,
    i: int,
    cursor: int,
    line: nat,
)
    requires
        0 <= i <= ps.len(),
        forall|k: int| 0 <= k < ps.len() ==> ws <= (#[trigger] ps[k]).span.lo() && ps[k].span.hi() <= we,
    ensures
        parts_from(c, w, src, ws, we, ps, i, cursor, line) == chunks(
            c,
            w,
            applied_from(src, we, ps, i, cursor),
            line,
        ) + diff_line_end(c),
    decreases ps.len() - i,
{
    if i < ps.len() {
        let p = ps[i];
        let before = decode_utf8(src.subrange(cursor, p.span.lo() as int));
        let l1 = line_after(before, line);
        let l2 = line_after(p.replacement, l1);
        let rest = applied_from(src, we, ps, i + 1, p.span.hi() as int);
        lemma_parts_from_applied(c, w, src, ws, we, ps, i + 1, p.span.hi() as int, l2);
        lemma_chunks_concat(c, w, before, p.replacement + rest, line);
        lemma_chunks_concat(c, w, p.replacement, rest, l1);
        assert(before + p.replacement + rest =~= before + (p.replacement + rest));
        crate::out::lemma_seq_add_assoc(chunks(c, w, before, line), chunks(c, w, p.replacement, l1), chunks(c, w, rest, l2));
        crate::out::lemma_seq_add_assoc(
            chunks(c, w, before, line) + chunks(c, w, p.replacement, l1),
            chunks(c, w, rest, l2),
            diff_line_end(c),
        );
    }
}

/// The added lines of a shown diff are the source window with each part's
/// byte range replaced by its replacement, all source text between the
/// parts kept: written as diff lines from the first line on, one diff line
/// per line of that text.
pub proof fn law_added_lines_apply_the_parts(
    c: Option<Palette>,
    w: nat,
    start_line: nat,
    src: Seq<u8>,
    ws: int,
    we: int,
    ps: Seq<PartView>,
)
    requires
        forall|k: int| 0 <= k < ps.len() ==> ws <= (#[trigger] ps[k]).span.lo() && ps[k].span.hi() <= we,
    ensures
        replacement_lines(c, w, start_line, src, ws, we, ps) == diff_line_start(
            c,
            w,
            start_line,
            '+',
            StyleKind::Addition,
        ) + chunks(c, w, applied_from(src, we, ps, 0, ws), start_line) + diff_line_end(c),
{
    lemma_parts_from_applied(c, w, src, ws, we, ps, 0, ws, start_line);
    crate::out::lemma_seq_add_assoc(
        diff_line_start(c, w, start_line, '+', StyleKind::Addition),
        chunks(c, w, applied_from(src, we, ps, 0, ws), start_line),
        diff_line_end(c),
    );
}

/// The lines a span is shown on: it starts on the line of its first byte
/// and, when not empty, ends on the line of its last byte (offset `hi - 1`),
/// so a span ending just after a line break ends on the line before; an
/// empty span ends on its own line.
pub proof fn law_span_lines(m: Seq<FileView>, span: Span)
    requires
        span.lo() <= span.hi(),
        span_bounds(m, span) is Some,
    ensures
        ({
            let b = bytes_of(m[span.file().id() as int]);
            let (sl, _, el) = span_bounds(m, span).unwrap();
            &&& sl == newlines_before(b, span.lo() as int) + 1
            &&& span.hi() > span.lo() ==> el == newlines_before(b, span.hi() - 1) + 1
            &&& span.hi() == span.lo() ==> el == sl
        }),
{
    let b = bytes_of(m[span.file().id() as int]);
    let lo = span.lo() as int;
    let hi = span.hi() as int;
    if hi > lo {
        lemma_newlines_monotone(b, lo, hi - 1);
        law_line_start_after_last_newline(b, hi - 1);
        assert(newlines_before(b, hi) == newlines_before(b, hi - 1) + if b[hi - 1] == 10u8 {
            1int
        } else {
            0int
        });
    }
}

/// Every character of the East Asian wide ranges (Hangul Jamo, CJK radicals
/// and punctuation, Hiragana, Katakana, CJK ideographs, Hangul syllables,
/// compatibility ideographs, vertical and small forms, fullwidth forms and
/// emoji) takes exactly two columns.
pub proof fn law_wide_characters_take_two_columns(ch: char)
    requires
        ({
            let u = ch as u32;
            ||| 0x1100 <= u <= 0x115F
            ||| 0x2329 <= u <= 0x232A
            ||| 0x2E80 <= u <= 0xA4CF
            ||| 0xAC00 <= u <= 0xD7A3
            ||| 0xF900 <= u <= 0xFAFF
            ||| 0xFE10 <= u <= 0xFE19
            ||| 0xFE30 <= u <= 0xFE6F
            ||| 0xFF00 <= u <= 0xFF60
            ||| 0xFFE0 <= u <= 0xFFE6
            ||| 0x1F300 <= u <= 0x1FAFF
        }),
    ensures
        char_width(ch) == 2,
{
}

/// Combining marks, the zero width joiner and variation selectors take no
/// column; every other character outside the wide ranges, but a tab, takes
/// one.
pub proof fn law_narrow_and_zero_width_characters(ch: char)
    ensures
        ({
            let u = ch as u32;
            ||| 0x0300 <= u <= 0x036F
            ||| 0x1AB0 <= u <= 0x1AFF
            ||| 0x1DC0 <= u <= 0x1DFF
            ||| 0x20D0 <= u <= 0x20FF
            ||| 0xFE20 <= u <= 0xFE2F
            ||| u == 0x200D
            ||| 0xFE0E <= u <= 0xFE0F
        }) ==> char_width(ch) == 0,
        ch == '\t' ==> char_width(ch) == 4,
        ({
            let u = ch as u32;
            ||| 0x20 <= u <= 0x7E
            ||| 0xA0 <= u <= 0x02FF
        }) ==> char_width(ch) == 1,
{
}

} // verus!
