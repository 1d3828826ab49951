//! The labels a diagnostic shows in its source windows, and where on a
//! source line each label's markers go.
use vstd::prelude::*;
use vstd::string::StringSliceAdditionalSpecFns;
use vstd::utf8::{decode_utf8, encode_utf8_decode_utf8};

use crate::diagnostic::Diagnostic;
use crate::level::DiagnosticLevel;
use crate::out::HumanRenderer;
use crate::seqs::{first_index, lemma_first_index, lemma_first_index_is, sort_by};
use crate::source_map::{bytes_of, SourceMap};
use crate::span::{FileId, Span};
use crate::sub_diag::SubDiagnostic;
use crate::text::{line_begin, line_bytes, line_col_of, line_starts, str_eq};
use crate::width::{display_col, display_col_of};

verus! {

/// A label as mathematical data.
pub struct LabelView {
    pub span: Span,
    pub message: Option<Seq<char>>,
    pub level: DiagnosticLevel,
    pub is_primary: bool,
}

/// A span to mark in a source window, with its optional message.
#[derive(Clone, Copy)]
pub struct DisplayLabel<'a> {
    pub span: Span,
    pub message: Option<&'a str>,
    pub level: DiagnosticLevel,
    pub is_primary: bool,
}

impl<'a> View for DisplayLabel<'a> {
    type V = LabelView;

    open spec fn view(&self) -> LabelView {
        LabelView {
            span: self.span,
            message: match self.message {
                Some(m) => Some(m@),
                None => None,
            },
            level: self.level,
            is_primary: self.is_primary,
        }
    }
}

pub open spec fn label_views<'a>(s: Seq<DisplayLabel<'a>>) -> Seq<LabelView> {
    s.map_values(|l: DisplayLabel<'a>| l@)
}

/// The labels of a diagnostic's own spans: primary, without message.
pub open spec fn primary_labels(spans: Seq<Span>, level: DiagnosticLevel) -> Seq<LabelView> {
    spans.map_values(|s: Span| LabelView { span: s, message: None, level, is_primary: true })
}

/// A primary label of `span` that has no message yet.
pub open spec fn unlabeled_primary(span: Span) -> spec_fn(LabelView) -> bool {
    |l: LabelView| l.is_primary && l.span == span && l.message is None
}

/// A note's span joins the labels: it gives its message to the first
/// primary label of the same span that has none, or becomes a secondary label.
pub open spec fn add_span_label(
    ls: Seq<LabelView>,
    span: Span,
    message: Seq<char>,
    level: DiagnosticLevel,
) -> Seq<LabelView> {
    match first_index(ls, unlabeled_primary(span)) {
        Some(i) => ls.update(
            i,
            LabelView {
                span: ls[i].span,
                message: Some(message),
                level: ls[i].level,
                is_primary: ls[i].is_primary,
            },
        ),
        None => ls.push(LabelView { span, message: Some(message), level, is_primary: false }),
    }
}

pub open spec fn add_spans(
    ls: Seq<LabelView>,
    spans: Seq<Span>,
    message: Seq<char>,
    level: DiagnosticLevel,
) -> Seq<LabelView>
    decreases spans.len(),
{
    if spans.len() == 0 {
        ls
    } else {
        add_span_label(add_spans(ls, spans.drop_last(), message, level), spans.last(), message, level)
    }
}

/// The labels after a note and, in order, its own notes have joined.
pub open spec fn add_child(ls: Seq<LabelView>, child: SubDiagnostic) -> Seq<LabelView>
    decreases child,
{
    add_children(
        add_spans(ls, child.spans@, child.message@, child.level),
        child.children@,
        child.children@.len() as int,
    )
}

/// The labels after the first `k` notes of `cs` have joined.
pub open spec fn add_children(ls: Seq<LabelView>, cs: Seq<SubDiagnostic>, k: int) -> Seq<
    LabelView,
>
    decreases cs, k,
{
    if k <= 0 || k > cs.len() {
        ls
    } else {
        add_child(add_children(ls, cs, k - 1), cs[k - 1])
    }
}

pub open spec fn is_primary_label() -> spec_fn(LabelView) -> bool {
    |l: LabelView| l.is_primary
}

/// The labels of a diagnostic: its spans, then its notes' spans; when none is
/// primary, the first one is made primary.
pub open spec fn diagnostic_labels(diag: Diagnostic) -> Seq<LabelView> {
    let ls = add_children(
        primary_labels(diag.spans@, diag.level),
        diag.children@,
        diag.children@.len() as int,
    );
    if ls.len() > 0 && first_index(ls, is_primary_label()) is None {
        ls.update(
            0,
            LabelView {
                span: ls[0].span,
                message: ls[0].message,
                level: ls[0].level,
                is_primary: true,
            },
        )
    } else {
        ls
    }
}

/// The first line, first column and last line of a span; a span that ends
/// just after a line break ends on the line before.
pub open spec fn span_bounds(m: Seq<FileView>, span: Span) -> Option<(int, int, int)> {
    if span.file().id() >= m.len() {
        None
    } else {
        let b = bytes_of(m[span.file().id() as int]);
        match (line_col_of(b, span.lo() as int), line_col_of(b, span.hi() as int)) {
            (Some((sl, sc)), Some((el, _))) => Some(
                (
                    sl,
                    sc,
                    if span.hi() > span.lo() && line_begin(b, span.hi() as int) == span.hi()
                        && el > sl {
                        el - 1
                    } else {
                        el
                    },
                ),
            ),
            _ => None,
        }
    }
}

/// `a - b`, or 0 when `b` exceeds `a`.
pub open spec fn sat_sub(a: int, b: int) -> int {
    if a >= b {
        a - b
    } else {
        0
    }
}

/// Where a label sits on one line: the display columns it covers, and
/// whether the label starts, ends, or spans several lines.
pub struct PosView {
    pub label: LabelView,
    pub start: int,
    pub end: int,
    pub is_start: bool,
    pub is_end: bool,
    pub is_multiline: bool,
}

/// Where label `l` sits on 1-based line `line` of `file`, if it touches it.
pub open spec fn label_position(m: Seq<FileView>, file: FileId, line: int, l: LabelView) -> Option<
    PosView,
> {
    if l.span.file() != file {
        None
    } else {
        match span_bounds(m, l.span) {
            None => None,
            Some((sl, _, el)) => {
                if line < sl || line > el {
                    None
                } else {
                    let b = bytes_of(m[file.id() as int]);
                    match line_bytes(b, line) {
                        None => None,
                        Some(lb) => {
                            let ls = line_starts(b)[line - 1] as int;
                            let start_byte = if line == sl {
                                sat_sub(l.span.lo() as int, ls)
                            } else {
                                0
                            };
                            let end_byte = if line == el {
                                sat_sub(
                                    if l.span.hi() <= ls + lb.len() {
                                        l.span.hi() as int
                                    } else {
                                        ls + lb.len()
                                    },
                                    ls,
                                )
                            } else {
                                lb.len() as int
                            };
                            match display_col_of(lb, start_byte) {
                                None => None,
                                Some(sc) => {
                                    let ec0: int = match display_col_of(lb, end_byte) {
                                        Some(c) => c as int,
                                        None => sc as int,
                                    };
                                    Some(
                                        PosView {
                                            label: l,
                                            start: sc as int,
                                            end: if ec0 <= sc {
                                                sc as int + 1
                                            } else {
                                                ec0
                                            },
                                            is_start: line == sl,
                                            is_end: line == el,
                                            is_multiline: sl != el,
                                        },
                                    )
                                },
                            }
                        },
                    }
                }
            },
        }
    }
}

/// The positions, in label order, of the labels touching a line.
pub open spec fn line_positions(
    m: Seq<FileView>,
    file: FileId,
    line: int,
    ls: Seq<LabelView>,
) -> Seq<PosView>
    decreases ls.len(),
{
    if ls.len() == 0 {
        Seq::empty()
    } else {
        let rest = line_positions(m, file, line, ls.drop_last());
        match label_position(m, file, line, ls.last()) {
            Some(p) => rest.push(p),
            None => rest,
        }
    }
}

/// A label's position on one source line.
#[derive(Clone, Copy)]
pub struct LineLabelPosition<'a> {
    pub label: DisplayLabel<'a>,
    pub start: usize,
    pub end: usize,
    pub is_start: bool,
    pub is_end: bool,
    pub is_multiline: bool,
}

impl<'a> View for LineLabelPosition<'a> {
    type V = PosView;

    open spec fn view(&self) -> PosView {
        PosView {
            label: self.label@,
            start: self.start as int,
            end: self.end as int,
            is_start: self.is_start,
            is_end: self.is_end,
            is_multiline: self.is_multiline,
        }
    }
}

pub open spec fn pos_views<'a>(s: Seq<LineLabelPosition<'a>>) -> Seq<PosView> {
    s.map_values(|p: LineLabelPosition<'a>| p@)
}

use crate::source_map::FileView;

impl HumanRenderer {
    pub(crate) fn collect_labels<'d>(diag: &'d Diagnostic) -> (r: Vec<DisplayLabel<'d>>)
        ensures
            label_views(r@) == diagnostic_labels(*diag),
    {
        let mut labels: Vec<DisplayLabel<'d>> = Vec::new();
        let mut i: usize = 0;
        while i < diag.spans.len()
            invariant
                i <= diag.spans@.len(),
                labels@.len() == i,
                forall|q: int|
                    0 <= q < i ==> (#[trigger] labels@[q])@ == (LabelView {
                        span: diag.spans@[q],
                        message: None,
                        level: diag.level,
                        is_primary: true,
                    }),
            decreases diag.spans@.len() - i,
        {
            labels.push(
                DisplayLabel { span: diag.spans[i], message: None, level: diag.level, is_primary: true },
            );
            i += 1;
        }
        assert(label_views(labels@) =~= primary_labels(diag.spans@, diag.level));
        let ghost base = label_views(labels@);
        let mut k: usize = 0;
        while k < diag.children.len()
            invariant
                k <= diag.children@.len(),
                label_views(labels@) == add_children(base, diag.children@, k as int),
            decreases diag.children@.len() - k,
        {
            Self::collect_child_labels(&diag.children[k], &mut labels);
            k += 1;
        }
        let mut j: usize = 0;
        while j < labels.len() && !labels[j].is_primary
            invariant
                j <= labels@.len(),
                forall|q: int| 0 <= q < j ==> !(#[trigger] labels@[q]).is_primary,
            decreases labels@.len() - j,
        {
            j += 1;
        }
        let found = j < labels.len();
        let ghost ls = label_views(labels@);
        proof {
            assert forall|q: int| 0 <= q < j implies !is_primary_label()(#[trigger] ls[q]) by {
                assert(ls[q] == labels@[q]@);
            }
            if found {
                assert(is_primary_label()(ls[j as int]));
            }
            lemma_first_index_is(ls, is_primary_label(), j as int);
        }
        if !found && labels.len() > 0 {
            let first = labels[0];
            labels.set(0, DisplayLabel { is_primary: true, ..first });
            assert(label_views(labels@) =~= diagnostic_labels(*diag));
        }
        labels
    }

    pub(crate) fn collect_child_labels<'d>(
        child: &'d SubDiagnostic,
        labels: &mut Vec<DisplayLabel<'d>>,
    )
        ensures
            label_views(final(labels)@) == add_child(label_views(old(labels)@), *child),
        decreases child,
    {
        let ghost l0 = label_views(labels@);
        let mut i: usize = 0;
        while i < child.spans.len()
            invariant
                i <= child.spans@.len(),
                label_views(labels@) == add_spans(
                    l0,
                    child.spans@.take(i as int),
                    child.message@,
                    child.level,
                ),
            decreases child.spans@.len() - i,
        {
            let span = child.spans[i];
            let ghost before = label_views(labels@);
            let mut j: usize = 0;
            while j < labels.len() && !(labels[j].is_primary && labels[j].span == span
                && labels[j].message.is_none())
                invariant
                    j <= labels@.len(),
                    forall|q: int|
                        0 <= q < j ==> !unlabeled_primary(span)((#[trigger] labels@[q])@),
                decreases labels@.len() - j,
            {
                j += 1;
            }
            let hit = j < labels.len();
            proof {
                assert(label_views(labels@) == before);
                assert forall|q: int| 0 <= q < j implies !unlabeled_primary(span)(
                    #[trigger] before[q],
                ) by {
                    assert(before[q] == labels@[q]@);
                }
                if hit {
                    assert(before[j as int] == labels@[j as int]@);
                    assert(unlabeled_primary(span)(before[j as int]));
                }
                lemma_first_index_is(before, unlabeled_primary(span), j as int);
            }
            if hit {
                let l = labels[j];
                labels.set(j, DisplayLabel { message: Some(child.message.as_str()), ..l });
            } else {
                labels.push(
                    DisplayLabel {
                        span,
                        message: Some(child.message.as_str()),
                        level: child.level,
                        is_primary: false,
                    },
                );
            }
            i += 1;
            proof {
                assert(child.spans@.take(i as int).drop_last() =~= child.spans@.take(i - 1));
                assert(label_views(labels@) =~= add_span_label(
                    before,
                    span,
                    child.message@,
                    child.level,
                ));
            }
        }
        assert(child.spans@.take(i as int) =~= child.spans@);
        let ghost mid = label_views(labels@);
        let mut k: usize = 0;
        while k < child.children.len()
            invariant
                k <= child.children@.len(),
                label_views(labels@) == add_children(mid, child.children@, k as int),
            decreases child.children@.len() - k,
        {
            Self::collect_child_labels(&child.children[k], labels);
            k += 1;
        }
    }
}


/// The order positions are drawn in: by start column, primary first.
pub open spec fn pos_key() -> spec_fn(PosView) -> int {
    |p: PosView| 2 * p.start + if p.label.is_primary {
        0int
    } else {
        1int
    }
}

/// The positions with the header's message taken off the label of the
/// window's own span, since the header already shows it.
pub open spec fn suppress(ps: Seq<PosView>, span: Span, message: Seq<char>) -> Seq<PosView> {
    ps.map_values(
        |p: PosView|
            if p.label.span == span && p.label.message == Some(message) {
                PosView {
                    label: LabelView {
                        span: p.label.span,
                        message: None,
                        level: p.label.level,
                        is_primary: p.label.is_primary,
                    },
                    start: p.start,
                    end: p.end,
                    is_start: p.is_start,
                    is_end: p.is_end,
                    is_multiline: p.is_multiline,
                }
            } else {
                p
            },
    )
}

impl HumanRenderer {
    pub(crate) fn span_line_bounds(source_map: &SourceMap, span: Span) -> (r: Option<(usize, usize, usize)>)
        requires
            source_map.wf(),
        ensures
            match r {
                Some((a, b, c)) => span_bounds(source_map@, span) == Some((a as int, b as int, c as int))
                    && a <= usize::MAX / 8 + 1 && c <= usize::MAX / 8 + 1,
                None => span_bounds(source_map@, span) is None,
            },
    {
        let file = span.file_id();
        let (start_line, start_col) = match source_map.line_col(file, span.start()) {
            Some(lc) => lc,
            None => return None,
        };
        let (mut end_line, _) = match source_map.line_col(file, span.end()) {
            Some(lc) => lc,
            None => return None,
        };
        if span.end() > span.start() {
            if let Some(line_start) = source_map.line_start(file, span.end()) {
                if line_start == span.end() && end_line > start_line {
                    end_line -= 1;
                }
            }
        }
        Some((start_line, start_col, end_line))
    }

    pub(crate) fn span_is_multiline(source_map: &SourceMap, span: Span) -> (r: Option<bool>)
        requires
            source_map.wf(),
        ensures
            match r {
                Some(b) => span_bounds(source_map@, span) matches Some((sl, _, el)) && b == (sl
                    != el),
                None => span_bounds(source_map@, span) is None,
            },
    {
        match Self::span_line_bounds(source_map, span) {
            Some((start_line, _, end_line)) => Some(start_line != end_line),
            None => None,
        }
    }

    fn label_position<'a>(
        source_map: &SourceMap,
        file_id: FileId,
        line: usize,
        label: DisplayLabel<'a>,
    ) -> (r: Option<LineLabelPosition<'a>>)
        requires
            source_map.wf(),
        ensures
            match r {
                Some(p) => label_position(source_map@, file_id, line as int, label@) == Some(p@)
                    && p.label == label,
                None => label_position(source_map@, file_id, line as int, label@) is None,
            },
    {
        if label.span.file_id() != file_id {
            return None;
        }
        let (label_start_line, _, label_end_line) = match Self::span_line_bounds(
            source_map,
            label.span,
        ) {
            Some(bounds) => bounds,
            None => return None,
        };
        if line < label_start_line || line > label_end_line {
            return None;
        }
        let source_line = match source_map.line(file_id, line) {
            Some(text) => text,
            None => return None,
        };
        let line_start = match source_map.line_start_for_line(file_id, line) {
            Some(start) => start,
            None => return None,
        };
        proof {
            source_map.lemma_fits(file_id.id() as int);
            crate::text::lemma_line_range(bytes_of(source_map@[file_id.id() as int]), line as int);
        }
        let line_len = source_line.as_bytes().len();
        let line_end = line_start + line_len;
        let start_byte = if line == label_start_line {
            if label.span.start() >= line_start {
                label.span.start() - line_start
            } else {
                0
            }
        } else {
            0
        };
        let end_byte = if line == label_end_line {
            let end = if label.span.end() <= line_end {
                label.span.end()
            } else {
                line_end
            };
            if end >= line_start {
                end - line_start
            } else {
                0
            }
        } else {
            line_len
        };
        let start_col = match display_col(source_line, start_byte) {
            Some(col) => col,
            None => return None,
        };
        let mut end_col = match display_col(source_line, end_byte) {
            Some(col) => col,
            None => start_col,
        };
        if end_col <= start_col {
            end_col = start_col + 1;
        }
        Some(
            LineLabelPosition {
                label,
                start: start_col,
                end: end_col,
                is_start: line == label_start_line,
                is_end: line == label_end_line,
                is_multiline: label_start_line != label_end_line,
            },
        )
    }

    /// The positions of the labels on one line of a file, in label order.
    pub(crate) fn line_label_positions<'a>(
        source_map: &SourceMap,
        file_id: FileId,
        line: usize,
        labels: &Vec<DisplayLabel<'a>>,
    ) -> (r: Vec<LineLabelPosition<'a>>)
        requires
            source_map.wf(),
        ensures
            pos_views(r@) == line_positions(source_map@, file_id, line as int, label_views(labels@)),
    {
        let mut positions: Vec<LineLabelPosition<'a>> = Vec::new();
        let mut i: usize = 0;
        while i < labels.len()
            invariant
                source_map.wf(),
                i <= labels@.len(),
                pos_views(positions@) == line_positions(
                    source_map@,
                    file_id,
                    line as int,
                    label_views(labels@.take(i as int)),
                ),
            decreases labels@.len() - i,
        {
            let ghost before = positions@;
            let p = Self::label_position(source_map, file_id, line, labels[i]);
            proof {
                assert(label_views(labels@.take(i + 1)).drop_last() =~= label_views(
                    labels@.take(i as int),
                ));
                assert(label_views(labels@.take(i + 1)).last() == labels@[i as int]@);
            }
            if let Some(p) = p {
                positions.push(p);
            }
            i += 1;
            assert(pos_views(positions@) =~= line_positions(
                source_map@,
                file_id,
                line as int,
                label_views(labels@.take(i as int)),
            ));
        }
        assert(labels@.take(i as int) =~= labels@);
        positions
    }

    /// The positions sorted by start column, primary labels first; equal
    /// keys keep their order.
    pub(crate) fn sort_positions<'a>(positions: Vec<LineLabelPosition<'a>>) -> (r: Vec<
        LineLabelPosition<'a>,
    >)
        ensures
            pos_views(r@) == sort_by(pos_views(positions@), pos_key()),
    {
        let mut sorted: Vec<LineLabelPosition<'a>> = Vec::new();
        let mut i: usize = 0;
        while i < positions.len()
            invariant
                i <= positions@.len(),
                pos_views(sorted@) == sort_by(pos_views(positions@.take(i as int)), pos_key()),
            decreases positions@.len() - i,
        {
            let p = positions[i];
            let ghost x = p@;
            let ghost before = pos_views(sorted@);
            let mut j: usize = 0;
            while j < sorted.len() && !(sorted[j].start > p.start || (sorted[j].start == p.start
                && !sorted[j].label.is_primary && p.label.is_primary))
                invariant
                    j <= sorted@.len(),
                    pos_views(sorted@) == before,
                    x == p@,
                    forall|q: int|
                        0 <= q < j ==> !(pos_key()((#[trigger] sorted@[q])@) > pos_key()(x)),
                decreases sorted@.len() - j,
            {
                j += 1;
            }
            proof {
                let pr = |y: PosView| pos_key()(y) > pos_key()(x);
                assert forall|q: int| 0 <= q < j implies !pr(#[trigger] before[q]) by {
                    assert(before[q] == sorted@[q]@);
                }
                if j < sorted@.len() {
                    assert(before[j as int] == sorted@[j as int]@);
                    assert(pr(before[j as int]));
                }
                lemma_first_index_is(before, pr, j as int);
                assert(pos_views(positions@.take(i + 1)).drop_last() =~= pos_views(
                    positions@.take(i as int),
                ));
                assert(pos_views(positions@.take(i + 1)).last() == x);
            }
            sorted.insert(j, p);
            i += 1;
            assert(pos_views(sorted@) =~= sort_by(pos_views(positions@.take(i as int)), pos_key()));
        }
        assert(positions@.take(i as int) =~= positions@);
        sorted
    }

    /// Takes the header's message off the labels of the window's span.
    pub(crate) fn suppress_header_label_message<'a>(
        positions: &mut Vec<LineLabelPosition<'a>>,
        span: Span,
        message: &str,
    )
        ensures
            pos_views(final(positions)@) == suppress(pos_views(old(positions)@), span, message@),
    {
        let ghost p0 = pos_views(positions@);
        let mut i: usize = 0;
        while i < positions.len()
            invariant
                i <= positions@.len(),
                positions@.len() == p0.len(),
                forall|q: int|
                    0 <= q < i ==> (#[trigger] positions@[q])@ == suppress(p0, span, message@)[q],
                forall|q: int| i <= q < p0.len() ==> (#[trigger] positions@[q])@ == p0[q],
            decreases positions@.len() - i,
        {
            let p = positions[i];
            let same = match p.label.message {
                Some(m) => str_eq(m, message),
                None => false,
            };
            if p.label.span == span && same {
                let label = DisplayLabel { message: None, ..p.label };
                positions.set(i, LineLabelPosition { label, ..p });
            }
            i += 1;
        }
        assert(pos_views(positions@) =~= suppress(p0, span, message@));
    }
}

} // verus!
