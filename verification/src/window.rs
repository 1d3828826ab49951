//! Source windows: the numbered source lines a diagnostic's labels point
//! into, with their markers and messages.
use vstd::prelude::*;
use vstd::string::StringSliceAdditionalSpecFns;
use vstd::utf8::{decode_utf8, encode_utf8_decode_utf8};

use crate::labels::{
    label_views, line_positions, pos_key, pos_views, span_bounds, suppress, DisplayLabel,
    LabelView,
};
use crate::level::{level_name, DiagnosticLevel};
use crate::lines::{followups, inline_position, marker_line, openers, source_prefix};
use crate::out::{gutter_line, source_line_text, styled, HumanRenderer};
use crate::seqs::sort_by;
use crate::source_map::{bytes_of, FileView, SourceMap};
use crate::span::Span;
use crate::styles::{Palette, StyleKind};
use crate::text::{line_bytes, line_col_of};
use crate::width::{decimal, decimal_width};

verus! {

/// A header naming a window that shows a note's label.
pub struct HeaderView {
    pub level: DiagnosticLevel,
    pub message: Seq<char>,
}

/// A source window: a span and the range of lines shown around it.
pub struct WindowView {
    pub span: Span,
    pub header: Option<HeaderView>,
    pub start_line: int,
    pub end_line: int,
}

#[derive(Clone, Copy)]
pub struct WindowHeader<'a> {
    pub level: DiagnosticLevel,
    pub message: &'a str,
}

impl<'a> View for WindowHeader<'a> {
    type V = HeaderView;

    open spec fn view(&self) -> HeaderView {
        HeaderView { level: self.level, message: self.message@ }
    }
}

#[derive(Clone, Copy)]
pub struct SourceWindow<'a> {
    pub span: Span,
    pub header: Option<WindowHeader<'a>>,
    pub start_line: usize,
    pub end_line: usize,
}

impl<'a> View for SourceWindow<'a> {
    type V = WindowView;

    open spec fn view(&self) -> WindowView {
        WindowView {
            span: self.span,
            header: match self.header {
                Some(h) => Some(h@),
                None => None,
            },
            start_line: self.start_line as int,
            end_line: self.end_line as int,
        }
    }
}

/// The header line of a window that shows a note's label.
pub open spec fn related_header(color: Option<Palette>, h: HeaderView) -> Seq<char> {
    styled(color, StyleKind::Level(h.level), level_name(h.level)) + styled(
        color,
        StyleKind::HeaderMsg,
        seq![':', ' '] + h.message,
    ) + seq!['\n']
}

/// The positions drawn on a line of a window: sorted, and with the
/// header's message taken off the window's own label.
pub open spec fn window_positions(
    m: Seq<FileView>,
    win: WindowView,
    labels: Seq<LabelView>,
    line: int,
) -> Seq<crate::labels::PosView> {
    let ps = sort_by(line_positions(m, win.span.file(), line, labels), pos_key());
    match win.header {
        Some(h) => suppress(ps, win.span, h.message),
        None => ps,
    }
}

/// One source line of a window with its annotation lines.
pub open spec fn window_line(
    color: Option<Palette>,
    m: Seq<FileView>,
    win: WindowView,
    labels: Seq<LabelView>,
    level: DiagnosticLevel,
    w: nat,
    line: int,
) -> Seq<char> {
    match line_bytes(bytes_of(m[win.span.file().id() as int]), line) {
        None => Seq::empty(),
        Some(lb) => {
            let ps = window_positions(m, win, labels, line);
            let inline = inline_position(ps);
            source_line_text(color, w, line as nat, decode_utf8(lb), source_prefix(ps, level))
                + openers(color, w, ps, level) + marker_line(color, w, ps, level, inline)
                + followups(color, w, ps, level, inline)
        },
    }
}

/// Lines `lo..hi` of a window.
pub open spec fn window_lines(
    color: Option<Palette>,
    m: Seq<FileView>,
    win: WindowView,
    labels: Seq<LabelView>,
    level: DiagnosticLevel,
    w: nat,
    lo: int,
    hi: int,
) -> Seq<char>
    decreases hi - lo,
{
    if hi <= lo {
        Seq::empty()
    } else {
        window_lines(color, m, win, labels, level, w, lo, hi - 1) + window_line(
            color,
            m,
            win,
            labels,
            level,
            w,
            hi - 1,
        )
    }
}

/// Width of the gutter's line numbers in a window.
pub open spec fn window_width(win: WindowView) -> nat {
    let a = decimal(win.end_line as nat).len();
    let b = decimal(win.start_line as nat).len();
    if a >= b {
        a
    } else {
        b
    }
}

/// The optional header of a window.
pub open spec fn header_text(color: Option<Palette>, header: Option<HeaderView>) -> Seq<char> {
    match header {
        Some(h) => related_header(color, h),
        None => Seq::empty(),
    }
}

/// The line naming the file, line and column a window starts at.
pub open spec fn location_line(color: Option<Palette>, name: Seq<char>, line: nat, col: nat) -> Seq<char> {
    seq![' '] + styled(color, StyleKind::Gutter, "--> "@) + name + seq![':'] + decimal(line) + seq![
        ':',
    ] + decimal(col) + seq!['\n']
}

/// A whole window: its optional header, the location line, and its lines
/// between two gutter bars. Nothing when its file or start is unknown.
pub open spec fn window_text(
    color: Option<Palette>,
    m: Seq<FileView>,
    win: WindowView,
    labels: Seq<LabelView>,
    level: DiagnosticLevel,
) -> Seq<char> {
    let file = win.span.file().id() as int;
    if file >= m.len() {
        Seq::empty()
    } else {
        match line_col_of(bytes_of(m[file]), win.span.lo() as int) {
            None => Seq::empty(),
            Some((sl, sc)) => {
                let w = window_width(win);
                header_text(color, win.header) + location_line(color, m[file].name, sl as nat, sc as nat)
                    + gutter_line(color, w, Seq::empty()) + window_lines(
                    color,
                    m,
                    win,
                    labels,
                    level,
                    w,
                    win.start_line,
                    win.end_line + 1,
                ) + gutter_line(color, w, Seq::empty())
            },
        }
    }
}

/// A window shows the label's lines already.
pub open spec fn covers(w: WindowView, span: Span, start_line: int, end_line: int) -> bool {
    &&& span.file() == w.span.file()
    &&& start_line >= w.start_line
    &&& end_line <= w.end_line
}

/// The windows after label `l` is considered: a label ending on the line just
/// above a multi-line primary span widens the primary window upwards; a label
/// on lines a window already shows adds nothing; any other label opens a
/// window of its own, headed by its message unless it is primary or spans
/// several lines.
pub open spec fn window_step(
    m: Seq<FileView>,
    primary: Span,
    psl: int,
    pel: int,
    ws: Seq<WindowView>,
    l: LabelView,
) -> Seq<WindowView> {
    match span_bounds(m, l.span) {
        None => ws,
        Some((lsl, _, lel)) => {
            if l.span.file() == primary.file() && psl != pel && lel + 1 == psl {
                ws.update(
                    0,
                    WindowView {
                        span: ws[0].span,
                        header: ws[0].header,
                        start_line: if lsl < ws[0].start_line {
                            lsl
                        } else {
                            ws[0].start_line
                        },
                        end_line: ws[0].end_line,
                    },
                )
            } else if exists|k: int| 0 <= k < ws.len() && covers(#[trigger] ws[k], l.span, lsl, lel) {
                ws
            } else {
                ws.push(
                    WindowView {
                        span: l.span,
                        header: if l.is_primary || lsl != lel {
                            None
                        } else {
                            match l.message {
                                Some(msg) => Some(HeaderView { level: l.level, message: msg }),
                                None => None,
                            }
                        },
                        start_line: lsl,
                        end_line: lel,
                    },
                )
            }
        },
    }
}

/// The windows after the first `k` labels are considered, starting from the
/// primary span's window.
pub open spec fn windows_upto(
    m: Seq<FileView>,
    primary: Span,
    psl: int,
    pel: int,
    labels: Seq<LabelView>,
    k: int,
) -> Seq<WindowView>
    decreases k,
{
    if k <= 0 {
        seq![WindowView { span: primary, header: None, start_line: psl, end_line: pel }]
    } else {
        window_step(m, primary, psl, pel, windows_upto(m, primary, psl, pel, labels, k - 1), labels[k - 1])
    }
}

/// The first `k` windows, rendered.
pub open spec fn windows_text(
    color: Option<Palette>,
    m: Seq<FileView>,
    ws: Seq<WindowView>,
    labels: Seq<LabelView>,
    level: DiagnosticLevel,
    k: int,
) -> Seq<char>
    decreases k,
{
    if k <= 0 {
        Seq::empty()
    } else {
        windows_text(color, m, ws, labels, level, k - 1) + window_text(color, m, ws[k - 1], labels, level)
    }
}

/// All source windows of a diagnostic whose primary label is on `primary`.
pub open spec fn source_windows(
    color: Option<Palette>,
    m: Seq<FileView>,
    primary: Span,
    labels: Seq<LabelView>,
    level: DiagnosticLevel,
) -> Seq<char> {
    match span_bounds(m, primary) {
        None => Seq::empty(),
        Some((psl, _, pel)) => {
            let ws = windows_upto(m, primary, psl, pel, labels, labels.len() as int);
            windows_text(color, m, ws, labels, level, ws.len() as int)
        },
    }
}

pub open spec fn window_views<'a>(s: Seq<SourceWindow<'a>>) -> Seq<WindowView> {
    s.map_values(|w: SourceWindow<'a>| w@)
}

impl HumanRenderer {
    pub(crate) fn print_related_header(&mut self, header: WindowHeader)
        ensures
            final(self).extends(old(self), related_header(old(self).colored(), header@)),
    {
        let ghost t0 = self.text();
        let ghost c = self.colored();
        let ghost s1 = styled(c, StyleKind::Level(header.level), level_name(header.level));
        let ghost s2 = styled(c, StyleKind::HeaderMsg, seq![':', ' '] + header.message@);
        self.write_styled(StyleKind::Level(header.level), header.level.as_str());
        self.print_header_message(header.message);
        self.push('\n');
        proof {
            crate::out::lemma_seq_add_assoc(t0, s1, s2);
            crate::out::lemma_seq_add_assoc(t0, s1 + s2, seq!['\n']);
        }
    }

    fn print_window_line(
        &mut self,
        source_map: &SourceMap,
        window: SourceWindow,
        labels: &Vec<DisplayLabel>,
        level: DiagnosticLevel,
        line_width: usize,
        line: usize,
    )
        requires
            source_map.wf(),
            window.span.file().id() < source_map@.len(),
        ensures
            final(self).extends(
                old(self),
                window_line(
                    old(self).colored(),
                    source_map@,
                    window@,
                    label_views(labels@),
                    level,
                    line_width as nat,
                    line as int,
                ),
            ),
    {
        broadcast use crate::out::lemma_seq_add_assoc;

        let ghost t0 = self.text();
        let ghost c = self.colored();
        let file_id = window.span.file_id();
        let source_line = match source_map.line(file_id, line) {
            Some(text) => text,
            None => {
                assert(self.text() == t0 + Seq::<char>::empty());
                return;
            },
        };
        proof {
            encode_utf8_decode_utf8(source_line@);
        }
        let positions = Self::line_label_positions(source_map, file_id, line, labels);
        let mut positions = Self::sort_positions(positions);
        if let Some(header) = window.header {
            Self::suppress_header_label_message(&mut positions, window.span, header.message);
        }
        let ghost ps = pos_views(positions@);
        assert(ps == window_positions(source_map@, window@, label_views(labels@), line as int));
        let source_prefix = Self::line_source_prefix(&positions, level);
        self.write_source_line(line_width, line, source_line, source_prefix);
        self.print_line_multiline_openers(line_width, &positions, level);
        let inline_message = Self::inline_line_message_position(&positions);
        self.print_line_label_markers(line_width, &positions, level, inline_message);
        self.print_line_followup_messages(line_width, &positions, level, inline_message);
        assert(self.text() == t0 + window_line(
            c,
            source_map@,
            window@,
            label_views(labels@),
            level,
            line_width as nat,
            line as int,
        ));
    }

    #[verifier::rlimit(40)]
    pub(crate) fn print_source_window(
        &mut self,
        source_map: &SourceMap,
        window: SourceWindow,
        labels: &Vec<DisplayLabel>,
        level: DiagnosticLevel,
    )
        requires
            source_map.wf(),
            window.end_line < usize::MAX,
        ensures
            final(self).extends(
                old(self),
                window_text(old(self).colored(), source_map@, window@, label_views(labels@), level),
            ),
    {
        broadcast use crate::out::lemma_seq_add_assoc;

        let ghost t0 = self.text();
        let ghost c = self.colored();
        let ghost m = source_map@;
        let ghost ls = label_views(labels@);
        let window_span = window.span;
        let file_id = window_span.file_id();
        let filename = match source_map.filename(file_id) {
            Some(name) => name,
            None => {
                assert(self.text() == t0 + Seq::<char>::empty());
                return;
            },
        };
        let (start_line, start_col) = match source_map.line_col(file_id, window_span.start()) {
            Some(lc) => lc,
            None => {
                assert(self.text() == t0 + Seq::<char>::empty());
                return;
            },
        };
        let end_width = decimal_width(window.end_line);
        let start_width = decimal_width(window.start_line);
        let line_width = if end_width >= start_width {
            end_width
        } else {
            start_width
        };
        let ghost w = line_width as nat;
        assert(w == window_width(window@));
        if let Some(header) = window.header {
            self.print_related_header(header);
        }
        assert(self.text() == t0 + header_text(c, window@.header));
        self.print_location(filename, start_line, start_col);
        proof {
            reveal_strlit("");
        }
        self.write_gutter(line_width, "");
        self.print_window_lines(source_map, window, labels, level, line_width);
        self.write_gutter(line_width, "");
        assert(self.text() == t0 + window_text(c, m, window@, ls, level));
    }
}

impl HumanRenderer {
    fn print_location(&mut self, filename: &str, line: usize, col: usize)
        ensures
            final(self).extends(
                old(self),
                location_line(old(self).colored(), filename@, line as nat, col as nat),
            ),
    {
        broadcast use crate::out::lemma_seq_add_assoc;

        let ghost t0 = self.text();
        self.push(' ');
        self.write_styled(StyleKind::Gutter, "--> ");
        self.push_str(filename);
        self.push(':');
        self.write_decimal(line);
        self.push(':');
        self.write_decimal(col);
        self.push('\n');
        assert(self.text() == t0 + location_line(self.colored(), filename@, line as nat, col as nat));
    }

    fn print_window_lines(
        &mut self,
        source_map: &SourceMap,
        window: SourceWindow,
        labels: &Vec<DisplayLabel>,
        level: DiagnosticLevel,
        line_width: usize,
    )
        requires
            source_map.wf(),
            window.span.file().id() < source_map@.len(),
            window.end_line < usize::MAX,
        ensures
            final(self).extends(
                old(self),
                window_lines(
                    old(self).colored(),
                    source_map@,
                    window@,
                    label_views(labels@),
                    level,
                    line_width as nat,
                    window.start_line as int,
                    window.end_line + 1,
                ),
            ),
    {
        let ghost t0 = self.text();
        let ghost c = self.colored();
        let ghost m = source_map@;
        let ghost ls = label_views(labels@);
        let ghost w = line_width as nat;
        if window.start_line > window.end_line {
            assert(window_lines(c, m, window@, ls, level, w, window.start_line as int, window.end_line + 1)
                == Seq::<char>::empty());
            assert(self.text() =~= t0 + Seq::<char>::empty());
            return;
        }
        let mut line = window.start_line;
        while line <= window.end_line
            invariant
                source_map.wf(),
                window.end_line < usize::MAX,
                window.span.file().id() < source_map@.len(),
                window.start_line <= line <= window.end_line + 1,
                m == source_map@,
                ls == label_views(labels@),
                w == line_width as nat,
                c == self.colored(),
                self.cfg() == old(self).cfg(),
                self.pal() == old(self).pal(),
                t0 == old(self).text(),
                self.text() == t0 + window_lines(
                    c,
                    m,
                    window@,
                    ls,
                    level,
                    w,
                    window.start_line as int,
                    line as int,
                ),
            decreases window.end_line + 1 - line,
        {
            self.print_window_line(source_map, window, labels, level, line_width, line);
            proof {
                crate::out::lemma_seq_add_assoc(
                    t0,
                    window_lines(c, m, window@, ls, level, w, window.start_line as int, line as int),
                    window_line(c, m, window@, ls, level, w, line as int),
                );
            }
            line += 1;
        }
    }
}

impl HumanRenderer {
    fn covered_by_any(windows: &Vec<SourceWindow>, span: Span, start_line: usize, end_line: usize) -> (r: bool)
        ensures
            r == exists|k: int|
                0 <= k < windows@.len() && covers(
                    #[trigger] window_views(windows@)[k],
                    span,
                    start_line as int,
                    end_line as int,
                ),
    {
        let ghost ws = window_views(windows@);
        let mut k: usize = 0;
        while k < windows.len()
            invariant
                k <= windows@.len(),
                ws == window_views(windows@),
                forall|q: int| 0 <= q < k ==> !covers(#[trigger] ws[q], span, start_line as int, end_line as int),
            decreases windows@.len() - k,
        {
            let w = windows[k];
            assert(ws[k as int] == w@);
            if span.file_id() == w.span.file_id() && start_line >= w.start_line && end_line <= w.end_line {
                return true;
            }
            k += 1;
        }
        false
    }

    /// Applies one label to the windows.
    fn add_label_window<'a>(
        source_map: &SourceMap,
        windows: &mut Vec<SourceWindow<'a>>,
        primary_span: Span,
        primary_start_line: usize,
        primary_end_line: usize,
        label: DisplayLabel<'a>,
    )
        requires
            source_map.wf(),
            old(windows)@.len() >= 1,
            primary_start_line <= usize::MAX / 8 + 1,
            forall|q: int| 0 <= q < old(windows)@.len() ==> (#[trigger] old(windows)@[q]).end_line < usize::MAX,
        ensures
            window_views(final(windows)@) == window_step(
                source_map@,
                primary_span,
                primary_start_line as int,
                primary_end_line as int,
                window_views(old(windows)@),
                label@,
            ),
            final(windows)@.len() >= 1,
            forall|q: int| 0 <= q < final(windows)@.len() ==> (#[trigger] final(windows)@[q]).end_line < usize::MAX,
    {
        let ghost before = window_views(windows@);
        let (label_start_line, _, label_end_line) = match Self::span_line_bounds(source_map, label.span) {
            Some(bounds) => bounds,
            None => return,
        };
        if label.span.file_id() == primary_span.file_id() && primary_start_line != primary_end_line
            && label_end_line + 1 == primary_start_line {
            let first = windows[0];
            let start_line = if label_start_line < first.start_line {
                label_start_line
            } else {
                first.start_line
            };
            windows.set(0, SourceWindow { start_line, ..first });
            assert(window_views(windows@) =~= window_step(
                source_map@,
                primary_span,
                primary_start_line as int,
                primary_end_line as int,
                before,
                label@,
            ));
            return;
        }
        if Self::covered_by_any(windows, label.span, label_start_line, label_end_line) {
            return;
        }
        let multiline = match Self::span_is_multiline(source_map, label.span) {
            Some(b) => b,
            None => false,
        };
        let header = if label.is_primary || multiline {
            None
        } else {
            match label.message {
                Some(message) => Some(WindowHeader { level: label.level, message }),
                None => None,
            }
        };
        windows.push(
            SourceWindow { span: label.span, header, start_line: label_start_line, end_line: label_end_line },
        );
        assert(window_views(windows@) =~= window_step(
            source_map@,
            primary_span,
            primary_start_line as int,
            primary_end_line as int,
            before,
            label@,
        ));
    }

    pub(crate) fn print_source_windows<'a>(
        &mut self,
        source_map: &SourceMap,
        primary_span: Span,
        labels: &Vec<DisplayLabel<'a>>,
        level: DiagnosticLevel,
    )
        requires
            source_map.wf(),
        ensures
            final(self).extends(
                old(self),
                source_windows(old(self).colored(), source_map@, primary_span, label_views(labels@), level),
            ),
    {
        let ghost t0 = self.text();
        let ghost c = self.colored();
        let ghost m = source_map@;
        let ghost ls = label_views(labels@);
        let (primary_start_line, _, primary_end_line) = match Self::span_line_bounds(source_map, primary_span) {
            Some(bounds) => bounds,
            None => {
                assert(self.text() =~= t0 + Seq::<char>::empty());
                return;
            },
        };
        let ghost psl = primary_start_line as int;
        let ghost pel = primary_end_line as int;
        let mut windows: Vec<SourceWindow<'a>> = Vec::new();
        windows.push(
            SourceWindow {
                span: primary_span,
                header: None,
                start_line: primary_start_line,
                end_line: primary_end_line,
            },
        );
        assert(window_views(windows@) =~= windows_upto(m, primary_span, psl, pel, ls, 0));
        let mut i: usize = 0;
        while i < labels.len()
            invariant
                source_map.wf(),
                m == source_map@,
                ls == label_views(labels@),
                i <= labels@.len(),
                windows@.len() >= 1,
                psl == primary_start_line as int,
                pel == primary_end_line as int,
                primary_start_line <= usize::MAX / 8 + 1,
                window_views(windows@) == windows_upto(m, primary_span, psl, pel, ls, i as int),
                forall|q: int| 0 <= q < windows@.len() ==> (#[trigger] windows@[q]).end_line < usize::MAX,
            decreases labels@.len() - i,
        {
            assert(ls[i as int] == labels@[i as int]@);
            Self::add_label_window(
                source_map,
                &mut windows,
                primary_span,
                primary_start_line,
                primary_end_line,
                labels[i],
            );
            i += 1;
        }
        let ghost ws = window_views(windows@);
        let mut k: usize = 0;
        while k < windows.len()
            invariant
                source_map.wf(),
                m == source_map@,
                ls == label_views(labels@),
                k <= windows@.len(),
                ws == window_views(windows@),
                c == self.colored(),
                self.cfg() == old(self).cfg(),
                self.pal() == old(self).pal(),
                t0 == old(self).text(),
                self.text() == t0 + windows_text(c, m, ws, ls, level, k as int),
                forall|q: int| 0 <= q < windows@.len() ==> (#[trigger] windows@[q]).end_line < usize::MAX,
            decreases windows@.len() - k,
        {
            assert(ws[k as int] == windows@[k as int]@);
            let ghost before = self.text();
            self.print_source_window(source_map, windows[k], labels, level);
            proof {
                crate::out::lemma_seq_add_assoc(
                    t0,
                    windows_text(c, m, ws, ls, level, k as int),
                    window_text(c, m, ws[k as int], ls, level),
                );
            }
            k += 1;
        }
    }
}

} // verus!
