//! The annotation lines drawn under one source line: openers of multi-line
//! labels, the marker line, and messages that do not fit beside it.
use vstd::prelude::*;

use crate::labels::{pos_views, sat_sub, LineLabelPosition, PosView};
use crate::level::DiagnosticLevel;
use crate::out::{gutter_prefix, repeat, spaces, styled, HumanRenderer};
use crate::seqs::{
    concat_map, first_index, last_index, lemma_first_index_is, lemma_last_index_is,
    or_index,
};
use crate::styles::{Palette, StyleKind};
use crate::width::{display_width_at_most, str_width};

verus! {

/// The style of a label's markers.
pub open spec fn label_style(p: PosView, level: DiagnosticLevel) -> StyleKind {
    if p.label.is_primary {
        StyleKind::PrimaryLabel(level)
    } else {
        StyleKind::SecondaryLabel
    }
}

/// The character a label is underlined with.
pub open spec fn marker_char(p: PosView) -> char {
    if p.label.is_primary {
        '^'
    } else {
        '-'
    }
}

pub open spec fn ends_inside_primary() -> spec_fn(PosView) -> bool {
    |p: PosView| p.is_multiline && p.label.is_primary && !p.is_start
}

pub open spec fn ends_inside() -> spec_fn(PosView) -> bool {
    |p: PosView| p.is_multiline && !p.is_start
}

pub open spec fn starts_at_line_start_primary() -> spec_fn(PosView) -> bool {
    |p: PosView| p.is_multiline && p.is_start && p.start == 1 && p.label.is_primary
}

pub open spec fn starts_at_line_start() -> spec_fn(PosView) -> bool {
    |p: PosView| p.is_multiline && p.is_start && p.start == 1
}

/// The bar drawn in front of a source line that a multi-line label crosses:
/// the label that continues (preferring the primary one), else one that
/// starts at the first column; `/` where it starts, `|` where it continues.
pub open spec fn source_prefix(ps: Seq<PosView>, level: DiagnosticLevel) -> Option<
    (StyleKind, char),
> {
    let i = or_index(
        first_index(ps, ends_inside_primary()),
        or_index(
            first_index(ps, ends_inside()),
            or_index(
                first_index(ps, starts_at_line_start_primary()),
                first_index(ps, starts_at_line_start()),
            ),
        ),
    );
    match i {
        Some(k) => Some(
            (
                label_style(ps[k], level),
                if ps[k].is_start {
                    '/'
                } else {
                    '|'
                },
            ),
        ),
        None => None,
    }
}

/// A label's message fits on the marker line: it ends before the next label
/// to its right starts.
pub open spec fn message_fits(p: PosView, ps: Seq<PosView>) -> bool {
    match p.label.message {
        None => false,
        Some(m) => match first_index(ps, |o: PosView| o.start > p.start) {
            None => true,
            Some(j) => p.end + 1 + str_width(m) <= ps[j].start,
        },
    }
}

pub open spec fn multiline_end_primary() -> spec_fn(PosView) -> bool {
    |p: PosView| p.label.is_primary && p.is_multiline && p.is_end && p.label.message is Some
}

pub open spec fn multiline_end() -> spec_fn(PosView) -> bool {
    |p: PosView| p.is_multiline && p.is_end && p.label.message is Some
}

pub open spec fn fitting_primary(ps: Seq<PosView>) -> spec_fn(PosView) -> bool {
    |p: PosView| p.label.is_primary && p.is_end && p.label.message is Some && message_fits(p, ps)
}

pub open spec fn fitting_secondary(ps: Seq<PosView>) -> spec_fn(PosView) -> bool {
    |p: PosView| !p.label.is_primary && p.is_end && p.label.message is Some && message_fits(p, ps)
}

/// The label whose message goes on the marker line: the first primary
/// multi-line label ending here, else the last multi-line label ending here,
/// else the first primary label whose message fits, else the last secondary
/// one whose message fits.
pub open spec fn inline_position(ps: Seq<PosView>) -> Option<int> {
    or_index(
        first_index(ps, multiline_end_primary()),
        or_index(
            last_index(ps, multiline_end()),
            or_index(first_index(ps, fitting_primary(ps)), last_index(ps, fitting_secondary(ps))),
        ),
    )
}

/// The line drawn above a label that starts inside this line and continues below.
pub open spec fn opener(color: Option<Palette>, w: nat, p: PosView, level: DiagnosticLevel) -> Seq<char> {
    if !p.is_multiline || !p.is_start || p.is_end || p.start <= 1 {
        Seq::empty()
    } else {
        gutter_prefix(color, w) + seq![' '] + styled(
            color,
            label_style(p, level),
            repeat('_', (p.start - 2) as nat),
        ) + styled(color, label_style(p, level), seq!['-']) + seq!['\n']
    }
}

pub open spec fn openers(color: Option<Palette>, w: nat, ps: Seq<PosView>, level: DiagnosticLevel) -> Seq<
    char,
> {
    concat_map(ps, |p: PosView| opener(color, w, p, level))
}

/// What one label adds to the marker line when the cursor is at column `col`.
pub open spec fn marker_piece(color: Option<Palette>, p: PosView, level: DiagnosticLevel, col: int) -> Seq<char> {
    let st = label_style(p, level);
    if p.is_multiline {
        if !p.is_end {
            Seq::empty()
        } else {
            styled(color, st, seq!['|']) + styled(color, st, repeat('_', sat_sub(p.end, 2) as nat))
                + styled(color, st, seq![marker_char(p)])
        }
    } else if p.end <= col {
        Seq::empty()
    } else {
        let s = if p.start > col {
            p.start
        } else {
            col
        };
        spaces((s - col) as nat) + styled(color, st, repeat(marker_char(p), sat_sub(p.end, s) as nat))
    }
}

/// The cursor column after a label's markers.
pub open spec fn next_col(p: PosView, col: int) -> int {
    if p.is_multiline {
        if p.is_end {
            p.end
        } else {
            col
        }
    } else if p.end <= col {
        col
    } else {
        p.end
    }
}

/// The markers of labels `i..` on the marker line, the cursor being at column `col`.
pub open spec fn markers_from(
    color: Option<Palette>,
    ps: Seq<PosView>,
    level: DiagnosticLevel,
    i: int,
    col: int,
) -> Seq<char>
    decreases ps.len() - i,
{
    if i < 0 || i >= ps.len() {
        Seq::empty()
    } else {
        marker_piece(color, ps[i], level, col) + markers_from(
            color,
            ps,
            level,
            i + 1,
            next_col(ps[i], col),
        )
    }
}

/// The message written at the end of the marker line.
pub open spec fn inline_text(
    color: Option<Palette>,
    ps: Seq<PosView>,
    level: DiagnosticLevel,
    inline: Option<int>,
) -> Seq<char> {
    match inline {
        Some(k) => if 0 <= k < ps.len() {
            match ps[k].label.message {
                Some(m) => seq![' '] + styled(color, label_style(ps[k], level), m),
                None => Seq::empty(),
            }
        } else {
            Seq::empty()
        },
        None => Seq::empty(),
    }
}

/// Some label on the line needs a marker.
pub open spec fn has_marker(ps: Seq<PosView>) -> bool {
    exists|i: int| 0 <= i < ps.len() && (!(#[trigger] ps[i]).is_multiline || ps[i].is_end)
}

/// The marker line under a source line.
pub open spec fn marker_line(
    color: Option<Palette>,
    w: nat,
    ps: Seq<PosView>,
    level: DiagnosticLevel,
    inline: Option<int>,
) -> Seq<char> {
    if has_marker(ps) {
        gutter_prefix(color, w) + markers_from(color, ps, level, 0, 1) + inline_text(
            color,
            ps,
            level,
            inline,
        ) + seq!['\n']
    } else {
        Seq::empty()
    }
}

/// A message that did not go on the marker line, written below a bar
/// under its label.
pub open spec fn followup(
    color: Option<Palette>,
    w: nat,
    ps: Seq<PosView>,
    level: DiagnosticLevel,
    inline: Option<int>,
    i: int,
) -> Seq<char> {
    let p = ps[i];
    if inline == Some(i) || !p.is_end || p.is_multiline {
        Seq::empty()
    } else {
        match p.label.message {
            None => Seq::empty(),
            Some(m) => gutter_prefix(color, w) + spaces(sat_sub(p.start, 1) as nat) + styled(
                color,
                label_style(p, level),
                seq!['|'],
            ) + seq!['\n'] + gutter_prefix(color, w) + spaces(sat_sub(p.start, 1) as nat) + styled(
                color,
                label_style(p, level),
                m,
            ) + seq!['\n'],
        }
    }
}

/// The follow-up messages of the first `k` labels.
pub open spec fn followups_upto(
    color: Option<Palette>,
    w: nat,
    ps: Seq<PosView>,
    level: DiagnosticLevel,
    inline: Option<int>,
    k: int,
) -> Seq<char>
    decreases k,
{
    if k <= 0 {
        Seq::empty()
    } else {
        followups_upto(color, w, ps, level, inline, k - 1) + followup(color, w, ps, level, inline, k - 1)
    }
}

pub open spec fn followups(
    color: Option<Palette>,
    w: nat,
    ps: Seq<PosView>,
    level: DiagnosticLevel,
    inline: Option<int>,
) -> Seq<char> {
    followups_upto(color, w, ps, level, inline, ps.len() as int)
}

fn label_style_of(p: &LineLabelPosition, level: DiagnosticLevel) -> (r: StyleKind)
    ensures
        r == label_style(p@, level),
{
    if p.label.is_primary {
        StyleKind::PrimaryLabel(level)
    } else {
        StyleKind::SecondaryLabel
    }
}

/// Index of the first position satisfying `f`, which decides `pred`.
fn find_first<'a, F: Fn(&LineLabelPosition<'a>) -> bool>(
    positions: &Vec<LineLabelPosition<'a>>,
    f: F,
    Ghost(pred): Ghost<spec_fn(PosView) -> bool>,
) -> (r: Option<usize>)
    requires
        forall|p: &LineLabelPosition<'a>| #[trigger] call_requires(f, (p,)),
        forall|p: &LineLabelPosition<'a>, b: bool| call_ensures(f, (p,), b) ==> b == pred(p@),
    ensures
        match r {
            Some(i) => first_index(pos_views(positions@), pred) == Some(i as int),
            None => first_index(pos_views(positions@), pred) is None,
        },
{
    let ghost ps = pos_views(positions@);
    let mut i: usize = 0;
    while i < positions.len()
        invariant
            i <= positions@.len(),
            ps == pos_views(positions@),
            forall|p: &LineLabelPosition<'a>| #[trigger] call_requires(f, (p,)),
            forall|p: &LineLabelPosition<'a>, b: bool| call_ensures(f, (p,), b) ==> b == pred(p@),
            forall|q: int| 0 <= q < i ==> !pred(#[trigger] ps[q]),
        decreases positions@.len() - i,
    {
        let hit = f(&positions[i]);
        if hit {
            proof {
                lemma_first_index_is(ps, pred, i as int);
            }
            return Some(i);
        }
        i += 1;
    }
    proof {
        lemma_first_index_is(ps, pred, ps.len() as int);
    }
    None
}

/// Index of the last position satisfying `f`, which decides `pred`.
fn find_last<'a, F: Fn(&LineLabelPosition<'a>) -> bool>(
    positions: &Vec<LineLabelPosition<'a>>,
    f: F,
    Ghost(pred): Ghost<spec_fn(PosView) -> bool>,
) -> (r: Option<usize>)
    requires
        forall|p: &LineLabelPosition<'a>| #[trigger] call_requires(f, (p,)),
        forall|p: &LineLabelPosition<'a>, b: bool| call_ensures(f, (p,), b) ==> b == pred(p@),
    ensures
        match r {
            Some(i) => last_index(pos_views(positions@), pred) == Some(i as int),
            None => last_index(pos_views(positions@), pred) is None,
        },
{
    let ghost ps = pos_views(positions@);
    let mut i: usize = positions.len();
    while i > 0
        invariant
            i <= positions@.len(),
            ps == pos_views(positions@),
            forall|p: &LineLabelPosition<'a>| #[trigger] call_requires(f, (p,)),
            forall|p: &LineLabelPosition<'a>, b: bool| call_ensures(f, (p,), b) ==> b == pred(p@),
            forall|q: int| i <= q < ps.len() ==> !pred(#[trigger] ps[q]),
        decreases i,
    {
        let hit = f(&positions[i - 1]);
        if hit {
            proof {
                lemma_last_index_is(ps, pred, i - 1);
            }
            return Some(i - 1);
        }
        i -= 1;
    }
    proof {
        lemma_last_index_is(ps, pred, -1);
    }
    None
}

fn is_ends_inside_primary(p: &LineLabelPosition) -> (b: bool)
    ensures
        b == ends_inside_primary()(p@),
{
    p.is_multiline && p.label.is_primary && !p.is_start
}

fn is_ends_inside(p: &LineLabelPosition) -> (b: bool)
    ensures
        b == ends_inside()(p@),
{
    p.is_multiline && !p.is_start
}

fn is_starts_at_line_start_primary(p: &LineLabelPosition) -> (b: bool)
    ensures
        b == starts_at_line_start_primary()(p@),
{
    p.is_multiline && p.is_start && p.start == 1 && p.label.is_primary
}

fn is_starts_at_line_start(p: &LineLabelPosition) -> (b: bool)
    ensures
        b == starts_at_line_start()(p@),
{
    p.is_multiline && p.is_start && p.start == 1
}

fn is_multiline_end_primary(p: &LineLabelPosition) -> (b: bool)
    ensures
        b == multiline_end_primary()(p@),
{
    p.label.is_primary && p.is_multiline && p.is_end && p.label.message.is_some()
}

fn is_multiline_end(p: &LineLabelPosition) -> (b: bool)
    ensures
        b == multiline_end()(p@),
{
    p.is_multiline && p.is_end && p.label.message.is_some()
}

impl HumanRenderer {
    pub(crate) fn line_source_prefix(
        positions: &Vec<LineLabelPosition>,
        level: DiagnosticLevel,
    ) -> (r: Option<(StyleKind, char)>)
        ensures
            r == source_prefix(pos_views(positions@), level),
    {
        let found = match find_first(positions, is_ends_inside_primary, Ghost(ends_inside_primary())) {
            Some(i) => Some(i),
            None => match find_first(positions, is_ends_inside, Ghost(ends_inside())) {
                Some(i) => Some(i),
                None => match find_first(
                    positions,
                    is_starts_at_line_start_primary,
                    Ghost(starts_at_line_start_primary()),
                ) {
                    Some(i) => Some(i),
                    None => find_first(positions, is_starts_at_line_start, Ghost(starts_at_line_start())),
                },
            },
        };
        proof {
            let ps = pos_views(positions@);
            crate::seqs::lemma_first_index(ps, ends_inside_primary());
            crate::seqs::lemma_first_index(ps, ends_inside());
            crate::seqs::lemma_first_index(ps, starts_at_line_start_primary());
            crate::seqs::lemma_first_index(ps, starts_at_line_start());
        }
        match found {
            Some(i) => {
                let p = &positions[i];
                let marker = if p.is_start {
                    '/'
                } else {
                    '|'
                };
                Some((label_style_of(p, level), marker))
            },
            None => None,
        }
    }

    pub(crate) fn inline_message_fits(
        position: &LineLabelPosition,
        positions: &Vec<LineLabelPosition>,
    ) -> (r: bool)
        ensures
            r == message_fits(position@, pos_views(positions@)),
    {
        let message = match position.label.message {
            Some(message) => message,
            None => return false,
        };
        let ghost ps = pos_views(positions@);
        let ghost pred = |o: PosView| o.start > position.start;
        let mut j: usize = 0;
        while j < positions.len() && positions[j].start <= position.start
            invariant
                j <= positions@.len(),
                ps == pos_views(positions@),
                pred == (|o: PosView| o.start > position.start),
                forall|q: int| 0 <= q < j ==> !pred(#[trigger] ps[q]),
            decreases positions@.len() - j,
        {
            j += 1;
        }
        proof {
            if j < positions@.len() {
                assert(pred(ps[j as int]));
            }
            lemma_first_index_is(ps, pred, j as int);
        }
        if j == positions.len() {
            return true;
        }
        let other_start = positions[j].start;
        if other_start < position.end || other_start - position.end < 1 {
            false
        } else {
            display_width_at_most(message, other_start - position.end - 1)
        }
    }

    fn find_fitting(positions: &Vec<LineLabelPosition>, primary: bool) -> (r: Option<usize>)
        ensures
            primary ==> match r {
                Some(i) => first_index(pos_views(positions@), fitting_primary(pos_views(positions@)))
                    == Some(i as int),
                None => first_index(pos_views(positions@), fitting_primary(pos_views(positions@))) is None,
            },
            !primary ==> match r {
                Some(i) => last_index(pos_views(positions@), fitting_secondary(pos_views(positions@)))
                    == Some(i as int),
                None => last_index(pos_views(positions@), fitting_secondary(pos_views(positions@))) is None,
            },
    {
        let ghost ps = pos_views(positions@);
        let ghost pred = if primary { fitting_primary(ps) } else { fitting_secondary(ps) };
        let n = positions.len();
        let mut k: usize = 0;
        while k < n
            invariant
                n == positions@.len(),
                k <= n,
                ps == pos_views(positions@),
                pred == (if primary { fitting_primary(ps) } else { fitting_secondary(ps) }),
                primary ==> forall|q: int| 0 <= q < k ==> !pred(#[trigger] ps[q]),
                !primary ==> forall|q: int| n - k <= q < n ==> !pred(#[trigger] ps[q]),
            decreases n - k,
        {
            let idx = if primary { k } else { n - 1 - k };
            let p = &positions[idx];
            let hit = p.label.is_primary == primary && p.is_end && p.label.message.is_some()
                && Self::inline_message_fits(p, positions);
            if hit {
                proof {
                    assert(pred(ps[idx as int]));
                    if primary {
                        lemma_first_index_is(ps, pred, idx as int);
                    } else {
                        lemma_last_index_is(ps, pred, idx as int);
                    }
                }
                return Some(idx);
            }
            k += 1;
        }
        proof {
            if primary {
                lemma_first_index_is(ps, pred, n as int);
            } else {
                lemma_last_index_is(ps, pred, -1);
            }
        }
        None
    }

    pub(crate) fn inline_line_message_position(positions: &Vec<LineLabelPosition>) -> (r: Option<
        usize,
    >)
        ensures
            match r {
                Some(i) => inline_position(pos_views(positions@)) == Some(i as int),
                None => inline_position(pos_views(positions@)) is None,
            },
    {
        if let Some(i) = find_first(positions, is_multiline_end_primary, Ghost(multiline_end_primary())) {
            return Some(i);
        }
        if let Some(i) = find_last(positions, is_multiline_end, Ghost(multiline_end())) {
            return Some(i);
        }
        if let Some(i) = Self::find_fitting(positions, true) {
            return Some(i);
        }
        Self::find_fitting(positions, false)
    }
}

impl HumanRenderer {
    pub(crate) fn print_line_multiline_openers(
        &mut self,
        line_width: usize,
        positions: &Vec<LineLabelPosition>,
        level: DiagnosticLevel,
    )
        ensures
            final(self).extends(
                old(self),
                openers(old(self).colored(), line_width as nat, pos_views(positions@), level),
            ),
    {
        let ghost t0 = self.text();
        let ghost c = self.colored();
        let ghost w = line_width as nat;
        let mut i: usize = 0;
        while i < positions.len()
            invariant
                i <= positions@.len(),
                self.cfg() == old(self).cfg(),
                self.pal() == old(self).pal(),
                c == self.colored(),
                w == line_width as nat,
                t0 == old(self).text(),
                self.text() == t0 + openers(c, w, pos_views(positions@.take(i as int)), level),
            decreases positions@.len() - i,
        {
            let ghost before = self.text();
            self.print_multiline_opener(line_width, &positions[i], level);
            assert(self.colored() == c);
            assert(self.text() == before + opener(c, w, positions@[i as int]@, level));
            proof {
                broadcast use crate::out::lemma_seq_add_assoc;

                let prev = pos_views(positions@.take(i as int));
                let next = pos_views(positions@.take(i + 1));
                assert(next.drop_last() =~= prev);
                assert(next.last() == positions@[i as int]@);
                assert(openers(c, w, next, level) == openers(c, w, prev, level) + opener(
                    c,
                    w,
                    positions@[i as int]@,
                    level,
                ));
            }
            i += 1;
        }
        assert(positions@.take(i as int) =~= positions@);
    }

    pub(crate) fn print_line_label_markers(
        &mut self,
        line_width: usize,
        positions: &Vec<LineLabelPosition>,
        level: DiagnosticLevel,
        inline_message: Option<usize>,
    )
        ensures
            final(self).extends(
                old(self),
                marker_line(
                    old(self).colored(),
                    line_width as nat,
                    pos_views(positions@),
                    level,
                    match inline_message {
                        Some(i) => Some(i as int),
                        None => None,
                    },
                ),
            ),
    {
        let ghost t0 = self.text();
        let ghost c = self.colored();
        let ghost ps = pos_views(positions@);
        let ghost inline = match inline_message {
            Some(i) => Some(i as int),
            None => None::<int>,
        };
        let mut k: usize = 0;
        while k < positions.len() && !(!positions[k].is_multiline || positions[k].is_end)
            invariant
                k <= positions@.len(),
                ps == pos_views(positions@),
                forall|q: int| 0 <= q < k ==> !(!(#[trigger] ps[q]).is_multiline || ps[q].is_end),
            decreases positions@.len() - k,
        {
            k += 1;
        }
        if k == positions.len() {
            assert(!has_marker(ps));
            assert(self.text() =~= t0 + marker_line(c, line_width as nat, ps, level, inline));
            return;
        }
        assert(ps[k as int] == positions@[k as int]@);
        assert(has_marker(ps));
        self.write_gutter_prefix(line_width);
        let ghost t1 = self.text();
        let mut current_col: usize = 1;
        let mut i: usize = 0;
        while i < positions.len()
            invariant
                i <= positions@.len(),
                ps == pos_views(positions@),
                self.cfg() == old(self).cfg(),
                self.pal() == old(self).pal(),
                c == self.colored(),
                self.text() + markers_from(c, ps, level, i as int, current_col as int) == t1
                    + markers_from(c, ps, level, 0, 1),
            decreases positions@.len() - i,
        {
            let p = &positions[i];
            let ghost before = self.text();
            let ghost col0 = current_col as int;
            assert(ps[i as int] == p@);
            current_col = self.print_marker_piece(p, level, current_col);
            assert(self.text() =~= before + marker_piece(c, p@, level, col0));
            assert(current_col == next_col(p@, col0));
            i += 1;
        }
        let ghost t2 = self.text();
        assert(t2 == t1 + markers_from(c, ps, level, 0, 1));
        if let Some(idx) = inline_message {
            if idx < positions.len() {
                let p = &positions[idx];
                assert(ps[idx as int] == p@);
                if let Some(message) = p.label.message {
                    let style = label_style_of(p, level);
                    self.push(' ');
                    self.write_styled(style, message);
                }
            }
        }
        assert(self.text() =~= t2 + inline_text(c, ps, level, inline));
        self.push('\n');
        assert(self.text() =~= t0 + marker_line(c, line_width as nat, ps, level, inline));
    }

    pub(crate) fn print_line_followup_messages(
        &mut self,
        line_width: usize,
        positions: &Vec<LineLabelPosition>,
        level: DiagnosticLevel,
        inline_message: Option<usize>,
    )
        ensures
            final(self).extends(
                old(self),
                followups(
                    old(self).colored(),
                    line_width as nat,
                    pos_views(positions@),
                    level,
                    match inline_message {
                        Some(i) => Some(i as int),
                        None => None,
                    },
                ),
            ),
    {
        let ghost t0 = self.text();
        let ghost c = self.colored();
        let ghost w = line_width as nat;
        let ghost ps = pos_views(positions@);
        let ghost inline = match inline_message {
            Some(i) => Some(i as int),
            None => None::<int>,
        };
        let mut i: usize = 0;
        while i < positions.len()
            invariant
                i <= positions@.len(),
                ps == pos_views(positions@),
                self.cfg() == old(self).cfg(),
                self.pal() == old(self).pal(),
                c == self.colored(),
                w == line_width as nat,
                t0 == old(self).text(),
                inline == (match inline_message {
                    Some(i) => Some(i as int),
                    None => None::<int>,
                }),
                self.text() == t0 + followups_upto(c, w, ps, level, inline, i as int),
            decreases positions@.len() - i,
        {
            let ghost before = self.text();
            let skip = match inline_message {
                Some(j) => j == i,
                None => false,
            };
            self.print_followup(line_width, &positions[i], level, skip);
            assert(ps[i as int] == positions@[i as int]@);
            assert(skip == (inline == Some(i as int)));
            proof {
                broadcast use crate::out::lemma_seq_add_assoc;

                assert(self.text() == before + followup(c, w, ps, level, inline, i as int));
            }
            i += 1;
        }
    }
}

impl HumanRenderer {
    fn print_multiline_opener(&mut self, line_width: usize, p: &LineLabelPosition, level: DiagnosticLevel)
        ensures
            final(self).extends(old(self), opener(old(self).colored(), line_width as nat, p@, level)),
    {
        broadcast use crate::out::lemma_seq_add_assoc;

        let ghost t0 = self.text();
        let ghost c = self.colored();
        if !p.is_multiline || !p.is_start || p.is_end || p.start <= 1 {
            assert(self.text() =~= t0 + Seq::<char>::empty());
            return;
        }
        let style = label_style_of(p, level);
        self.write_gutter_prefix(line_width);
        self.push(' ');
        self.write_styled_repeat(style, '_', p.start - 2);
        self.write_styled_char(style, '-');
        self.push('\n');
        assert(self.text() == t0 + opener(c, line_width as nat, p@, level));
    }

    fn print_marker_piece(&mut self, p: &LineLabelPosition, level: DiagnosticLevel, col: usize) -> (r: usize)
        ensures
            final(self).extends(old(self), marker_piece(old(self).colored(), p@, level, col as int)),
            r == next_col(p@, col as int),
    {
        broadcast use crate::out::lemma_seq_add_assoc;

        let ghost t0 = self.text();
        let ghost c = self.colored();
        let style = label_style_of(p, level);
        let marker = if p.label.is_primary {
            '^'
        } else {
            '-'
        };
        if p.is_multiline {
            if p.is_end {
                self.write_styled_char(style, '|');
                let count = if p.end >= 2 {
                    p.end - 2
                } else {
                    0
                };
                self.write_styled_repeat(style, '_', count);
                self.write_styled_char(style, marker);
                assert(self.text() == t0 + marker_piece(c, p@, level, col as int));
                p.end
            } else {
                assert(self.text() =~= t0 + Seq::<char>::empty());
                col
            }
        } else if p.end > col {
            let start = if p.start > col {
                p.start
            } else {
                col
            };
            self.write_spaces(start - col);
            let count = if p.end >= start {
                p.end - start
            } else {
                0
            };
            self.write_styled_repeat(style, marker, count);
            assert(self.text() == t0 + marker_piece(c, p@, level, col as int));
            p.end
        } else {
            assert(self.text() =~= t0 + Seq::<char>::empty());
            col
        }
    }

    #[verifier::rlimit(30)]
    fn print_followup(&mut self, line_width: usize, p: &LineLabelPosition, level: DiagnosticLevel, inline: bool)
        ensures
            final(self).extends(
                old(self),
                if inline || !p.is_end || p.is_multiline {
                    Seq::empty()
                } else {
                    match p@.label.message {
                        None => Seq::empty(),
                        Some(m) => gutter_prefix(old(self).colored(), line_width as nat) + spaces(
                            sat_sub(p@.start, 1) as nat,
                        ) + styled(old(self).colored(), label_style(p@, level), seq!['|']) + seq![
                            '\n',
                        ] + gutter_prefix(old(self).colored(), line_width as nat) + spaces(
                            sat_sub(p@.start, 1) as nat,
                        ) + styled(old(self).colored(), label_style(p@, level), m) + seq!['\n'],
                    }
                },
            ),
    {
        broadcast use crate::out::lemma_seq_add_assoc;

        let ghost t0 = self.text();
        let ghost c = self.colored();
        if inline || !p.is_end || p.is_multiline {
            assert(self.text() =~= t0 + Seq::<char>::empty());
            return;
        }
        let message = match p.label.message {
            Some(message) => message,
            None => {
                assert(self.text() =~= t0 + Seq::<char>::empty());
                return;
            },
        };
        let style = label_style_of(p, level);
        let pad = if p.start >= 1 {
            p.start - 1
        } else {
            0
        };
        self.write_gutter_prefix(line_width);
        self.write_spaces(pad);
        self.write_styled_char(style, '|');
        self.push('\n');
        self.write_gutter_prefix(line_width);
        self.write_spaces(pad);
        self.write_styled(style, message);
        self.push('\n');
        assert(self.text() == t0 + (gutter_prefix(c, line_width as nat) + spaces(pad as nat)
            + styled(c, style, seq!['|']) + seq!['\n'] + gutter_prefix(c, line_width as nat)
            + spaces(pad as nat) + styled(c, style, message@) + seq!['\n']));
    }
}

} // verus!
