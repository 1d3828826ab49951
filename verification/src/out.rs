//! The text a renderer produces, piece by piece: styles, gutters, line
//! numbers and source lines.
use vstd::prelude::*;
use vstd::string::StringExecFns;

use crate::config::{ColorChoice, EmitterConfig};
use crate::styles::{style_prefix, Palette, StyleKind, RESET};
use crate::width::{decimal, decimal_width, digit, lemma_decimal_len};

verus! {

/// `n` spaces.
pub open spec fn spaces(n: nat) -> Seq<char> {
    Seq::new(n, |i: int| ' ')
}

/// `n` copies of `ch`.
pub open spec fn repeat(ch: char, n: nat) -> Seq<char> {
    Seq::new(n, |i: int| ch)
}

/// The escape sequence that starts `style`, when colors are on.
pub open spec fn style_start(color: Option<Palette>, style: StyleKind) -> Seq<char> {
    match color {
        Some(palette) => style_prefix(palette, style),
        None => Seq::empty(),
    }
}

/// The escape sequence that ends a style, when colors are on.
pub open spec fn style_end(color: Option<Palette>) -> Seq<char> {
    if color is Some {
        RESET@
    } else {
        Seq::empty()
    }
}

/// `text` in `style`.
pub open spec fn styled(color: Option<Palette>, style: StyleKind, text: Seq<char>) -> Seq<char> {
    style_start(color, style) + text + style_end(color)
}

/// How one character of source text is shown: a zero width joiner is
/// dropped and a tab becomes four spaces.
pub open spec fn display_char(ch: char) -> Seq<char> {
    if ch == '\u{200D}' {
        Seq::empty()
    } else if ch == '\t' {
        spaces(4)
    } else {
        seq![ch]
    }
}

/// How source text is shown.
pub open spec fn display_text(cs: Seq<char>) -> Seq<char>
    decreases cs.len(),
{
    if cs.len() == 0 {
        Seq::empty()
    } else {
        display_text(cs.drop_last()) + display_char(cs.last())
    }
}

/// `t` padded on the left with spaces to width `w`.
pub open spec fn right_aligned(t: Seq<char>, w: nat) -> Seq<char> {
    if t.len() < w {
        spaces((w - t.len()) as nat) + t
    } else {
        t
    }
}

/// A line number in the gutter, right-aligned to width `w`.
pub open spec fn line_number_text(color: Option<Palette>, w: nat, line: nat) -> Seq<char> {
    styled(color, StyleKind::Gutter, right_aligned(decimal(line), w))
}

/// The gutter bar in front of an annotation line.
pub open spec fn gutter_prefix(color: Option<Palette>, w: nat) -> Seq<char> {
    spaces(w) + seq![' '] + styled(color, StyleKind::Gutter, seq!['|']) + seq![' ']
}

/// A gutter line: the bar alone, or the bar followed by `body`.
pub open spec fn gutter_line(color: Option<Palette>, w: nat, body: Seq<char>) -> Seq<char> {
    if body.len() == 0 {
        spaces(w) + seq![' '] + styled(color, StyleKind::Gutter, seq!['|']) + seq!['\n']
    } else {
        gutter_prefix(color, w) + body + seq!['\n']
    }
}

/// The optional marker in front of a source line.
pub open spec fn prefix_text(color: Option<Palette>, prefix: Option<(StyleKind, char)>) -> Seq<char> {
    match prefix {
        Some((style, ch)) => styled(color, style, seq![ch]),
        None => Seq::empty(),
    }
}

/// A numbered source line.
pub open spec fn source_line_text(
    color: Option<Palette>,
    w: nat,
    line: nat,
    text: Seq<char>,
    prefix: Option<(StyleKind, char)>,
) -> Seq<char> {
    line_number_text(color, w, line) + seq![' '] + styled(color, StyleKind::Gutter, seq!['|'])
        + seq![' '] + prefix_text(color, prefix) + display_text(text) + seq!['\n']
}

/// A numbered line of a suggestion's diff.
pub open spec fn diff_source_line(
    color: Option<Palette>,
    w: nat,
    line: nat,
    marker: char,
    text: Seq<char>,
    style: StyleKind,
) -> Seq<char> {
    line_number_text(color, w, line) + seq![' '] + styled(color, style, seq![marker]) + seq![' ']
        + styled(color, style, display_text(text)) + seq!['\n']
}

/// The start of a numbered diff line whose text follows in `style`.
pub open spec fn diff_line_start(
    color: Option<Palette>,
    w: nat,
    line: nat,
    marker: char,
    style: StyleKind,
) -> Seq<char> {
    line_number_text(color, w, line) + seq![' '] + styled(color, style, seq![marker]) + seq![' ']
        + style_start(color, style)
}

/// The end of a diff line.
pub open spec fn diff_line_end(color: Option<Palette>) -> Seq<char> {
    style_end(color) + seq!['\n']
}

/// Appending is associative.
pub broadcast proof fn lemma_seq_add_assoc(a: Seq<char>, b: Seq<char>, c: Seq<char>)
    ensures
        #[trigger] ((a + b) + c) == a + (b + c),
{
    assert((a + b) + c =~= a + (b + c));
}

pub proof fn lemma_display_text_concat(a: Seq<char>, b: Seq<char>)
    ensures
        display_text(a + b) == display_text(a) + display_text(b),
    decreases b.len(),
{
    if b.len() == 0 {
        assert(a + b =~= a);
        assert(display_text(a) + display_text(b) =~= display_text(a));
    } else {
        lemma_display_text_concat(a, b.drop_last());
        assert((a + b).drop_last() =~= a + b.drop_last());
        assert(display_text(a + b) =~= display_text(a) + display_text(b));
    }
}

/// Appends a character with `String::push`, which std documents as
/// appending the given char to the end of the string; the contract claims
/// exactly that of the string's characters.
#[verifier::external_body]
fn string_push(out: &mut String, ch: char)
    ensures
        final(out)@ == old(out)@.push(ch),
{
    out.push(ch);
}

fn digit_char(d: usize) -> (c: char)
    requires
        d < 10,
    ensures
        c == digit(d as nat),
{
    if d == 0 {
        '0'
    } else if d == 1 {
        '1'
    } else if d == 2 {
        '2'
    } else if d == 3 {
        '3'
    } else if d == 4 {
        '4'
    } else if d == 5 {
        '5'
    } else if d == 6 {
        '6'
    } else if d == 7 {
        '7'
    } else if d == 8 {
        '8'
    } else {
        '9'
    }
}

/// Lays diagnostics out as text.
pub struct HumanRenderer {
    config: EmitterConfig,
    palette: Palette,
    out: String,
}

impl HumanRenderer {
    /// The text rendered so far.
    pub closed spec fn text(&self) -> Seq<char> {
        self.out@
    }

    pub closed spec fn cfg(&self) -> EmitterConfig {
        self.config
    }

    /// The colors the renderer uses when colors are on.
    pub closed spec fn pal(&self) -> Palette {
        self.palette
    }

    /// The palette the renderer writes color codes in, or `None` when
    /// colors are off.
    pub open spec fn colored(&self) -> Option<Palette> {
        if self.cfg().color is Always {
            Some(self.pal())
        } else {
            None
        }
    }

    /// `self` is `old` with `x` appended to its text.
    pub open spec fn extends(&self, old: &Self, x: Seq<char>) -> bool {
        &&& self.cfg() == old.cfg()
        &&& self.pal() == old.pal()
        &&& self.text() == old.text() + x
    }

    /// A renderer with the given, already settled, configuration, writing
    /// the colors of ANSI terminals.
    pub fn new_in(config: EmitterConfig) -> (r: Self)
        ensures
            r.cfg() == config,
            r.pal() == Palette::Ansi,
            r.text() == Seq::<char>::empty(),
    {
        HumanRenderer { config, palette: Palette::Ansi, out: String::new() }
    }

    /// A renderer with the given, already settled, configuration and palette.
    pub fn with_palette(config: EmitterConfig, palette: Palette) -> (r: Self)
        ensures
            r.cfg() == config,
            r.pal() == palette,
            r.text() == Seq::<char>::empty(),
    {
        HumanRenderer { config, palette, out: String::new() }
    }

    pub fn palette(&self) -> (r: Palette)
        ensures
            r == self.pal(),
    {
        self.palette
    }

    pub fn config(&self) -> (r: EmitterConfig)
        ensures
            r == self.cfg(),
    {
        self.config
    }

    /// The rendered text.
    pub fn into_output(self) -> (r: String)
        ensures
            r@ == self.text(),
    {
        self.out
    }

    /// The text rendered so far; the renderer starts over empty.
    pub fn take_output(&mut self) -> (r: String)
        ensures
            r@ == old(self).text(),
            final(self).text() == Seq::<char>::empty(),
            final(self).cfg() == old(self).cfg(),
            final(self).pal() == old(self).pal(),
    {
        let mut taken = String::new();
        core::mem::swap(&mut taken, &mut self.out);
        taken
    }

    pub(crate) fn paint(&self) -> (r: Option<Palette>)
        ensures
            r == self.colored(),
    {
        if matches!(self.config.color, ColorChoice::Always) {
            Some(self.palette)
        } else {
            None
        }
    }

    pub(crate) fn push(&mut self, ch: char)
        ensures
            final(self).extends(old(self), seq![ch]),
    {
        let ghost t0 = self.out@;
        string_push(&mut self.out, ch);
        assert(self.out@ =~= t0 + seq![ch]);
    }

    pub(crate) fn push_str(&mut self, s: &str)
        ensures
            final(self).extends(old(self), s@),
    {
        self.out.append(s);
    }

    pub(crate) fn write_style_start(&mut self, style: StyleKind)
        ensures
            final(self).extends(old(self), style_start(old(self).colored(), style)),
    {
        if let Some(palette) = self.paint() {
            self.push_str(style.prefix(palette));
        } else {
            assert(self.out@ =~= self.out@ + Seq::<char>::empty());
        }
    }

    pub(crate) fn write_reset(&mut self)
        ensures
            final(self).extends(old(self), style_end(old(self).colored())),
    {
        if self.paint().is_some() {
            self.push_str(RESET);
        } else {
            assert(self.out@ =~= self.out@ + Seq::<char>::empty());
        }
    }

    pub(crate) fn write_styled(&mut self, style: StyleKind, text: &str)
        ensures
            final(self).extends(old(self), styled(old(self).colored(), style, text@)),
    {
        let ghost t0 = self.text();
        self.write_style_start(style);
        self.push_str(text);
        self.write_reset();
        assert(self.text() =~= t0 + styled(self.colored(), style, text@));
    }

    pub(crate) fn write_styled_char(&mut self, style: StyleKind, ch: char)
        ensures
            final(self).extends(old(self), styled(old(self).colored(), style, seq![ch])),
    {
        let ghost t0 = self.text();
        self.write_style_start(style);
        self.push(ch);
        self.write_reset();
        assert(self.text() =~= t0 + styled(self.colored(), style, seq![ch]));
    }

    pub(crate) fn write_repeat(&mut self, ch: char, count: usize)
        ensures
            final(self).extends(old(self), repeat(ch, count as nat)),
    {
        let ghost t0 = self.text();
        let mut i: usize = 0;
        while i < count
            invariant
                i <= count,
                self.cfg() == old(self).cfg(),
                self.pal() == old(self).pal(),
                self.text() == t0 + repeat(ch, i as nat),
                t0 == old(self).text(),
            decreases count - i,
        {
            self.push(ch);
            i += 1;
            assert(self.text() =~= t0 + repeat(ch, i as nat));
        }
        assert(self.text() =~= t0 + repeat(ch, count as nat));
    }

    pub(crate) fn write_spaces(&mut self, count: usize)
        ensures
            final(self).extends(old(self), spaces(count as nat)),
    {
        self.write_repeat(' ', count);
        assert(repeat(' ', count as nat) =~= spaces(count as nat));
    }

    pub(crate) fn write_styled_repeat(&mut self, style: StyleKind, ch: char, count: usize)
        ensures
            final(self).extends(
                old(self),
                styled(old(self).colored(), style, repeat(ch, count as nat)),
            ),
    {
        let ghost t0 = self.text();
        self.write_style_start(style);
        self.write_repeat(ch, count);
        self.write_reset();
        assert(self.text() =~= t0 + styled(self.colored(), style, repeat(ch, count as nat)));
    }

    pub(crate) fn write_display_char(&mut self, ch: char)
        ensures
            final(self).extends(old(self), display_char(ch)),
    {
        if ch == '\u{200D}' {
            assert(self.out@ =~= self.out@ + Seq::<char>::empty());
        } else if ch == '\t' {
            self.write_spaces(4);
        } else {
            self.push(ch);
        }
    }

    pub(crate) fn write_display_str(&mut self, text: &str)
        ensures
            final(self).extends(old(self), display_text(text@)),
    {
        let ghost t0 = self.text();
        for ch in it: text.chars()
            invariant
                it.seq() == text@,
                self.cfg() == old(self).cfg(),
                self.pal() == old(self).pal(),
                t0 == old(self).text(),
                self.text() == t0 + display_text(text@.take(it.index() as int)),
        {
            let ghost before = self.text();
            let ghost i = it.index() as int;
            if ch == '\u{200D}' {
            } else if ch == '\t' {
                self.write_spaces(4);
            } else {
                self.push(ch);
            }
            proof {
                assert(text@.take(i + 1).drop_last() =~= text@.take(i));
                assert(text@.take(i + 1).last() == ch);
                assert(self.text() =~= t0 + display_text(text@.take(i + 1)));
            }
        }
        assert(text@.take(text@.len() as int) =~= text@);
    }

    pub(crate) fn write_styled_display(&mut self, style: StyleKind, text: &str)
        ensures
            final(self).extends(
                old(self),
                styled(old(self).colored(), style, display_text(text@)),
            ),
    {
        let ghost t0 = self.text();
        self.write_style_start(style);
        self.write_display_str(text);
        self.write_reset();
        assert(self.text() =~= t0 + styled(self.colored(), style, display_text(text@)));
    }

    pub(crate) fn write_decimal(&mut self, n: usize)
        ensures
            final(self).extends(old(self), decimal(n as nat)),
        decreases n,
    {
        let ghost t0 = self.text();
        if n >= 10 {
            self.write_decimal(n / 10);
        }
        self.push(digit_char(n % 10));
        assert(self.text() =~= t0 + decimal(n as nat));
    }

    pub(crate) fn write_styled_line_number(&mut self, line_width: usize, line: usize)
        ensures
            final(self).extends(
                old(self),
                line_number_text(old(self).colored(), line_width as nat, line as nat),
            ),
    {
        let ghost t0 = self.text();
        self.write_style_start(StyleKind::Gutter);
        let digits = decimal_width(line);
        if digits < line_width {
            self.write_spaces(line_width - digits);
        }
        self.write_decimal(line);
        self.write_reset();
        assert(self.text() =~= t0 + line_number_text(self.colored(), line_width as nat, line as nat));
    }

    pub(crate) fn write_gutter(&mut self, line_width: usize, body: &str)
        ensures
            final(self).extends(old(self), gutter_line(old(self).colored(), line_width as nat, body@)),
    {
        let ghost t0 = self.text();
        if body.unicode_len() == 0 {
            self.write_spaces(line_width);
            self.push(' ');
            self.write_styled(StyleKind::Gutter, "|");
            self.push('\n');
            proof { reveal_strlit("|"); }
        } else {
            self.write_gutter_prefix(line_width);
            self.push_str(body);
            self.push('\n');
        }
        assert(self.text() =~= t0 + gutter_line(self.colored(), line_width as nat, body@));
    }

    pub(crate) fn write_gutter_prefix(&mut self, line_width: usize)
        ensures
            final(self).extends(old(self), gutter_prefix(old(self).colored(), line_width as nat)),
    {
        let ghost t0 = self.text();
        self.write_spaces(line_width);
        self.push(' ');
        self.write_styled_char(StyleKind::Gutter, '|');
        self.push(' ');
        assert(self.text() =~= t0 + gutter_prefix(self.colored(), line_width as nat));
    }

    pub(crate) fn write_source_line(
        &mut self,
        line_width: usize,
        line: usize,
        source_line: &str,
        prefix: Option<(StyleKind, char)>,
    )
        ensures
            final(self).extends(
                old(self),
                source_line_text(
                    old(self).colored(),
                    line_width as nat,
                    line as nat,
                    source_line@,
                    prefix,
                ),
            ),
    {
        let ghost t0 = self.text();
        self.write_styled_line_number(line_width, line);
        self.push(' ');
        self.write_styled_char(StyleKind::Gutter, '|');
        self.push(' ');
        let ghost t1 = self.text();
        if let Some((style, ch)) = prefix {
            self.write_styled_char(style, ch);
        }
        assert(self.text() =~= t1 + prefix_text(self.colored(), prefix));
        self.write_display_str(source_line);
        self.push('\n');
        assert(self.text() =~= t0 + source_line_text(
            self.colored(),
            line_width as nat,
            line as nat,
            source_line@,
            prefix,
        ));
    }

    pub(crate) fn write_diff_source_line(
        &mut self,
        line_width: usize,
        line: usize,
        marker: char,
        source_line: &str,
        style: StyleKind,
    )
        ensures
            final(self).extends(
                old(self),
                diff_source_line(
                    old(self).colored(),
                    line_width as nat,
                    line as nat,
                    marker,
                    source_line@,
                    style,
                ),
            ),
    {
        let ghost t0 = self.text();
        self.write_styled_line_number(line_width, line);
        self.push(' ');
        self.write_styled_char(style, marker);
        self.push(' ');
        self.write_styled_display(style, source_line);
        self.push('\n');
        assert(self.text() =~= t0 + diff_source_line(
            self.colored(),
            line_width as nat,
            line as nat,
            marker,
            source_line@,
            style,
        ));
    }

    pub(crate) fn write_diff_line_start(
        &mut self,
        line_width: usize,
        line: usize,
        marker: char,
        style: StyleKind,
    )
        ensures
            final(self).extends(
                old(self),
                diff_line_start(old(self).colored(), line_width as nat, line as nat, marker, style),
            ),
    {
        let ghost t0 = self.text();
        self.write_styled_line_number(line_width, line);
        self.push(' ');
        self.write_styled_char(style, marker);
        self.push(' ');
        self.write_style_start(style);
        assert(self.text() =~= t0 + diff_line_start(
            self.colored(),
            line_width as nat,
            line as nat,
            marker,
            style,
        ));
    }

    pub(crate) fn write_diff_line_end(&mut self)
        ensures
            final(self).extends(old(self), diff_line_end(old(self).colored())),
    {
        let ghost t0 = self.text();
        self.write_reset();
        self.push('\n');
        assert(self.text() =~= t0 + diff_line_end(self.colored()));
    }
}

} // verus!
