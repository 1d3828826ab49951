use vstd::prelude::*;

use crate::level::{level_style_in, DiagnosticLevel};

verus! {

pub const RESET: &'static str = "\x1b[0m";

pub const BOLD: &'static str = "\x1b[1m";

pub const STYLE_ERROR: &'static str = "\x1b[1m\x1b[91m";

pub const STYLE_WARNING: &'static str = "\x1b[1m\x1b[33m";

/// The warning style of the Windows console, where dark yellow reads poorly.
pub const STYLE_WARNING_WINDOWS: &'static str = "\x1b[1m\x1b[93m";

pub const STYLE_HELP: &'static str = "\x1b[1m\x1b[96m";

pub const STYLE_NOTE: &'static str = "\x1b[1m\x1b[92m";

pub const ADDITION: &'static str = "\x1b[92m";

pub const REMOVAL: &'static str = "\x1b[91m";

pub const GUTTER_STYLE: &'static str = "\x1b[1m\x1b[94m";

/// The gutter style of the Windows console, where dark blue reads poorly.
pub const GUTTER_STYLE_WINDOWS: &'static str = "\x1b[1m\x1b[96m";

/// The colors a terminal family is given: ANSI terminals, or the Windows
/// console, which shows brighter warning and gutter colors.
#[derive(Debug, Clone, Copy, PartialEq, Eq, Structural)]
pub enum Palette {
    Ansi,
    WindowsConsole,
}

/// What a piece of rendered text is, which decides its terminal style.
#[derive(Debug, Clone, Copy, PartialEq, Eq, Structural)]
pub enum StyleKind {
    Level(DiagnosticLevel),
    HeaderMsg,
    Gutter,
    PrimaryLabel(DiagnosticLevel),
    SecondaryLabel,
    Addition,
    Removal,
}

/// The gutter style of a palette.
pub open spec fn gutter_style(palette: Palette) -> Seq<char> {
    match palette {
        Palette::Ansi => GUTTER_STYLE@,
        Palette::WindowsConsole => GUTTER_STYLE_WINDOWS@,
    }
}

/// The escape sequence that starts a style in a palette.
pub open spec fn style_prefix(palette: Palette, style: StyleKind) -> Seq<char> {
    match style {
        StyleKind::Level(level) | StyleKind::PrimaryLabel(level) => level_style_in(palette, level),
        StyleKind::HeaderMsg => BOLD@,
        StyleKind::Gutter | StyleKind::SecondaryLabel => gutter_style(palette),
        StyleKind::Addition => ADDITION@,
        StyleKind::Removal => REMOVAL@,
    }
}

impl StyleKind {
    pub fn prefix(self, palette: Palette) -> (r: &'static str)
        ensures
            r@ == style_prefix(palette, self),
    {
        match self {
            StyleKind::Level(level) | StyleKind::PrimaryLabel(level) => level.as_style_in(palette),
            StyleKind::HeaderMsg => BOLD,
            StyleKind::Gutter | StyleKind::SecondaryLabel => match palette {
                Palette::Ansi => GUTTER_STYLE,
                Palette::WindowsConsole => GUTTER_STYLE_WINDOWS,
            },
            StyleKind::Addition => ADDITION,
            StyleKind::Removal => REMOVAL,
        }
    }
}

} // verus!
