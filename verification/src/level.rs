use vstd::prelude::*;

use crate::styles::{Palette, STYLE_ERROR, STYLE_HELP, STYLE_NOTE, STYLE_WARNING, STYLE_WARNING_WINDOWS};

verus! {

/// How severe a diagnostic, or a note attached to one, is.
#[derive(Debug, Copy, Clone, PartialEq, Eq, Structural)]
#[non_exhaustive]
pub enum DiagnosticLevel {
    Error,
    Warning,
    Help,
    Note,
    FailureNote,
}

/// The word a level is printed as.
pub open spec fn level_name(level: DiagnosticLevel) -> Seq<char> {
    match level {
        DiagnosticLevel::Error | DiagnosticLevel::FailureNote => "error"@,
        DiagnosticLevel::Warning => "warning"@,
        DiagnosticLevel::Help => "help"@,
        DiagnosticLevel::Note => "note"@,
    }
}

/// The terminal style a level is printed in, in a palette.
pub open spec fn level_style_in(palette: Palette, level: DiagnosticLevel) -> Seq<char> {
    match (palette, level) {
        (Palette::WindowsConsole, DiagnosticLevel::Warning) => STYLE_WARNING_WINDOWS@,
        _ => level_style(level),
    }
}

/// The terminal style a level is printed in on ANSI terminals.
pub open spec fn level_style(level: DiagnosticLevel) -> Seq<char> {
    match level {
        DiagnosticLevel::Error | DiagnosticLevel::FailureNote => STYLE_ERROR@,
        DiagnosticLevel::Warning => STYLE_WARNING@,
        DiagnosticLevel::Help => STYLE_HELP@,
        DiagnosticLevel::Note => STYLE_NOTE@,
    }
}

impl DiagnosticLevel {
    pub fn as_str(&self) -> (r: &'static str)
        ensures
            r@ == level_name(*self),
    {
        match self {
            DiagnosticLevel::Error | DiagnosticLevel::FailureNote => "error",
            DiagnosticLevel::Warning => "warning",
            DiagnosticLevel::Help => "help",
            DiagnosticLevel::Note => "note",
        }
    }

    /// The style of this level in a palette.
    pub fn as_style_in(&self, palette: Palette) -> (r: &'static str)
        ensures
            r@ == level_style_in(palette, *self),
    {
        match (palette, self) {
            (Palette::WindowsConsole, DiagnosticLevel::Warning) => STYLE_WARNING_WINDOWS,
            _ => self.as_style(),
        }
    }

    /// The style of this level on ANSI terminals.
    pub fn as_style(&self) -> (r: &'static str)
        ensures
            r@ == level_style(*self),
    {
        match self {
            DiagnosticLevel::Error | DiagnosticLevel::FailureNote => STYLE_ERROR,
            DiagnosticLevel::Warning => STYLE_WARNING,
            DiagnosticLevel::Help => STYLE_HELP,
            DiagnosticLevel::Note => STYLE_NOTE,
        }
    }
}

} // verus!
