use vstd::prelude::*;

use crate::acow::Acow;
use crate::context::DiagnosticContext;
use crate::level::DiagnosticLevel;
use crate::span::Span;
use crate::sub_diag::SubDiagnostic;
use crate::suggestion::Suggestion;

verus! {

/// Error values of a user's program that describe themselves as a diagnostic.
pub trait IntoDiagnostic {
    fn into_diagnostic(self, cx: DiagnosticContext<'_>) -> Diagnostic;
}

/// A finished diagnostic: a headline, the spans it points at, attached notes
/// and suggestions.
#[derive(Debug)]
pub struct Diagnostic {
    pub level: DiagnosticLevel,
    pub primary: Acow,
    pub code: Option<Acow>,
    pub spans: Vec<Span>,
    pub suggestions: Vec<Suggestion>,
    pub children: Vec<SubDiagnostic>,
}

} // verus!
