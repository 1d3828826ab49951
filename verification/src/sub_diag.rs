use vstd::prelude::*;

use crate::acow::{Acow, IntoAcow};
use crate::level::DiagnosticLevel;
use crate::span::Span;
use crate::suggestion::Suggestion;

verus! {

/// A note, help or label attached to a diagnostic; it may carry notes of its own.
#[derive(Debug)]
pub struct SubDiagnostic {
    pub level: DiagnosticLevel,
    pub message: Acow,
    pub spans: Vec<Span>,
    pub suggestions: Vec<Suggestion>,
    pub children: Vec<SubDiagnostic>,
}

impl SubDiagnostic {
    pub fn new_in<M: IntoAcow>(level: DiagnosticLevel, message: M) -> (r: Self)
        ensures
            r.level == level,
            r.message@ == message.text(),
            r.spans@.len() == 0,
            r.suggestions@.len() == 0,
            r.children@.len() == 0,
    {
        SubDiagnostic {
            level,
            message: message.into_acow(),
            spans: Vec::new(),
            suggestions: Vec::new(),
            children: Vec::new(),
        }
    }
}

} // verus!
