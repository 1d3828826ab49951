use vstd::prelude::*;

use crate::acow::Acow;
use crate::applicability::Applicability;
use crate::span::Span;

verus! {

/// A proposed edit of the source.
#[derive(Debug, PartialEq, Eq)]
pub enum Suggestion {
    Replacement { span: Span, message: Acow, replacement: Acow, applicability: Applicability },
    MultiPart { parts: Vec<(Span, Acow)>, message: Acow, applicability: Applicability },
}

} // verus!
