use vstd::prelude::*;

verus! {

/// How confident a suggestion is that applying it gives the intended code.
#[derive(Debug, Clone, Copy, PartialEq, Eq, Structural)]
pub enum Applicability {
    MachineApplicable,
    MaybeIncorrect,
    HasPlaceholders,
    Unspecified,
}

} // verus!
