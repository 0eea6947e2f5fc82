//! Kinds of proactive suggestions offered to the user.
use vstd::prelude::*;

verus! {

/// What a proactive suggestion offers.
#[derive(Debug, Clone, Copy, PartialEq, Eq, Structural)]
pub enum SuggestionKind {
    Autocomplete,
    NextStep,
    Warning,
}

} // verus!
