//! Validation of the `--effort` and `--thinking` values.
use vstd::prelude::*;
use crate::text::{concat_str, lowercase, str_eq, to_lowercase};

verus! {

/// The efforts accepted, in lowercase.
pub open spec fn valid_effort(v: Seq<char>) -> bool {
    v == "low"@ || v == "medium"@ || v == "high"@ || v == "max"@
}

/// The thinking modes accepted, in lowercase.
pub open spec fn valid_thinking(v: Seq<char>) -> bool {
    v == "enabled"@ || v == "adaptive"@ || v == "disabled"@
}

/// The message for an effort that is not accepted, quoting it in lowercase.
pub open spec fn effort_error(lower: Seq<char>) -> Seq<char> {
    "invalid --effort value: '"@ + lower + "'. Valid: low, medium, high, max"@
}

/// The message for a thinking mode that is not accepted, quoting it in
/// lowercase.
pub open spec fn thinking_error(lower: Seq<char>) -> Seq<char> {
    "invalid --thinking value: '"@ + lower + "'. Valid: enabled, adaptive, disabled"@
}

/// Validate an `--effort` value already in lowercase.
pub fn check_effort_lowercase(lower: &str) -> (r: Result<(), String>)
    ensures
        r is Ok <==> valid_effort(lower@),
        r matches Err(m) ==> m@ == effort_error(lower@),
{
    if str_eq(lower, "low") || str_eq(lower, "medium") || str_eq(lower, "high") || str_eq(lower, "max") {
        Ok(())
    } else {
        let a = concat_str("invalid --effort value: '", lower);
        Err(concat_str(a.as_str(), "'. Valid: low, medium, high, max"))
    }
}

/// Validate an `--effort` value: `low`, `medium`, `high` or `max`, in any
/// case.
pub fn validate_effort(effort: &str) -> (r: Result<(), String>)
    ensures
        r is Ok <==> valid_effort(lowercase(effort@)),
        r matches Err(m) ==> m@ == effort_error(lowercase(effort@)),
{
    let lower = to_lowercase(effort);
    check_effort_lowercase(lower.as_str())
}

/// Validate a `--thinking` value already in lowercase.
pub fn check_thinking_lowercase(lower: &str) -> (r: Result<(), String>)
    ensures
        r is Ok <==> valid_thinking(lower@),
        r matches Err(m) ==> m@ == thinking_error(lower@),
{
    if str_eq(lower, "enabled") || str_eq(lower, "adaptive") || str_eq(lower, "disabled") {
        Ok(())
    } else {
        let a = concat_str("invalid --thinking value: '", lower);
        Err(concat_str(a.as_str(), "'. Valid: enabled, adaptive, disabled"))
    }
}

/// Validate a `--thinking` value: `enabled`, `adaptive` or `disabled`, in
/// any case.
pub fn validate_thinking(thinking: &str) -> (r: Result<(), String>)
    ensures
        r is Ok <==> valid_thinking(lowercase(thinking@)),
        r matches Err(m) ==> m@ == thinking_error(lowercase(thinking@)),
{
    let lower = to_lowercase(thinking);
    check_thinking_lowercase(lower.as_str())
}

} // verus!
