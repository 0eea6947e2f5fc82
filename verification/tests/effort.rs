use crab_code::effort::{validate_effort, validate_thinking};


#[test]
fn validate_effort_valid() {
    for v in ["low", "medium", "high", "max", "LOW", "High"] {
        assert!(validate_effort(v).is_ok(), "should accept {v:?}");
    }
}

#[test]
fn validate_effort_invalid() {
    assert!(validate_effort("bogus").is_err());
    assert!(validate_effort("").is_err());
}

#[test]
fn validate_thinking_valid() {
    for v in ["enabled", "adaptive", "disabled", "ENABLED", "Adaptive"] {
        assert!(validate_thinking(v).is_ok(), "should accept {v:?}");
    }
}

#[test]
fn validate_thinking_invalid() {
    assert!(validate_thinking("bogus").is_err());
    assert!(validate_thinking("").is_err());
}
