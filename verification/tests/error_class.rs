use crab_code::error::{ApiErrorKind, Error};
use crab_code::error_class::{
    api_kind_from_category, is_overloaded_error, is_prompt_too_long_error, is_transient_error,
    message_is_prompt_too_long, sse_stream_error, stream_end_error, ErrorCategory, STREAM_CUT_OFF,
};

// ─── is_transient_error tests ───

#[test]
fn transient_error_timeout() {
    let err = Error::Other("request timed out".into());
    assert!(is_transient_error(&err));
}

#[test]
fn transient_error_connection() {
    let err = Error::Other("connection refused".into());
    assert!(is_transient_error(&err));
}

#[test]
fn transient_error_rate_limit() {
    let err = Error::Other("SSE stream error: rate limit exceeded 429".into());
    assert!(is_transient_error(&err));
}

#[test]
fn transient_error_overloaded() {
    let err = Error::Other("server overloaded".into());
    assert!(is_transient_error(&err));
}

#[test]
fn non_transient_error_json() {
    let err = Error::Other("invalid JSON".into());
    assert!(!is_transient_error(&err));
}

#[test]
fn non_transient_error_auth() {
    let err = Error::Other("unauthorized: invalid API key".into());
    assert!(!is_transient_error(&err));
}

// ─── is_overloaded_error tests ───

#[test]
fn overloaded_error_529() {
    let err = Error::Other("HTTP 529: model is overloaded".into());
    assert!(is_overloaded_error(&err));
}

#[test]
fn overloaded_error_429() {
    let err = Error::Other("rate limit exceeded 429".into());
    assert!(is_overloaded_error(&err));
}

#[test]
fn overloaded_error_rate_limit_text() {
    let err = Error::Other("Rate Limit exceeded".into());
    assert!(is_overloaded_error(&err));
}

#[test]
fn overloaded_error_overloaded_text() {
    let err = Error::Other("server overloaded, try again".into());
    assert!(is_overloaded_error(&err));
}

#[test]
fn not_overloaded_error_auth() {
    let err = Error::Other("unauthorized: invalid API key".into());
    assert!(!is_overloaded_error(&err));
}

#[test]
fn not_overloaded_error_json() {
    let err = Error::Other("invalid JSON response".into());
    assert!(!is_overloaded_error(&err));
}

// ─── is_prompt_too_long_error tests ───

#[test]
fn ptl_error_prompt_is_too_long() {
    let err = Error::Other(
        "SSE stream error: prompt is too long: 250000 tokens > 200000 maximum".into(),
    );
    assert!(is_prompt_too_long_error(&err));
}

#[test]
fn ptl_error_context_length_exceeded() {
    let err = Error::Other("This model's maximum context length exceeded".into());
    assert!(is_prompt_too_long_error(&err));
}

#[test]
fn ptl_error_too_many_tokens() {
    let err = Error::Other("too many tokens in the request".into());
    assert!(is_prompt_too_long_error(&err));
}

#[test]
fn ptl_error_input_too_long() {
    let err = Error::Other("input too long for this model".into());
    assert!(is_prompt_too_long_error(&err));
}

#[test]
fn not_ptl_error_other() {
    let err = Error::Other("invalid API key".into());
    assert!(!is_prompt_too_long_error(&err));
}

#[test]
fn not_ptl_error_overloaded() {
    let err = Error::Other("server overloaded".into());
    assert!(!is_prompt_too_long_error(&err));
}

#[test]
fn string_fallback_still_classifies_unstructured_errors() {
    // Errors that never passed through the API mapping (Error::Other) still
    // get a narrow substring classification.
    assert!(is_transient_error(&Error::Other("connection reset by peer".into())));
    assert!(is_overloaded_error(&Error::Other("model is overloaded (529)".into())));
    assert!(is_prompt_too_long_error(&Error::Other("context length exceeded".into())));
}

// ─── further cases ───

#[test]
fn api_errors_classify_by_kind() {
    let ptl = Error::api(ApiErrorKind::PromptTooLong, "timeout while overloaded");
    assert!(is_prompt_too_long_error(&ptl));
    assert!(!is_transient_error(&ptl));
    assert!(!is_overloaded_error(&ptl));

    let limited = Error::api(ApiErrorKind::RateLimited, "x");
    assert!(is_transient_error(&limited));
    assert!(is_overloaded_error(&limited));

    let auth = Error::api(ApiErrorKind::Auth, "connection");
    assert!(!is_transient_error(&auth));
}

#[test]
fn config_error_text_is_classified_with_its_prefix() {
    // "config error: " precedes the message in the text that is searched.
    assert!(is_transient_error(&Error::Config("connection lost".into())));
    assert!(!is_transient_error(&Error::Config("bad value".into())));
}

#[test]
fn category_maps_to_kind() {
    assert_eq!(api_kind_from_category(ErrorCategory::Transient, "internal"), ApiErrorKind::Transient);
    assert_eq!(api_kind_from_category(ErrorCategory::RateLimit, "slow down"), ApiErrorKind::RateLimited);
    assert_eq!(api_kind_from_category(ErrorCategory::Auth, "bad key"), ApiErrorKind::Auth);
    assert_eq!(api_kind_from_category(ErrorCategory::ServerError, "boom"), ApiErrorKind::InvalidRequest);
    assert_eq!(api_kind_from_category(ErrorCategory::NetworkError, "reset"), ApiErrorKind::Network);
    assert_eq!(api_kind_from_category(ErrorCategory::Timeout, "slow"), ApiErrorKind::Timeout);
    assert_eq!(api_kind_from_category(ErrorCategory::Unknown, "?"), ApiErrorKind::Unknown);
    assert_eq!(
        api_kind_from_category(ErrorCategory::InvalidRequest, "Prompt Is Too Long: 250000 tokens"),
        ApiErrorKind::PromptTooLong
    );
}

#[test]
fn prompt_too_long_messages() {
    assert!(message_is_prompt_too_long("MAXIMUM CONTEXT LENGTH is 200000"));
    assert!(message_is_prompt_too_long("prompt too long"));
    assert!(!message_is_prompt_too_long("prompt is fine"));
}

#[test]
fn sse_error_event_becomes_an_api_error() {
    let e = sse_stream_error(ErrorCategory::Unknown, "boom");
    assert_eq!(e.api_kind(), Some(ApiErrorKind::Network));
    assert_eq!(e.to_string(), "API error: SSE stream error: boom");
    let e = sse_stream_error(ErrorCategory::RateLimit, "slow down");
    assert_eq!(e.api_kind(), Some(ApiErrorKind::RateLimited));
}

#[test]
fn stream_cut_off_is_a_network_failure_unless_cancelled() {
    let e = stream_end_error(false, false).unwrap();
    assert_eq!(e.api_kind(), Some(ApiErrorKind::Network));
    assert!(e.to_string().ends_with(STREAM_CUT_OFF));
    assert!(stream_end_error(true, false).is_none());
    assert!(stream_end_error(false, true).is_none());
}
