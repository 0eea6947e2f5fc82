use crab_code::error::{ApiErrorKind, Error};
use std::time::Duration;


#[test]
fn io_error_from_conversion() {
    let io_err = std::io::Error::new(std::io::ErrorKind::NotFound, "file not found");
    let err: Error = io_err.into();
    assert!(matches!(err, Error::Io(_)));
    assert!(err.to_string().contains("file not found"));
}

#[test]
fn config_error_display() {
    let err = Error::Config("bad value".into());
    assert_eq!(err.to_string(), "config error: bad value");
}

#[test]
fn api_error_display_with_status() {
    let err = Error::Api {
        status: Some(429),
        kind: ApiErrorKind::RateLimited,
        retry_after: Some(Duration::from_secs(2)),
        message: "rate limited".into(),
    };
    assert_eq!(err.to_string(), "API error (status 429): rate limited");
    assert_eq!(err.api_kind(), Some(ApiErrorKind::RateLimited));
    assert_eq!(err.retry_after(), Some(Duration::from_secs(2)));
}

#[test]
fn api_error_display_without_status() {
    let err = Error::api(ApiErrorKind::Network, "connection reset");
    assert_eq!(err.to_string(), "API error: connection reset");
    assert_eq!(err.api_kind(), Some(ApiErrorKind::Network));
    assert_eq!(err.retry_after(), None);
}

#[test]
fn api_error_kind_retryable() {
    assert!(ApiErrorKind::Transient.is_retryable());
    assert!(ApiErrorKind::RateLimited.is_retryable());
    assert!(ApiErrorKind::Network.is_retryable());
    assert!(ApiErrorKind::Timeout.is_retryable());
    assert!(!ApiErrorKind::Auth.is_retryable());
    assert!(!ApiErrorKind::InvalidRequest.is_retryable());
    assert!(!ApiErrorKind::PromptTooLong.is_retryable());
    assert!(!ApiErrorKind::Unknown.is_retryable());
}

#[test]
fn api_error_kind_overloaded() {
    assert!(ApiErrorKind::RateLimited.is_overloaded());
    assert!(!ApiErrorKind::Transient.is_overloaded());
    assert!(!ApiErrorKind::Timeout.is_overloaded());
}

#[test]
fn non_api_error_has_no_kind() {
    let err = Error::Other("boom".into());
    assert_eq!(err.api_kind(), None);
    assert_eq!(err.retry_after(), None);
}

#[test]
fn auth_error_display() {
    let err = Error::Auth("token expired".into());
    assert_eq!(err.to_string(), "auth error: token expired");
}

#[test]
fn tool_error_display() {
    let err = Error::Tool("bash failed".into());
    assert_eq!(err.to_string(), "tool error: bash failed");
}

#[test]
fn permission_error_display() {
    let err = Error::Permission("denied".into());
    assert_eq!(err.to_string(), "permission error: denied");
}

#[test]
fn other_error_display() {
    let err = Error::Other("something went wrong".into());
    assert_eq!(err.to_string(), "something went wrong");
}

