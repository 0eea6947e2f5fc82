//! The error type shared by the agent's components, with a structured
//! classification of API failures for retry decisions.
use vstd::prelude::*;
use std::time::Duration;
use crate::text::{concat_str, decimal, u64_to_string};

verus! {

/// Coarse classification of an API-layer failure.
///
/// Derived from HTTP status codes and transport conditions, this lets the
/// agent loop decide retry and backoff by matching on structured data.
#[derive(Debug, Clone, Copy, PartialEq, Eq, Structural)]
pub enum ApiErrorKind {
    /// Temporary server-side failure (5xx other than 501).
    Transient,
    /// Rate limited or overloaded (429, 529).
    RateLimited,
    /// The prompt exceeded the model's context window.
    PromptTooLong,
    /// Authentication or authorization failure (401, 403).
    Auth,
    /// Client-side invalid request that retrying will not fix (400, 422, 501).
    InvalidRequest,
    /// Network-level failure (DNS, connection refused, reset).
    Network,
    /// Request timed out.
    Timeout,
    /// Unclassified.
    Unknown,
}

/// The kinds worth retrying on the same model.
pub open spec fn retryable(k: ApiErrorKind) -> bool {
    k == ApiErrorKind::Transient || k == ApiErrorKind::RateLimited || k == ApiErrorKind::Network
        || k == ApiErrorKind::Timeout
}

impl ApiErrorKind {
    /// Whether an error of this kind is worth retrying on the same model.
    pub fn is_retryable(self) -> (r: bool)
        ensures
            r == retryable(self),
    {
        match self {
            ApiErrorKind::Transient | ApiErrorKind::RateLimited | ApiErrorKind::Network
            | ApiErrorKind::Timeout => true,
            _ => false,
        }
    }

    /// Whether this kind indicates an overloaded or rate-limited upstream,
    /// which is the trigger for falling back to a secondary model.
    pub fn is_overloaded(self) -> (r: bool)
        ensures
            r == (self == ApiErrorKind::RateLimited),
    {
        match self {
            ApiErrorKind::RateLimited => true,
            _ => false,
        }
    }
}

#[verifier::external_type_specification]
#[verifier::external_body]
pub struct ExIoError(std::io::Error);

/// The error type of the agent's components.
#[derive(Debug)]
pub enum Error {
    /// An I/O failure.
    Io(std::io::Error),
    /// A configuration problem.
    Config(String),
    /// Structured API failure carrying the originating HTTP status, a coarse
    /// `kind` for retry decisions, and an optional server-provided retry delay.
    Api { status: Option<u16>, kind: ApiErrorKind, retry_after: Option<Duration>, message: String },
    /// An authentication failure.
    Auth(String),
    /// A tool failure.
    Tool(String),
    /// A permission failure.
    Permission(String),
    /// Anything else.
    Other(String),
}

/// The text of an `Api` error: `API error`, then ` (status N)` when a
/// status is known, then `: ` and the message.
pub open spec fn api_text(status: Option<u16>, message: Seq<char>) -> Seq<char> {
    let head = match status {
        Some(s) => "API error (status "@ + decimal(s as nat) + ")"@,
        None => "API error"@,
    };
    head + ": "@ + message
}

/// The text of every error but `Io`, whose text comes from the I/O error.
pub open spec fn error_text(e: Error) -> Seq<char> {
    match e {
        Error::Io(_) => "I/O error: "@,
        Error::Config(m) => "config error: "@ + m@,
        Error::Api { status, message, .. } => api_text(status, message@),
        Error::Auth(m) => "auth error: "@ + m@,
        Error::Tool(m) => "tool error: "@ + m@,
        Error::Permission(m) => "permission error: "@ + m@,
        Error::Other(m) => m@,
    }
}

/// The display text of an I/O error.
///
/// Calls `<std::io::Error as Display>::fmt`; nothing is stated of the text,
/// which std documents only loosely.
#[verifier::external_body]
fn io_error_message(e: &std::io::Error) -> String {
    e.to_string()
}

impl Error {
    /// A structured API error with no status or retry hint.
    pub fn api(kind: ApiErrorKind, message: &str) -> (r: Self)
        ensures
            r matches Error::Api { status, kind: k, retry_after, message: m } && status is None && k
                == kind && retry_after is None && m@ == message@,
    {
        Error::Api { status: None, kind, retry_after: None, message: message.to_owned() }
    }

    /// The structured API `kind`, if this is an `Api` error.
    pub fn api_kind(&self) -> (r: Option<ApiErrorKind>)
        ensures
            r == match *self {
                Error::Api { kind, .. } => Some(kind),
                _ => None,
            },
    {
        match self {
            Error::Api { kind, .. } => Some(*kind),
            _ => None,
        }
    }

    /// Server-provided retry delay, if this is an `Api` error carrying one.
    pub fn retry_after(&self) -> (r: Option<Duration>)
        ensures
            r == match *self {
                Error::Api { retry_after, .. } => retry_after,
                _ => None,
            },
    {
        match self {
            Error::Api { retry_after, .. } => *retry_after,
            _ => None,
        }
    }

    /// The error as text. For `Io` the prefix `I/O error: ` is followed by
    /// the I/O error's own text.
    pub fn to_string(&self) -> (r: String)
        ensures
            self is Io ==> error_text(*self).is_prefix_of(r@),
            !(self is Io) ==> r@ == error_text(*self),
    {
        match self {
            Error::Io(e) => {
                let m = io_error_message(e);
                concat_str("I/O error: ", m.as_str())
            },
            Error::Config(m) => concat_str("config error: ", m.as_str()),
            Error::Api { status, message, .. } => {
                let head = match status {
                    Some(s) => {
                        let digits = u64_to_string(*s as u64);
                        let a = concat_str("API error (status ", digits.as_str());
                        concat_str(a.as_str(), ")")
                    },
                    None => "API error".to_owned(),
                };
                let b = concat_str(head.as_str(), ": ");
                concat_str(b.as_str(), message.as_str())
            },
            Error::Auth(m) => concat_str("auth error: ", m.as_str()),
            Error::Tool(m) => concat_str("tool error: ", m.as_str()),
            Error::Permission(m) => concat_str("permission error: ", m.as_str()),
            Error::Other(m) => m.clone(),
        }
    }
}

impl From<std::io::Error> for Error {
    fn from(e: std::io::Error) -> (r: Self) {
        Error::Io(e)
    }
}

impl vstd::std_specs::convert::FromSpecImpl<std::io::Error> for Error {
    open spec fn obeys_from_spec() -> bool {
        true
    }

    open spec fn from_spec(e: std::io::Error) -> Self {
        Error::Io(e)
    }
}

} // verus!
