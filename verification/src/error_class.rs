//! How the agent loop classifies a failed request: worth retrying, a sign of
//! an overloaded upstream, or a prompt that no longer fits the context
//! window.
//!
//! Structured API errors are classified by their kind; any other error by
//! the words in its lowercased text.
use vstd::prelude::*;
use crate::auto_mode::{contains_str, has_sub};
use crate::error::{ApiErrorKind, Error, error_text, retryable};
use crate::text::{chars_of, lowercase, to_lowercase};

verus! {

/// Whether one of `words` occurs in `m`.
pub open spec fn mentions_any(m: Seq<char>, words: Seq<Seq<char>>) -> bool {
    exists|k: int| 0 <= k < words.len() && has_sub(m, #[trigger] words[k])
}

/// Words of an error text that mark a transient failure.
pub open spec fn transient_words() -> Seq<Seq<char>> {
    seq!["timeout"@, "timed out"@, "connection"@, "rate limit"@, "429"@, "529"@, "overloaded"@]
}

/// Words of an error text that mark an overloaded or rate-limited upstream.
pub open spec fn overloaded_words() -> Seq<Seq<char>> {
    seq!["529"@, "overloaded"@, "rate limit"@, "429"@]
}

/// Words of a provider message that describe an over-long prompt.
pub open spec fn too_long_words() -> Seq<Seq<char>> {
    seq![
        "prompt is too long"@,
        "prompt too long"@,
        "too many tokens"@,
        "context length exceeded"@,
        "maximum context length"@,
        "input too long"@,
    ]
}

fn transient_list() -> (r: Vec<&'static str>)
    ensures
        r@.map_values(|w: &'static str| w@) == transient_words(),
{
    let r = vec!["timeout", "timed out", "connection", "rate limit", "429", "529", "overloaded"];
    proof {
        assert(r@.map_values(|w: &'static str| w@) =~= transient_words());
    }
    r
}

fn overloaded_list() -> (r: Vec<&'static str>)
    ensures
        r@.map_values(|w: &'static str| w@) == overloaded_words(),
{
    let r = vec!["529", "overloaded", "rate limit", "429"];
    proof {
        assert(r@.map_values(|w: &'static str| w@) =~= overloaded_words());
    }
    r
}

fn too_long_list() -> (r: Vec<&'static str>)
    ensures
        r@.map_values(|w: &'static str| w@) == too_long_words(),
{
    let r = vec![
        "prompt is too long",
        "prompt too long",
        "too many tokens",
        "context length exceeded",
        "maximum context length",
        "input too long",
    ];
    proof {
        assert(r@.map_values(|w: &'static str| w@) =~= too_long_words());
    }
    r
}

/// Whether the lowercase form of `text` holds one of `words`.
fn lowercase_mentions(text: &str, words: &Vec<&'static str>) -> (r: bool)
    ensures
        r == mentions_any(lowercase(text@), words@.map_values(|w: &'static str| w@)),
{
    let lower = to_lowercase(text);
    let m = chars_of(lower.as_str());
    let ghost wv = words@.map_values(|w: &'static str| w@);
    let mut k: usize = 0;
    while k < words.len()
        invariant
            k <= words@.len(),
            m@ == lowercase(text@),
            wv == words@.map_values(|w: &'static str| w@),
            forall|j: int| 0 <= j < k ==> !has_sub(m@, #[trigger] wv[j]),
        decreases words@.len() - k,
    {
        assert(wv[k as int] == words@[k as int]@);
        if contains_str(m.as_slice(), words[k]) {
            return true;
        }
        k += 1;
    }
    false
}

/// Whether a provider error message describes an over-long prompt.
pub fn message_is_prompt_too_long(message: &str) -> (r: bool)
    ensures
        r == mentions_any(lowercase(message@), too_long_words()),
{
    lowercase_mentions(message, &too_long_list())
}

/// What a classification by words says of an error: for an `Io` error,
/// whose text is not known exactly, the words of some text starting with
/// what is known of it.
pub open spec fn text_classifies(e: Error, words: Seq<Seq<char>>, r: bool) -> bool {
    if e is Io {
        exists|t: Seq<char>| error_text(e).is_prefix_of(t) && r == #[trigger] mentions_any(lowercase(t), words)
    } else {
        r == mentions_any(lowercase(error_text(e)), words)
    }
}

/// Whether the lowercased text of `err` holds one of `words`.
fn error_mentions(err: &Error, words: &Vec<&'static str>) -> (r: bool)
    ensures
        text_classifies(*err, words@.map_values(|w: &'static str| w@), r),
{
    let text = err.to_string();
    let r = lowercase_mentions(text.as_str(), words);
    proof {
        if err is Io {
            assert(error_text(*err).is_prefix_of(text@));
        }
    }
    r
}

/// Whether a failed request is worth retrying on the same model: by kind
/// for an API error, else when its text mentions a timeout, a connection,
/// a rate limit, 429, 529 or an overload.
pub fn is_transient_error(err: &Error) -> (r: bool)
    ensures
        match *err {
            Error::Api { kind, .. } => r == retryable(kind),
            _ => text_classifies(*err, transient_words(), r),
        },
{
    match err.api_kind() {
        Some(kind) => kind.is_retryable(),
        None => error_mentions(err, &transient_list()),
    }
}

/// Whether a failure shows an overloaded or rate-limited upstream, the
/// trigger for falling back to a secondary model: by kind for an API
/// error, else when its text mentions 529, an overload, a rate limit or
/// 429.
pub fn is_overloaded_error(err: &Error) -> (r: bool)
    ensures
        match *err {
            Error::Api { kind, .. } => r == (kind == ApiErrorKind::RateLimited),
            _ => text_classifies(*err, overloaded_words(), r),
        },
{
    match err.api_kind() {
        Some(kind) => kind.is_overloaded(),
        None => error_mentions(err, &overloaded_list()),
    }
}

/// Whether a failure means the prompt exceeded the model's context window:
/// by kind for an API error, else by the words of its text.
pub fn is_prompt_too_long_error(err: &Error) -> (r: bool)
    ensures
        match *err {
            Error::Api { kind, .. } => r == (kind == ApiErrorKind::PromptTooLong),
            _ => text_classifies(*err, too_long_words(), r),
        },
{
    match err.api_kind() {
        Some(kind) => match kind {
            ApiErrorKind::PromptTooLong => true,
            _ => false,
        },
        None => error_mentions(err, &too_long_list()),
    }
}

/// The category a provider error was classified into.
#[derive(Debug, Clone, Copy, PartialEq, Eq, Structural)]
pub enum ErrorCategory {
    Transient,
    RateLimit,
    Auth,
    InvalidRequest,
    ServerError,
    NetworkError,
    Timeout,
    Unknown,
}

/// The API error kind of a category.
pub open spec fn category_kind(c: ErrorCategory) -> ApiErrorKind {
    match c {
        ErrorCategory::Transient => ApiErrorKind::Transient,
        ErrorCategory::RateLimit => ApiErrorKind::RateLimited,
        ErrorCategory::Auth => ApiErrorKind::Auth,
        ErrorCategory::InvalidRequest | ErrorCategory::ServerError => ApiErrorKind::InvalidRequest,
        ErrorCategory::NetworkError => ApiErrorKind::Network,
        ErrorCategory::Timeout => ApiErrorKind::Timeout,
        ErrorCategory::Unknown => ApiErrorKind::Unknown,
    }
}

/// The API error kind for a classified provider error: `PromptTooLong`
/// when the message describes an over-long prompt (the provider answers
/// such a prompt with a plain 400), else the kind of the category.
pub fn api_kind_from_category(category: ErrorCategory, message: &str) -> (k: ApiErrorKind)
    ensures
        mentions_any(lowercase(message@), too_long_words()) ==> k == ApiErrorKind::PromptTooLong,
        !mentions_any(lowercase(message@), too_long_words()) ==> k == category_kind(category),
{
    if message_is_prompt_too_long(message) {
        return ApiErrorKind::PromptTooLong;
    }
    match category {
        ErrorCategory::Transient => ApiErrorKind::Transient,
        ErrorCategory::RateLimit => ApiErrorKind::RateLimited,
        ErrorCategory::Auth => ApiErrorKind::Auth,
        ErrorCategory::InvalidRequest | ErrorCategory::ServerError => ApiErrorKind::InvalidRequest,
        ErrorCategory::NetworkError => ApiErrorKind::Network,
        ErrorCategory::Timeout => ApiErrorKind::Timeout,
        ErrorCategory::Unknown => ApiErrorKind::Unknown,
    }
}

/// Every failure taken for an overloaded upstream is also taken for a
/// transient one, so falling back to another model never skips a retry
/// that a transient failure would get: for an API error by its kind, for
/// any other by the words of its (lowercased) text `m`.
pub proof fn law_overloaded_is_transient(kind: ApiErrorKind, m: Seq<char>)
    ensures
        kind == ApiErrorKind::RateLimited ==> retryable(kind),
        mentions_any(m, overloaded_words()) ==> mentions_any(m, transient_words()),
{
    if mentions_any(m, overloaded_words()) {
        let k = choose|k: int| 0 <= k < overloaded_words().len() && has_sub(m, #[trigger] overloaded_words()[k]);
        let w = overloaded_words()[k];
        if k == 0 {
            assert(transient_words()[5] == w);
        } else if k == 1 {
            assert(transient_words()[6] == w);
        } else if k == 2 {
            assert(transient_words()[3] == w);
        } else {
            assert(transient_words()[4] == w);
        }
    }
}


// ── Failures of a response stream ──────────────────────────────────────

/// The kind `api_kind_from_category` gives.
pub open spec fn kind_for(category: ErrorCategory, message: Seq<char>) -> ApiErrorKind {
    if mentions_any(lowercase(message), too_long_words()) {
        ApiErrorKind::PromptTooLong
    } else {
        category_kind(category)
    }
}

/// The error an `Error` event of a response stream becomes: an API error
/// with the text `SSE stream error: ` and the event's message, of the kind
/// of the category the provider's classifier puts the message in, a
/// network failure when it cannot tell.
pub fn sse_stream_error(category: ErrorCategory, message: &str) -> (r: Error)
    ensures
        r matches Error::Api { status, kind, retry_after, message: m } && status is None
            && retry_after is None && m@ == "SSE stream error: "@ + message@ && kind == (if category
            == ErrorCategory::Unknown {
            ApiErrorKind::Network
        } else {
            kind_for(category, message@)
        }),
{
    let kind = match category {
        ErrorCategory::Unknown => ApiErrorKind::Network,
        other => api_kind_from_category(other, message),
    };
    let text = crate::text::concat_str("SSE stream error: ", message);
    Error::api(kind, text.as_str())
}

/// The text of the error for a stream cut off before its end.
pub const STREAM_CUT_OFF: &'static str = "stream ended without MessageStop (connection closed mid-response)";

/// The failure of a response stream that ended without its closing
/// `MessageStop` while nobody cancelled it: the connection closed mid-way,
/// which is retried as a network failure and whose partial message is
/// dropped. `None` when the stream was complete or cancelled.
pub fn stream_end_error(saw_message_stop: bool, cancelled: bool) -> (r: Option<Error>)
    ensures
        r is Some <==> (!saw_message_stop && !cancelled),
        r matches Some(e) ==> (e matches Error::Api { status, kind, retry_after, message: m } && status is None
            && retry_after is None && kind == ApiErrorKind::Network && m@ == STREAM_CUT_OFF@),
{
    if !saw_message_stop && !cancelled {
        Some(Error::api(ApiErrorKind::Network, STREAM_CUT_OFF))
    } else {
        None
    }
}

} // verus!
