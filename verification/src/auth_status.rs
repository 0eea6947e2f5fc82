//! Which providers have credentials, as the `auth` commands report it.
//!
//! The environment and the token store are read by the caller; the
//! decisions on what was found are made here.
use vstd::prelude::*;
use crate::text::{concat_str, str_eq};

verus! {

/// A provider's credential status.
#[derive(Debug, Clone, Copy, PartialEq, Eq)]
pub struct ProviderStatus {
    /// The provider's name.
    pub provider: &'static str,
    /// The environment variable that holds its key.
    pub env_var: &'static str,
    /// Whether that variable is set and not empty.
    pub has_env: bool,
    /// Whether the token store holds a token for it.
    pub has_token_file: bool,
}

impl ProviderStatus {
    /// Whether the provider has a key from either source.
    pub fn is_configured(&self) -> (r: bool)
        ensures
            r == (self.has_env || self.has_token_file),
    {
        self.has_env || self.has_token_file
    }
}

/// The providers whose keys are checked, with their environment variables.
pub open spec fn checked() -> Seq<(Seq<char>, Seq<char>)> {
    seq![("anthropic"@, "ANTHROPIC_API_KEY"@), ("openai"@, "OPENAI_API_KEY"@)]
}

/// The providers whose keys are checked, with their environment variables,
/// in the order they are reported.
pub fn checked_providers() -> (r: Vec<(&'static str, &'static str)>)
    ensures
        r@.map_values(|p: (&'static str, &'static str)| (p.0@, p.1@)) == checked(),
{
    let r = vec![("anthropic", "ANTHROPIC_API_KEY"), ("openai", "OPENAI_API_KEY")];
    proof {
        assert(r@.map_values(|p: (&'static str, &'static str)| (p.0@, p.1@)) =~= checked());
    }
    r
}

/// The provider requests go to: the configured one, else `anthropic`.
pub open spec fn active(active_provider: Option<Seq<char>>) -> Seq<char> {
    match active_provider {
        Some(p) => p,
        None => "anthropic"@,
    }
}

/// Whether an optional text is present and not empty.
pub open spec fn non_empty(v: Option<Seq<char>>) -> bool {
    v matches Some(s) && s.len() > 0
}

/// The view of an optional string slice.
pub open spec fn opt_str(v: Option<&str>) -> Option<Seq<char>> {
    match v {
        Some(s) => Some(s@),
        None => None,
    }
}

/// Whether an optional string slice is present and not empty.
fn present(v: Option<&str>) -> (r: bool)
    ensures
        r == non_empty(opt_str(v)),
{
    match v {
        Some(s) => !s.is_empty(),
        None => false,
    }
}

/// The status of `provider`, given the value of its environment variable
/// and the access token the token store holds for it. The stored token
/// counts only for the active provider: a token of one provider does not
/// authenticate requests to another.
pub fn provider_status(
    provider: &'static str,
    env_var: &'static str,
    env_value: Option<&str>,
    active_provider: Option<&str>,
    stored_token: Option<&str>,
) -> (r: ProviderStatus)
    ensures
        r.provider == provider,
        r.env_var == env_var,
        r.has_env == non_empty(opt_str(env_value)),
        r.has_token_file == (active(opt_str(active_provider)) == provider@ && non_empty(
            opt_str(stored_token),
        )),
{
    let is_active = match active_provider {
        Some(a) => str_eq(a, provider),
        None => str_eq("anthropic", provider),
    };
    ProviderStatus {
        provider,
        env_var,
        has_env: present(env_value),
        has_token_file: is_active && present(stored_token),
    }
}

/// The status of each checked provider, in order, given the value of its
/// environment variable and the access token stored for it
/// (`env_values[i]` and `stored_tokens[i]` for the `i`-th provider of
/// [`checked_providers`]).
pub fn check_providers(
    active_provider: Option<&str>,
    env_values: &[Option<&str>],
    stored_tokens: &[Option<&str>],
) -> (r: Vec<ProviderStatus>)
    requires
        env_values.len() == checked().len(),
        stored_tokens.len() == checked().len(),
    ensures
        r.len() == checked().len(),
        forall|i: int|
            0 <= i < r.len() ==> {
                &&& (#[trigger] r[i]).provider@ == checked()[i].0
                &&& r[i].env_var@ == checked()[i].1
                &&& r[i].has_env == non_empty(opt_str(env_values[i]))
                &&& r[i].has_token_file == (active(opt_str(active_provider)) == checked()[i].0
                    && non_empty(opt_str(stored_tokens[i])))
            },
{
    let providers = checked_providers();
    let mut r: Vec<ProviderStatus> = Vec::new();
    let mut i: usize = 0;
    while i < providers.len()
        invariant
            i <= providers.len(),
            providers@.map_values(|p: (&'static str, &'static str)| (p.0@, p.1@)) == checked(),
            env_values.len() == checked().len(),
            stored_tokens.len() == checked().len(),
            r.len() == i,
            forall|k: int|
                0 <= k < i ==> {
                    &&& (#[trigger] r[k]).provider@ == checked()[k].0
                    &&& r[k].env_var@ == checked()[k].1
                    &&& r[k].has_env == non_empty(opt_str(env_values[k]))
                    &&& r[k].has_token_file == (active(opt_str(active_provider)) == checked()[k].0
                        && non_empty(opt_str(stored_tokens[k])))
                },
        decreases providers.len() - i,
    {
        let (name, var) = providers[i];
        assert((name@, var@) == checked()[i as int]);
        r.push(provider_status(name, var, env_values[i], active_provider, stored_tokens[i]));
        i += 1;
    }
    r
}

/// Where a provider's key comes from, as `auth status --json` reports it:
/// the token store first, then the environment.
pub open spec fn source_of(p: ProviderStatus) -> Seq<char> {
    if p.has_token_file {
        "tokens.json"@
    } else if p.has_env {
        "env"@
    } else {
        "none"@
    }
}

/// Where a provider's key comes from, for `auth status --json`.
pub fn status_source(p: &ProviderStatus) -> (r: &'static str)
    ensures
        r@ == source_of(*p),
{
    if p.has_token_file {
        "tokens.json"
    } else if p.has_env {
        "env"
    } else {
        "none"
    }
}

/// The marker and the detail of a provider's line in `auth status`.
pub open spec fn status_line_of(p: ProviderStatus) -> (Seq<char>, Seq<char>) {
    if p.has_token_file {
        ("ok"@, "configured (auth/tokens.json, env="@ + p.env_var@ + ")"@)
    } else if p.has_env {
        ("ok"@, "configured (env="@ + p.env_var@ + ")"@)
    } else {
        ("--"@, "not configured (set "@ + p.env_var@ + ")"@)
    }
}

/// The marker and the detail of a provider's line in `auth status`.
pub fn status_line(p: &ProviderStatus) -> (r: (&'static str, String))
    ensures
        (r.0@, r.1@) == status_line_of(*p),
{
    if p.has_token_file {
        let a = concat_str("configured (auth/tokens.json, env=", p.env_var);
        ("ok", concat_str(a.as_str(), ")"))
    } else if p.has_env {
        let a = concat_str("configured (env=", p.env_var);
        ("ok", concat_str(a.as_str(), ")"))
    } else {
        let a = concat_str("not configured (set ", p.env_var);
        ("--", concat_str(a.as_str(), ")"))
    }
}

/// Where `auth login` says a configured provider's key comes from.
pub fn login_source(p: &ProviderStatus) -> (r: &'static str)
    ensures
        r@ == (if p.has_token_file {
            "auth/tokens.json"@
        } else {
            "env var"@
        }),
{
    if p.has_token_file {
        "auth/tokens.json"
    } else {
        "env var"
    }
}

/// The environment variable that still authenticates `provider` after its
/// stored token is removed.
pub open spec fn logout_var_of(provider: Seq<char>) -> Seq<char> {
    if provider == "openai"@ || provider == "ollama"@ || provider == "vllm"@ {
        "OPENAI_API_KEY"@
    } else if provider == "deepseek"@ {
        "DEEPSEEK_API_KEY"@
    } else {
        "ANTHROPIC_API_KEY"@
    }
}

/// The environment variable that still authenticates `provider` after its
/// stored token is removed.
pub fn logout_env_var(provider: &str) -> (r: &'static str)
    ensures
        r@ == logout_var_of(provider@),
{
    if str_eq(provider, "openai") || str_eq(provider, "ollama") || str_eq(provider, "vllm") {
        "OPENAI_API_KEY"
    } else if str_eq(provider, "deepseek") {
        "DEEPSEEK_API_KEY"
    } else {
        "ANTHROPIC_API_KEY"
    }
}

} // verus!
