//! Start-up decisions of the command-line agent: whether coordinator mode
//! is on, and how to launch when no prompt was given.
use vstd::prelude::*;
use crate::text::{opt_string_view, str_eq};

verus! {

/// The environment variable that turns coordinator mode on.
pub open spec fn coordinator_var() -> Seq<char> {
    "CRAB_COORDINATOR_MODE"@
}

/// Whether a value of the coordinator variable turns coordinator mode on:
/// exactly `1`, `true` or `TRUE`.
pub open spec fn enables_coordinator(v: Option<Seq<char>>) -> bool {
    v matches Some(s) && (s == "1"@ || s == "true"@ || s == "TRUE"@)
}

/// Whether the value of the coordinator variable, when set, turns
/// coordinator mode on.
pub fn coordinator_value_enabled(value: Option<&str>) -> (r: bool)
    ensures
        r == enables_coordinator(match value {
            Some(s) => Some(s@),
            None => None,
        }),
{
    match value {
        Some(v) => str_eq(v, "1") || str_eq(v, "true") || str_eq(v, "TRUE"),
        None => false,
    }
}

/// Whether coordinator mode is on, reading the coordinator variable through
/// `lookup`.
pub fn coordinator_mode_from<F: Fn(&str) -> Option<String>>(lookup: F) -> (r: bool)
    requires
        forall|k: &str| call_requires(lookup, (k,)),
    ensures
        exists|v: Option<String>| call_ensures(lookup, ("CRAB_COORDINATOR_MODE",), v) && r
            == enables_coordinator(opt_string_view(v)),
{
    let key = "CRAB_COORDINATOR_MODE";
    let v = lookup(key);
    let r = match &v {
        Some(s) => coordinator_value_enabled(Some(s.as_str())),
        None => coordinator_value_enabled(None),
    };
    proof {
        assert(call_ensures(lookup, (key,), v));
        assert(r == enables_coordinator(opt_string_view(v)));
    }
    r
}

/// How to launch when no prompt was given on the command line.
///
/// The interactive interface may only run when both stdout and stdin are
/// terminals. A piped stdin is read as the prompt; a piped stdout with a
/// terminal stdin leaves no prompt source.
#[derive(Debug, Clone, Copy, PartialEq, Eq, Structural)]
pub enum LaunchMode {
    /// Both stdout and stdin are terminals: start the interactive interface.
    Interactive,
    /// stdin is piped: read it as the prompt.
    HeadlessFromStdin,
    /// stdout is not a terminal but stdin is: there is no prompt source.
    NoPromptSource,
}

/// The launch mode for the given terminals.
pub fn launch_mode(stdout_is_tty: bool, stdin_is_tty: bool) -> (r: LaunchMode)
    ensures
        r == (if stdout_is_tty && stdin_is_tty {
            LaunchMode::Interactive
        } else if !stdin_is_tty {
            LaunchMode::HeadlessFromStdin
        } else {
            LaunchMode::NoPromptSource
        }),
{
    if stdout_is_tty && stdin_is_tty {
        LaunchMode::Interactive
    } else if !stdin_is_tty {
        LaunchMode::HeadlessFromStdin
    } else {
        LaunchMode::NoPromptSource
    }
}

/// The provider a session talks to: the command line's `--provider` wins,
/// except for its default `anthropic`, which yields to the provider named
/// in the settings when there is one.
pub fn effective_provider(cli_provider: &str, configured: Option<&str>) -> (r: String)
    ensures
        r@ == (if cli_provider@ == "anthropic"@ {
            match configured {
                Some(p) => p@,
                None => "anthropic"@,
            }
        } else {
            cli_provider@
        }),
{
    if str_eq(cli_provider, "anthropic") {
        match configured {
            Some(p) => p.to_string(),
            None => "anthropic".to_string(),
        }
    } else {
        cli_provider.to_string()
    }
}

} // verus!
