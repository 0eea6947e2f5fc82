//! The effective permission mode, from command-line flags and settings.
use vstd::prelude::*;
use crate::policy::PermissionMode;
use crate::text::{concat_str, str_eq};

verus! {

/// The permission mode a name stands for: `default`, `acceptEdits`,
/// `trustProject`, `auto`, `plan` or `dangerously`.
pub open spec fn mode_named(s: Seq<char>) -> Option<PermissionMode> {
    if s == "default"@ {
        Some(PermissionMode::Default)
    } else if s == "acceptEdits"@ {
        Some(PermissionMode::AcceptEdits)
    } else if s == "trustProject"@ {
        Some(PermissionMode::TrustProject)
    } else if s == "auto"@ {
        Some(PermissionMode::Auto)
    } else if s == "plan"@ {
        Some(PermissionMode::Plan)
    } else if s == "dangerously"@ {
        Some(PermissionMode::Dangerously)
    } else {
        None
    }
}

/// The permission mode named `s`; any other name is refused with
/// `unknown permission mode: ` and the name.
pub fn parse_permission_mode(s: &str) -> (r: Result<PermissionMode, String>)
    ensures
        match mode_named(s@) {
            Some(m) => r == Ok::<PermissionMode, String>(m),
            None => r matches Err(e) && e@ == "unknown permission mode: "@ + s@,
        },
{
    if str_eq(s, "default") {
        Ok(PermissionMode::Default)
    } else if str_eq(s, "acceptEdits") {
        Ok(PermissionMode::AcceptEdits)
    } else if str_eq(s, "trustProject") {
        Ok(PermissionMode::TrustProject)
    } else if str_eq(s, "auto") {
        Ok(PermissionMode::Auto)
    } else if str_eq(s, "plan") {
        Ok(PermissionMode::Plan)
    } else if str_eq(s, "dangerously") {
        Ok(PermissionMode::Dangerously)
    } else {
        Err(concat_str("unknown permission mode: ", s))
    }
}

/// The mode the settings name, when they name a valid one.
pub open spec fn settings_choice(settings_mode: Option<Seq<char>>) -> PermissionMode {
    match settings_mode {
        Some(s) => match mode_named(s) {
            Some(m) => m,
            None => PermissionMode::Default,
        },
        None => PermissionMode::Default,
    }
}

/// The effective permission mode. In order of priority: the explicit
/// `--permission-mode` value (which must name a mode), then
/// `--dangerously-skip-permissions`, `--auto`, `--trust-project`, then the
/// settings' mode when it names a valid one, else `Default`.
pub fn resolve_permission_mode(
    cli_mode: Option<&str>,
    dangerously: bool,
    auto: bool,
    trust_project: bool,
    settings_mode: Option<&str>,
) -> (r: Result<PermissionMode, String>)
    ensures
        match cli_mode {
            Some(s) => match mode_named(s@) {
                Some(m) => r == Ok::<PermissionMode, String>(m),
                None => r matches Err(e) && e@ == "unknown permission mode: "@ + s@,
            },
            None => r == Ok::<PermissionMode, String>(
                if dangerously {
                    PermissionMode::Dangerously
                } else if auto {
                    PermissionMode::Auto
                } else if trust_project {
                    PermissionMode::TrustProject
                } else {
                    settings_choice(
                        match settings_mode {
                            Some(s) => Some(s@),
                            None => None,
                        },
                    )
                },
            ),
        },
{
    if let Some(mode) = cli_mode {
        parse_permission_mode(mode)
    } else if dangerously {
        Ok(PermissionMode::Dangerously)
    } else if auto {
        Ok(PermissionMode::Auto)
    } else if trust_project {
        Ok(PermissionMode::TrustProject)
    } else {
        match settings_mode {
            Some(s) => match parse_permission_mode(s) {
                Ok(m) => Ok(m),
                Err(_) => Ok(PermissionMode::Default),
            },
            None => Ok(PermissionMode::Default),
        }
    }
}

} // verus!
