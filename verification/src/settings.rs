//! Application settings: the values of `settings.json`, their layered
//! merge (global, then project, then command line), and where the settings
//! directories lie.
//!
//! Reading and parsing the files (JSON with comments) happens at the edge
//! of the program; here the parsed values are merged.
use vstd::prelude::*;
use crate::text::{join_path, joined_path};

verus! {

#[verifier::external_type_specification]
#[verifier::external_body]
pub struct ExJsonValue(serde_json::Value);

/// `Clone` of a JSON value gives an equal value.
pub assume_specification[ <serde_json::Value as Clone>::clone ](v: &serde_json::Value) -> (r: serde_json::Value)
    ensures
        r == *v,
;

/// Name of the configuration directory, in the home and in a project.
pub const CONFIG_DIR: &'static str = ".crab";

/// Name of the settings file within a configuration directory.
pub const SETTINGS_FILE: &'static str = "settings.json";

/// Application settings, from `~/.crab/settings.json` (global) and
/// `.crab/settings.json` (project). Every field is optional, so that the
/// levels can be merged.
#[derive(Debug, Clone, PartialEq, Eq)]
pub struct Settings {
    pub api_provider: Option<String>,
    pub api_base_url: Option<String>,
    pub api_key: Option<String>,
    pub model: Option<String>,
    pub small_model: Option<String>,
    pub max_tokens: Option<u32>,
    pub permission_mode: Option<String>,
    pub system_prompt: Option<String>,
    pub mcp_servers: Option<serde_json::Value>,
    pub hooks: Option<serde_json::Value>,
    pub theme: Option<String>,
}

/// `b` when it is set, else `a`.
pub open spec fn overlay<T>(a: Option<T>, b: Option<T>) -> Option<T> {
    if b is Some {
        b
    } else {
        a
    }
}

/// The settings `a` with every field that `b` sets taken from `b`.
pub open spec fn merged(a: Settings, b: Settings) -> Settings {
    Settings {
        api_provider: overlay(a.api_provider, b.api_provider),
        api_base_url: overlay(a.api_base_url, b.api_base_url),
        api_key: overlay(a.api_key, b.api_key),
        model: overlay(a.model, b.model),
        small_model: overlay(a.small_model, b.small_model),
        max_tokens: overlay(a.max_tokens, b.max_tokens),
        permission_mode: overlay(a.permission_mode, b.permission_mode),
        system_prompt: overlay(a.system_prompt, b.system_prompt),
        mcp_servers: overlay(a.mcp_servers, b.mcp_servers),
        hooks: overlay(a.hooks, b.hooks),
        theme: overlay(a.theme, b.theme),
    }
}

/// Settings with no field set.
pub open spec fn unset() -> Settings {
    Settings {
        api_provider: None,
        api_base_url: None,
        api_key: None,
        model: None,
        small_model: None,
        max_tokens: None,
        permission_mode: None,
        system_prompt: None,
        mcp_servers: None,
        hooks: None,
        theme: None,
    }
}

impl Default for Settings {
    /// Settings with no field set.
    fn default() -> (r: Self)
        ensures
            r == unset(),
    {
        Settings {
            api_provider: None,
            api_base_url: None,
            api_key: None,
            model: None,
            small_model: None,
            max_tokens: None,
            permission_mode: None,
            system_prompt: None,
            mcp_servers: None,
            hooks: None,
            theme: None,
        }
    }
}

/// `theirs` when it is set, else `mine`.
fn pick_string(mine: Option<String>, theirs: &Option<String>) -> (r: Option<String>)
    ensures
        r == overlay(mine, *theirs),
{
    match theirs {
        Some(s) => Some(s.clone()),
        None => mine,
    }
}

/// `theirs` when it is set, else `mine`.
fn pick_value(mine: Option<serde_json::Value>, theirs: &Option<serde_json::Value>) -> (r: Option<serde_json::Value>)
    ensures
        r == overlay(mine, *theirs),
{
    match theirs {
        Some(v) => Some(v.clone()),
        None => mine,
    }
}

impl Settings {
    /// Merge `other` on top of `self`: every field that `other` sets
    /// overrides the one of `self`; the others are kept.
    pub fn merge(self, other: &Self) -> (r: Self)
        ensures
            r == merged(self, *other),
    {
        Settings {
            api_provider: pick_string(self.api_provider, &other.api_provider),
            api_base_url: pick_string(self.api_base_url, &other.api_base_url),
            api_key: pick_string(self.api_key, &other.api_key),
            model: pick_string(self.model, &other.model),
            small_model: pick_string(self.small_model, &other.small_model),
            max_tokens: match other.max_tokens {
                Some(n) => Some(n),
                None => self.max_tokens,
            },
            permission_mode: pick_string(self.permission_mode, &other.permission_mode),
            system_prompt: pick_string(self.system_prompt, &other.system_prompt),
            mcp_servers: pick_value(self.mcp_servers, &other.mcp_servers),
            hooks: pick_value(self.hooks, &other.hooks),
            theme: pick_string(self.theme, &other.theme),
        }
    }
}

/// The global configuration directory, `.crab` under the home directory
/// `home`.
pub fn global_config_dir(home: &str) -> (r: String)
    ensures
        r@ == joined_path(home@, ".crab"@),
{
    join_path(home, CONFIG_DIR)
}

/// The project configuration directory, `.crab` under `project_dir`.
pub fn project_config_dir(project_dir: &str) -> (r: String)
    ensures
        r@ == joined_path(project_dir@, ".crab"@),
{
    join_path(project_dir, CONFIG_DIR)
}

/// The settings file of a configuration directory.
pub fn settings_file_in(config_dir: &str) -> (r: String)
    ensures
        r@ == joined_path(config_dir@, "settings.json"@),
{
    join_path(config_dir, SETTINGS_FILE)
}

// ── Laws ───────────────────────────────────────────────────────────────

/// Merging levels is associative: merging global with project and then
/// the command line gives what merging global with (project merged with
/// the command line) gives. Each field comes from the last level that
/// sets it.
pub proof fn law_merge_associative(a: Settings, b: Settings, c: Settings)
    ensures
        merged(merged(a, b), c) == merged(a, merged(b, c)),
{
}

/// Unset settings change nothing: on top, they keep every field; below,
/// they give way to every field.
pub proof fn law_merge_unset_is_neutral(a: Settings)
    ensures
        merged(a, unset()) == a,
        merged(unset(), a) == a,
{
}

} // verus!
