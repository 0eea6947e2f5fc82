use vstd::prelude::*;

pub mod text;
pub mod clock;
pub mod glob;
pub mod permission_filter;
pub mod permission_rules;
pub mod permission_inherit;
pub mod rule_parser;
pub mod policy;
pub mod auto_mode;
pub mod task;
pub mod model;
pub mod hook;
pub mod error;
pub mod job;
pub mod plugin_registry;
pub mod project_detect;
pub mod file_stats;
pub mod effort;
pub mod gitignore;
pub mod recovery;
pub mod launch;
pub mod validation;
pub mod bridge;
pub mod remote;
pub mod sandbox;
pub mod proactive;
pub mod crab_md;
pub mod incremental_hash;
pub mod diff;
pub mod event_bus;
pub mod event_filter;
pub mod grep;
pub mod error_class;
pub mod settings;
pub mod permission_mode;
pub mod session_text;
pub mod completion;
pub mod feedback;
pub mod hook_config;
pub mod permission_prompt;
pub mod repl_input;
pub mod tool_results;
pub mod dependency_scan;
pub mod auth_status;
pub mod agent_input;
pub mod settings_schema;

verus! {

} // verus!
