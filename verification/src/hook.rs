//! Hook events: when a hook fires relative to tool or lifecycle events.
use vstd::prelude::*;

verus! {

/// When a hook fires relative to tool or lifecycle events.
///
/// Every event of the hooks protocol is accepted under its `PascalCase`
/// name. Events whose lifecycle point is not wired yet parse and register
/// but never fire; see [`HookTrigger::is_dispatched`].
#[derive(Debug, Clone, Copy, PartialEq, Eq, PartialOrd, Ord, Hash, Structural)]
pub enum HookTrigger {
    /// Before a tool is invoked.
    PreToolUse,
    /// After a tool completes successfully.
    PostToolUse,
    /// After a tool fails.
    PostToolUseFailure,
    /// When the user submits a prompt (before it reaches the model).
    UserPromptSubmit,
    /// When the query loop is about to exit; a hook returning `Retry` continues the loop.
    Stop,
    /// When the query loop exits due to an error.
    StopFailure,
    /// When a notification is sent.
    Notification,
    /// When a session starts.
    SessionStart,
    /// When a session ends.
    SessionEnd,
    /// After the user first accepts the trust dialog for a project.
    Setup,
    /// When a watched file changes.
    FileChanged,
    /// Before conversation compaction starts.
    PreCompact,
    /// When conversation compaction completes.
    PostCompact,
    /// When a tool needs interactive permission.
    PermissionRequest,
    /// After a permission request was denied.
    PermissionDenied,
    /// When a subagent starts.
    SubagentStart,
    /// When a subagent stops.
    SubagentStop,
    /// When a teammate goes idle.
    TeammateIdle,
    /// When a background task is created.
    TaskCreated,
    /// When a background task completes.
    TaskCompleted,
    /// When an MCP server requests user input.
    Elicitation,
    /// Before an elicitation response is sent back to the MCP server.
    ElicitationResult,
    /// When configuration changes at runtime.
    ConfigChange,
    /// When the working directory changes.
    CwdChanged,
    /// After project instructions are loaded.
    InstructionsLoaded,
    /// After a git worktree is created.
    WorktreeCreate,
    /// Before a git worktree is removed.
    WorktreeRemove,
}

/// The protocol name of an event.
pub open spec fn trigger_name(t: HookTrigger) -> Seq<char> {
    match t {
        HookTrigger::PreToolUse => "PreToolUse"@,
        HookTrigger::PostToolUse => "PostToolUse"@,
        HookTrigger::PostToolUseFailure => "PostToolUseFailure"@,
        HookTrigger::UserPromptSubmit => "UserPromptSubmit"@,
        HookTrigger::Stop => "Stop"@,
        HookTrigger::StopFailure => "StopFailure"@,
        HookTrigger::Notification => "Notification"@,
        HookTrigger::SessionStart => "SessionStart"@,
        HookTrigger::SessionEnd => "SessionEnd"@,
        HookTrigger::Setup => "Setup"@,
        HookTrigger::FileChanged => "FileChanged"@,
        HookTrigger::PreCompact => "PreCompact"@,
        HookTrigger::PostCompact => "PostCompact"@,
        HookTrigger::PermissionRequest => "PermissionRequest"@,
        HookTrigger::PermissionDenied => "PermissionDenied"@,
        HookTrigger::SubagentStart => "SubagentStart"@,
        HookTrigger::SubagentStop => "SubagentStop"@,
        HookTrigger::TeammateIdle => "TeammateIdle"@,
        HookTrigger::TaskCreated => "TaskCreated"@,
        HookTrigger::TaskCompleted => "TaskCompleted"@,
        HookTrigger::Elicitation => "Elicitation"@,
        HookTrigger::ElicitationResult => "ElicitationResult"@,
        HookTrigger::ConfigChange => "ConfigChange"@,
        HookTrigger::CwdChanged => "CwdChanged"@,
        HookTrigger::InstructionsLoaded => "InstructionsLoaded"@,
        HookTrigger::WorktreeCreate => "WorktreeCreate"@,
        HookTrigger::WorktreeRemove => "WorktreeRemove"@,
    }
}

/// Whether the runtime has a dispatch point for an event.
pub open spec fn dispatched(t: HookTrigger) -> bool {
    t == HookTrigger::PreToolUse
        || t == HookTrigger::PostToolUse
        || t == HookTrigger::UserPromptSubmit
        || t == HookTrigger::Stop
        || t == HookTrigger::Notification
        || t == HookTrigger::SessionStart
        || t == HookTrigger::SessionEnd
        || t == HookTrigger::Setup
        || t == HookTrigger::FileChanged
        || t == HookTrigger::PostCompact
}

impl HookTrigger {
    /// The protocol event name, as sent in the `hook_event_name` field.
    pub fn event_name(self) -> (r: &'static str)
        ensures
            r@ == trigger_name(self),
    {
        match self {
            HookTrigger::PreToolUse => "PreToolUse",
            HookTrigger::PostToolUse => "PostToolUse",
            HookTrigger::PostToolUseFailure => "PostToolUseFailure",
            HookTrigger::UserPromptSubmit => "UserPromptSubmit",
            HookTrigger::Stop => "Stop",
            HookTrigger::StopFailure => "StopFailure",
            HookTrigger::Notification => "Notification",
            HookTrigger::SessionStart => "SessionStart",
            HookTrigger::SessionEnd => "SessionEnd",
            HookTrigger::Setup => "Setup",
            HookTrigger::FileChanged => "FileChanged",
            HookTrigger::PreCompact => "PreCompact",
            HookTrigger::PostCompact => "PostCompact",
            HookTrigger::PermissionRequest => "PermissionRequest",
            HookTrigger::PermissionDenied => "PermissionDenied",
            HookTrigger::SubagentStart => "SubagentStart",
            HookTrigger::SubagentStop => "SubagentStop",
            HookTrigger::TeammateIdle => "TeammateIdle",
            HookTrigger::TaskCreated => "TaskCreated",
            HookTrigger::TaskCompleted => "TaskCompleted",
            HookTrigger::Elicitation => "Elicitation",
            HookTrigger::ElicitationResult => "ElicitationResult",
            HookTrigger::ConfigChange => "ConfigChange",
            HookTrigger::CwdChanged => "CwdChanged",
            HookTrigger::InstructionsLoaded => "InstructionsLoaded",
            HookTrigger::WorktreeCreate => "WorktreeCreate",
            HookTrigger::WorktreeRemove => "WorktreeRemove",
        }
    }

    /// Whether the runtime currently has a dispatch point for this event.
    ///
    /// Every event parses and registers; undispatched ones never fire until
    /// their lifecycle point is wired.
    pub fn is_dispatched(self) -> (r: bool)
        ensures
            r == dispatched(self),
    {
        match self {
            HookTrigger::PreToolUse => true,
            HookTrigger::PostToolUse => true,
            HookTrigger::UserPromptSubmit => true,
            HookTrigger::Stop => true,
            HookTrigger::Notification => true,
            HookTrigger::SessionStart => true,
            HookTrigger::SessionEnd => true,
            HookTrigger::Setup => true,
            HookTrigger::FileChanged => true,
            HookTrigger::PostCompact => true,
            _ => false,
        }
    }

    /// All hook events, in a stable order.
    pub const ALL: [HookTrigger; 27] = [
        HookTrigger::PreToolUse,
        HookTrigger::PostToolUse,
        HookTrigger::PostToolUseFailure,
        HookTrigger::UserPromptSubmit,
        HookTrigger::Stop,
        HookTrigger::StopFailure,
        HookTrigger::Notification,
        HookTrigger::SessionStart,
        HookTrigger::SessionEnd,
        HookTrigger::Setup,
        HookTrigger::FileChanged,
        HookTrigger::PreCompact,
        HookTrigger::PostCompact,
        HookTrigger::PermissionRequest,
        HookTrigger::PermissionDenied,
        HookTrigger::SubagentStart,
        HookTrigger::SubagentStop,
        HookTrigger::TeammateIdle,
        HookTrigger::TaskCreated,
        HookTrigger::TaskCompleted,
        HookTrigger::Elicitation,
        HookTrigger::ElicitationResult,
        HookTrigger::ConfigChange,
        HookTrigger::CwdChanged,
        HookTrigger::InstructionsLoaded,
        HookTrigger::WorktreeCreate,
        HookTrigger::WorktreeRemove,
    ];
}

} // verus!
