//! Identifiers and status shapes of remote agent sessions, as displayed.
use vstd::prelude::*;

verus! {

/// Stable identifier for a remote agent session.
#[derive(Debug, Clone, PartialEq, Eq, Hash)]
pub struct RemoteSessionId(pub String);

/// Stable identifier for a saved remote trigger.
#[derive(Debug, Clone, PartialEq, Eq, Hash)]
pub struct TriggerId(pub String);

/// Lifecycle state of a remote session.
#[derive(Debug, Clone, PartialEq, Eq)]
pub enum RemoteSessionStatus {
    Pending,
    Running,
    Succeeded,
    Failed(String),
    Cancelled,
}

/// Snapshot of a remote session for display.
#[derive(Debug, Clone, PartialEq, Eq)]
pub struct RemoteSessionInfo {
    pub id: RemoteSessionId,
    pub prompt_preview: String,
    /// Unix epoch milliseconds.
    pub created_at: i64,
}

} // verus!
