//! Shapes of the process sandbox: its backends and what a violation reports.
use vstd::prelude::*;

verus! {

/// The mechanism that confines tool processes.
#[derive(Debug, Clone, Copy, PartialEq, Eq, Structural)]
pub enum SandboxBackend {
    Noop,
    Seatbelt,
    Landlock,
    Wsl,
}

/// An operation the sandbox refused.
#[derive(Debug, Clone, PartialEq, Eq)]
pub struct ViolationInfo {
    pub op: String,
    pub target: String,
    pub reason: String,
}

} // verus!
