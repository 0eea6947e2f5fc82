//! Shapes of the editor bridge: how it runs, who is connected, its status.
use vstd::prelude::*;

verus! {

/// Where the bridge runs.
#[derive(Debug, Clone, Copy, PartialEq, Eq, Structural)]
pub enum BridgeMode {
    Local,
    Remote,
    Hybrid,
}

/// The kind of client on the other end of the bridge.
#[derive(Debug, Clone, Copy, PartialEq, Eq, Structural)]
pub enum ClientSource {
    VsCode,
    JetBrains,
    Web,
    Cli,
    Unknown,
}

/// The state of the bridge.
#[derive(Debug, Clone, PartialEq, Eq)]
pub enum BridgeStatus {
    Disabled,
    /// Waiting for clients on a port.
    Listening { port: u16 },
    /// Serving the given number of clients.
    Connected(u32),
    Error(String),
}

} // verus!
