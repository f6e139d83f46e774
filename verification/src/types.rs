//! Types for the HTTP extension bridge: lifecycle states, registration
//! requests, extension records and the bridge's limits.
use vstd::prelude::*;

use crate::text::text_eq;

verus! {

/// Maximum consecutive health check failures before removal.
pub const MAX_FAILURES: u32 = 5;

/// Default health check interval in seconds.
pub const HEALTH_CHECK_INTERVAL_SECS: u64 = 30;

/// Lifecycle states for an HTTP extension.
#[derive(Debug, Clone, Copy, PartialEq, Eq, Structural)]
pub enum BridgeState {
    /// Just registered, awaiting first health check.
    Registered,
    /// Health check passed, extension is serving.
    Active,
    /// Health check failed but not yet removed.
    Degraded,
    /// Explicitly removed or too many failures.
    Removed,
}

/// The stored name of a lifecycle state.
pub open spec fn state_name(s: BridgeState) -> Seq<char> {
    match s {
        BridgeState::Registered => "registered"@,
        BridgeState::Active => "active"@,
        BridgeState::Degraded => "degraded"@,
        BridgeState::Removed => "removed"@,
    }
}

/// The state whose stored name is `text`, if any.
pub open spec fn state_named(text: Seq<char>) -> Option<BridgeState> {
    if text == "registered"@ {
        Some(BridgeState::Registered)
    } else if text == "active"@ {
        Some(BridgeState::Active)
    } else if text == "degraded"@ {
        Some(BridgeState::Degraded)
    } else if text == "removed"@ {
        Some(BridgeState::Removed)
    } else {
        None
    }
}

impl BridgeState {
    /// The stored name of this state.
    pub fn as_str(&self) -> (s: &'static str)
        ensures
            s@ == state_name(*self),
    {
        match self {
            BridgeState::Registered => "registered",
            BridgeState::Active => "active",
            BridgeState::Degraded => "degraded",
            BridgeState::Removed => "removed",
        }
    }

    /// The state stored under the name `s`; `None` for any other text.
    pub fn parse(s: &str) -> (r: Option<BridgeState>)
        ensures
            r == state_named(s@),
    {
        if text_eq(s, "registered") {
            Some(BridgeState::Registered)
        } else if text_eq(s, "active") {
            Some(BridgeState::Active)
        } else if text_eq(s, "degraded") {
            Some(BridgeState::Degraded)
        } else if text_eq(s, "removed") {
            Some(BridgeState::Removed)
        } else {
            None
        }
    }
}

/// Parsing the stored name of a state gives that state back, and a name
/// parses to a state only when it is that state's stored name: the stored
/// names and the states correspond one to one.
pub proof fn law_state_name_roundtrip(s: BridgeState, text: Seq<char>)
    ensures
        state_named(state_name(s)) == Some(s),
        state_named(text) == Some(s) ==> text == state_name(s),
{
    reveal_strlit("registered");
    reveal_strlit("active");
    reveal_strlit("degraded");
    reveal_strlit("removed");
    assert("registered"@.len() == 10);
    assert("active"@.len() == 6);
    assert("degraded"@.len() == 8);
    assert("removed"@.len() == 7);
}

/// The kind of module a manifest describes.
#[derive(Debug, Clone, Copy, PartialEq, Eq, Structural)]
pub enum ModuleKind {
    /// A core daemon module.
    Core,
    /// An integration with an external system.
    Integration,
}

/// A capability that a module provides.
#[derive(Debug, Clone)]
pub struct Capability {
    pub name: String,
    pub version: String,
    pub description: String,
}

/// Semantic manifest of a module: capabilities, dependencies and tools.
#[derive(Debug, Clone)]
pub struct Manifest {
    pub id: String,
    pub description: String,
    pub version: String,
    pub kind: ModuleKind,
    pub provides: Vec<Capability>,
    pub requires: Vec<String>,
    pub agent_tools: Vec<String>,
    pub required_roles: Vec<String>,
}

/// Registration request from an external extension.
#[derive(Debug, Clone)]
pub struct RegisterRequest {
    /// Unique extension ID (e.g. "openclaw-bridge").
    pub id: String,
    /// Semantic manifest — capabilities, deps, tools.
    pub manifest: Manifest,
    /// Base URL where the extension listens (e.g. "http://localhost:3100").
    pub base_url: String,
    /// Path for health checks (e.g. "/health").
    pub health_endpoint: String,
    /// Path for event webhook delivery (e.g. "/webhook/events").
    pub events_webhook: String,
    /// Route prefix mounted in the daemon (e.g. "/api/ext/openclaw").
    pub routes_prefix: String,
}

/// An instant in UTC: whole seconds since the Unix epoch and the
/// nanoseconds within that second.
#[derive(Debug, Clone, Copy, PartialEq, Eq, Structural)]
pub struct UtcTime {
    pub secs: i64,
    pub nanos: u32,
}

impl UtcTime {
    /// The Unix epoch, 1970-01-01T00:00:00Z.
    pub fn epoch() -> (t: UtcTime)
        ensures
            t.secs == 0 && t.nanos == 0,
    {
        UtcTime { secs: 0, nanos: 0 }
    }
}

/// A registered HTTP extension record.
#[derive(Debug, Clone)]
pub struct HttpExtension {
    pub id: String,
    pub manifest: Manifest,
    pub base_url: String,
    pub health_endpoint: String,
    pub events_webhook: String,
    pub routes_prefix: String,
    pub state: BridgeState,
    pub registered_at: UtcTime,
    pub last_health_check: Option<UtcTime>,
    pub consecutive_failures: u32,
}

/// An error answer of the bridge's HTTP API: the status and the message.
#[derive(Debug)]
pub struct ApiError {
    pub status: u16,
    pub message: String,
}

} // verus!
