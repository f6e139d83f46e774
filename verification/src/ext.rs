//! The bridge as a daemon extension: its manifest, its migrations and how
//! its health is judged.
use vstd::prelude::*;

use crate::types::{Capability, Manifest, ModuleKind};

verus! {

/// The name under which the bridge reports its health and metrics.
pub const COMPONENT_NAME: &'static str = "http-bridge";

/// The metric that counts the extensions that are not removed.
pub const ACTIVE_EXTENSIONS_METRIC: &'static str = "http_bridge.active_extensions";

/// The health of a component.
#[derive(Debug)]
pub enum Health {
    /// Working normally.
    Healthy,
    /// Working poorly or not at all, for the given reason.
    Degraded { reason: String },
}

/// What probing the bridge's database gave.
#[derive(Debug)]
pub enum PoolProbe {
    /// The bridge has no connection pool.
    NoPool,
    /// No connection could be had; the error text.
    PoolError(String),
    /// Listing the extensions failed; the error text.
    QueryFailed(String),
    /// The extensions could be listed.
    Listed,
}

/// The bridge's health, given the probe of its database.
pub fn health_status(probe: PoolProbe) -> (r: Health)
    ensures
        match probe {
            PoolProbe::NoPool => r matches Health::Degraded { reason } && reason@
                == "no pool configured"@,
            PoolProbe::PoolError(e) => r matches Health::Degraded { reason } && reason@
                == "db pool: "@ + e@,
            PoolProbe::QueryFailed(e) => r matches Health::Degraded { reason } && reason@
                == "cannot query extensions: "@ + e@,
            PoolProbe::Listed => r is Healthy,
        },
{
    match probe {
        PoolProbe::NoPool => Health::Degraded { reason: String::from_str("no pool configured") },
        PoolProbe::PoolError(e) => Health::Degraded {
            reason: String::from_str("db pool: ").concat(e.as_str()),
        },
        PoolProbe::QueryFailed(e) => Health::Degraded {
            reason: String::from_str("cannot query extensions: ").concat(e.as_str()),
        },
        PoolProbe::Listed => Health::Healthy,
    }
}

/// The bridge's own manifest: a core module that provides the
/// `http-bridge` capability and requires nothing.
pub fn bridge_manifest() -> (m: Manifest)
    ensures
        m.id@ == "convergio-http-bridge"@,
        m.description@
            == "HTTP extension bridge — register external extensions in any language via REST API"@,
        m.version@ == "0.1.0"@,
        m.kind == ModuleKind::Core,
        m.provides@.len() == 1,
        m.provides@[0].name@ == "http-bridge"@,
        m.provides@[0].version@ == "0.1.0"@,
        m.provides@[0].description@ == "Register, health-check, and proxy HTTP extensions"@,
        m.requires@.len() == 0,
        m.agent_tools@.len() == 0,
        m.required_roles@.len() == 0,
{
    Manifest {
        id: String::from_str("convergio-http-bridge"),
        description: String::from_str(
            "HTTP extension bridge — register external extensions in any language via REST API",
        ),
        version: String::from_str("0.1.0"),
        kind: ModuleKind::Core,
        provides: vec![
            Capability {
                name: String::from_str("http-bridge"),
                version: String::from_str("0.1.0"),
                description: String::from_str("Register, health-check, and proxy HTTP extensions"),
            },
        ],
        requires: Vec::new(),
        agent_tools: Vec::new(),
        required_roles: Vec::new(),
    }
}

} // verus!
