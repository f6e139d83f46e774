//! Database schema: the tables owned by the HTTP bridge.
use vstd::prelude::*;

verus! {

/// A schema migration: its version, a description, and the SQL that
/// applies it.
#[derive(Debug, Clone, Copy)]
pub struct Migration {
    pub version: u32,
    pub description: &'static str,
    pub up: &'static str,
}

/// The SQL that creates the extension registry and the webhook delivery log.
pub const HTTP_BRIDGE_TABLES: &'static str = "\
CREATE TABLE IF NOT EXISTS http_extensions (
    id TEXT PRIMARY KEY,
    manifest_json TEXT NOT NULL,
    base_url TEXT NOT NULL,
    health_endpoint TEXT NOT NULL DEFAULT '/health',
    events_webhook TEXT NOT NULL DEFAULT '/webhook/events',
    routes_prefix TEXT NOT NULL,
    state TEXT NOT NULL DEFAULT 'registered',
    registered_at TEXT NOT NULL,
    last_health_check TEXT,
    consecutive_failures INTEGER NOT NULL DEFAULT 0
);
CREATE INDEX IF NOT EXISTS idx_http_ext_state ON http_extensions(state);

CREATE TABLE IF NOT EXISTS http_bridge_webhook_log (
    id INTEGER PRIMARY KEY AUTOINCREMENT,
    extension_id TEXT NOT NULL,
    event_json TEXT NOT NULL,
    delivered_at TEXT,
    status_code INTEGER,
    attempt INTEGER NOT NULL DEFAULT 1,
    error TEXT,
    FOREIGN KEY (extension_id) REFERENCES http_extensions(id)
);
CREATE INDEX IF NOT EXISTS idx_webhook_log_ext
    ON http_bridge_webhook_log(extension_id);
";

/// All migrations for the bridge, in version order: a single migration,
/// version 1, that creates the bridge's tables.
pub fn migrations() -> (r: Vec<Migration>)
    ensures
        r@.len() == 1,
        r@[0].version == 1,
        r@[0].description@ == "http bridge tables"@,
        r@[0].up == HTTP_BRIDGE_TABLES,
{
    vec![Migration { version: 1, description: "http bridge tables", up: HTTP_BRIDGE_TABLES }]
}

} // verus!
