use convergio_http_bridge::store::{extension_from_row, read_instant, record_from_row, ExtensionRow};
use convergio_http_bridge::types::{BridgeState, Manifest, ModuleKind, UtcTime};

fn row(state: &str, registered_at: &str, last: Option<&str>) -> ExtensionRow {
    ExtensionRow {
        id: "ext-alpha".to_string(),
        manifest: Manifest {
            id: "ext-alpha".to_string(),
            description: "Test external extension".to_string(),
            version: "1.0.0".to_string(),
            kind: ModuleKind::Integration,
            provides: vec![],
            requires: vec![],
            agent_tools: vec![],
            required_roles: vec![],
        },
        base_url: "http://localhost:3100".to_string(),
        health_endpoint: "/health".to_string(),
        events_webhook: "/webhook/events".to_string(),
        routes_prefix: "/api/ext/ext-alpha".to_string(),
        state: state.to_string(),
        registered_at: registered_at.to_string(),
        last_health_check: last.map(|s| s.to_string()),
        consecutive_failures: 3,
    }
}

#[test]
fn row_fields_carry_over() {
    let ext = extension_from_row(row("degraded", "2024-01-02T03:04:05Z", None));
    assert_eq!(ext.id, "ext-alpha");
    assert_eq!(ext.base_url, "http://localhost:3100");
    assert_eq!(ext.health_endpoint, "/health");
    assert_eq!(ext.events_webhook, "/webhook/events");
    assert_eq!(ext.routes_prefix, "/api/ext/ext-alpha");
    assert_eq!(ext.manifest.description, "Test external extension");
    assert_eq!(ext.state, BridgeState::Degraded);
    assert_eq!(ext.registered_at, UtcTime { secs: 1704164645, nanos: 0 });
    assert_eq!(ext.last_health_check, None);
    assert_eq!(ext.consecutive_failures, 3);
}

#[test]
fn unknown_state_reads_as_registered() {
    let ext = extension_from_row(row("paused", "2024-01-02T03:04:05Z", None));
    assert_eq!(ext.state, BridgeState::Registered);
}

#[test]
fn timestamps_read_in_utc() {
    let ext = extension_from_row(row(
        "active",
        "2024-01-02T05:04:05.25+02:00",
        Some("1970-01-01T00:01:00Z"),
    ));
    assert_eq!(ext.registered_at, UtcTime { secs: 1704164645, nanos: 250_000_000 });
    assert_eq!(ext.last_health_check, Some(UtcTime { secs: 60, nanos: 0 }));
}

#[test]
fn unreadable_timestamps_fall_back() {
    let ext = extension_from_row(row("active", "yesterday", Some("soon")));
    assert_eq!(ext.registered_at, UtcTime { secs: 0, nanos: 0 });
    assert_eq!(ext.last_health_check, None);
    assert_eq!(read_instant("not a time"), None);
}

#[test]
fn record_fallbacks_on_given_instants() {
    let at = UtcTime { secs: 42, nanos: 7 };
    let ext = record_from_row(row("removed", "ignored", None), Some(at), Some(at));
    assert_eq!(ext.state, BridgeState::Removed);
    assert_eq!(ext.registered_at, at);
    assert_eq!(ext.last_health_check, Some(at));
    let ext = record_from_row(row("REMOVED", "ignored", None), None, None);
    assert_eq!(ext.state, BridgeState::Registered);
    assert_eq!(ext.registered_at, UtcTime { secs: 0, nanos: 0 });
    assert_eq!(ext.last_health_check, None);
}
