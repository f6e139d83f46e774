use convergio_http_bridge::types::{BridgeState, HttpExtension, Manifest, ModuleKind, UtcTime};
use convergio_http_bridge::webhook::{
    delivery_record, plan_deliveries, should_deliver, webhook_url, DeliveryOutcome,
};

fn extension(id: &str, state: BridgeState) -> HttpExtension {
    HttpExtension {
        id: id.to_string(),
        manifest: Manifest {
            id: id.to_string(),
            description: String::new(),
            version: "1.0.0".to_string(),
            kind: ModuleKind::Integration,
            provides: vec![],
            requires: vec![],
            agent_tools: vec![],
            required_roles: vec![],
        },
        base_url: format!("http://{id}.example.com"),
        health_endpoint: "/health".to_string(),
        events_webhook: "/webhook/events".to_string(),
        routes_prefix: format!("/api/ext/{id}"),
        state,
        registered_at: UtcTime { secs: 0, nanos: 0 },
        last_health_check: None,
        consecutive_failures: 0,
    }
}

#[test]
fn only_active_extensions_receive_events() {
    assert!(should_deliver(BridgeState::Active));
    assert!(!should_deliver(BridgeState::Registered));
    assert!(!should_deliver(BridgeState::Degraded));
    assert!(!should_deliver(BridgeState::Removed));
}

#[test]
fn delivery_plan_lists_active_extensions_in_order() {
    let exts = vec![
        extension("a", BridgeState::Registered),
        extension("b", BridgeState::Active),
        extension("c", BridgeState::Degraded),
        extension("d", BridgeState::Active),
    ];
    let plan = plan_deliveries(&exts);
    assert_eq!(plan.len(), 2);
    assert_eq!(plan[0].ext_id, "b");
    assert_eq!(plan[0].url, "http://b.example.com/webhook/events");
    assert_eq!(plan[1].ext_id, "d");
    assert_eq!(webhook_url(&exts[3]), "http://d.example.com/webhook/events");
}

#[test]
fn delivery_records() {
    let ok = delivery_record(DeliveryOutcome::Responded(200));
    assert_eq!(ok.status_code, Some(200));
    assert_eq!(ok.error, None);

    let missing = delivery_record(DeliveryOutcome::Responded(404));
    assert_eq!(missing.status_code, Some(404));
    assert_eq!(missing.error.as_deref(), Some("HTTP 404"));

    let odd = delivery_record(DeliveryOutcome::Responded(7));
    assert_eq!(odd.error.as_deref(), Some("HTTP 7"));

    let big = delivery_record(DeliveryOutcome::Responded(65535));
    assert_eq!(big.error.as_deref(), Some("HTTP 65535"));

    let failed = delivery_record(DeliveryOutcome::Failed("connection refused".to_string()));
    assert_eq!(failed.status_code, None);
    assert_eq!(failed.error.as_deref(), Some("connection refused"));
}
