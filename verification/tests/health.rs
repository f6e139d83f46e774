use convergio_http_bridge::health::{
    health_check_passed, health_url, is_success_status, needs_health_check, next_health,
    plan_health_checks,
};
use convergio_http_bridge::types::{
    BridgeState, HttpExtension, Manifest, ModuleKind, UtcTime, MAX_FAILURES,
};

fn extension(id: &str, state: BridgeState, failures: u32) -> HttpExtension {
    HttpExtension {
        id: id.to_string(),
        manifest: Manifest {
            id: id.to_string(),
            description: String::new(),
            version: "1.0.0".to_string(),
            kind: ModuleKind::Integration,
            provides: vec![],
            requires: vec![],
            agent_tools: vec![],
            required_roles: vec![],
        },
        base_url: format!("http://{id}.example.com"),
        health_endpoint: "/health".to_string(),
        events_webhook: "/webhook/events".to_string(),
        routes_prefix: format!("/api/ext/{id}"),
        state,
        registered_at: UtcTime { secs: 0, nanos: 0 },
        last_health_check: None,
        consecutive_failures: failures,
    }
}

#[test]
fn success_makes_active_and_clears_failures() {
    assert_eq!(next_health(0, true), (BridgeState::Active, 0));
    assert_eq!(next_health(4, true), (BridgeState::Active, 0));
}

#[test]
fn failures_degrade_then_remove() {
    let mut failures = 0;
    let mut states = vec![];
    for _ in 0..MAX_FAILURES {
        let (state, f) = next_health(failures, false);
        failures = f;
        states.push(state);
    }
    assert_eq!(
        states,
        vec![
            BridgeState::Degraded,
            BridgeState::Degraded,
            BridgeState::Degraded,
            BridgeState::Degraded,
            BridgeState::Removed,
        ]
    );
    assert_eq!(failures, MAX_FAILURES);
}

#[test]
fn a_passed_check_resets_the_run() {
    let (_, f) = next_health(3, false);
    assert_eq!(f, 4);
    let (s, f) = next_health(f, true);
    assert_eq!((s, f), (BridgeState::Active, 0));
    let (s, f) = next_health(f, false);
    assert_eq!((s, f), (BridgeState::Degraded, 1));
}

#[test]
fn removed_extensions_are_not_checked() {
    assert!(needs_health_check(BridgeState::Registered));
    assert!(needs_health_check(BridgeState::Active));
    assert!(needs_health_check(BridgeState::Degraded));
    assert!(!needs_health_check(BridgeState::Removed));
}

#[test]
fn health_plan_skips_removed() {
    let exts = vec![
        extension("a", BridgeState::Active, 0),
        extension("b", BridgeState::Removed, 5),
        extension("c", BridgeState::Degraded, 2),
    ];
    let plan = plan_health_checks(&exts);
    assert_eq!(plan.len(), 2);
    assert_eq!(plan[0].ext_id, "a");
    assert_eq!(plan[0].url, "http://a.example.com/health");
    assert_eq!(plan[0].failures, 0);
    assert_eq!(plan[1].ext_id, "c");
    assert_eq!(plan[1].failures, 2);
}

#[test]
fn health_url_joins_base_and_endpoint() {
    let ext = extension("x", BridgeState::Registered, 0);
    assert_eq!(health_url(&ext), "http://x.example.com/health");
}

#[test]
fn only_2xx_passes() {
    assert!(is_success_status(200));
    assert!(is_success_status(299));
    assert!(!is_success_status(199));
    assert!(!is_success_status(300));
    assert!(health_check_passed(Some(204)));
    assert!(!health_check_passed(Some(503)));
    assert!(!health_check_passed(None));
}
