use convergio_http_bridge::types::{BridgeState, MAX_FAILURES};

#[test]
fn bridge_state_roundtrip() {
    for state in [
        BridgeState::Registered,
        BridgeState::Active,
        BridgeState::Degraded,
        BridgeState::Removed,
    ] {
        let s = state.as_str();
        assert_eq!(BridgeState::parse(s), Some(state));
    }
    assert_eq!(BridgeState::parse("unknown"), None);
}

#[test]
fn bridge_state_names_are_exact() {
    assert_eq!(BridgeState::Registered.as_str(), "registered");
    assert_eq!(BridgeState::Active.as_str(), "active");
    assert_eq!(BridgeState::Degraded.as_str(), "degraded");
    assert_eq!(BridgeState::Removed.as_str(), "removed");
    assert_eq!(BridgeState::parse("Active"), None);
    assert_eq!(BridgeState::parse("active "), None);
    assert_eq!(BridgeState::parse(""), None);
}

#[test]
fn max_failures_constant() {
    // Ensure the constant stays at a sensible minimum.
    const _: () = assert!(MAX_FAILURES >= 3);
}
