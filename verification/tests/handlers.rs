use convergio_http_bridge::handlers::{
    check_registration, db_unavailable, lookup_reply, registration_reply, registration_step, removal_reply,
    RegistrationStep,
};
use convergio_http_bridge::types::{BridgeState, Manifest, ModuleKind, RegisterRequest};

#[test]
fn live_duplicates_conflict() {
    for state in [BridgeState::Registered, BridgeState::Active, BridgeState::Degraded] {
        match registration_step("ext-dup", Ok(Some(state))) {
            RegistrationStep::Conflict(e) => {
                assert_eq!(e.status, 409);
                assert_eq!(e.message, "extension 'ext-dup' already registered");
            }
            other => panic!("expected conflict, got {other:?}"),
        }
    }
}

#[test]
fn removed_extensions_may_register_again() {
    assert!(matches!(
        registration_step("x", Ok(Some(BridgeState::Removed))),
        RegistrationStep::ReplaceRemoved
    ));
    assert!(matches!(registration_step("x", Ok(None)), RegistrationStep::Insert));
    assert!(matches!(
        registration_step("x", Err("query: locked".to_string())),
        RegistrationStep::Insert
    ));
}

#[test]
fn registration_replies() {
    assert_eq!(registration_reply(Ok(())).unwrap(), 201);
    let e = registration_reply(Err("insert: UNIQUE constraint failed".into())).unwrap_err();
    assert_eq!((e.status, e.message.as_str()), (500, "insert: UNIQUE constraint failed"));
    let e = db_unavailable("pool timed out");
    assert_eq!((e.status, e.message.as_str()), (500, "db: pool timed out"));
}

#[test]
fn removal_replies() {
    assert_eq!(removal_reply("a", Ok(true)).unwrap(), 204);
    let e = removal_reply("no-such-ext", Ok(false)).unwrap_err();
    assert_eq!((e.status, e.message.as_str()), (404, "extension 'no-such-ext' not found"));
    let e = removal_reply("a", Err("remove: busy".into())).unwrap_err();
    assert_eq!((e.status, e.message.as_str()), (500, "remove: busy"));
}

#[test]
fn lookup_replies() {
    let e = lookup_reply("ghost", Ok(None)).unwrap_err();
    assert_eq!((e.status, e.message.as_str()), (404, "extension 'ghost' not found"));
    let e = lookup_reply("ghost", Err("prepare: x".into())).unwrap_err();
    assert_eq!((e.status, e.message.as_str()), (500, "prepare: x"));
}

#[test]
fn refused_registrations_answer_400() {
    let req = RegisterRequest {
        id: "x".into(),
        manifest: Manifest {
            id: "x".into(),
            description: String::new(),
            version: "1.0.0".into(),
            kind: ModuleKind::Integration,
            provides: vec![],
            requires: vec![],
            agent_tools: vec![],
            required_roles: vec![],
        },
        base_url: "http://localhost:3100".into(),
        health_endpoint: "/health".into(),
        events_webhook: "/webhook/events".into(),
        routes_prefix: "/api/ext/x".into(),
    };
    let e = check_registration(&req).unwrap_err();
    assert_eq!(e.status, 400);
    assert_eq!(e.message, "base_url must not target private/metadata addresses");
    let ok = RegisterRequest { base_url: "https://ext.example.com".into(), ..req };
    assert!(check_registration(&ok).is_ok());
}
