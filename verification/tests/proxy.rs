use convergio_http_bridge::proxy::{
    body_unreadable, carries_body, covers, find_route, forward_headers, forward_method,
    hop_by_hop_headers, is_hop_by_hop, method_not_allowed, proxy_route, upstream_failed,
    upstream_status, ExtensionLookup, ForwardMethod,
};
use convergio_http_bridge::types::{BridgeState, HttpExtension, Manifest, ModuleKind, UtcTime};

#[test]
fn parse_ext_id_from_path() {
    let rest = "openclaw/contracts/list";
    let (ext_id, path) = match rest.find('/') {
        Some(idx) => (&rest[..idx], &rest[idx + 1..]),
        None => (rest, ""),
    };
    assert_eq!(ext_id, "openclaw");
    assert_eq!(path, "contracts/list");
}

#[test]
fn parse_ext_id_no_subpath() {
    let rest = "openclaw";
    let (ext_id, path) = match rest.find('/') {
        Some(idx) => (&rest[..idx], &rest[idx + 1..]),
        None => (rest, ""),
    };
    assert_eq!(ext_id, "openclaw");
    assert_eq!(path, "");
}

#[test]
fn hop_by_hop_headers_blocked() {
    for h in hop_by_hop_headers() {
        assert!(
            [
                "host",
                "connection",
                "keep-alive",
                "transfer-encoding",
                "te",
                "trailer",
                "upgrade"
            ]
            .contains(&h),
            "unexpected hop-by-hop header: {h}"
        );
        assert!(is_hop_by_hop(h));
    }
    assert_eq!(hop_by_hop_headers().len(), 7);
    assert!(!is_hop_by_hop("content-type"));
    assert!(!is_hop_by_hop("Host"));
}

#[test]
fn forwarded_headers_drop_hop_by_hop_and_opaque_values() {
    let headers = vec![
        ("host".to_string(), Some("daemon".to_string())),
        ("content-type".to_string(), Some("application/json".to_string())),
        ("x-binary".to_string(), None),
        ("connection".to_string(), Some("keep-alive".to_string())),
        ("accept".to_string(), Some("*/*".to_string())),
    ];
    let out = forward_headers(headers);
    assert_eq!(
        out,
        vec![
            ("content-type".to_string(), "application/json".to_string()),
            ("accept".to_string(), "*/*".to_string()),
        ]
    );
}

fn extension(id: &str, prefix: &str, state: BridgeState) -> HttpExtension {
    HttpExtension {
        id: id.to_string(),
        manifest: Manifest {
            id: id.to_string(),
            description: String::new(),
            version: "1.0.0".to_string(),
            kind: ModuleKind::Integration,
            provides: vec![],
            requires: vec![],
            agent_tools: vec![],
            required_roles: vec![],
        },
        base_url: format!("http://{id}.example.com"),
        health_endpoint: "/health".to_string(),
        events_webhook: "/webhook/events".to_string(),
        routes_prefix: prefix.to_string(),
        state,
        registered_at: UtcTime { secs: 0, nanos: 0 },
        last_health_check: None,
        consecutive_failures: 0,
    }
}

fn listed(exts: Vec<HttpExtension>) -> ExtensionLookup {
    ExtensionLookup::Listed(exts)
}

#[test]
fn prefixes_cover_whole_segments() {
    assert!(covers("/api/ext/openclaw", "/api/ext/openclaw"));
    assert!(covers("/api/ext/openclaw", "/api/ext/openclaw/contracts/list"));
    assert!(!covers("/api/ext/openclaw", "/api/ext/openclawx"));
    assert!(!covers("/api/ext/openclaw", "/api/ext/open"));
}

#[test]
fn requests_route_by_declared_prefix() {
    // The id differs from the last segment of the declared prefix.
    let exts = vec![extension("openclaw-bridge", "/api/ext/openclaw", BridgeState::Active)];
    let t = proxy_route(listed(exts), "openclaw/contracts/list", Some("page=2")).unwrap();
    assert_eq!(t.ext_id, "openclaw-bridge");
    assert_eq!(t.url, "http://openclaw-bridge.example.com/contracts/list?page=2");
}

#[test]
fn proxy_targets() {
    let url = |rest: &str, query| {
        let exts = vec![extension("ext", "/api/ext/ext", BridgeState::Active)];
        proxy_route(listed(exts), rest, query).unwrap().url
    };
    assert_eq!(url("ext", None), "http://ext.example.com");
    assert_eq!(url("ext", Some("a=1")), "http://ext.example.com?a=1");
    assert_eq!(url("ext/x/y", None), "http://ext.example.com/x/y");
    assert_eq!(url("ext/x/y", Some("a=1&b=2")), "http://ext.example.com/x/y?a=1&b=2");
}

#[test]
fn longest_prefix_and_live_extensions_win() {
    let exts = vec![
        extension("outer", "/api/ext/a", BridgeState::Active),
        extension("old", "/api/ext/a/b", BridgeState::Removed),
        extension("inner", "/api/ext/a/b", BridgeState::Active),
    ];
    assert_eq!(find_route(&exts, "/api/ext/a/b/c"), Some(2));
    assert_eq!(find_route(&exts, "/api/ext/a/c"), Some(0));
    assert_eq!(find_route(&exts, "/api/ext/z"), None);
}

#[test]
fn proxy_refusals() {
    let one = |state| listed(vec![extension("x", "/api/ext/x", state)]);
    let err = proxy_route(one(BridgeState::Degraded), "x", None).unwrap_err();
    assert_eq!((err.status, err.message.as_str()), (503, "extension not active"));
    let err = proxy_route(one(BridgeState::Removed), "x/y", None).unwrap_err();
    assert_eq!(err.status, 503);
    let err = proxy_route(one(BridgeState::Active), "other", None).unwrap_err();
    assert_eq!((err.status, err.message.as_str()), (404, "extension not found"));
    let err = proxy_route(ExtensionLookup::PoolUnavailable("busy".into()), "", None).unwrap_err();
    assert_eq!((err.status, err.message.as_str()), (500, "db: busy"));
    let err = proxy_route(ExtensionLookup::Failed("query: bad".into()), "", None).unwrap_err();
    assert_eq!((err.status, err.message.as_str()), (500, "query: bad"));
}

#[test]
fn forwarded_methods() {
    assert_eq!(forward_method("GET"), Some(ForwardMethod::Get));
    assert_eq!(forward_method("POST"), Some(ForwardMethod::Post));
    assert_eq!(forward_method("PUT"), Some(ForwardMethod::Put));
    assert_eq!(forward_method("DELETE"), Some(ForwardMethod::Delete));
    assert_eq!(forward_method("PATCH"), Some(ForwardMethod::Patch));
    assert_eq!(forward_method("OPTIONS"), None);
    assert_eq!(forward_method("get"), None);
    assert!(carries_body(ForwardMethod::Post));
    assert!(carries_body(ForwardMethod::Put));
    assert!(carries_body(ForwardMethod::Patch));
    assert!(!carries_body(ForwardMethod::Get));
    assert!(!carries_body(ForwardMethod::Delete));
    let e = method_not_allowed();
    assert_eq!((e.status, e.message.as_str()), (405, "method not allowed"));
}

#[test]
fn upstream_answers() {
    assert_eq!(upstream_status(200), 200);
    assert_eq!(upstream_status(999), 999);
    assert_eq!(upstream_status(99), 502);
    assert_eq!(upstream_status(1000), 502);
    let e = upstream_failed("timeout");
    assert_eq!((e.status, e.message.as_str()), (502, "proxy: timeout"));
    let e = body_unreadable();
    assert_eq!((e.status, e.message.as_str()), (400, "failed to read request body"));
}
