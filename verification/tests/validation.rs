use convergio_http_bridge::ipaddr::Ipv4Octets;
use convergio_http_bridge::types::{Manifest, ModuleKind, RegisterRequest};
use convergio_http_bridge::validation::{
    extract_host, is_private_host, is_rfc1918, validate_request,
};

fn manifest(id: &str, description: &str) -> Manifest {
    Manifest {
        id: id.to_string(),
        description: description.to_string(),
        version: "1.0.0".to_string(),
        kind: ModuleKind::Integration,
        provides: vec![],
        requires: vec![],
        agent_tools: vec![],
        required_roles: vec![],
    }
}

fn request(id: &str, base_url: &str, routes_prefix: &str) -> RegisterRequest {
    RegisterRequest {
        id: id.into(),
        manifest: manifest(id, ""),
        base_url: base_url.into(),
        health_endpoint: "/health".into(),
        events_webhook: "/webhook/events".into(),
        routes_prefix: routes_prefix.into(),
    }
}

#[test]
fn validate_rejects_empty_id() {
    let req = RegisterRequest {
        id: String::new(),
        manifest: manifest("", ""),
        base_url: "http://localhost:3100".into(),
        health_endpoint: "/health".into(),
        events_webhook: "/webhook/events".into(),
        routes_prefix: "/api/ext/test".into(),
    };
    assert!(validate_request(&req).is_err());
}

#[test]
fn validate_rejects_bad_prefix() {
    let req = RegisterRequest {
        id: "test".into(),
        manifest: manifest("test", ""),
        base_url: "http://localhost:3100".into(),
        health_endpoint: "/health".into(),
        events_webhook: "/webhook/events".into(),
        routes_prefix: "/wrong/prefix".into(),
    };
    assert!(validate_request(&req).is_err());
}

#[test]
fn validate_accepts_valid_request() {
    let req = RegisterRequest {
        id: "openclaw-bridge".into(),
        manifest: manifest("openclaw-bridge", "Legal AI"),
        base_url: "http://ext-service.example.com:3100".into(),
        health_endpoint: "/health".into(),
        events_webhook: "/webhook/events".into(),
        routes_prefix: "/api/ext/openclaw".into(),
    };
    assert!(validate_request(&req).is_ok());
}

#[test]
fn validate_rejects_private_base_url() {
    let cases = [
        "http://10.0.0.1:3100",
        "http://192.168.1.1:3100",
        "http://172.16.0.1:3100",
        "http://169.254.169.254/latest/meta-data",
        "http://127.0.0.1:3100",
    ];
    for url in cases {
        let req = request("test", url, "/api/ext/test");
        assert!(
            validate_request(&req).is_err(),
            "should reject private URL: {url}"
        );
    }
}

#[test]
fn validate_rejects_non_http_scheme() {
    let req = request("test", "file:///etc/passwd", "/api/ext/test");
    assert!(validate_request(&req).is_err());
}

#[test]
fn validation_messages_are_exact() {
    let cases = [
        ("", "http://example.com", "/api/ext/x", "id is required"),
        ("x", "", "/api/ext/x", "base_url is required"),
        ("x", "ftp://example.com", "/api/ext/x", "base_url must use http:// or https://"),
        (
            "x",
            "https://metadata.google.internal/computeMetadata",
            "/api/ext/x",
            "base_url must not target private/metadata addresses",
        ),
        ("x", "https://example.com", "/api/x", "routes_prefix must start with /api/ext/"),
    ];
    for (id, url, prefix, msg) in cases {
        assert_eq!(validate_request(&request(id, url, prefix)), Err(msg.to_string()));
    }
}

#[test]
fn validation_lowercases_the_host() {
    let req = request("x", "http://METADATA.Google.Internal/", "/api/ext/x");
    assert!(validate_request(&req).is_err());
    let req = request("x", "HTTP://example.com", "/api/ext/x");
    assert!(validate_request(&req).is_err());
}

#[test]
fn extract_host_cuts_path_and_port() {
    assert_eq!(extract_host("http://Example.COM:8080/a/b"), Some("example.com".to_string()));
    assert_eq!(extract_host("https://host"), Some("host".to_string()));
    assert_eq!(extract_host("http://a:b@host/x"), Some("host".to_string()));
    assert_eq!(extract_host("http://user@10.0.0.1/"), Some("10.0.0.1".to_string()));
    assert_eq!(extract_host("http://a@b@c:1/@d"), Some("c".to_string()));
    assert_eq!(extract_host("http://[::1]:3100/"), Some("::1".to_string()));
    assert_eq!(extract_host("http://[FE80::1]"), Some("fe80::1".to_string()));
    assert_eq!(extract_host("http://host?q=@x"), Some("host".to_string()));
    assert_eq!(extract_host("http://host#@x"), Some("host".to_string()));
    assert_eq!(extract_host("host-only"), None);
    assert_eq!(extract_host("http://"), Some(String::new()));
}

#[test]
fn validate_rejects_hidden_private_hosts() {
    for url in [
        "http://user@10.0.0.1/",
        "http://user:pw@127.0.0.1:8080/x",
        "http://[::1]:3100/",
        "http://[::]/",
        "http://[fe80::1]/",
        "http://[fd00::5]/",
        "http://[::ffff:192.168.0.1]/",
        "http://localhost:3100",
        "http://LOCALHOST/",
        "http://api.localhost/",
        "http://localhost./",
        "http://2130706433/",
        "http://0x7f.1:8080/",
    ] {
        assert!(
            validate_request(&request("test", url, "/api/ext/test")).is_err(),
            "should reject private URL: {url}"
        );
    }
}

#[test]
fn private_ipv4_ranges() {
    for host in [
        "127.0.0.1",
        "127.255.1.2",
        "169.254.10.1",
        "255.255.255.255",
        "0.0.0.0",
        "10.1.2.3",
        "172.31.255.255",
        "192.168.0.1",
        "169.254.169.254",
        "100.100.100.200",
        "metadata.google.internal",
        "localhost",
        "localhost.",
        "a.b.localhost",
        "2130706433",
        "0x7f.1",
        "0X7F000001",
        "0177.0.0.1",
        "127.1",
        "10.0.0",
        "127.0.0.1.",
        "012.0.0.1",
        "0xa9.0xfe.0xa9.0xfe",
        "0",
    ] {
        assert!(is_private_host(host), "{host} should be private");
    }
    for host in [
        "8.8.8.8",
        "172.15.0.1",
        "172.32.0.1",
        "192.169.0.1",
        "010.0.0.1",
        "08.0.0.1",
        "0x7g.1",
        "4294967296",
        "8.8.8.8.",
        "127.0.0.1..",
        "1.2.3.4.5",
        "10.0.0.1.5",
        "256.0.0.1",
        "example.com",
        "notlocalhost",
        "localhost.example.com",
        "",
    ] {
        assert!(!is_private_host(host), "{host} should not be private");
    }
}

#[test]
fn private_ipv6_addresses() {
    for host in [
        "::1",
        "::",
        "0:0:0:0:0:0:0:1",
        "0::1",
        "::0.0.0.1",
        "0:0:0:0:0:0:0.0.0.0",
        "fe80::1",
        "febf::1",
        "fc00::1",
        "fdff:1::2",
        "::ffff:127.0.0.1",
        "::ffff:10.1.2.3",
        "::ffff:a9fe:a9fe",
    ] {
        assert!(is_private_host(host), "{host} should be private");
    }
    for host in [
        "::2",
        "1::",
        "::ffff:8.8.8.8",
        "fec0::1",
        "2001:db8::1",
        ":::1",
        "::1::",
        "0:0:0:0:0:0:0:0:1",
        "[::1]",
    ] {
        assert!(!is_private_host(host), "{host} should not be private");
    }
}

#[test]
fn rfc1918_ranges() {
    let ip = |a, b| Ipv4Octets { a, b, c: 0, d: 1 };
    assert!(is_rfc1918(ip(10, 200)));
    assert!(is_rfc1918(ip(172, 16)));
    assert!(is_rfc1918(ip(172, 31)));
    assert!(is_rfc1918(ip(192, 168)));
    assert!(!is_rfc1918(ip(172, 32)));
    assert!(!is_rfc1918(ip(11, 0)));
    assert!(!is_rfc1918(ip(192, 167)));
}
