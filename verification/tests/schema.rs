use convergio_http_bridge::ext::bridge_manifest;
use convergio_http_bridge::schema::{migrations, HTTP_BRIDGE_TABLES};
use convergio_http_bridge::types::ModuleKind;

#[test]
fn migrations_apply_cleanly() {
    let conn = rusqlite::Connection::open_in_memory().unwrap();
    for m in migrations() {
        conn.execute_batch(m.up).unwrap();
    }
    let count: i64 = conn
        .query_row(
            "SELECT COUNT(*) FROM sqlite_master \
             WHERE type='table' AND name='http_extensions'",
            [],
            |r| r.get(0),
        )
        .unwrap();
    assert_eq!(count, 1);
}

#[test]
fn migrations_are_ordered() {
    let migs = migrations();
    assert_eq!(migs.len(), 1);
    assert_eq!(migs[0].version, 1);
    assert_eq!(migs[0].description, "http bridge tables");
}

#[test]
fn migrations_returned() {
    assert_eq!(migrations().len(), 1);
}

#[test]
fn webhook_log_schema_matches() {
    // The delivery log insert writes these columns.
    for column in [
        "http_bridge_webhook_log",
        "extension_id",
        "event_json",
        "delivered_at",
        "status_code",
        "error",
    ] {
        assert!(HTTP_BRIDGE_TABLES.contains(column), "missing {column}");
    }
}

#[test]
fn manifest_is_valid() {
    let m = bridge_manifest();
    assert_eq!(m.id, "convergio-http-bridge");
    assert!(matches!(m.kind, ModuleKind::Core));
    assert_eq!(m.provides.len(), 1);
    assert_eq!(m.provides[0].name, "http-bridge");
}
