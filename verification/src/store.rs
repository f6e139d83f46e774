//! The extension registry's records: how a stored row of `http_extensions`
//! becomes an extension record, and what a new registration stores.
use vstd::prelude::*;

use crate::types::{state_named, BridgeState, HttpExtension, Manifest, UtcTime};

verus! {

/// The instant that `DateTime<Utc>`'s `FromStr` reads from `text`, as
/// seconds since the epoch and nanoseconds within the second.
pub uninterp spec fn utc_instant(text: Seq<char>) -> Option<(i64, u32)>;

/// Calls `str::parse::<chrono::DateTime<chrono::Utc>>`, which reads an
/// RFC 3339 timestamp with any offset and converts it to UTC, and takes the
/// result apart with `timestamp` and `timestamp_subsec_nanos`. The contract
/// names the result and claims only that it depends on the text alone.
#[verifier::external_body]
fn parse_utc(text: &str) -> (r: Option<(i64, u32)>)
    ensures
        r == utc_instant(text@),
{
    match text.parse::<chrono::DateTime<chrono::Utc>>() {
        Ok(t) => Some((t.timestamp(), t.timestamp_subsec_nanos())),
        Err(_) => None,
    }
}

/// The instant stored as `text`, if it reads as one.
pub open spec fn stored_instant(text: Seq<char>) -> Option<UtcTime> {
    match utc_instant(text) {
        Some(p) => Some(UtcTime { secs: p.0, nanos: p.1 }),
        None => None,
    }
}

/// A row of `http_extensions` as read from the database, with its manifest
/// already decoded from `manifest_json`.
#[derive(Debug)]
pub struct ExtensionRow {
    pub id: String,
    pub manifest: Manifest,
    pub base_url: String,
    pub health_endpoint: String,
    pub events_webhook: String,
    pub routes_prefix: String,
    pub state: String,
    pub registered_at: String,
    pub last_health_check: Option<String>,
    pub consecutive_failures: u32,
}

/// The instant stored as `text`, if it reads as one.
pub fn read_instant(text: &str) -> (r: Option<UtcTime>)
    ensures
        r == stored_instant(text@),
{
    match parse_utc(text) {
        Some((secs, nanos)) => Some(UtcTime { secs, nanos }),
        None => None,
    }
}

/// The extension record a stored row stands for, given the instants read
/// from its `registered_at` and `last_health_check` columns (`None` where a
/// column is empty or does not read as an instant). A state name that is not
/// one of the four lifecycle states reads as registered, and a registration
/// time that did not read reads as the Unix epoch.
pub fn record_from_row(
    row: ExtensionRow,
    registered_at: Option<UtcTime>,
    last_health_check: Option<UtcTime>,
) -> (r: HttpExtension)
    ensures
        r.id == row.id,
        r.manifest == row.manifest,
        r.base_url == row.base_url,
        r.health_endpoint == row.health_endpoint,
        r.events_webhook == row.events_webhook,
        r.routes_prefix == row.routes_prefix,
        r.state == (match state_named(row.state@) {
            Some(s) => s,
            None => BridgeState::Registered,
        }),
        r.registered_at == (match registered_at {
            Some(t) => t,
            None => UtcTime { secs: 0, nanos: 0 },
        }),
        r.last_health_check == last_health_check,
        r.consecutive_failures == row.consecutive_failures,
{
    let state = match BridgeState::parse(row.state.as_str()) {
        Some(s) => s,
        None => BridgeState::Registered,
    };
    let registered_at = match registered_at {
        Some(t) => t,
        None => UtcTime::epoch(),
    };
    HttpExtension {
        id: row.id,
        manifest: row.manifest,
        base_url: row.base_url,
        health_endpoint: row.health_endpoint,
        events_webhook: row.events_webhook,
        routes_prefix: row.routes_prefix,
        state,
        registered_at,
        last_health_check,
        consecutive_failures: row.consecutive_failures,
    }
}

/// The extension record a stored row stands for, reading its time columns
/// as instants.
pub fn extension_from_row(row: ExtensionRow) -> (r: HttpExtension)
    ensures
        r.id == row.id,
        r.manifest == row.manifest,
        r.base_url == row.base_url,
        r.health_endpoint == row.health_endpoint,
        r.events_webhook == row.events_webhook,
        r.routes_prefix == row.routes_prefix,
        r.state == (match state_named(row.state@) {
            Some(s) => s,
            None => BridgeState::Registered,
        }),
        r.registered_at == (match stored_instant(row.registered_at@) {
            Some(t) => t,
            None => UtcTime { secs: 0, nanos: 0 },
        }),
        r.last_health_check == (match row.last_health_check {
            Some(t) => stored_instant(t@),
            None => None,
        }),
        r.consecutive_failures == row.consecutive_failures,
{
    let registered_at = read_instant(row.registered_at.as_str());
    let last_health_check = match &row.last_health_check {
        Some(t) => read_instant(t.as_str()),
        None => None,
    };
    record_from_row(row, registered_at, last_health_check)
}

} // verus!
