//! Event webhook delivery decisions: which extensions receive a domain
//! event, where it is POSTed, and what is logged of each attempt.
//!
//! Only active extensions receive events; each attempt is logged in
//! `http_bridge_webhook_log` for audit and retry.
use vstd::prelude::*;

use crate::health::is_success_status;
use crate::text::{decimal, push_decimal};
use crate::types::{BridgeState, HttpExtension};

verus! {

/// Seconds to wait for a webhook delivery.
pub const WEBHOOK_TIMEOUT_SECS: u64 = 10;

/// The header that marks a webhook request as a domain event.
pub const EVENT_HEADER_NAME: &'static str = "X-Convergio-Event";

/// The value of the event header.
pub const EVENT_HEADER_VALUE: &'static str = "domain-event";

/// A webhook delivery to make: the extension and the URL to POST to.
#[derive(Debug)]
pub struct WebhookTarget {
    pub ext_id: String,
    pub url: String,
}

/// The outcome of one delivery attempt.
#[derive(Debug)]
pub enum DeliveryOutcome {
    /// The extension answered with this HTTP status.
    Responded(u16),
    /// No response came back; the error text.
    Failed(String),
}

/// What the webhook log records of one attempt.
#[derive(Debug)]
pub struct DeliveryRecord {
    pub status_code: Option<i64>,
    pub error: Option<String>,
}

/// Whether an extension in state `state` receives events.
pub fn should_deliver(state: BridgeState) -> (r: bool)
    ensures
        r == (state == BridgeState::Active),
{
    matches!(state, BridgeState::Active)
}

/// The URL that events are POSTed to: the base URL followed by the events
/// webhook path.
pub fn webhook_url(ext: &HttpExtension) -> (r: String)
    ensures
        r@ == ext.base_url@ + ext.events_webhook@,
{
    ext.base_url.clone().concat(ext.events_webhook.as_str())
}

/// The deliveries for `exts`, in order: one per active extension, as its id
/// and webhook URL.
pub open spec fn delivery_plan(exts: Seq<HttpExtension>) -> Seq<(Seq<char>, Seq<char>)>
    decreases exts.len(),
{
    if exts.len() == 0 {
        Seq::empty()
    } else {
        let rest = delivery_plan(exts.drop_last());
        let e = exts.last();
        if e.state == BridgeState::Active {
            rest.push((e.id@, e.base_url@ + e.events_webhook@))
        } else {
            rest
        }
    }
}

pub open spec fn targets_view(ts: Seq<WebhookTarget>) -> Seq<(Seq<char>, Seq<char>)> {
    ts.map_values(|t: WebhookTarget| (t.ext_id@, t.url@))
}

/// The deliveries to make for one event, given the listed extensions.
pub fn plan_deliveries(exts: &Vec<HttpExtension>) -> (r: Vec<WebhookTarget>)
    ensures
        targets_view(r@) == delivery_plan(exts@),
{
    let mut out: Vec<WebhookTarget> = Vec::new();
    let mut i: usize = 0;
    while i < exts.len()
        invariant
            i <= exts@.len(),
            targets_view(out@) == delivery_plan(exts@.take(i as int)),
        decreases exts@.len() - i,
    {
        let ext = &exts[i];
        proof {
            assert(exts@.take(i + 1).drop_last() =~= exts@.take(i as int));
            assert(exts@.take(i + 1).last() == exts@[i as int]);
        }
        if should_deliver(ext.state) {
            let ghost before = out@;
            out.push(WebhookTarget { ext_id: ext.id.clone(), url: webhook_url(ext) });
            proof {
                assert(targets_view(out@) =~= targets_view(before).push(
                    (ext.id@, ext.base_url@ + ext.events_webhook@),
                ));
            }
        }
        i += 1;
    }
    proof {
        assert(exts@.take(exts@.len() as int) =~= exts@);
    }
    out
}

/// Every active extension receives each event exactly once, wherever it is
/// listed, at its base URL followed by its events webhook; an extension in
/// any other state adds no delivery, and no extensions give no deliveries.
pub proof fn law_every_active_extension_receives_events(s: Seq<HttpExtension>, e: HttpExtension)
    ensures
        delivery_plan(Seq::empty()).len() == 0,
        e.state == BridgeState::Active ==> delivery_plan(s.push(e)) == delivery_plan(s).push(
            (e.id@, e.base_url@ + e.events_webhook@),
        ),
        e.state != BridgeState::Active ==> delivery_plan(s.push(e)) == delivery_plan(s),
{
    assert(s.push(e).drop_last() =~= s);
}

/// The log record of a delivery attempt: the status when the extension
/// answered, and an error unless it answered with a success status
/// (`HTTP <code>` for other statuses, the error text when no response came).
pub fn delivery_record(outcome: DeliveryOutcome) -> (r: DeliveryRecord)
    ensures
        match outcome {
            DeliveryOutcome::Responded(code) => {
                &&& r.status_code == Some(code as i64)
                &&& (200 <= code <= 299) == (r.error is None)
                &&& r.error is Some ==> r.error->0@ == "HTTP "@ + decimal(code as nat)
            },
            DeliveryOutcome::Failed(e) => {
                &&& r.status_code is None
                &&& r.error is Some
                &&& r.error->0@ == e@
            },
        },
{
    match outcome {
        DeliveryOutcome::Responded(code) => {
            if is_success_status(code) {
                DeliveryRecord { status_code: Some(code as i64), error: None }
            } else {
                let mut msg = String::from_str("HTTP ");
                push_decimal(&mut msg, code);
                DeliveryRecord { status_code: Some(code as i64), error: Some(msg) }
            }
        },
        DeliveryOutcome::Failed(e) => DeliveryRecord { status_code: None, error: Some(e) },
    }
}

} // verus!
