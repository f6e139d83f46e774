//! Health check decisions for HTTP extensions.
//!
//! Each cycle GETs every extension's health endpoint.
//! Transitions: registered/active → active (on success), → degraded (on failure).
//! After MAX_FAILURES consecutive failures → removed; removed extensions are
//! not checked again.
use vstd::prelude::*;

use crate::types::{BridgeState, HttpExtension, MAX_FAILURES};

verus! {

/// The state and failure count after one health check of an extension that
/// had `failures` consecutive failures.
pub open spec fn health_step(failures: nat, healthy: bool) -> (BridgeState, nat) {
    if healthy {
        (BridgeState::Active, 0)
    } else if failures + 1 >= MAX_FAILURES {
        (BridgeState::Removed, failures + 1)
    } else {
        (BridgeState::Degraded, failures + 1)
    }
}

/// The state and failure count of an extension, starting from `state` with
/// `failures` failures, after a cycle for each of `outcomes` in turn
/// (`true` for a passed check). Cycles skip removed extensions.
pub open spec fn lifecycle(state: BridgeState, failures: nat, outcomes: Seq<bool>) -> (
    BridgeState,
    nat,
)
    decreases outcomes.len(),
{
    if outcomes.len() == 0 {
        (state, failures)
    } else {
        let prev = lifecycle(state, failures, outcomes.drop_last());
        if prev.0 == BridgeState::Removed {
            prev
        } else {
            health_step(prev.1, outcomes.last())
        }
    }
}

/// The number of failed checks at the end of `outcomes`.
pub open spec fn trailing_failures(outcomes: Seq<bool>) -> nat
    decreases outcomes.len(),
{
    if outcomes.len() == 0 || outcomes.last() {
        0
    } else {
        1 + trailing_failures(outcomes.drop_last())
    }
}

/// Whether `outcomes` holds a run of at least MAX_FAILURES failed checks.
pub open spec fn has_failure_run(outcomes: Seq<bool>) -> bool {
    exists|k: int| 0 <= k <= outcomes.len() && trailing_failures(#[trigger] outcomes.take(k)) >= MAX_FAILURES
}

/// Whether a health cycle checks an extension in state `state`.
pub fn needs_health_check(state: BridgeState) -> (r: bool)
    ensures
        r == (state != BridgeState::Removed),
{
    !matches!(state, BridgeState::Removed)
}

/// The state and failure count to record after a health check that passed
/// (`healthy`) or failed, given the extension's consecutive failures so far.
pub fn next_health(failures: u32, healthy: bool) -> (r: (BridgeState, u32))
    requires
        healthy || failures < u32::MAX,
    ensures
        (r.0, r.1 as nat) == health_step(failures as nat, healthy),
{
    if healthy {
        (BridgeState::Active, 0)
    } else {
        let f = failures + 1;
        if f >= MAX_FAILURES {
            (BridgeState::Removed, f)
        } else {
            (BridgeState::Degraded, f)
        }
    }
}

/// The URL that a health check GETs: the base URL followed by the health
/// endpoint.
pub fn health_url(ext: &HttpExtension) -> (r: String)
    ensures
        r@ == ext.base_url@ + ext.health_endpoint@,
{
    ext.base_url.clone().concat(ext.health_endpoint.as_str())
}

/// Whether an HTTP status code is a success (2xx).
pub fn is_success_status(code: u16) -> (r: bool)
    ensures
        r == (200 <= code <= 299),
{
    200 <= code && code <= 299
}

/// Whether a health check passed, given the status of the response, or
/// `None` when no response came back.
pub fn health_check_passed(status: Option<u16>) -> (r: bool)
    ensures
        r == (status is Some && 200 <= status->0 <= 299),
{
    match status {
        Some(code) => is_success_status(code),
        None => false,
    }
}

/// Seconds to wait for a health check response.
pub const HEALTH_CHECK_TIMEOUT_SECS: u64 = 5;

/// A health check to make in a cycle: the extension, the URL to GET and
/// its consecutive failures so far.
#[derive(Debug)]
pub struct HealthProbe {
    pub ext_id: String,
    pub url: String,
    pub failures: u32,
}

/// The checks of one cycle over `exts`, in order: one per extension that is
/// not removed, as its id, health URL and failure count.
pub open spec fn probe_plan(exts: Seq<HttpExtension>) -> Seq<(Seq<char>, Seq<char>, u32)>
    decreases exts.len(),
{
    if exts.len() == 0 {
        Seq::empty()
    } else {
        let rest = probe_plan(exts.drop_last());
        let e = exts.last();
        if e.state != BridgeState::Removed {
            rest.push((e.id@, e.base_url@ + e.health_endpoint@, e.consecutive_failures))
        } else {
            rest
        }
    }
}

pub open spec fn probes_view(ps: Seq<HealthProbe>) -> Seq<(Seq<char>, Seq<char>, u32)> {
    ps.map_values(|p: HealthProbe| (p.ext_id@, p.url@, p.failures))
}

/// The health checks of one cycle, given the listed extensions.
pub fn plan_health_checks(exts: &Vec<HttpExtension>) -> (r: Vec<HealthProbe>)
    ensures
        probes_view(r@) == probe_plan(exts@),
{
    let mut out: Vec<HealthProbe> = Vec::new();
    let mut i: usize = 0;
    while i < exts.len()
        invariant
            i <= exts@.len(),
            probes_view(out@) == probe_plan(exts@.take(i as int)),
        decreases exts@.len() - i,
    {
        let ext = &exts[i];
        proof {
            assert(exts@.take(i + 1).drop_last() =~= exts@.take(i as int));
            assert(exts@.take(i + 1).last() == exts@[i as int]);
        }
        if needs_health_check(ext.state) {
            let ghost before = out@;
            out.push(
                HealthProbe {
                    ext_id: ext.id.clone(),
                    url: health_url(ext),
                    failures: ext.consecutive_failures,
                },
            );
            proof {
                assert(probes_view(out@) =~= probes_view(before).push(
                    (ext.id@, ext.base_url@ + ext.health_endpoint@, ext.consecutive_failures),
                ));
            }
        }
        i += 1;
    }
    proof {
        assert(exts@.take(exts@.len() as int) =~= exts@);
    }
    out
}

/// Each cycle checks every extension that is not removed, whatever its
/// state (registered ones included), exactly once and in list order, at its
/// base URL followed by its health endpoint and with its own failure count;
/// a removed extension adds no check, and no extensions give no checks.
pub proof fn law_every_live_extension_is_checked(s: Seq<HttpExtension>, e: HttpExtension)
    ensures
        probe_plan(Seq::empty()).len() == 0,
        e.state != BridgeState::Removed ==> probe_plan(s.push(e)) == probe_plan(s).push(
            (e.id@, e.base_url@ + e.health_endpoint@, e.consecutive_failures),
        ),
        e.state == BridgeState::Removed ==> probe_plan(s.push(e)) == probe_plan(s),
{
    assert(s.push(e).drop_last() =~= s);
}

/// A removed extension stays removed, with its failure count, whatever the
/// outcomes of later cycles.
pub proof fn law_removed_is_final(failures: nat, outcomes: Seq<bool>)
    ensures
        lifecycle(BridgeState::Removed, failures, outcomes) == (BridgeState::Removed, failures),
    decreases outcomes.len(),
{
    if outcomes.len() > 0 {
        law_removed_is_final(failures, outcomes.drop_last());
    }
}

/// Starting from any live state with no failures, an extension is removed
/// exactly when its checks have failed MAX_FAILURES times in a row. Until
/// then its failure count is the number of failures since its last passed
/// check, and its state is active after a passed check and degraded after a
/// failed one.
pub proof fn law_removal_after_consecutive_failures(start: BridgeState, outcomes: Seq<bool>)
    requires
        start != BridgeState::Removed,
    ensures
        (lifecycle(start, 0, outcomes).0 == BridgeState::Removed) == has_failure_run(outcomes),
        !has_failure_run(outcomes) ==> {
            &&& lifecycle(start, 0, outcomes).1 == trailing_failures(outcomes)
            &&& trailing_failures(outcomes) < MAX_FAILURES
            &&& lifecycle(start, 0, outcomes).0 == (if outcomes.len() == 0 {
                start
            } else if outcomes.last() {
                BridgeState::Active
            } else {
                BridgeState::Degraded
            })
        },
    decreases outcomes.len(),
{
    if outcomes.len() == 0 {
        assert(outcomes.take(0) =~= outcomes);
        assert(!has_failure_run(outcomes)) by {
            assert forall|k: int| 0 <= k <= outcomes.len() implies trailing_failures(
                #[trigger] outcomes.take(k),
            ) < MAX_FAILURES by {
                assert(outcomes.take(k).len() == 0);
            }
        }
    } else {
        let prefix = outcomes.drop_last();
        law_removal_after_consecutive_failures(start, prefix);
        assert(outcomes.take(outcomes.len() as int) =~= outcomes);
        assert(prefix.take(prefix.len() as int) =~= prefix);
        assert forall|k: int| 0 <= k <= prefix.len() implies #[trigger] outcomes.take(k)
            == prefix.take(k) by {
            assert(outcomes.take(k) =~= prefix.take(k));
        }
        if has_failure_run(prefix) {
            let k = choose|k: int|
                0 <= k <= prefix.len() && trailing_failures(#[trigger] prefix.take(k))
                    >= MAX_FAILURES;
            assert(outcomes.take(k) == prefix.take(k));
            assert(has_failure_run(outcomes));
        } else {
            assert(trailing_failures(prefix) < MAX_FAILURES);
            if outcomes.last() {
                assert(trailing_failures(outcomes) == 0);
            } else {
                assert(trailing_failures(outcomes) == trailing_failures(prefix) + 1);
            }
            if has_failure_run(outcomes) {
                let k = choose|k: int|
                    0 <= k <= outcomes.len() && trailing_failures(#[trigger] outcomes.take(k))
                        >= MAX_FAILURES;
                if k <= prefix.len() {
                    assert(outcomes.take(k) == prefix.take(k));
                    assert(has_failure_run(prefix));
                }
            } else {
                assert(trailing_failures(outcomes.take(outcomes.len() as int)) < MAX_FAILURES);
            }
            if !outcomes.last() && trailing_failures(outcomes) >= MAX_FAILURES {
                assert(trailing_failures(outcomes.take(outcomes.len() as int)) >= MAX_FAILURES);
            }
        }
    }
}

} // verus!
