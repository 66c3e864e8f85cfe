//! Connection establishment: route choice and failure feedback.
//!
//! For each requested connection an externally evaluated bypass predicate
//! decides whether to connect directly to the target or to tunnel through a
//! backend.  The two paths are mutually exclusive alternatives of one plan
//! type; the surrounding runtime performs the actual connect for either
//! branch and exposes one uniform stream over both.  A failed tunneled
//! attempt is reported back into the chosen endpoint's statistics before the
//! error propagates, so the next selection avoids the broken endpoint; a
//! successful tunneled connection records nothing (only periodic probes
//! measure latency).

use vstd::prelude::*;

use crate::balancer::{registry_wf, EndpointRegistry};
use crate::server_stat::{
    push_window, score_spec, stat_wf, stats_recomputed, Score,
};

verus! {

/// How one connection is to be made: directly to the target, or tunneled
/// through the endpoint at the given registry index.
pub enum ConnectPlan {
    Bypassed,
    Proxied { endpoint: usize },
}

impl ConnectPlan {
    /// Whether this plan tunnels through a backend endpoint.
    pub fn is_proxied(&self) -> (r: bool)
        ensures
            r == (*self is Proxied),
    {
        match self {
            ConnectPlan::Proxied { .. } => true,
            ConnectPlan::Bypassed => false,
        }
    }

    /// Whether this plan connects directly to the target.
    pub fn is_bypassed(&self) -> (r: bool)
        ensures
            r == (*self is Bypassed),
    {
        match self {
            ConnectPlan::Bypassed => true,
            ConnectPlan::Proxied { .. } => false,
        }
    }
}

/// Chooses the route for one connection.  `bypass` is the externally
/// evaluated access-control verdict for the target (an erring predicate is
/// treated as "not bypassed" by the caller).  A bypassed target never touches
/// the registry; otherwise the healthiest endpoint is chosen, lowest score
/// first, ties to the first-inserted.  `None` means no endpoint is available
/// to tunnel through.
pub fn plan_connection(reg: &EndpointRegistry, bypass: bool) -> (r: Option<ConnectPlan>)
    ensures
        bypass ==> (r matches Some(p) && p is Bypassed),
        !bypass ==> match r {
            Option::None => reg@.len() == 0,
            Option::Some(p) => {
                &&& p matches ConnectPlan::Proxied { endpoint }
                &&& endpoint < reg@.len()
                &&& forall|j: int|
                    0 <= j < reg@.len() ==> reg@[endpoint as int].score <= (
                    #[trigger] reg@[j]).score
                &&& forall|j: int|
                    0 <= j < endpoint ==> (#[trigger] reg@[j]).score > reg@[endpoint as int].score
            },
        },
{
    if bypass {
        Option::Some(ConnectPlan::Bypassed)
    } else {
        match reg.select_best() {
            Option::Some(endpoint) => Option::Some(ConnectPlan::Proxied { endpoint }),
            Option::None => Option::None,
        }
    }
}

/// Reports a failed tunneled connection attempt into the chosen endpoint's
/// statistics, refreshing its cached score, before the caller propagates the
/// error.  Returns the endpoint's new score.  A successful connection reports
/// nothing.
pub fn report_tunnel_failure(reg: &mut EndpointRegistry, endpoint: usize) -> (r: u64)
    requires
        registry_wf(old(reg)@),
        endpoint < old(reg)@.len(),
    ensures
        registry_wf(final(reg)@),
        final(reg)@.len() == old(reg)@.len(),
        forall|j: int|
            0 <= j < old(reg)@.len() && j != endpoint ==> final(reg)@[j] == (#[trigger] old(
                reg,
            )@[j]),
        final(reg)@[endpoint as int].port == old(reg)@[endpoint as int].port,
        final(reg)@[endpoint as int].stat.window =~= push_window(
            old(reg)@[endpoint as int].stat.window,
            Score::Errored,
        ),
        stats_recomputed(old(reg)@[endpoint as int].stat, final(reg)@[endpoint as int].stat),
        stat_wf(final(reg)@[endpoint as int].stat),
        final(reg)@[endpoint as int].score == score_spec(final(reg)@[endpoint as int].stat),
        r as int == final(reg)@[endpoint as int].score,
{
    reg.report_outcome(endpoint, Score::Errored)
}

} // verus!
