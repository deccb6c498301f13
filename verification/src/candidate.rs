use vstd::prelude::*;

use crate::net::Addr;

verus! {

/// The four gathered candidate kinds, plus the unspecified placeholder that
/// is never eligible for nomination.
#[derive(Clone, Copy, PartialEq, Eq, Structural, Debug)]
pub enum CandidateKind {
    Host,
    ServerReflexive,
    PeerReflexive,
    Relay,
    Unspecified,
}

/// A connectivity candidate: an endpoint with its kind and its ICE priority.
#[derive(Clone, Copy, PartialEq, Eq, Structural, Debug)]
pub struct Candidate {
    pub kind: CandidateKind,
    pub priority: u32,
    pub addr: Addr,
}

/// Per-kind grace periods: a candidate of a kind may be nominated only once
/// the agent has been running strictly longer than the kind's wait.
/// All times in this crate are in milliseconds from an arbitrary epoch.
#[derive(Clone, Copy, PartialEq, Eq, Structural, Debug)]
pub struct WaitConfig {
    pub host_wait: u64,
    pub srflx_wait: u64,
    pub prflx_wait: u64,
    pub relay_wait: u64,
}

/// The grace period configured for a candidate kind; none for the
/// unspecified kind, which is never nominatable.
pub open spec fn min_wait(cfg: WaitConfig, kind: CandidateKind) -> Option<u64> {
    match kind {
        CandidateKind::Host => Some(cfg.host_wait),
        CandidateKind::ServerReflexive => Some(cfg.srflx_wait),
        CandidateKind::PeerReflexive => Some(cfg.prflx_wait),
        CandidateKind::Relay => Some(cfg.relay_wait),
        CandidateKind::Unspecified => None,
    }
}

/// A candidate is nominatable at `now` iff the agent, started at
/// `start_time`, has waited out the grace period of the candidate's kind.
pub open spec fn nominatable(c: Candidate, cfg: WaitConfig, start_time: u64, now: u64) -> bool {
    match min_wait(cfg, c.kind) {
        Some(w) => now > start_time + w,
        None => false,
    }
}

/// Once a candidate has become nominatable it stays so as long as the start
/// time is unchanged and the clock does not go backwards.
pub proof fn lemma_nominatable_monotone(
    c: Candidate,
    cfg: WaitConfig,
    start_time: u64,
    now1: u64,
    now2: u64,
)
    requires
        nominatable(c, cfg, start_time, now1),
        now1 <= now2,
    ensures
        nominatable(c, cfg, start_time, now2),
{
}

/// Decides nominatability of one candidate.
pub fn is_nominatable(c: &Candidate, cfg: &WaitConfig, start_time: u64, now: u64) -> (r: bool)
    requires
        now >= start_time,
    ensures
        r == nominatable(*c, *cfg, start_time, now),
{
    match c.kind {
        CandidateKind::Host => now - start_time > cfg.host_wait,
        CandidateKind::ServerReflexive => now - start_time > cfg.srflx_wait,
        CandidateKind::PeerReflexive => now - start_time > cfg.prflx_wait,
        CandidateKind::Relay => now - start_time > cfg.relay_wait,
        CandidateKind::Unspecified => false,
    }
}

} // verus!
