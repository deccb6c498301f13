use vstd::prelude::*;

use crate::candidate::{is_nominatable, lemma_nominatable_monotone, nominatable, Candidate, WaitConfig};
use crate::net::Addr;
use crate::pairs::{CandidatePair, PairRegistry, PairState, Role};
use crate::stun_wire::{binding_request_wire, encode_binding_request, fresh_transaction_id};
use crate::transactions::{PendingRequest, TransactionTable};

verus! {

/// What the selector read out of an inbound STUN message: the transaction
/// id (low 96 bits of the `u128`) and whether USE-CANDIDATE was present.
#[derive(Clone, Copy, PartialEq, Eq, Structural, Debug)]
pub struct InboundMessage {
    pub transaction_id: u128,
    pub use_candidate: bool,
}

/// An outbound binding request, ready to transmit.
pub struct RequestSend {
    pub dest: Addr,
    pub tx_id: u128,
    pub bytes: Vec<u8>,
    pub nominating: bool,
    pub local: Candidate,
    pub remote: Candidate,
}

/// A binding success response owed to the sender of an inbound request.
#[derive(Clone, Copy, PartialEq, Eq, Structural, Debug)]
pub struct SuccessSend {
    pub dest: Addr,
    pub tx_id: u128,
}

/// What the selector asks its surroundings to do; the caller transmits and
/// reports events back.
pub enum SelectorAction {
    SendBindingRequest(RequestSend),
    SendBindingSuccess(SuccessSend),
    Keepalive,
}

/// How an inbound binding success response was handled.
#[derive(Clone, Copy, PartialEq, Eq, Structural, Debug)]
pub enum ResponseOutcome {
    /// No outstanding request carries the transaction id; dropped.
    UnknownTransaction,
    /// The response's source is not the request's destination; dropped.
    SymmetricNat,
    /// The pair named by the response is not in the registry; dropped.
    UnknownPair,
    /// The pair moved to Succeeded.
    Succeeded,
    /// The pair moved to Succeeded and was promoted to selected.
    SucceededSelected,
}

/// The agent's fixed identity and configuration.
pub struct AgentConfig {
    pub role: Role,
    pub lite: bool,
    pub tie_breaker: u64,
    pub local_ufrag: String,
    pub remote_ufrag: String,
    pub remote_pwd: String,
    pub waits: WaitConfig,
}

/// The USERNAME attribute of every outbound check:
/// `"{remote_ufrag}:{local_ufrag}"`.
pub open spec fn spec_username(cfg: AgentConfig) -> Seq<char> {
    cfg.remote_ufrag@ + ":"@ + cfg.local_ufrag@
}

/// Whether the encoder accepts a non-nominating check for this candidate:
/// acceptance does not depend on the transaction id, so the id slot is
/// fixed to zero.
pub open spec fn spec_ping_accepted(cfg: AgentConfig, c: Candidate) -> bool {
    binding_request_wire(
        0,
        spec_username(cfg),
        false,
        cfg.role is Controlling,
        cfg.tie_breaker,
        c.priority,
        cfg.remote_pwd@,
    ) is Some
}

/// Whether the encoder accepts the nominating check for this candidate.
pub open spec fn spec_nominate_accepted(cfg: AgentConfig, c: Candidate) -> bool {
    binding_request_wire(
        0,
        spec_username(cfg),
        true,
        cfg.role is Controlling,
        cfg.tie_breaker,
        c.priority,
        cfg.remote_pwd@,
    ) is Some
}

/// Whether this action nominates a pair (a binding request carrying
/// USE-CANDIDATE).
pub open spec fn action_is_nominating(a: SelectorAction) -> bool {
    match a {
        SelectorAction::SendBindingRequest(rs) => rs.nominating,
        _ => false,
    }
}

/// The nominatability gate: a nominating request may only name endpoints
/// whose grace periods had passed when it was emitted.
pub open spec fn spec_nomination_gated(
    a: SelectorAction,
    waits: WaitConfig,
    start_time: u64,
    now: u64,
) -> bool {
    match a {
        SelectorAction::SendBindingRequest(rs) => rs.nominating ==> nominatable(
            rs.local,
            waits,
            start_time,
            now,
        ) && nominatable(rs.remote, waits, start_time, now),
        _ => true,
    }
}

/// A well-formed outbound check: addressed to the remote endpoint and
/// encoded by the STUN encoder from exactly these attributes.
pub open spec fn spec_check_send(
    a: SelectorAction,
    cfg: AgentConfig,
    local: Candidate,
    remote: Candidate,
    nominating: bool,
) -> bool {
    match a {
        SelectorAction::SendBindingRequest(rs) => {
            &&& rs.nominating == nominating
            &&& rs.local == local
            &&& rs.remote == remote
            &&& rs.dest == remote.addr
            &&& rs.bytes@ == binding_request_wire(
                rs.tx_id,
                spec_username(cfg),
                nominating,
                cfg.role is Controlling,
                cfg.tie_breaker,
                local.priority,
                cfg.remote_pwd@,
            )->Some_0
        },
        _ => false,
    }
}

/// A sent binding request is on the books: the table holds its transaction,
/// addressed as sent, carrying its USE-CANDIDATE flag, stamped `now`.
pub open spec fn spec_send_recorded(a: SelectorAction, t: TransactionTable, now: u64) -> bool {
    match a {
        SelectorAction::SendBindingRequest(rs) => t.spec_contains_entry(
            PendingRequest {
                transaction_id: rs.tx_id,
                destination: rs.dest,
                is_use_candidate: rs.nominating,
                sent_at: now,
            },
        ),
        _ => true,
    }
}

/// The check state the controlled role sees for the (local, remote) pair
/// when a binding request arrives: the registered pair's state, or Waiting
/// for a pair about to be added.
pub open spec fn spec_inbound_pair_state(pre: Agent, local: Candidate, remote: Candidate) -> PairState {
    match pre.registry.find_index(local.addr, remote.addr) {
        Some(i) => pre.registry.pairs@[i].state,
        None => PairState::Waiting,
    }
}

/// The registry slot the (local, remote) pair occupies after lazy addition.
pub open spec fn spec_inbound_pair_slot(pre: Agent, local: Candidate, remote: Candidate) -> int {
    match pre.registry.find_index(local.addr, remote.addr) {
        Some(i) => i,
        None => pre.registry.pairs@.len() as int,
    }
}

/// A triggered (non-nominating) check for the given pair.
pub open spec fn spec_triggered_ping(
    a: SelectorAction,
    cfg: AgentConfig,
    local: Candidate,
    remote: Candidate,
) -> bool {
    spec_check_send(a, cfg, local, remote, false)
}

/// What one sweep action is: a non-nominating check for some registry pair.
pub open spec fn spec_sweep_send(a: SelectorAction, agent: Agent) -> bool {
    !action_is_nominating(a) && exists|j: int|
        0 <= j < agent.registry.pairs@.len() && spec_check_send(
            a,
            agent.config,
            agent.registry.pairs@[j].local,
            agent.registry.pairs@[j].remote,
            false,
        )
}

/// Sweep coverage of registry slot `j`: where the encoder accepts the
/// pair's check, the result holds one.
pub open spec fn spec_sweep_covers(r: Seq<SelectorAction>, agent: Agent, j: int) -> bool {
    spec_ping_accepted(agent.config, agent.registry.pairs@[j].local) ==> exists|k: int|
        0 <= k < r.len() && spec_check_send(
            r[k],
            agent.config,
            agent.registry.pairs@[j].local,
            agent.registry.pairs@[j].remote,
            false,
        )
}

/// Sweep coverage reads only the configuration and the pair table, so it
/// transfers between agent states that agree on both.
pub proof fn lemma_sweep_covers_same(r: Seq<SelectorAction>, a: Agent, b: Agent, j: int)
    requires
        a.config == b.config,
        a.registry.pairs@ == b.registry.pairs@,
        spec_sweep_covers(r, a, j),
    ensures
        spec_sweep_covers(r, b, j),
{
    if spec_ping_accepted(b.config, b.registry.pairs@[j].local) {
        let k = choose|k: int|
            0 <= k < r.len() && spec_check_send(
                r[k],
                a.config,
                a.registry.pairs@[j].local,
                a.registry.pairs@[j].remote,
                false,
            );
        assert(spec_check_send(
            r[k],
            b.config,
            b.registry.pairs@[j].local,
            b.registry.pairs@[j].remote,
            false,
        ));
    }
}

/// The connectivity-check selector: one state machine whose five entry
/// points branch on the agent's role. Socket work is returned as actions.
pub struct Agent {
    pub config: AgentConfig,
    pub start_time: u64,
    pub latest_now: u64,
    pub nominated_pair: Option<usize>,
    pub selected_pair: Option<usize>,
    pub registry: PairRegistry,
    pub transactions: TransactionTable,
}

impl Agent {
    /// The agent's invariant: both tables well-formed, the clock
    /// high-water mark past the start time, indices in range, a nominated
    /// pair already nominatable (so re-nominations stay gated), and the
    /// controlled role never nominating.
    pub open spec fn wf(self) -> bool {
        &&& self.registry.wf()
        &&& self.transactions.wf()
        &&& self.latest_now >= self.start_time
        &&& match self.nominated_pair {
            Some(i) => i < self.registry.spec_len() && nominatable(
                self.registry.pairs@[i as int].local,
                self.config.waits,
                self.start_time,
                self.latest_now,
            ) && nominatable(
                self.registry.pairs@[i as int].remote,
                self.config.waits,
                self.start_time,
                self.latest_now,
            ),
            None => true,
        }
        &&& match self.selected_pair {
            Some(i) => i < self.registry.spec_len(),
            None => true,
        }
        &&& (self.config.role is Controlled ==> self.nominated_pair is None)
    }

    pub fn new(config: AgentConfig, now: u64) -> (r: Agent)
        ensures
            r.wf(),
            r.config == config,
            r.start_time == now,
            r.latest_now == now,
            r.nominated_pair is None,
            r.selected_pair is None,
            r.registry.pairs@.len() == 0,
            r.transactions.entries@.len() == 0,
    {
        Agent {
            config,
            start_time: now,
            latest_now: now,
            nominated_pair: None,
            selected_pair: None,
            registry: PairRegistry::new(),
            transactions: TransactionTable::new(),
        }
    }

    /// Advances the clock high-water mark.
    fn touch(&mut self, now: u64)
        requires
            old(self).wf(),
            now >= old(self).latest_now,
        ensures
            *final(self) == (Agent { latest_now: now, ..*old(self) }),
            final(self).wf(),
    {
        proof {
            match self.nominated_pair {
                Some(i) => {
                    lemma_nominatable_monotone(
                        self.registry.pairs@[i as int].local,
                        self.config.waits,
                        self.start_time,
                        self.latest_now,
                        now,
                    );
                    lemma_nominatable_monotone(
                        self.registry.pairs@[i as int].remote,
                        self.config.waits,
                        self.start_time,
                        self.latest_now,
                        now,
                    );
                },
                None => {},
            }
        }
        self.latest_now = now;
    }

    /// Decides whether a candidate may be nominated at `now`.
    pub fn is_nominatable(&self, c: &Candidate, now: u64) -> (r: bool)
        requires
            now >= self.start_time,
        ensures
            r == nominatable(*c, self.config.waits, self.start_time, now),
    {
        is_nominatable(c, &self.config.waits, self.start_time, now)
    }

    /// Builds the USERNAME of an outbound check.
    fn request_username(&self) -> (r: String)
        ensures
            r@ == spec_username(self.config),
    {
        let mut u = String::from_str(self.config.remote_ufrag.as_str());
        u.append(":");
        u.append(self.config.local_ufrag.as_str());
        proof {
            assert(u@ == self.config.remote_ufrag@ + ":"@ + self.config.local_ufrag@);
        }
        u
    }

    /// Starts (or restarts) the selector. The controlling role resets its
    /// start time and forgets any nomination; the controlled role keeps
    /// both, since it never nominates.
    pub fn start(&mut self, now: u64)
        requires
            old(self).wf(),
            now >= old(self).latest_now,
        ensures
            final(self).wf(),
            final(self).latest_now == now,
            final(self).config == old(self).config,
            final(self).registry.pairs@ == old(self).registry.pairs@,
            final(self).transactions.entries@ == old(self).transactions.entries@,
            final(self).selected_pair == old(self).selected_pair,
            old(self).config.role is Controlling ==> final(self).start_time == now && final(
                self).nominated_pair is None,
            old(self).config.role is Controlled ==> final(self).start_time == old(self).start_time
                && final(self).nominated_pair == old(self).nominated_pair,
    {
        self.touch(now);
        match self.config.role {
            Role::Controlling => {
                self.start_time = now;
                self.nominated_pair = None;
            },
            Role::Controlled => {},
        }
    }

    /// Emits one non-nominating connectivity check for the pair.
    pub fn ping_candidate(&mut self, now: u64, local: &Candidate, remote: &Candidate) -> (r: Vec<
        SelectorAction,
    >)
        requires
            old(self).wf(),
            now >= old(self).latest_now,
        ensures
            final(self).wf(),
            final(self).latest_now == now,
            final(self).config == old(self).config,
            final(self).start_time == old(self).start_time,
            final(self).registry.pairs@ == old(self).registry.pairs@,
            final(self).selected_pair == old(self).selected_pair,
            final(self).nominated_pair == old(self).nominated_pair,
            r@.len() <= 1,
            r@.len() == 1 <==> spec_ping_accepted(old(self).config, *local),
            forall|k: int|
                0 <= k < r@.len() ==> spec_check_send(
                    #[trigger] r@[k],
                    old(self).config,
                    *local,
                    *remote,
                    false,
                ) && spec_send_recorded(r@[k], final(self).transactions, now),
            r@.len() == 0 ==> final(self).transactions.entries@ == old(
                self).transactions.entries@,
    {
        self.touch(now);
        let username = self.request_username();
        let tx = fresh_transaction_id();
        let controlling = matches!(self.config.role, Role::Controlling);
        match encode_binding_request(
            tx,
            username.as_str(),
            false,
            controlling,
            self.config.tie_breaker,
            local.priority,
            self.config.remote_pwd.as_str(),
        ) {
            Ok(bytes) => {
                self.transactions.register(tx, remote.addr, false, now);
                let mut v: Vec<SelectorAction> = Vec::new();
                v.push(
                    SelectorAction::SendBindingRequest(
                        RequestSend {
                            dest: remote.addr,
                            tx_id: tx,
                            bytes,
                            nominating: false,
                            local: *local,
                            remote: *remote,
                        },
                    ),
                );
                v
            },
            Err(_) => Vec::new(),
        }
    }

    /// Emits the nominating check for the currently nominated pair, if any.
    /// Only the controlling role ever holds one.
    pub fn nominate_pair(&mut self, now: u64) -> (r: Vec<SelectorAction>)
        requires
            old(self).wf(),
            now >= old(self).latest_now,
        ensures
            final(self).wf(),
            final(self).latest_now == now,
            final(self).config == old(self).config,
            final(self).start_time == old(self).start_time,
            final(self).registry.pairs@ == old(self).registry.pairs@,
            final(self).selected_pair == old(self).selected_pair,
            final(self).nominated_pair == old(self).nominated_pair,
            r@.len() <= 1,
            old(self).nominated_pair is None ==> r@.len() == 0 && final(
                self).transactions.entries@ == old(self).transactions.entries@,
            old(self).nominated_pair is Some ==> (r@.len() == 1 <==> spec_nominate_accepted(
                old(self).config,
                old(self).registry.pairs@[old(self).nominated_pair->Some_0 as int].local,
            )),
            r@.len() == 0 ==> final(self).transactions.entries@ == old(
                self).transactions.entries@,
            forall|k: int|
                0 <= k < r@.len() ==> action_is_nominating(#[trigger] r@[k])
                    && spec_nomination_gated(
                    r@[k],
                    old(self).config.waits,
                    old(self).start_time,
                    now,
                ),
            forall|k: int|
                0 <= k < r@.len() ==> old(self).nominated_pair is Some && spec_check_send(
                    #[trigger] r@[k],
                    old(self).config,
                    old(self).registry.pairs@[old(self).nominated_pair->Some_0 as int].local,
                    old(self).registry.pairs@[old(self).nominated_pair->Some_0 as int].remote,
                    true,
                ) && spec_send_recorded(r@[k], final(self).transactions, now),
    {
        self.touch(now);
        let nominated = self.nominated_pair;
        match nominated {
            None => Vec::new(),
            Some(i) => {
                let pair = self.registry.get(i);
                let username = self.request_username();
                let tx = fresh_transaction_id();
                let controlling = matches!(self.config.role, Role::Controlling);
                match encode_binding_request(
                    tx,
                    username.as_str(),
                    true,
                    controlling,
                    self.config.tie_breaker,
                    pair.local.priority,
                    self.config.remote_pwd.as_str(),
                ) {
                    Ok(bytes) => {
                        self.transactions.register(tx, pair.remote.addr, true, now);
                        let mut v: Vec<SelectorAction> = Vec::new();
                        v.push(
                            SelectorAction::SendBindingRequest(
                                RequestSend {
                                    dest: pair.remote.addr,
                                    tx_id: tx,
                                    bytes,
                                    nominating: true,
                                    local: pair.local,
                                    remote: pair.remote,
                                },
                            ),
                        );
                        v
                    },
                    Err(_) => Vec::new(),
                }
            },
        }
    }

    /// Sends one non-nominating check to every pair, highest priority
    /// first.
    pub fn ping_all_candidates(&mut self, now: u64) -> (r: Vec<SelectorAction>)
        requires
            old(self).wf(),
            now >= old(self).latest_now,
        ensures
            final(self).wf(),
            final(self).latest_now == now,
            final(self).config == old(self).config,
            final(self).start_time == old(self).start_time,
            final(self).registry.pairs@ == old(self).registry.pairs@,
            final(self).selected_pair == old(self).selected_pair,
            final(self).nominated_pair == old(self).nominated_pair,
            forall|k: int| 0 <= k < r@.len() ==> spec_sweep_send(#[trigger] r@[k], *old(self)),
            forall|j: int|
                0 <= j < old(self).registry.pairs@.len() ==> #[trigger] spec_sweep_covers(
                    r@,
                    *old(self),
                    j,
                ),
    {
        self.touch(now);
        let order = self.registry.priority_sweep(self.config.role);
        let mut actions: Vec<SelectorAction> = Vec::new();
        let mut k: usize = 0;
        while k < order.len()
            invariant
                self.wf(),
                self.latest_now == now,
                self.config == old(self).config,
                self.start_time == old(self).start_time,
                self.registry.pairs@ == old(self).registry.pairs@,
                self.selected_pair == old(self).selected_pair,
                self.nominated_pair == old(self).nominated_pair,
                k <= order@.len(),
                forall|i: int| 0 <= i < order@.len() ==> (#[trigger] order@[i]) < self.registry.spec_len(),
                forall|m: int|
                    0 <= m < actions@.len() ==> spec_sweep_send(#[trigger] actions@[m], *old(self)),
                forall|m: int|
                    0 <= m < k ==> #[trigger] spec_sweep_covers(
                        actions@,
                        *old(self),
                        order@[m] as int,
                    ),
            decreases order@.len() - k,
        {
            let idx = order[k];
            let p = self.registry.get(idx);
            let ghost before = actions@;
            let mut more = self.ping_candidate(now, &p.local, &p.remote);
            let ghost added = more@;
            actions.append(&mut more);
            proof {
                assert forall|m: int|
                    0 <= m < actions@.len() implies spec_sweep_send(
                    #[trigger] actions@[m],
                    *old(self),
                ) by {
                    if m < before.len() {
                        assert(actions@[m] == before[m]);
                    } else {
                        assert(actions@[m] == added[m - before.len()]);
                        assert(spec_check_send(
                            actions@[m],
                            old(self).config,
                            old(self).registry.pairs@[idx as int].local,
                            old(self).registry.pairs@[idx as int].remote,
                            false,
                        ));
                    }
                }
                assert forall|m: int| 0 <= m < k + 1 implies #[trigger] spec_sweep_covers(
                    actions@,
                    *old(self),
                    order@[m] as int,
                ) by {
                    let j = order@[m] as int;
                    if m < k {
                        if spec_ping_accepted(old(self).config, old(self).registry.pairs@[j].local) {
                            assert(spec_sweep_covers(before, *old(self), j));
                            let k2 = choose|k2: int|
                                0 <= k2 < before.len() && spec_check_send(
                                    before[k2],
                                    old(self).config,
                                    old(self).registry.pairs@[j].local,
                                    old(self).registry.pairs@[j].remote,
                                    false,
                                );
                            assert(actions@[k2] == before[k2]);
                        }
                    } else {
                        assert(j == idx as int);
                        if spec_ping_accepted(old(self).config, old(self).registry.pairs@[j].local) {
                            assert(added.len() == 1);
                            assert(actions@[before.len() as int] == added[0]);
                        }
                    }
                }
            }
            k = k + 1;
        }
        proof {
            assert forall|j: int|
                0 <= j < old(self).registry.pairs@.len() implies #[trigger] spec_sweep_covers(
                actions@,
                *old(self),
                j,
            ) by {
                assert(crate::pairs::spec_contains_index(order@, j as usize));
                let m = choose|m: int| 0 <= m < order@.len() && order@[m] == j as usize;
                assert(spec_sweep_covers(actions@, *old(self), order@[m] as int));
            }
        }
        actions
    }

    /// One selector tick. With a selected pair the tick only keeps it
    /// alive (the caller reports whether it still validates); the
    /// controlling role otherwise pushes the nomination forward, and both
    /// roles fall back to checking every pair.
    pub fn contact_candidates(&mut self, now: u64, selected_valid: bool) -> (r: Vec<
        SelectorAction,
    >)
        requires
            old(self).wf(),
            now >= old(self).latest_now,
        ensures
            final(self).wf(),
            final(self).latest_now == now,
            final(self).config == old(self).config,
            final(self).selected_pair == old(self).selected_pair,
            final(self).start_time == old(self).start_time,
            final(self).registry.pairs@.len() == old(self).registry.pairs@.len(),
            forall|k: int|
                0 <= k < r@.len() ==> spec_nomination_gated(
                    #[trigger] r@[k],
                    old(self).config.waits,
                    old(self).start_time,
                    now,
                ),
            old(self).nominated_pair is Some ==> final(self).nominated_pair == old(
                self).nominated_pair,
            (old(self).config.role is Controlled || old(self).selected_pair is Some) ==> final(
                self).nominated_pair == old(self).nominated_pair && final(self).registry.pairs@
                == old(self).registry.pairs@,
            old(self).selected_pair is Some && !(old(self).config.role is Controlled
                && old(self).config.lite) ==> (if selected_valid {
                r@ =~= seq![SelectorAction::Keepalive]
            } else {
                r@.len() == 0
            }) && final(self).transactions.entries@ == old(self).transactions.entries@,
            (old(self).config.role is Controlled && old(self).config.lite) ==> r@.len() == 0
                && final(self).transactions.entries@ == old(self).transactions.entries@,
            (old(self).config.role is Controlling && old(self).selected_pair is None && old(
                self).nominated_pair is Some) ==> (r@.len() == 1 <==> spec_nominate_accepted(
                old(self).config,
                old(self).registry.pairs@[old(self).nominated_pair->Some_0 as int].local,
            )) && forall|k: int|
                0 <= k < r@.len() ==> action_is_nominating(#[trigger] r@[k]) && spec_check_send(
                    r@[k],
                    old(self).config,
                    old(self).registry.pairs@[old(self).nominated_pair->Some_0 as int].local,
                    old(self).registry.pairs@[old(self).nominated_pair->Some_0 as int].remote,
                    true,
                ),
            (old(self).config.role is Controlling && old(self).selected_pair is None && old(
                self).nominated_pair is None && final(self).nominated_pair is Some) ==> (r@.len()
                == 1 <==> spec_nominate_accepted(
                old(self).config,
                old(self).registry.pairs@[final(self).nominated_pair->Some_0 as int].local,
            )) && forall|k: int|
                0 <= k < r@.len() ==> action_is_nominating(#[trigger] r@[k]) && spec_check_send(
                    r@[k],
                    old(self).config,
                    old(self).registry.pairs@[final(self).nominated_pair->Some_0 as int].local,
                    old(self).registry.pairs@[final(self).nominated_pair->Some_0 as int].remote,
                    true,
                ),
            (old(self).config.role is Controlling && old(self).selected_pair is None && old(
                self).nominated_pair is None) ==> match final(self).nominated_pair {
                Some(b) => old(self).registry.is_best(
                    Role::Controlling,
                    b as int,
                    PairRegistry::succeeded_pred(),
                ) && nominatable(
                    old(self).registry.pairs@[b as int].local,
                    old(self).config.waits,
                    old(self).start_time,
                    now,
                ) && nominatable(
                    old(self).registry.pairs@[b as int].remote,
                    old(self).config.waits,
                    old(self).start_time,
                    now,
                ) && final(self).registry.pairs@ == old(self).registry.pairs@.update(
                    b as int,
                    CandidatePair { nominated: true, ..old(self).registry.pairs@[b as int] },
                ),
                None => final(self).registry.pairs@ == old(self).registry.pairs@ && (forall|
                    k: int,
                |
                    0 <= k < r@.len() ==> !action_is_nominating(#[trigger] r@[k])) && (forall|
                    b: int,
                |
                    #[trigger] old(self).registry.is_best(
                        Role::Controlling,
                        b,
                        PairRegistry::succeeded_pred(),
                    ) ==> !(nominatable(
                        old(self).registry.pairs@[b].local,
                        old(self).config.waits,
                        old(self).start_time,
                        now,
                    ) && nominatable(
                        old(self).registry.pairs@[b].remote,
                        old(self).config.waits,
                        old(self).start_time,
                        now,
                    ))) && forall|j: int|
                    0 <= j < old(self).registry.pairs@.len() ==> #[trigger] spec_sweep_covers(
                        r@,
                        *old(self),
                        j,
                    ),
            },
            (old(self).config.role is Controlled && !old(self).config.lite && old(
                self).selected_pair is None) ==> forall|j: int|
                0 <= j < old(self).registry.pairs@.len() ==> #[trigger] spec_sweep_covers(
                    r@,
                    *old(self),
                    j,
                ),
    {
        self.touch(now);
        match self.config.role {
            Role::Controlling => {
                if self.selected_pair.is_some() {
                    let mut v: Vec<SelectorAction> = Vec::new();
                    if selected_valid {
                        v.push(SelectorAction::Keepalive);
                    }
                    v
                } else if self.nominated_pair.is_some() {
                    self.nominate_pair(now)
                } else {
                    let best = self.registry.best_valid(Role::Controlling);
                    match best {
                        Some(b) => {
                            let pair = self.registry.get(b);
                            if self.is_nominatable(&pair.local, now) && self.is_nominatable(
                                &pair.remote,
                                now,
                            ) {
                                self.registry.set_nominated(b, true);
                                self.nominated_pair = Some(b);
                                self.nominate_pair(now)
                            } else {
                                proof {
                                    assert forall|b2: int|
                                        #[trigger] self.registry.is_best(
                                            Role::Controlling,
                                            b2,
                                            PairRegistry::succeeded_pred(),
                                        ) implies !(nominatable(
                                        self.registry.pairs@[b2].local,
                                        self.config.waits,
                                        self.start_time,
                                        now,
                                    ) && nominatable(
                                        self.registry.pairs@[b2].remote,
                                        self.config.waits,
                                        self.start_time,
                                        now,
                                    )) by {
                                        self.registry.lemma_is_best_unique(
                                            Role::Controlling,
                                            b2,
                                            b as int,
                                            PairRegistry::succeeded_pred(),
                                        );
                                    }
                                }
                                let ghost pre = *self;
                                let acts = self.ping_all_candidates(now);
                                proof {
                                    assert forall|j: int|
                                        0 <= j < old(self).registry.pairs@.len() implies #[trigger] spec_sweep_covers(
                                        acts@,
                                        *old(self),
                                        j,
                                    ) by {
                                        lemma_sweep_covers_same(acts@, pre, *old(self), j);
                                    }
                                }
                                acts
                            }
                        },
                        None => {
                let ghost pre = *self;
                let acts = self.ping_all_candidates(now);
                proof {
                    assert forall|j: int|
                        0 <= j < old(self).registry.pairs@.len() implies #[trigger] spec_sweep_covers(
                        acts@,
                        *old(self),
                        j,
                    ) by {
                        lemma_sweep_covers_same(acts@, pre, *old(self), j);
                    }
                }
                acts
                        },
                    }
                }
            },
            Role::Controlled => {
                if self.config.lite {
                    Vec::new()
                } else if self.selected_pair.is_some() {
                    let mut v: Vec<SelectorAction> = Vec::new();
                    if selected_valid {
                        v.push(SelectorAction::Keepalive);
                    }
                    v
                } else {
                let ghost pre = *self;
                let acts = self.ping_all_candidates(now);
                proof {
                    assert forall|j: int|
                        0 <= j < old(self).registry.pairs@.len() implies #[trigger] spec_sweep_covers(
                        acts@,
                        *old(self),
                        j,
                    ) by {
                        lemma_sweep_covers_same(acts@, pre, *old(self), j);
                    }
                }
                acts
                }
            },
        }
    }

    /// Consumes an inbound binding success response. An unknown transaction
    /// is dropped; a response from the wrong source address (symmetric NAT)
    /// is dropped with the transaction consumed and the pair untouched; a
    /// known pair moves to Succeeded, and the controlling role promotes it
    /// to selected when the check carried USE-CANDIDATE and nothing was
    /// selected yet.
    pub fn handle_success_response(
        &mut self,
        now: u64,
        msg: &InboundMessage,
        local: &Candidate,
        remote: &Candidate,
        remote_addr: Addr,
    ) -> (r: ResponseOutcome)
        requires
            old(self).wf(),
            now >= old(self).latest_now,
        ensures
            final(self).wf(),
            final(self).latest_now == now,
            final(self).config == old(self).config,
            final(self).start_time == old(self).start_time,
            final(self).nominated_pair == old(self).nominated_pair,
            final(self).registry.pairs@.len() == old(self).registry.pairs@.len(),
            old(self).selected_pair is Some ==> final(self).selected_pair == old(
                self).selected_pair,
            !final(self).transactions.spec_contains(msg.transaction_id),
            (r == ResponseOutcome::UnknownTransaction) <==> !old(self).transactions.spec_contains(
                msg.transaction_id,
            ),
            r == ResponseOutcome::UnknownTransaction ==> *final(self) == (Agent {
                latest_now: now,
                ..*old(self)
            }),
            old(self).transactions.spec_contains(msg.transaction_id) ==> exists|i: int|
                0 <= i < old(self).transactions.entries@.len() && old(self).transactions.entries@[i]
                    == old(self).transactions.spec_entry(msg.transaction_id) && final(
                    self).transactions.entries@ == old(self).transactions.entries@.remove(i),
            (r == ResponseOutcome::SymmetricNat) <==> (old(self).transactions.spec_contains(
                msg.transaction_id,
            ) && old(self).transactions.spec_entry(msg.transaction_id).destination != remote_addr),
            r == ResponseOutcome::SymmetricNat ==> final(self).registry.pairs@ == old(
                self).registry.pairs@ && final(self).selected_pair == old(self).selected_pair,
            (r == ResponseOutcome::UnknownPair) <==> (old(self).transactions.spec_contains(
                msg.transaction_id,
            ) && old(self).transactions.spec_entry(msg.transaction_id).destination == remote_addr
                && old(self).registry.find_index(local.addr, remote.addr) is None),
            r == ResponseOutcome::UnknownPair ==> final(self).registry.pairs@ == old(
                self).registry.pairs@ && final(self).selected_pair == old(self).selected_pair,
            (r == ResponseOutcome::Succeeded || r == ResponseOutcome::SucceededSelected) <==> (old(
                self).transactions.spec_contains(msg.transaction_id) && old(
                self).transactions.spec_entry(msg.transaction_id).destination == remote_addr && old(
                self).registry.find_index(local.addr, remote.addr) is Some),
            (r == ResponseOutcome::Succeeded || r == ResponseOutcome::SucceededSelected) ==> final(
                self).registry.pairs@ == old(self).registry.pairs@.update(
                old(self).registry.find_index(local.addr, remote.addr)->Some_0,
                CandidatePair {
                    state: PairState::Succeeded,
                    ..old(self).registry.pairs@[old(self).registry.find_index(
                        local.addr,
                        remote.addr,
                    )->Some_0]
                },
            ),
            (r == ResponseOutcome::SucceededSelected) <==> ((r == ResponseOutcome::Succeeded || r
                == ResponseOutcome::SucceededSelected) && old(self).config.role is Controlling
                && old(self).transactions.spec_entry(msg.transaction_id).is_use_candidate && old(
                self).selected_pair is None),
            r == ResponseOutcome::SucceededSelected ==> final(self).selected_pair == Some(
                old(self).registry.find_index(local.addr, remote.addr)->Some_0 as usize,
            ),
            r == ResponseOutcome::Succeeded ==> final(self).selected_pair == old(
                self).selected_pair,
    {
        self.touch(now);
        let consumed = self.transactions.consume(msg.transaction_id);
        match consumed {
            None => ResponseOutcome::UnknownTransaction,
            Some(req) => {
                proof {
                    old(self).transactions.lemma_entry_unique(req);
                }
                if !(req.destination == remote_addr) {
                    ResponseOutcome::SymmetricNat
                } else {
                    let selected_none = self.selected_pair.is_none();
                    proof {
                        old(self).registry.lemma_find_index(local.addr, remote.addr);
                    }
                    match self.registry.find_pair(&local.addr, &remote.addr) {
                        None => ResponseOutcome::UnknownPair,
                        Some(p) => {
                            proof {
                                old(self).registry.lemma_find_index_unique(
                                    local.addr,
                                    remote.addr,
                                    p as int,
                                );
                            }
                            self.registry.set_state(p, PairState::Succeeded);
                            let controlling = matches!(self.config.role, Role::Controlling);
                            if controlling && req.is_use_candidate && selected_none {
                                self.selected_pair = Some(p);
                                ResponseOutcome::SucceededSelected
                            } else {
                                ResponseOutcome::Succeeded
                            }
                        },
                    }
                }
            },
        }
    }

    /// Handles an inbound binding request. Both roles lazily add unknown
    /// pairs. The controlling role replies and may nominate the pair when
    /// it is the best available, already Succeeded, unnominated,
    /// unselected and past the grace periods. The controlled role obeys
    /// USE-CANDIDATE: it selects a Succeeded pair, and otherwise answers
    /// with a triggered check instead of selecting.
    #[verifier::rlimit(50)]
    pub fn handle_binding_request(
        &mut self,
        now: u64,
        msg: &InboundMessage,
        local: &Candidate,
        remote: &Candidate,
    ) -> (r: Vec<SelectorAction>)
        requires
            old(self).wf(),
            now >= old(self).latest_now,
        ensures
            final(self).wf(),
            final(self).latest_now == now,
            final(self).config == old(self).config,
            final(self).start_time == old(self).start_time,
            old(self).selected_pair is Some ==> final(self).selected_pair == old(
                self).selected_pair,
            forall|k: int|
                0 <= k < r@.len() ==> spec_nomination_gated(
                    #[trigger] r@[k],
                    old(self).config.waits,
                    old(self).start_time,
                    now,
                ),
            old(self).config.role is Controlling ==> final(self).selected_pair == old(
                self).selected_pair && r@.len() >= 1 && r@[0]
                == SelectorAction::SendBindingSuccess(
                SuccessSend { dest: remote.addr, tx_id: msg.transaction_id },
            ),
            (old(self).config.role is Controlling && old(self).registry.find_index(
                local.addr,
                remote.addr,
            ) is None) ==> final(self).registry.pairs@ == old(self).registry.pairs@.push(
                CandidatePair {
                    local: *local,
                    remote: *remote,
                    state: PairState::Waiting,
                    nominated: false,
                },
            ) && final(self).nominated_pair == old(self).nominated_pair && r@.len() == 1 && final(
                self).transactions.entries@ == old(self).transactions.entries@,
            (old(self).config.role is Controlling && old(self).registry.find_index(
                local.addr,
                remote.addr,
            ) is Some) ==> ({
                let p = old(self).registry.find_index(local.addr, remote.addr)->Some_0;
                let gate_ok = old(self).registry.pairs@[p].state is Succeeded && old(
                    self).nominated_pair is None && old(self).selected_pair is None && old(
                    self).registry.is_best(Role::Controlling, p, PairRegistry::available_pred())
                    && nominatable(
                    old(self).registry.pairs@[p].local,
                    old(self).config.waits,
                    old(self).start_time,
                    now,
                ) && nominatable(
                    old(self).registry.pairs@[p].remote,
                    old(self).config.waits,
                    old(self).start_time,
                    now,
                );
                &&& final(self).registry.pairs@ == old(self).registry.pairs@
                &&& (gate_ok ==> final(self).nominated_pair == Some(p as usize) && (r@.len() == 2
                    <==> spec_nominate_accepted(
                    old(self).config,
                    old(self).registry.pairs@[p].local,
                )) && r@.len() <= 2 && forall|k: int|
                    1 <= k < r@.len() ==> action_is_nominating(#[trigger] r@[k])
                        && spec_check_send(
                        r@[k],
                        old(self).config,
                        old(self).registry.pairs@[p].local,
                        old(self).registry.pairs@[p].remote,
                        true,
                    ))
                &&& (!gate_ok ==> final(self).nominated_pair == old(self).nominated_pair
                    && r@.len() == 1 && final(self).transactions.entries@ == old(
                    self).transactions.entries@)
            }),
            old(self).config.role is Controlled ==> final(self).nominated_pair == old(
                self).nominated_pair && final(self).registry.pairs@ == (match old(
                self).registry.find_index(local.addr, remote.addr) {
                Some(_) => old(self).registry.pairs@,
                None => old(self).registry.pairs@.push(
                    CandidatePair {
                        local: *local,
                        remote: *remote,
                        state: PairState::Waiting,
                        nominated: false,
                    },
                ),
            }),
            (old(self).config.role is Controlled && msg.use_candidate && spec_inbound_pair_state(
                *old(self),
                *local,
                *remote,
            ) is Succeeded) ==> final(self).selected_pair == (if old(self).selected_pair is Some {
                old(self).selected_pair
            } else {
                Some(spec_inbound_pair_slot(*old(self), *local, *remote) as usize)
            }) && r@ =~= seq![
                SelectorAction::SendBindingSuccess(
                    SuccessSend { dest: remote.addr, tx_id: msg.transaction_id },
                ),
            ] && final(self).transactions.entries@ == old(self).transactions.entries@,
            (old(self).config.role is Controlled && msg.use_candidate && !(spec_inbound_pair_state(
                *old(self),
                *local,
                *remote,
            ) is Succeeded)) ==> final(self).selected_pair == old(self).selected_pair && (r@.len()
                == 1 <==> spec_ping_accepted(old(self).config, *local)) && forall|k: int|
                0 <= k < r@.len() ==> spec_triggered_ping(
                    #[trigger] r@[k],
                    old(self).config,
                    *local,
                    *remote,
                ),
            (old(self).config.role is Controlled && !msg.use_candidate) ==> final(
                self).selected_pair == old(self).selected_pair && 1 <= r@.len() <= 2 && (r@.len()
                == 2 <==> spec_ping_accepted(old(self).config, *local)) && r@[0]
                == SelectorAction::SendBindingSuccess(
                SuccessSend { dest: remote.addr, tx_id: msg.transaction_id },
            ) && forall|k: int|
                1 <= k < r@.len() ==> spec_triggered_ping(
                    #[trigger] r@[k],
                    old(self).config,
                    *local,
                    *remote,
                ),
    {
        self.touch(now);
        proof {
            old(self).registry.lemma_find_index(local.addr, remote.addr);
        }
        match self.config.role {
            Role::Controlling => {
                let mut actions: Vec<SelectorAction> = Vec::new();
                actions.push(
                    SelectorAction::SendBindingSuccess(
                        SuccessSend { dest: remote.addr, tx_id: msg.transaction_id },
                    ),
                );
                match self.registry.find_pair(&local.addr, &remote.addr) {
                    None => {
                        self.registry.add_pair(*local, *remote);
                        actions
                    },
                    Some(p) => {
                        proof {
                            old(self).registry.lemma_find_index_unique(
                                local.addr,
                                remote.addr,
                                p as int,
                            );
                        }
                        let pair = self.registry.get(p);
                        let nominated_none = self.nominated_pair.is_none();
                        let selected_none = self.selected_pair.is_none();
                        if matches!(pair.state, PairState::Succeeded) && nominated_none
                            && selected_none {
                            match self.registry.best_available(Role::Controlling) {
                                Some(bp) => {
                                    if bp == p && self.is_nominatable(&pair.local, now)
                                        && self.is_nominatable(&pair.remote, now) {
                                        self.nominated_pair = Some(p);
                                        let mut more = self.nominate_pair(now);
                                        actions.append(&mut more);
                                    } else {
                                        proof {
                                            if self.registry.is_best(
                                                Role::Controlling,
                                                p as int,
                                                PairRegistry::available_pred(),
                                            ) {
                                                self.registry.lemma_is_best_unique(
                                                    Role::Controlling,
                                                    p as int,
                                                    bp as int,
                                                    PairRegistry::available_pred(),
                                                );
                                            }
                                        }
                                    }
                                },
                                None => {},
                            }
                        }
                        actions
                    },
                }
            },
            Role::Controlled => {
                let found = self.registry.find_pair(&local.addr, &remote.addr);
                let p = match found {
                    Some(i) => {
                        proof {
                            old(self).registry.lemma_find_index_unique(
                                local.addr,
                                remote.addr,
                                i as int,
                            );
                        }
                        i
                    },
                    None => self.registry.add_pair(*local, *remote),
                };
                let pair = self.registry.get(p);
                proof {
                    assert(p as int == spec_inbound_pair_slot(*old(self), *local, *remote));
                    assert(pair.state == spec_inbound_pair_state(*old(self), *local, *remote));
                }
                if msg.use_candidate {
                    if matches!(pair.state, PairState::Succeeded) {
                        if self.selected_pair.is_none() {
                            self.selected_pair = Some(p);
                        }
                        let mut actions: Vec<SelectorAction> = Vec::new();
                        actions.push(
                            SelectorAction::SendBindingSuccess(
                                SuccessSend { dest: remote.addr, tx_id: msg.transaction_id },
                            ),
                        );
                        actions
                    } else {
                        let more = self.ping_candidate(now, local, remote);
                        proof {
                            assert forall|k: int| 0 <= k < more@.len() implies spec_triggered_ping(
                                #[trigger] more@[k],
                                old(self).config,
                                *local,
                                *remote,
                            ) by {
                                assert(spec_check_send(
                                    more@[k],
                                    old(self).config,
                                    *local,
                                    *remote,
                                    false,
                                ));
                            }
                        }
                        more
                    }
                } else {
                    let mut actions: Vec<SelectorAction> = Vec::new();
                    actions.push(
                        SelectorAction::SendBindingSuccess(
                            SuccessSend { dest: remote.addr, tx_id: msg.transaction_id },
                        ),
                    );
                    let ghost head = actions@;
                    let mut more = self.ping_candidate(now, local, remote);
                    let ghost added = more@;
                    actions.append(&mut more);
                    proof {
                        assert forall|k: int| 1 <= k < actions@.len() implies spec_triggered_ping(
                            #[trigger] actions@[k],
                            old(self).config,
                            *local,
                            *remote,
                        ) by {
                            assert(actions@[k] == added[k - 1]);
                            assert(spec_check_send(
                                added[k - 1],
                                old(self).config,
                                *local,
                                *remote,
                                false,
                            ));
                        }
                    }
                    actions
                }
            },
        }
    }
}

} // verus!
