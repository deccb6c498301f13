use ice_turn::candidate::{Candidate, CandidateKind, WaitConfig};
use ice_turn::net::Addr;
use ice_turn::pairs::{pair_priority, CandidatePair, PairState, Role};
use ice_turn::selector::{
    Agent, AgentConfig, InboundMessage, ResponseOutcome, SelectorAction,
};

fn addr(ip: u128, port: u16) -> Addr {
    Addr { ip, port }
}

fn host(priority: u32, ip: u128, port: u16) -> Candidate {
    Candidate { kind: CandidateKind::Host, priority, addr: addr(ip, port) }
}

fn zero_waits() -> WaitConfig {
    WaitConfig { host_wait: 0, srflx_wait: 0, prflx_wait: 0, relay_wait: 0 }
}

fn agent(role: Role, waits: WaitConfig, now: u64) -> Agent {
    Agent::new(
        AgentConfig {
            role,
            lite: false,
            tie_breaker: 77,
            local_ufrag: String::from("localfrag"),
            remote_ufrag: String::from("remotefrag"),
            remote_pwd: String::from("remotepwd"),
            waits,
        },
        now,
    )
}

fn request_of(a: &SelectorAction) -> (&ice_turn::selector::RequestSend, bool) {
    match a {
        SelectorAction::SendBindingRequest(rs) => (rs, rs.nominating),
        _ => panic!("expected a binding request"),
    }
}

#[test]
fn pair_priority_formula_exact() {
    let p = CandidatePair {
        local: host(100, 1, 1),
        remote: host(200, 2, 2),
        state: PairState::Waiting,
        nominated: false,
    };
    // controlling: g = 100, d = 200, g <= d: 100 * 2^32 + 200 * 2
    assert_eq!(pair_priority(Role::Controlling, &p), 100u128 * 4294967296 + 400);
    // controlled: g = 200, d = 100, g > d: 100 * 2^32 + 200 * 2 + 1
    assert_eq!(pair_priority(Role::Controlled, &p), 100u128 * 4294967296 + 400 + 1);
}

#[test]
fn best_valid_prefers_priority_then_remote_address() {
    let mut a = agent(Role::Controlling, zero_waits(), 0);
    let low = a.registry.add_pair(host(10, 1, 1), host(10, 9, 9));
    let high = a.registry.add_pair(host(90, 1, 2), host(90, 8, 8));
    let tie_small_remote = a.registry.add_pair(host(90, 1, 3), host(90, 7, 7));
    a.registry.set_state(low, PairState::Succeeded);
    a.registry.set_state(high, PairState::Succeeded);
    a.registry.set_state(tie_small_remote, PairState::Succeeded);
    // equal priorities: the lexicographically smaller remote address wins
    assert_eq!(a.registry.best_valid(Role::Controlling), Some(tie_small_remote));
    a.registry.set_state(tie_small_remote, PairState::Failed);
    assert_eq!(a.registry.best_valid(Role::Controlling), Some(high));
    assert_eq!(a.registry.best_available(Role::Controlling), Some(high));
}

#[test]
fn happy_path_nomination() {
    // Agent A (controlling) and B (controlled), one host pair, zero waits.
    let mut a = agent(Role::Controlling, zero_waits(), 0);
    let mut b = agent(Role::Controlled, zero_waits(), 0);
    let a_local = host(100, 1, 1000);
    let a_remote = host(100, 2, 2000);
    // B's perspective swaps local and remote.
    let b_local = a_remote;
    let b_remote = a_local;
    a.registry.add_pair(a_local, a_remote);

    // A ticks and pings.
    let actions = a.contact_candidates(1, false);
    assert_eq!(actions.len(), 1);
    let (ping, nominating) = request_of(&actions[0]);
    assert!(!nominating);
    let a_tx = ping.tx_id;

    // B receives the request: adds the pair, replies success, pings back.
    let inbound = InboundMessage { transaction_id: a_tx, use_candidate: false };
    let b_actions = b.handle_binding_request(2, &inbound, &b_local, &b_remote);
    assert_eq!(b_actions.len(), 2);
    assert!(matches!(b_actions[0], SelectorAction::SendBindingSuccess(_)));
    let (b_ping, b_nominating) = request_of(&b_actions[1]);
    assert!(!b_nominating);
    let b_tx = b_ping.tx_id;

    // A receives B's triggered check and replies; B consumes the success.
    let b_inbound = InboundMessage { transaction_id: b_tx, use_candidate: false };
    let a_reply = a.handle_binding_request(3, &b_inbound, &a_local, &a_remote);
    assert!(matches!(a_reply[0], SelectorAction::SendBindingSuccess(_)));
    let outcome_b = b.handle_success_response(
        4,
        &InboundMessage { transaction_id: b_tx, use_candidate: false },
        &b_local,
        &b_remote,
        b_remote.addr,
    );
    assert_eq!(outcome_b, ResponseOutcome::Succeeded);

    // A consumes its own success: pair Succeeded, nothing selected yet.
    let outcome_a = a.handle_success_response(
        5,
        &InboundMessage { transaction_id: a_tx, use_candidate: false },
        &a_local,
        &a_remote,
        a_remote.addr,
    );
    assert_eq!(outcome_a, ResponseOutcome::Succeeded);
    assert_eq!(a.selected_pair, None);

    // A's next tick sees a nominatable best-valid pair and nominates.
    let nominate_actions = a.contact_candidates(6, false);
    assert_eq!(nominate_actions.len(), 1);
    let (nom, nominating) = request_of(&nominate_actions[0]);
    assert!(nominating);
    assert_eq!(a.nominated_pair, Some(0));
    let nom_tx = nom.tx_id;

    // B receives USE-CANDIDATE on its Succeeded pair and selects it.
    let nominate_inbound = InboundMessage { transaction_id: nom_tx, use_candidate: true };
    let b_select_actions = b.handle_binding_request(7, &nominate_inbound, &b_local, &b_remote);
    assert_eq!(b_select_actions.len(), 1);
    assert!(matches!(b_select_actions[0], SelectorAction::SendBindingSuccess(_)));
    assert_eq!(b.selected_pair, Some(0));

    // A consumes B's reply: USE-CANDIDATE and nothing selected, so select.
    let outcome = a.handle_success_response(
        8,
        &InboundMessage { transaction_id: nom_tx, use_candidate: false },
        &a_local,
        &a_remote,
        a_remote.addr,
    );
    assert_eq!(outcome, ResponseOutcome::SucceededSelected);
    assert_eq!(a.selected_pair, Some(0));
    assert_eq!(b.selected_pair, Some(0));
}

#[test]
fn use_candidate_before_succeeded_pings_instead_of_selecting() {
    // Scenario: USE-CANDIDATE arrives for a pair still Waiting.
    let mut b = agent(Role::Controlled, zero_waits(), 0);
    let local = host(50, 5, 500);
    let remote = host(50, 6, 600);
    b.registry.add_pair(local, remote);

    let inbound = InboundMessage { transaction_id: 42, use_candidate: true };
    let actions = b.handle_binding_request(1, &inbound, &local, &remote);
    // not selected; instead a triggered check was sent
    assert_eq!(b.selected_pair, None);
    assert_eq!(actions.len(), 1);
    let (ping, nominating) = request_of(&actions[0]);
    assert!(!nominating);
    let tx = ping.tx_id;

    // The triggered check succeeds: the pair moves to Succeeded.
    let outcome = b.handle_success_response(
        2,
        &InboundMessage { transaction_id: tx, use_candidate: false },
        &local,
        &remote,
        remote.addr,
    );
    assert_eq!(outcome, ResponseOutcome::Succeeded);
    assert_eq!(b.selected_pair, None);

    // The following inbound nominating request selects the pair.
    let again = InboundMessage { transaction_id: 43, use_candidate: true };
    let actions2 = b.handle_binding_request(3, &again, &local, &remote);
    assert_eq!(actions2.len(), 1);
    assert!(matches!(actions2[0], SelectorAction::SendBindingSuccess(_)));
    assert_eq!(b.selected_pair, Some(0));
}

#[test]
fn symmetric_nat_response_discarded() {
    // A sends to one address; the success arrives from another port.
    let mut a = agent(Role::Controlling, zero_waits(), 0);
    let local = host(80, 1, 1000);
    let remote = host(80, 0xcb007105, 10000);
    let p = a.registry.add_pair(local, remote);
    a.registry.set_state(p, PairState::InProgress);

    let actions = a.ping_candidate(1, &local, &remote);
    assert_eq!(actions.len(), 1);
    let (ping, _) = request_of(&actions[0]);
    let tx = ping.tx_id;

    let elsewhere = addr(0xcb007105, 10001);
    let outcome = a.handle_success_response(
        2,
        &InboundMessage { transaction_id: tx, use_candidate: false },
        &local,
        &remote,
        elsewhere,
    );
    assert_eq!(outcome, ResponseOutcome::SymmetricNat);
    // the pair did not change state and nothing was selected
    assert_eq!(a.registry.get(p).state, PairState::InProgress);
    assert_eq!(a.selected_pair, None);
    // the transaction was consumed: replaying the response finds nothing
    let replay = a.handle_success_response(
        3,
        &InboundMessage { transaction_id: tx, use_candidate: false },
        &local,
        &remote,
        remote.addr,
    );
    assert_eq!(replay, ResponseOutcome::UnknownTransaction);
    assert_eq!(a.registry.get(p).state, PairState::InProgress);
}

#[test]
fn concurrent_success_responses_keep_first_selection() {
    let mut a = agent(Role::Controlling, zero_waits(), 0);
    let local = host(60, 1, 1);
    let remote1 = host(60, 2, 2);
    let remote2 = host(60, 3, 3);
    a.registry.add_pair(local, remote1);
    a.registry.add_pair(local, remote2);

    // Two nominating checks in flight at once.
    a.registry.set_state(0, PairState::Succeeded);
    let acts1 = a.contact_candidates(1, false);
    let (req1, nominating1) = request_of(&acts1[0]);
    assert!(nominating1);
    let tx1 = req1.tx_id;
    let acts2 = a.nominate_pair(2);
    let (req2, _) = request_of(&acts2[0]);
    let tx2 = req2.tx_id;

    let first = a.handle_success_response(
        3,
        &InboundMessage { transaction_id: tx1, use_candidate: false },
        &local,
        &remote1,
        remote1.addr,
    );
    assert_eq!(first, ResponseOutcome::SucceededSelected);
    assert_eq!(a.selected_pair, Some(0));
    let second = a.handle_success_response(
        4,
        &InboundMessage { transaction_id: tx2, use_candidate: false },
        &local,
        &remote1,
        remote1.addr,
    );
    // once selected, the selection is not replaced
    assert_eq!(second, ResponseOutcome::Succeeded);
    assert_eq!(a.selected_pair, Some(0));
}

#[test]
fn nomination_waits_for_grace_period() {
    // With a 1000 ms host grace period nothing is nominated early.
    let waits = WaitConfig { host_wait: 1000, srflx_wait: 0, prflx_wait: 0, relay_wait: 0 };
    let mut a = agent(Role::Controlling, waits, 0);
    let local = host(70, 1, 1);
    let remote = host(70, 2, 2);
    let p = a.registry.add_pair(local, remote);
    a.registry.set_state(p, PairState::Succeeded);

    let early = a.contact_candidates(500, false);
    assert_eq!(a.nominated_pair, None);
    for act in &early {
        let (_, nominating) = request_of(act);
        assert!(!nominating);
    }

    let late = a.contact_candidates(2000, false);
    assert_eq!(a.nominated_pair, Some(p));
    assert_eq!(late.len(), 1);
    let (_, nominating) = request_of(&late[0]);
    assert!(nominating);
}

#[test]
fn keepalive_only_when_selected_still_valid() {
    let mut a = agent(Role::Controlling, zero_waits(), 0);
    let local = host(60, 1, 1);
    let remote = host(60, 2, 2);
    let p = a.registry.add_pair(local, remote);
    a.registry.set_state(p, PairState::Succeeded);
    a.selected_pair = Some(p);

    let valid = a.contact_candidates(1, true);
    assert_eq!(valid.len(), 1);
    assert!(matches!(valid[0], SelectorAction::Keepalive));
    let invalid = a.contact_candidates(2, false);
    assert!(invalid.is_empty());
}

#[test]
fn unknown_pair_response_creates_nothing() {
    let mut a = agent(Role::Controlling, zero_waits(), 0);
    let local = host(60, 1, 1);
    let remote = host(60, 2, 2);
    let actions = a.ping_candidate(1, &local, &remote);
    let (ping, _) = request_of(&actions[0]);
    let tx = ping.tx_id;
    // the pair was never added to the registry
    let outcome = a.handle_success_response(
        2,
        &InboundMessage { transaction_id: tx, use_candidate: false },
        &local,
        &remote,
        remote.addr,
    );
    assert_eq!(outcome, ResponseOutcome::UnknownPair);
    assert_eq!(a.registry.len(), 0);
}

#[test]
fn controlling_start_resets_nomination() {
    let mut a = agent(Role::Controlling, zero_waits(), 0);
    let local = host(60, 1, 1);
    let remote = host(60, 2, 2);
    let p = a.registry.add_pair(local, remote);
    a.registry.set_state(p, PairState::Succeeded);
    let _ = a.contact_candidates(1, false);
    assert_eq!(a.nominated_pair, Some(p));
    a.start(5);
    assert_eq!(a.nominated_pair, None);
    assert_eq!(a.start_time, 5);
}

#[test]
fn max_priorities_do_not_overflow() {
    let p = CandidatePair {
        local: host(u32::MAX, 1, 1),
        remote: host(u32::MAX, 2, 2),
        state: PairState::Waiting,
        nominated: false,
    };
    let expected = (u32::MAX as u128) * 4294967296 + (u32::MAX as u128) * 2;
    assert_eq!(pair_priority(Role::Controlling, &p), expected);
}

#[test]
fn empty_registry_tick_sends_nothing() {
    let mut a = agent(Role::Controlling, zero_waits(), 0);
    let actions = a.contact_candidates(1, false);
    assert!(actions.is_empty());
    assert_eq!(a.nominated_pair, None);
}

#[test]
fn lite_controlled_agent_does_not_contact() {
    let mut b = Agent::new(
        AgentConfig {
            role: Role::Controlled,
            lite: true,
            tie_breaker: 1,
            local_ufrag: String::from("l"),
            remote_ufrag: String::from("r"),
            remote_pwd: String::from("p"),
            waits: zero_waits(),
        },
        0,
    );
    b.registry.add_pair(host(10, 1, 1), host(10, 2, 2));
    let actions = b.contact_candidates(1, false);
    assert!(actions.is_empty());
}

#[test]
fn add_pair_is_idempotent_per_identity() {
    let mut a = agent(Role::Controlling, zero_waits(), 0);
    let local = host(10, 1, 1);
    let remote = host(10, 2, 2);
    let first = a.registry.add_pair(local, remote);
    let second = a.registry.add_pair(local, remote);
    assert_eq!(first, second);
    assert_eq!(a.registry.len(), 1);
}

#[test]
fn ping_sweep_is_priority_ordered() {
    let mut a = agent(Role::Controlling, zero_waits(), 0);
    a.registry.add_pair(host(10, 1, 1), host(10, 2, 2));
    a.registry.add_pair(host(90, 1, 3), host(90, 2, 4));
    a.registry.add_pair(host(50, 1, 5), host(50, 2, 6));
    let actions = a.ping_all_candidates(1);
    assert_eq!(actions.len(), 3);
    let prio = |act: &SelectorAction| match act {
        SelectorAction::SendBindingRequest(rs) => rs.local.priority,
        _ => panic!("expected a binding request"),
    };
    assert_eq!(prio(&actions[0]), 90);
    assert_eq!(prio(&actions[1]), 50);
    assert_eq!(prio(&actions[2]), 10);
}
