use ice_turn::candidate::{Candidate, CandidateKind, WaitConfig};
use ice_turn::net::Addr;
use ice_turn::pairs::{PairState, Role};
use ice_turn::selector::{Agent, AgentConfig, SelectorAction};

use stun::attributes::{
    ATTR_FINGERPRINT, ATTR_ICE_CONTROLLED, ATTR_ICE_CONTROLLING, ATTR_MESSAGE_INTEGRITY,
    ATTR_PRIORITY, ATTR_USERNAME, ATTR_USE_CANDIDATE,
};
use stun::fingerprint::FINGERPRINT;
use stun::integrity::MessageIntegrity;
use stun::message::{Message, BINDING_REQUEST};

fn agent(role: Role) -> Agent {
    Agent::new(
        AgentConfig {
            role,
            lite: false,
            tie_breaker: 0x1122334455667788,
            local_ufrag: String::from("localfrag"),
            remote_ufrag: String::from("remotefrag"),
            remote_pwd: String::from("remotepwd"),
            waits: WaitConfig { host_wait: 0, srflx_wait: 0, prflx_wait: 0, relay_wait: 0 },
        },
        0,
    )
}

fn cand(priority: u32, ip: u128, port: u16) -> Candidate {
    Candidate { kind: CandidateKind::Host, priority, addr: Addr { ip, port } }
}

fn decode(bytes: &[u8]) -> Message {
    // integrity checking needs a mutable message, hence the owned value
    let mut m = Message::new();
    m.unmarshal_binary(bytes).expect("emitted bytes must decode as STUN");
    m
}

fn tx_of(m: &Message) -> u128 {
    let mut v: u128 = 0;
    for b in m.transaction_id.0.iter() {
        v = (v << 8) | (*b as u128);
    }
    v
}

#[test]
fn ping_emits_wellformed_binding_request() {
    let mut a = agent(Role::Controlling);
    let local = cand(42, 1, 1000);
    let remote = cand(42, 2, 2000);
    let actions = a.ping_candidate(1, &local, &remote);
    assert_eq!(actions.len(), 1);
    let rs = match &actions[0] {
        SelectorAction::SendBindingRequest(rs) => rs,
        _ => panic!("expected a binding request"),
    };
    let m = decode(&rs.bytes);
    assert_eq!(m.typ, BINDING_REQUEST);
    assert_eq!(tx_of(&m), rs.tx_id);
    assert_eq!(m.get(ATTR_USERNAME).unwrap(), b"remotefrag:localfrag".to_vec());
    assert_eq!(m.get(ATTR_PRIORITY).unwrap(), 42u32.to_be_bytes().to_vec());
    assert_eq!(
        m.get(ATTR_ICE_CONTROLLING).unwrap(),
        0x1122334455667788u64.to_be_bytes().to_vec()
    );
    assert!(!m.contains(ATTR_USE_CANDIDATE));
    assert!(m.contains(ATTR_MESSAGE_INTEGRITY));
    assert!(m.contains(ATTR_FINGERPRINT));
    FINGERPRINT.check(&m).expect("fingerprint must verify");
    let mut m2 = decode(&rs.bytes);
    MessageIntegrity::new_short_term_integrity(String::from("remotepwd"))
        .check(&mut m2)
        .expect("short-term integrity must verify");
}

#[test]
fn nominating_request_carries_use_candidate() {
    let mut a = agent(Role::Controlling);
    let local = cand(42, 1, 1000);
    let remote = cand(42, 2, 2000);
    let p = a.registry.add_pair(local, remote);
    a.registry.set_state(p, PairState::Succeeded);
    let actions = a.contact_candidates(1, false);
    assert_eq!(actions.len(), 1);
    let rs = match &actions[0] {
        SelectorAction::SendBindingRequest(rs) => rs,
        _ => panic!("expected a binding request"),
    };
    assert!(rs.nominating);
    let m = decode(&rs.bytes);
    assert!(m.contains(ATTR_USE_CANDIDATE));
    assert!(m.contains(ATTR_ICE_CONTROLLING));
    assert_eq!(tx_of(&m), rs.tx_id);
}

#[test]
fn controlled_request_carries_ice_controlled() {
    let mut b = agent(Role::Controlled);
    let local = cand(42, 1, 1000);
    let remote = cand(42, 2, 2000);
    let actions = b.ping_candidate(1, &local, &remote);
    assert_eq!(actions.len(), 1);
    let rs = match &actions[0] {
        SelectorAction::SendBindingRequest(rs) => rs,
        _ => panic!("expected a binding request"),
    };
    let m = decode(&rs.bytes);
    assert!(m.contains(ATTR_ICE_CONTROLLED));
    assert!(!m.contains(ATTR_ICE_CONTROLLING));
    assert!(!m.contains(ATTR_USE_CANDIDATE));
}

#[test]
fn distinct_pings_use_distinct_transactions() {
    let mut a = agent(Role::Controlling);
    let local = cand(42, 1, 1000);
    let remote = cand(42, 2, 2000);
    let first = a.ping_candidate(1, &local, &remote);
    let second = a.ping_candidate(2, &local, &remote);
    let tx = |acts: &Vec<SelectorAction>| match &acts[0] {
        SelectorAction::SendBindingRequest(rs) => rs.tx_id,
        _ => panic!("expected a binding request"),
    };
    assert_ne!(tx(&first), tx(&second));
}
