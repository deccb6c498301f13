use vstd::prelude::*;

use stun::agent::TransactionId;
use stun::attributes::{
    ATTR_ICE_CONTROLLED, ATTR_ICE_CONTROLLING, ATTR_PRIORITY, ATTR_USERNAME, ATTR_USE_CANDIDATE,
};
use stun::fingerprint::FINGERPRINT;
use stun::integrity::MessageIntegrity;
use stun::message::{Message, Setter, BINDING_REQUEST};
use stun::textattrs::TextAttribute;

verus! {

/// The outbound send was skipped because the message could not be encoded.
#[derive(Clone, Copy, PartialEq, Eq, Structural, Debug)]
pub struct MessageBuildFailure;

/// The bytes of a STUN binding request as the encoder lays them out for the
/// given transaction id and attributes, or nothing where the encoder rejects
/// the attribute set. The encoding is a function of these arguments alone.
pub uninterp spec fn binding_request_wire(
    tx: u128,
    username: Seq<char>,
    nominating: bool,
    controlling: bool,
    tie_breaker: u64,
    priority: u32,
    pwd: Seq<char>,
) -> Option<Seq<u8>>;

/// Relies on stun's TransactionId::new: 12 random bytes, returned in the low
/// 96 bits. Nothing is promised of the value beyond its range.
#[verifier::external_body]
pub fn fresh_transaction_id() -> (r: u128)
    ensures
        r < 0x1000000000000000000000000,
{
    let id = TransactionId::new();
    let mut bytes = [0u8; 16];
    bytes[4..16].copy_from_slice(&id.0);
    u128::from_be_bytes(bytes)
}

/// Relies on stun's Message builder and Setters: BINDING-REQUEST with the
/// given transaction id, then USERNAME, USE-CANDIDATE (when nominating),
/// ICE-CONTROLLING or ICE-CONTROLLED carrying the tie-breaker, PRIORITY,
/// short-term MESSAGE-INTEGRITY keyed by `pwd`, and FINGERPRINT, in that
/// order. The encoder fails only on an oversized username, never on the
/// transaction id, so acceptance is the same for every id; the integrity
/// and fingerprint setters cannot fail in this order, so their results are
/// unwrapped.
#[verifier::external_body]
pub fn encode_binding_request(
    tx: u128,
    username: &str,
    nominating: bool,
    controlling: bool,
    tie_breaker: u64,
    priority: u32,
    pwd: &str,
) -> (r: Result<Vec<u8>, MessageBuildFailure>)
    ensures
        r is Ok <==> binding_request_wire(
            tx,
            username@,
            nominating,
            controlling,
            tie_breaker,
            priority,
            pwd@,
        ) is Some,
        r is Ok <==> binding_request_wire(
            0,
            username@,
            nominating,
            controlling,
            tie_breaker,
            priority,
            pwd@,
        ) is Some,
        r is Ok ==> r->Ok_0@ == binding_request_wire(
            tx,
            username@,
            nominating,
            controlling,
            tie_breaker,
            priority,
            pwd@,
        )->Some_0,
{
    let tid = TransactionId(tx.to_be_bytes()[4..16].try_into().unwrap());
    let user = TextAttribute { attr: ATTR_USERNAME, text: username.to_string() };
    let mut m = Message::new();
    let head: [Box<dyn Setter>; 3] = [Box::new(BINDING_REQUEST), Box::new(tid), Box::new(user)];
    m.build(&head).map_err(|_| MessageBuildFailure)?;
    if nominating {
        m.add(ATTR_USE_CANDIDATE, &[]);
    }
    m.add(if controlling { ATTR_ICE_CONTROLLING } else { ATTR_ICE_CONTROLLED }, &tie_breaker.to_be_bytes());
    m.add(ATTR_PRIORITY, &priority.to_be_bytes());
    MessageIntegrity::new_short_term_integrity(pwd.to_string()).add_to(&mut m).unwrap();
    FINGERPRINT.add_to(&mut m).unwrap();
    Ok(m.raw)
}

} // verus!
