use ice_turn::net::Addr;
use ice_turn::transactions::TransactionTable;

fn addr(ip: u128, port: u16) -> Addr {
    Addr { ip, port }
}

#[test]
fn register_consume_roundtrip() {
    let mut t = TransactionTable::new();
    t.register(7, addr(1, 1), true, 100);
    let req = t.consume(7).expect("the registered transaction is found");
    assert_eq!(req.transaction_id, 7);
    assert_eq!(req.destination, addr(1, 1));
    assert!(req.is_use_candidate);
    assert_eq!(req.sent_at, 100);
    // consuming removes: the second lookup finds nothing
    assert!(t.consume(7).is_none());
}

#[test]
fn register_replaces_entry_under_same_id() {
    let mut t = TransactionTable::new();
    t.register(7, addr(1, 1), false, 100);
    t.register(7, addr(2, 2), true, 200);
    assert_eq!(t.len(), 1);
    let req = t.consume(7).unwrap();
    assert_eq!(req.destination, addr(2, 2));
}

#[test]
fn expire_purges_only_old_transactions() {
    let mut t = TransactionTable::new();
    t.register(1, addr(1, 1), false, 0);
    t.register(2, addr(2, 2), false, 1000);
    let gone = t.expire(700, 500);
    assert_eq!(gone.len(), 1);
    assert_eq!(gone[0].transaction_id, 1);
    assert_eq!(t.len(), 1);
    assert!(t.consume(2).is_some());
    assert!(t.consume(1).is_none());
}

#[test]
fn expire_boundary_is_inclusive() {
    let mut t = TransactionTable::new();
    t.register(3, addr(3, 3), false, 200);
    // exactly at the deadline the entry counts as timed out
    let gone = t.expire(700, 500);
    assert_eq!(gone.len(), 1);
    assert_eq!(t.len(), 0);
}
