use ice_turn::allocation::{Allocation, AllocationManager, RelayRoute};
use ice_turn::chanbind::{TurnError, CHANNEL_BIND_LIFETIME_MS};
use ice_turn::permission::PERMISSION_LIFETIME_MS;
use ice_turn::net::{Addr, FiveTuple, PROTO_UDP};

fn addr(ip: u128, port: u16) -> Addr {
    Addr { ip, port }
}

fn tuple() -> FiveTuple {
    FiveTuple { src: addr(10, 4000), dst: addr(20, 3478), protocol: PROTO_UDP }
}

#[test]
fn permission_on_bind() {
    // Immediately after a successful channel bind the peer is permitted.
    let mut a = Allocation::new(tuple());
    let peer = addr(99, 7000);
    assert!(!a.has_permission(&peer));
    assert!(a.add_channel_bind(0x4001, peer, CHANNEL_BIND_LIFETIME_MS, 0).is_ok());
    assert!(a.has_permission(&peer));
}

#[test]
fn channel_collision_rejected_and_existing_bind_unchanged() {
    let mut a = Allocation::new(tuple());
    let p1 = addr(1, 1111);
    let p2 = addr(2, 2222);
    assert!(a.add_channel_bind(0x4001, p1, CHANNEL_BIND_LIFETIME_MS, 0).is_ok());
    // same number, different peer
    assert_eq!(
        a.add_channel_bind(0x4001, p2, CHANNEL_BIND_LIFETIME_MS, 0),
        Err(TurnError::SameChannelDifferentPeer)
    );
    // same peer, different number
    assert_eq!(
        a.add_channel_bind(0x4002, p1, CHANNEL_BIND_LIFETIME_MS, 0),
        Err(TurnError::SameChannelDifferentPeer)
    );
    // the existing bind is unchanged
    assert_eq!(a.get_channel_addr(0x4001), Some(p1));
    assert_eq!(a.get_channel_number(&p1), Some(0x4001));
    assert_eq!(a.get_channel_number(&p2), None);
}

#[test]
fn channel_consistency_over_two_binds() {
    let mut a = Allocation::new(tuple());
    let p1 = addr(1, 1111);
    let p2 = addr(2, 2222);
    assert!(a.add_channel_bind(0x4001, p1, CHANNEL_BIND_LIFETIME_MS, 0).is_ok());
    assert!(a.add_channel_bind(0x4002, p2, CHANNEL_BIND_LIFETIME_MS, 0).is_ok());
    assert_eq!(a.get_channel_addr(0x4001), Some(p1));
    assert_eq!(a.get_channel_addr(0x4002), Some(p2));
    assert_eq!(a.get_channel_number(&p1), Some(0x4001));
    assert_eq!(a.get_channel_number(&p2), Some(0x4002));
}

#[test]
fn bind_refresh_same_pair_is_ok() {
    let mut a = Allocation::new(tuple());
    let p1 = addr(1, 1111);
    assert!(a.add_channel_bind(0x4001, p1, CHANNEL_BIND_LIFETIME_MS, 0).is_ok());
    // refreshing the identical binding succeeds and keeps one binding
    assert!(a.add_channel_bind(0x4001, p1, CHANNEL_BIND_LIFETIME_MS, 100).is_ok());
    assert_eq!(a.get_channel_addr(0x4001), Some(p1));
}

#[test]
fn permission_add_refresh_remove() {
    let mut a = Allocation::new(tuple());
    let peer = addr(7, 700);
    a.add_permission(&peer, 0);
    assert!(a.has_permission(&peer));
    // same IP, other port: one permission per IP
    assert!(a.has_permission(&addr(7, 999)));
    a.add_permission(&addr(7, 999), 50);
    assert!(a.remove_permission(&peer));
    assert!(!a.has_permission(&peer));
    assert!(!a.remove_permission(&peer));
}

#[test]
fn permission_expires_on_its_own_timer() {
    let mut a = Allocation::new(tuple());
    let peer = addr(7, 700);
    a.add_permission(&peer, 0);
    a.tick_tables(PERMISSION_LIFETIME_MS - 1);
    assert!(a.has_permission(&peer));
    a.tick_tables(PERMISSION_LIFETIME_MS);
    assert!(!a.has_permission(&peer));
}

#[test]
fn bind_expiry_keeps_permission() {
    let mut a = Allocation::new(tuple());
    let peer = addr(8, 800);
    assert!(a.add_channel_bind(0x4001, peer, 1000, 0).is_ok());
    a.tick_tables(1000);
    // the bind is gone, the permission lives on its own TTL
    assert_eq!(a.get_channel_addr(0x4001), None);
    assert!(a.has_permission(&peer));
}

#[test]
fn relay_route_decision() {
    let mut a = Allocation::new(tuple());
    let bound = addr(1, 1111);
    let permitted = addr(2, 2222);
    let stranger = addr(3, 3333);
    assert!(a.add_channel_bind(0x4001, bound, CHANNEL_BIND_LIFETIME_MS, 0).is_ok());
    a.add_permission(&permitted, 0);
    assert_eq!(a.relay_route(&bound), RelayRoute::ChannelData(0x4001));
    assert_eq!(a.relay_route(&permitted), RelayRoute::DataIndication);
    // a permission covers the whole IP, so another port still relays
    assert_eq!(a.relay_route(&addr(2, 1)), RelayRoute::DataIndication);
    assert_eq!(a.relay_route(&stranger), RelayRoute::Drop);
}

#[test]
fn idempotent_close() {
    let mut a = Allocation::new(tuple());
    let peer = addr(9, 900);
    a.start(1000, 0);
    a.add_permission(&peer, 0);
    assert!(a.add_channel_bind(0x4001, peer, 1000, 0).is_ok());

    assert!(a.close().is_ok());
    assert!(a.closed);
    assert!(a.close().is_ok());
    assert!(a.closed);

    // after close no timer fires and no mutator has an effect
    assert!(!a.tick_lifetime(5000));
    a.tick_tables(5000);
    assert!(a.has_permission(&peer));
    assert_eq!(a.get_channel_addr(0x4001), Some(peer));
    a.add_permission(&addr(11, 1), 5000);
    assert!(!a.has_permission(&addr(11, 1)));
    assert!(a.add_channel_bind(0x4003, addr(12, 2), 1000, 5000).is_ok());
    assert_eq!(a.get_channel_addr(0x4003), None);
}

#[test]
fn stop_reports_expiry() {
    let mut a = Allocation::new(tuple());
    // never started: stop reports true
    assert!(a.stop());
    a.start(1000, 0);
    // running and not expired: stop reports false and disarms
    assert!(!a.stop());
    assert!(a.stop());

    let mut b = Allocation::new(tuple());
    b.start(1000, 0);
    assert!(b.tick_lifetime(1000));
    // already expired: stop reports true
    assert!(b.stop());
}

#[test]
fn allocation_lifetime_refresh() {
    // Start with a 1 s lifetime; at 0.8 s refresh to 2 s. The manager
    // still holds the allocation at 1.5 s and has dropped it by 3 s.
    let mut m = AllocationManager::new();
    let ft = tuple();
    assert!(m.create_allocation(ft, 1000, 0));
    // a second allocation on the same 5-tuple is refused
    assert!(!m.create_allocation(ft, 1000, 0));

    let i = m.position(&ft).unwrap();
    m.allocs[i].refresh(2000, 800);

    m.tick(1500);
    assert!(m.position(&ft).is_some());
    m.tick(3000);
    assert!(m.position(&ft).is_none());
}

#[test]
fn refresh_does_not_shorten_observed_behavior() {
    let mut a = Allocation::new(tuple());
    a.start(1000, 0);
    a.refresh(2000, 800);
    // expiry occurs no earlier than refresh time plus the new lifetime
    assert!(!a.tick_lifetime(2799));
    assert!(a.tick_lifetime(2800));
}

#[test]
fn delete_allocation_by_five_tuple() {
    let mut m = AllocationManager::new();
    let ft = tuple();
    assert!(m.create_allocation(ft, 1000, 0));
    assert!(m.delete_allocation(&ft));
    assert!(!m.delete_allocation(&ft));
}

#[test]
fn channel_number_range_bounds_accepted() {
    let mut a = Allocation::new(tuple());
    assert!(a.add_channel_bind(0x4000, addr(1, 1), 1000, 0).is_ok());
    assert!(a.add_channel_bind(0x7ffe, addr(2, 2), 1000, 0).is_ok());
    assert_eq!(a.get_channel_addr(0x4000), Some(addr(1, 1)));
    assert_eq!(a.get_channel_addr(0x7ffe), Some(addr(2, 2)));
}

#[test]
fn remove_channel_bind_reports_presence() {
    let mut a = Allocation::new(tuple());
    assert!(a.add_channel_bind(0x4001, addr(1, 1), 1000, 0).is_ok());
    assert!(a.remove_channel_bind(0x4001));
    assert!(!a.remove_channel_bind(0x4001));
    assert_eq!(a.get_channel_number(&addr(1, 1)), None);
}
