use vstd::prelude::*;

use crate::chanbind::{ChannelBind, ChannelBindTable, TurnError, MAX_CHANNEL_NUMBER, MIN_CHANNEL_NUMBER};
use crate::net::{Addr, FiveTuple, PROTO_UDP};
use crate::permission::{Permission, PermissionTable, PERMISSION_LIFETIME_MS};

verus! {

/// The resettable single-shot lifetime timer of an allocation. `running`
/// models the live reset channel (a sender the owner still holds), and
/// `expired` the observable expiry bit the background task sets.
#[derive(Clone, Copy, PartialEq, Eq, Structural, Debug)]
pub struct LifetimeTimer {
    pub running: bool,
    pub expired: bool,
    pub expires_at: u64,
}

impl LifetimeTimer {
    /// Whether the timer would go off when woken at `t`.
    pub open spec fn spec_would_fire(self, t: u64) -> bool {
        self.running && !self.expired && t >= self.expires_at
    }

    pub fn new() -> (r: LifetimeTimer)
        ensures
            r == (LifetimeTimer { running: false, expired: false, expires_at: 0u64 }),
    {
        LifetimeTimer { running: false, expired: false, expires_at: 0 }
    }

    /// Launches the timer. Reentrant starts are forbidden: the owner stops
    /// the timer first.
    pub fn start(&mut self, lifetime: u64, now: u64)
        requires
            !old(self).running,
            now + lifetime <= u64::MAX,
        ensures
            *final(self) == (LifetimeTimer {
                running: true,
                expired: false,
                expires_at: (now + lifetime) as u64,
            }),
    {
        self.running = true;
        self.expired = false;
        self.expires_at = now + lifetime;
    }

    /// Postpones expiry to `now + lifetime`; nothing happens once the
    /// channel is gone or the timer already went off.
    pub fn refresh(&mut self, lifetime: u64, now: u64)
        requires
            now + lifetime <= u64::MAX,
        ensures
            (old(self).running && !old(self).expired) ==> *final(self) == (LifetimeTimer {
                expires_at: (now + lifetime) as u64,
                ..*old(self)
            }),
            !(old(self).running && !old(self).expired) ==> *final(self) == *old(self),
    {
        if self.running && !self.expired {
            self.expires_at = now + lifetime;
        }
    }

    /// Drops the reset channel; true exactly when the timer had already
    /// gone off or was never running.
    pub fn stop(&mut self) -> (r: bool)
        ensures
            r == (!old(self).running || old(self).expired),
            *final(self) == (LifetimeTimer { running: false, ..*old(self) }),
    {
        let r = !self.running || self.expired;
        self.running = false;
        r
    }

    /// One wake-up of the background task at `t`: the timer goes off iff
    /// its deadline has passed while it was still running.
    pub fn tick(&mut self, t: u64) -> (r: bool)
        ensures
            r == old(self).spec_would_fire(t),
            r ==> *final(self) == (LifetimeTimer {
                running: false,
                expired: true,
                ..*old(self)
            }),
            !r ==> *final(self) == *old(self),
    {
        if self.running && !self.expired && t >= self.expires_at {
            self.expired = true;
            self.running = false;
            true
        } else {
            false
        }
    }
}

/// After a refresh at `t`, the timer cannot go off before `t + lifetime`.
pub proof fn lemma_refresh_defers_expiry(before: LifetimeTimer, lifetime: u64, t: u64, t2: u64)
    requires
        before.running,
        !before.expired,
        t + lifetime <= u64::MAX,
        t2 < t + lifetime,
    ensures
        !(LifetimeTimer { expires_at: (t + lifetime) as u64, ..before }).spec_would_fire(t2),
{
}

/// The per-5-tuple relay state: permissions, channel bindings and the
/// lifetime timer behind the allocation's identity.
pub struct Allocation {
    pub five_tuple: FiveTuple,
    pub relay_addr: Addr,
    pub protocol: u8,
    pub perms: PermissionTable,
    pub binds: ChannelBindTable,
    pub timer: LifetimeTimer,
    pub closed: bool,
}

/// Where an inbound relay datagram from `src` goes: out as a ChannelData
/// frame, as a Data indication, or nowhere.
#[derive(Clone, Copy, PartialEq, Eq, Structural, Debug)]
pub enum RelayRoute {
    ChannelData(u16),
    DataIndication,
    Drop,
}

impl Allocation {
    pub open spec fn wf(self) -> bool {
        &&& self.perms.wf()
        &&& self.binds.wf()
    }

    pub fn new(five_tuple: FiveTuple) -> (r: Allocation)
        ensures
            r.wf(),
            r.five_tuple == five_tuple,
            r.relay_addr == (Addr { ip: 0, port: 0 }),
            r.protocol == PROTO_UDP,
            r.perms.perms@.len() == 0,
            r.binds.binds@.len() == 0,
            !r.closed,
            !r.timer.running,
            !r.timer.expired,
    {
        Allocation {
            five_tuple,
            relay_addr: Addr { ip: 0, port: 0 },
            protocol: PROTO_UDP,
            perms: PermissionTable::new(),
            binds: ChannelBindTable::new(),
            timer: LifetimeTimer::new(),
            closed: false,
        }
    }

    /// Whether the peer's IP holds a permission.
    pub fn has_permission(&self, addr: &Addr) -> (r: bool)
        requires
            self.wf(),
        ensures
            r == self.perms.spec_has(addr.ip),
    {
        self.perms.has(addr.ip)
    }

    /// Installs or refreshes the permission for the peer's IP. After close
    /// this succeeds without effect.
    pub fn add_permission(&mut self, addr: &Addr, now: u64)
        requires
            old(self).wf(),
            now + PERMISSION_LIFETIME_MS <= u64::MAX,
        ensures
            final(self).wf(),
            old(self).closed ==> *final(self) == *old(self),
            !old(self).closed ==> final(self).perms.spec_has(addr.ip) && *final(self)
                == (Allocation { perms: final(self).perms, ..*old(self) }) && final(
                self).perms.perms@ == (match old(self).perms.find_index(addr.ip) {
                Some(i) => old(self).perms.perms@.update(
                    i,
                    Permission { ip: addr.ip, expires_at: (now + PERMISSION_LIFETIME_MS) as u64 },
                ),
                None => old(self).perms.perms@.push(
                    Permission { ip: addr.ip, expires_at: (now + PERMISSION_LIFETIME_MS) as u64 },
                ),
            }),
    {
        if self.closed {
            return ;
        }
        self.perms.add(addr.ip, now);
    }

    /// Removes the peer IP's permission; false after close or when absent.
    pub fn remove_permission(&mut self, addr: &Addr) -> (r: bool)
        requires
            old(self).wf(),
        ensures
            final(self).wf(),
            old(self).closed ==> *final(self) == *old(self) && !r,
            !old(self).closed ==> r == old(self).perms.spec_has(addr.ip) && !final(
                self).perms.spec_has(addr.ip) && *final(self) == (Allocation {
                perms: final(self).perms,
                ..*old(self)
            }) && final(self).perms.perms@ == (match old(self).perms.find_index(addr.ip) {
                Some(i) => old(self).perms.perms@.remove(i),
                None => old(self).perms.perms@,
            }),
    {
        if self.closed {
            return false;
        }
        self.perms.remove(addr.ip)
    }

    /// Binds a channel number to a peer and installs or refreshes the
    /// permission for the peer's IP, so a successful bind always leaves the
    /// peer permitted. After close this succeeds without effect.
    pub fn add_channel_bind(&mut self, number: u16, peer: Addr, lifetime: u64, now: u64) -> (r:
        Result<(), TurnError>)
        requires
            old(self).wf(),
            MIN_CHANNEL_NUMBER <= number <= MAX_CHANNEL_NUMBER,
            now + lifetime <= u64::MAX,
            now + PERMISSION_LIFETIME_MS <= u64::MAX,
        ensures
            final(self).wf(),
            old(self).closed ==> *final(self) == *old(self) && r is Ok,
            !old(self).closed ==> *final(self) == (Allocation {
                perms: final(self).perms,
                binds: final(self).binds,
                ..*old(self)
            }),
            !old(self).closed ==> (r is Err <==> (exists|i: int|
                0 <= i < old(self).binds.binds@.len() && (#[trigger] old(
                    self).binds.binds@[i]).number == number && old(self).binds.binds@[i].peer
                    != peer) || (exists|i: int|
                0 <= i < old(self).binds.binds@.len() && (#[trigger] old(self).binds.binds@[i]).peer
                    == peer && old(self).binds.binds@[i].number != number)),
            (!old(self).closed && r is Err) ==> *final(self) == *old(self) && r == Result::<
                (),
                TurnError,
            >::Err(TurnError::SameChannelDifferentPeer),
            (!old(self).closed && r is Ok) ==> final(self).binds.spec_has_number(number) && final(
                self).binds.spec_has_peer(peer) && final(self).perms.spec_has(peer.ip) && final(
                self).binds.binds@ == (match old(self).binds.find_number(number) {
                Some(i) => old(self).binds.binds@.update(
                    i,
                    ChannelBind { number, peer, expires_at: (now + lifetime) as u64 },
                ),
                None => old(self).binds.binds@.push(
                    ChannelBind { number, peer, expires_at: (now + lifetime) as u64 },
                ),
            }) && final(self).perms.perms@ == (match old(self).perms.find_index(peer.ip) {
                Some(i) => old(self).perms.perms@.update(
                    i,
                    Permission { ip: peer.ip, expires_at: (now + PERMISSION_LIFETIME_MS) as u64 },
                ),
                None => old(self).perms.perms@.push(
                    Permission { ip: peer.ip, expires_at: (now + PERMISSION_LIFETIME_MS) as u64 },
                ),
            }),
    {
        if self.closed {
            return Ok(());
        }
        match self.binds.add(number, peer, lifetime, now) {
            Ok(()) => {
                self.perms.add(peer.ip, now);
                Ok(())
            },
            Err(e) => Err(e),
        }
    }

    /// Unbinds a channel number; false after close or when absent.
    pub fn remove_channel_bind(&mut self, number: u16) -> (r: bool)
        requires
            old(self).wf(),
        ensures
            final(self).wf(),
            old(self).closed ==> *final(self) == *old(self) && !r,
            !old(self).closed ==> r == old(self).binds.spec_has_number(number) && !final(
                self).binds.spec_has_number(number) && *final(self) == (Allocation {
                binds: final(self).binds,
                ..*old(self)
            }) && final(self).binds.binds@ == (match old(self).binds.find_number(number) {
                Some(i) => old(self).binds.binds@.remove(i),
                None => old(self).binds.binds@,
            }),
    {
        if self.closed {
            return false;
        }
        self.binds.remove(number)
    }

    /// The peer bound under this number, if any.
    pub fn get_channel_addr(&self, number: u16) -> (r: Option<Addr>)
        requires
            self.wf(),
        ensures
            r is Some <==> self.binds.spec_has_number(number),
            match r {
                Some(peer) => exists|i: int|
                    0 <= i < self.binds.binds@.len() && (#[trigger] self.binds.binds@[i]).number
                        == number && self.binds.binds@[i].peer == peer,
                None => true,
            },
    {
        self.binds.get_channel_addr(number)
    }

    /// The number this peer is bound under, if any.
    pub fn get_channel_number(&self, peer: &Addr) -> (r: Option<u16>)
        requires
            self.wf(),
        ensures
            r is Some <==> self.binds.spec_has_peer(*peer),
            match r {
                Some(number) => exists|i: int|
                    0 <= i < self.binds.binds@.len() && (#[trigger] self.binds.binds@[i]).peer
                        == *peer && self.binds.binds@[i].number == number,
                None => true,
            },
    {
        self.binds.get_channel_number(peer)
    }

    /// Decides the relay path for an inbound datagram from `src`: a bound
    /// channel wins, a bare permission yields a Data indication, and with
    /// neither the datagram is dropped.
    pub fn relay_route(&self, src: &Addr) -> (r: RelayRoute)
        requires
            self.wf(),
        ensures
            r is ChannelData <==> self.binds.spec_has_peer(*src),
            r is DataIndication <==> (!self.binds.spec_has_peer(*src) && self.perms.spec_has(
                src.ip,
            )),
            r is Drop <==> (!self.binds.spec_has_peer(*src) && !self.perms.spec_has(src.ip)),
    {
        match self.binds.get_channel_number(src) {
            Some(number) => RelayRoute::ChannelData(number),
            None => {
                if self.perms.has(src.ip) {
                    RelayRoute::DataIndication
                } else {
                    RelayRoute::Drop
                }
            },
        }
    }

    /// Closes the allocation: stops the lifetime timer and marks the state
    /// closed, after which no mutator has an effect and the permission and
    /// bind timers no longer fire. Closing twice changes nothing more, and
    /// every close returns Ok.
    pub fn close(&mut self) -> (r: Result<(), TurnError>)
        requires
            old(self).wf(),
        ensures
            final(self).wf(),
            r is Ok,
            final(self).closed,
            old(self).closed ==> *final(self) == *old(self),
            !old(self).closed ==> *final(self) == (Allocation {
                closed: true,
                timer: LifetimeTimer { running: false, ..old(self).timer },
                ..*old(self)
            }),
    {
        if self.closed {
            return Ok(());
        }
        self.closed = true;
        self.timer.stop();
        Ok(())
    }

    /// Arms the lifetime timer. Reentrant starts are forbidden.
    pub fn start(&mut self, lifetime: u64, now: u64)
        requires
            old(self).wf(),
            !old(self).timer.running,
            now + lifetime <= u64::MAX,
        ensures
            final(self).wf(),
            *final(self) == (Allocation {
                timer: LifetimeTimer {
                    running: true,
                    expired: false,
                    expires_at: (now + lifetime) as u64,
                },
                ..*old(self)
            }),
    {
        self.timer.start(lifetime, now);
    }

    /// Drops the timer's reset channel; true exactly when the timer had
    /// already gone off or was never armed.
    pub fn stop(&mut self) -> (r: bool)
        requires
            old(self).wf(),
        ensures
            final(self).wf(),
            r == (!old(self).timer.running || old(self).timer.expired),
            *final(self) == (Allocation {
                timer: LifetimeTimer { running: false, ..old(self).timer },
                ..*old(self)
            }),
    {
        self.timer.stop()
    }

    /// Extends the allocation's lifetime to `now + lifetime`.
    pub fn refresh(&mut self, lifetime: u64, now: u64)
        requires
            old(self).wf(),
            now + lifetime <= u64::MAX,
        ensures
            final(self).wf(),
            (old(self).timer.running && !old(self).timer.expired) ==> *final(self) == (Allocation {
                timer: LifetimeTimer {
                    expires_at: (now + lifetime) as u64,
                    ..old(self).timer
                },
                ..*old(self)
            }),
            !(old(self).timer.running && !old(self).timer.expired) ==> *final(self) == *old(self),
    {
        self.timer.refresh(lifetime, now);
    }

    /// One wake-up of the permission and channel-bind expiry tasks. They
    /// re-check `closed` and exit without touching anything once the
    /// allocation is closed.
    pub fn tick_tables(&mut self, now: u64)
        requires
            old(self).wf(),
        ensures
            final(self).wf(),
            old(self).closed ==> *final(self) == *old(self),
            !old(self).closed ==> *final(self) == (Allocation {
                perms: final(self).perms,
                binds: final(self).binds,
                ..*old(self)
            }) && final(self).perms.perms@ == crate::permission::spec_alive_perms(
                old(self).perms.perms@,
                now,
            ) && final(self).binds.binds@ == crate::chanbind::spec_alive_binds(
                old(self).binds.binds@,
                now,
            ),
    {
        if self.closed {
            return ;
        }
        self.perms.purge_expired(now);
        self.binds.purge_expired(now);
    }

    /// One wake-up of the lifetime task at `now`; true when the lifetime
    /// elapsed, upon which the owner removes the allocation.
    pub fn tick_lifetime(&mut self, now: u64) -> (r: bool)
        requires
            old(self).wf(),
        ensures
            final(self).wf(),
            r == old(self).timer.spec_would_fire(now),
            r ==> *final(self) == (Allocation {
                timer: LifetimeTimer { running: false, expired: true, ..old(self).timer },
                ..*old(self)
            }),
            !r ==> *final(self) == *old(self),
    {
        self.timer.tick(now)
    }
}


/// The allocations that survive one lifetime wake-up at `now`: those whose
/// timer does not go off, unchanged and in order.
pub open spec fn spec_surviving(s: Seq<Allocation>, now: u64) -> Seq<Allocation>
    decreases s.len(),
{
    if s.len() == 0 {
        Seq::empty()
    } else if s[0].timer.spec_would_fire(now) {
        spec_surviving(s.drop_first(), now)
    } else {
        seq![s[0]] + spec_surviving(s.drop_first(), now)
    }
}

/// The process-wide allocation registry, keyed by 5-tuple.
pub struct AllocationManager {
    pub allocs: Vec<Allocation>,
}

impl AllocationManager {
    pub open spec fn wf(self) -> bool {
        &&& forall|i: int| 0 <= i < self.allocs@.len() ==> (#[trigger] self.allocs@[i]).wf()
        &&& forall|i: int, j: int|
            0 <= i < self.allocs@.len() && 0 <= j < self.allocs@.len() && i != j
                ==> (#[trigger] self.allocs@[i]).five_tuple
                != (#[trigger] self.allocs@[j]).five_tuple
    }

    /// Whether an allocation under this 5-tuple is registered.
    pub open spec fn spec_has(self, ft: FiveTuple) -> bool {
        exists|i: int|
            0 <= i < self.allocs@.len() && (#[trigger] self.allocs@[i]).five_tuple == ft
    }

    /// The slot of the allocation under this 5-tuple, if any; unique in a
    /// well-formed registry.
    pub open spec fn find_index(self, ft: FiveTuple) -> Option<int> {
        if self.spec_has(ft) {
            Some(
                choose|i: int|
                    0 <= i < self.allocs@.len() && (#[trigger] self.allocs@[i]).five_tuple == ft,
            )
        } else {
            None
        }
    }

    pub fn new() -> (r: AllocationManager)
        ensures
            r.wf(),
            r.allocs@.len() == 0,
    {
        AllocationManager { allocs: Vec::new() }
    }

    /// The slot of the allocation under this 5-tuple, if any.
    pub fn position(&self, ft: &FiveTuple) -> (r: Option<usize>)
        requires
            self.wf(),
        ensures
            match r {
                Some(i) => i < self.allocs@.len() && self.allocs@[i as int].five_tuple == *ft
                    && self.find_index(*ft) == Some(i as int),
                None => !self.spec_has(*ft) && self.find_index(*ft) is None,
            },
    {
        let n = self.allocs.len();
        let mut k: usize = 0;
        while k < n
            invariant
                self.wf(),
                n == self.allocs@.len(),
                k <= n,
                forall|j: int| 0 <= j < k ==> (#[trigger] self.allocs@[j]).five_tuple != *ft,
            decreases n - k,
        {
            if self.allocs[k].five_tuple == *ft {
                proof {
                    assert(self.allocs@[k as int].five_tuple == *ft);
                    assert(self.spec_has(*ft));
                    let w = choose|i: int|
                        0 <= i < self.allocs@.len() && (#[trigger] self.allocs@[i]).five_tuple
                            == *ft;
                    assert(0 <= w < self.allocs@.len() && self.allocs@[w].five_tuple == *ft);
                    assert(w == k as int);
                }
                return Some(k);
            }
            k = k + 1;
        }
        None
    }

    /// Registers a fresh allocation for the 5-tuple with its lifetime timer
    /// armed; refused when the 5-tuple is already allocated.
    pub fn create_allocation(&mut self, ft: FiveTuple, lifetime: u64, now: u64) -> (r: bool)
        requires
            old(self).wf(),
            now + lifetime <= u64::MAX,
        ensures
            final(self).wf(),
            r == !old(self).spec_has(ft),
            !r ==> *final(self) == *old(self),
            r ==> final(self).allocs@.len() == old(self).allocs@.len() + 1 && final(
                self).allocs@.last().five_tuple == ft && final(self).allocs@.last().timer
                == (LifetimeTimer {
                running: true,
                expired: false,
                expires_at: (now + lifetime) as u64,
            }) && !final(self).allocs@.last().closed && final(self).allocs@ == old(
                self).allocs@.push(final(self).allocs@.last()),
            final(self).spec_has(ft),
            forall|f2: FiveTuple| old(self).spec_has(f2) ==> #[trigger] final(self).spec_has(f2),
    {
        match self.position(&ft) {
            Some(i) => {
                proof {
                    assert(self.allocs@[i as int].five_tuple == ft);
                    assert(self.spec_has(ft));
                }
                false
            },
            None => {
                let mut a = Allocation::new(ft);
                a.start(lifetime, now);
                self.allocs.push(a);
                proof {
                    let fin = self.allocs@;
                    assert(fin[fin.len() - 1].five_tuple == ft);
                    assert(self.spec_has(ft));
                    assert(fin.skip(fin.len() - 1) =~= seq![fin[fin.len() - 1]]);
                    assert(fin.skip(fin.len() - 1) + old(self).allocs@ =~= fin.skip(
                        fin.len() - 1,
                    ) + old(self).allocs@);
                    assert forall|x: int, y: int|
                        0 <= x < fin.len() && 0 <= y < fin.len() && x
                            != y implies (#[trigger] fin[x]).five_tuple
                        != (#[trigger] fin[y]).five_tuple by {
                        if x < fin.len() - 1 && y < fin.len() - 1 {
                            assert(fin[x] == old(self).allocs@[x]);
                            assert(fin[y] == old(self).allocs@[y]);
                        } else if x == fin.len() - 1 {
                            assert(fin[y] == old(self).allocs@[y]);
                        } else {
                            assert(fin[x] == old(self).allocs@[x]);
                        }
                    }
                    assert forall|f2: FiveTuple|
                        old(self).spec_has(f2) implies #[trigger] self.spec_has(f2) by {
                        let i = choose|i: int|
                            0 <= i < old(self).allocs@.len() && (#[trigger] old(
                                self).allocs@[i]).five_tuple == f2;
                        assert(fin[i].five_tuple == f2);
                    }
                }
                true
            },
        }
    }

    /// Removes the allocation under this 5-tuple; reports whether one was
    /// registered.
    pub fn delete_allocation(&mut self, ft: &FiveTuple) -> (r: bool)
        requires
            old(self).wf(),
        ensures
            final(self).wf(),
            r == old(self).spec_has(*ft),
            !final(self).spec_has(*ft),
            match old(self).find_index(*ft) {
                Some(i) => final(self).allocs@ == old(self).allocs@.remove(i),
                None => *final(self) == *old(self),
            },
    {
        match self.position(ft) {
            Some(i) => {
                let ghost prev = self.allocs@;
                self.allocs.remove(i);
                proof {
                    assert forall|a: int, b: int|
                        0 <= a < self.allocs@.len() && 0 <= b < self.allocs@.len() && a
                            != b implies (#[trigger] self.allocs@[a]).five_tuple
                        != (#[trigger] self.allocs@[b]).five_tuple by {
                        let a0: int = if a < i { a } else { a + 1 };
                        let b0: int = if b < i { b } else { b + 1 };
                        assert(self.allocs@[a] == prev[a0]);
                        assert(self.allocs@[b] == prev[b0]);
                    }
                    assert forall|a: int| 0 <= a < self.allocs@.len() implies (#[trigger] self.allocs@[a]).wf()
                        && self.allocs@[a].five_tuple != *ft by {
                        let a0: int = if a < i { a } else { a + 1 };
                        assert(self.allocs@[a] == prev[a0]);
                    }
                }
                true
            },
            None => false,
        }
    }

    /// One wake-up of every allocation's lifetime task: an allocation whose
    /// lifetime elapsed removes itself from the registry; the rest stay
    /// untouched and in order.
    pub fn tick(&mut self, now: u64)
        requires
            old(self).wf(),
        ensures
            final(self).wf(),
            final(self).allocs@ == spec_surviving(old(self).allocs@, now),
    {
        let n = self.allocs.len();
        let mut kept: Vec<Allocation> = Vec::new();
        let mut k: usize = 0;
        proof {
            assert(self.allocs@.skip(0) =~= self.allocs@);
            assert(kept@ + spec_surviving(self.allocs@, now) =~= spec_surviving(
                self.allocs@,
                now,
            ));
        }
        while k < n
            invariant
                n == old(self).allocs@.len(),
                k <= n,
                self.allocs@ == old(self).allocs@.skip(k as int),
                kept@ + spec_surviving(old(self).allocs@.skip(k as int), now) == spec_surviving(
                    old(self).allocs@,
                    now,
                ),
                old(self).wf(),
            decreases n - k,
        {
            let ghost rest = old(self).allocs@.skip(k as int);
            let mut a = self.allocs.remove(0);
            proof {
                assert(a == rest[0]);
                assert(a == old(self).allocs@[k as int]);
                assert(self.allocs@ =~= old(self).allocs@.skip(k as int + 1));
                assert(rest.drop_first() =~= old(self).allocs@.skip(k as int + 1));
            }
            let fired = a.tick_lifetime(now);
            if !fired {
                kept.push(a);
                proof {
                    assert(kept@ + spec_surviving(old(self).allocs@.skip(k as int + 1), now)
                        =~= spec_surviving(old(self).allocs@, now));
                }
            }
            k = k + 1;
        }
        proof {
            assert(old(self).allocs@.skip(n as int) =~= Seq::<Allocation>::empty());
            assert(kept@ + spec_surviving(old(self).allocs@.skip(n as int), now) =~= kept@);
        }
        self.allocs = kept;
        proof {
            lemma_surviving_wf(old(self).allocs@, now);
        }
    }
}

/// The surviving allocations are among the originals, so well-formedness
/// and 5-tuple uniqueness survive the sweep.
proof fn lemma_surviving_wf(s: Seq<Allocation>, now: u64)
    ensures
        forall|e: Allocation| #[trigger] spec_surviving(s, now).contains(e) ==> s.contains(e),
        (forall|i: int, j: int|
            0 <= i < s.len() && 0 <= j < s.len() && i != j ==> (#[trigger] s[i]).five_tuple
                != (#[trigger] s[j]).five_tuple) ==> forall|i: int, j: int|
            0 <= i < spec_surviving(s, now).len() && 0 <= j < spec_surviving(s, now).len() && i != j
                ==> (#[trigger] spec_surviving(s, now)[i]).five_tuple != (#[trigger] spec_surviving(
                s,
                now,
            )[j]).five_tuple,
        (forall|i: int| 0 <= i < s.len() ==> (#[trigger] s[i]).wf()) ==> forall|i: int|
            0 <= i < spec_surviving(s, now).len() ==> (#[trigger] spec_surviving(s, now)[i]).wf(),
    decreases s.len(),
{
    if s.len() > 0 {
        lemma_surviving_wf(s.drop_first(), now);
        assert forall|e: Allocation|
            #[trigger] spec_surviving(s, now).contains(e) implies s.contains(e) by {
            if !s[0].timer.spec_would_fire(now) {
                let k = choose|k: int|
                    0 <= k < spec_surviving(s, now).len() && spec_surviving(s, now)[k] == e;
                if k == 0 {
                    assert(s[0] == e);
                } else {
                    assert(spec_surviving(s.drop_first(), now)[k - 1] == e);
                    assert(spec_surviving(s.drop_first(), now).contains(e));
                    let m = choose|m: int|
                        0 <= m < s.drop_first().len() && s.drop_first()[m] == e;
                    assert(s[m + 1] == e);
                }
            } else {
                assert(spec_surviving(s.drop_first(), now).contains(e));
                let m = choose|m: int| 0 <= m < s.drop_first().len() && s.drop_first()[m] == e;
                assert(s[m + 1] == e);
            }
        }
        assert forall|i: int|
            0 <= i < s.drop_first().len() implies s.drop_first()[i] == s[i + 1] by {}
        if forall|i: int, j: int|
            0 <= i < s.len() && 0 <= j < s.len() && i != j ==> (#[trigger] s[i]).five_tuple
                != (#[trigger] s[j]).five_tuple {
            assert forall|i: int, j: int|
                0 <= i < s.drop_first().len() && 0 <= j < s.drop_first().len() && i
                    != j implies (#[trigger] s.drop_first()[i]).five_tuple
                != (#[trigger] s.drop_first()[j]).five_tuple by {
                assert(s.drop_first()[i] == s[i + 1]);
                assert(s.drop_first()[j] == s[j + 1]);
            }
            if !s[0].timer.spec_would_fire(now) {
                let t = spec_surviving(s, now);
                let rest = spec_surviving(s.drop_first(), now);
                assert forall|i: int, j: int|
                    0 <= i < t.len() && 0 <= j < t.len() && i
                        != j implies (#[trigger] t[i]).five_tuple
                    != (#[trigger] t[j]).five_tuple by {
                    if i == 0 || j == 0 {
                        let k = if i == 0 { j } else { i };
                        assert(t[k] == rest[k - 1]);
                        assert(rest.contains(rest[k - 1]));
                        assert(s.drop_first().contains(rest[k - 1]));
                        let m = choose|m: int|
                            0 <= m < s.drop_first().len() && s.drop_first()[m] == rest[k - 1];
                        assert(s[m + 1] == rest[k - 1]);
                        assert(s[0].five_tuple != s[m + 1].five_tuple);
                    } else {
                        assert(t[i] == rest[i - 1]);
                        assert(t[j] == rest[j - 1]);
                    }
                }
            }
        }
        if forall|i: int| 0 <= i < s.len() ==> (#[trigger] s[i]).wf() {
            assert forall|i: int|
                0 <= i < s.drop_first().len() implies (#[trigger] s.drop_first()[i]).wf() by {
                assert(s.drop_first()[i] == s[i + 1]);
            }
            let t = spec_surviving(s, now);
            assert forall|i: int| 0 <= i < t.len() implies (#[trigger] t[i]).wf() by {
                assert(t.contains(t[i]));
                assert(s.contains(t[i]));
                let m = choose|m: int| 0 <= m < s.len() && s[m] == t[i];
            }
        }
    }
}

} // verus!
