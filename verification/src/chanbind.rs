use vstd::prelude::*;

use crate::net::Addr;

verus! {

/// How long a channel binding lives from its last refresh: ten minutes.
pub const CHANNEL_BIND_LIFETIME_MS: u64 = 600000;

/// The channel number range TURN reserves for channel bindings.
pub const MIN_CHANNEL_NUMBER: u16 = 0x4000;

/// The last channel number of the reserved range.
pub const MAX_CHANNEL_NUMBER: u16 = 0x7FFE;

/// A channel-bind add collided with an existing entry: the number is bound
/// to another peer, or the peer to another number.
#[derive(Clone, Copy, PartialEq, Eq, Structural, Debug)]
pub enum TurnError {
    SameChannelDifferentPeer,
}

/// A 16-bit alias for a peer address, with its expiry instant.
#[derive(Clone, Copy, PartialEq, Eq, Structural, Debug)]
pub struct ChannelBind {
    pub number: u16,
    pub peer: Addr,
    pub expires_at: u64,
}

/// The per-allocation channel-binding table, indexed both by number and by
/// peer address.
pub struct ChannelBindTable {
    pub binds: Vec<ChannelBind>,
}

/// The bindings still alive at `now`: those expiring strictly later.
pub open spec fn spec_alive_binds(s: Seq<ChannelBind>, now: u64) -> Seq<ChannelBind>
    decreases s.len(),
{
    if s.len() == 0 {
        Seq::empty()
    } else if s[0].expires_at > now {
        seq![s[0]] + spec_alive_binds(s.drop_first(), now)
    } else {
        spec_alive_binds(s.drop_first(), now)
    }
}

impl ChannelBindTable {
    /// Channel consistency: a number maps to exactly one peer and a peer to
    /// at most one number, and every number is in the reserved range.
    pub open spec fn wf(self) -> bool {
        &&& forall|i: int, j: int|
            0 <= i < self.binds@.len() && 0 <= j < self.binds@.len() && i != j
                ==> (#[trigger] self.binds@[i]).number != (#[trigger] self.binds@[j]).number
                && self.binds@[i].peer != self.binds@[j].peer
        &&& forall|i: int|
            0 <= i < self.binds@.len() ==> MIN_CHANNEL_NUMBER <= (#[trigger] self.binds@[i]).number
                <= MAX_CHANNEL_NUMBER
    }

    pub open spec fn spec_len(self) -> nat {
        self.binds@.len()
    }

    /// The peer a number is bound to, if any.
    pub open spec fn spec_has_number(self, number: u16) -> bool {
        exists|i: int| 0 <= i < self.binds@.len() && (#[trigger] self.binds@[i]).number == number
    }

    /// Whether some number is bound to this peer.
    pub open spec fn spec_has_peer(self, peer: Addr) -> bool {
        exists|i: int| 0 <= i < self.binds@.len() && (#[trigger] self.binds@[i]).peer == peer
    }

    /// The index of the binding under this number, if any.
    pub open spec fn find_number(self, number: u16) -> Option<int> {
        if self.spec_has_number(number) {
            Some(
                choose|i: int|
                    0 <= i < self.binds@.len() && (#[trigger] self.binds@[i]).number == number,
            )
        } else {
            None
        }
    }

    pub fn new() -> (r: ChannelBindTable)
        ensures
            r.wf(),
            r.binds@.len() == 0,
    {
        ChannelBindTable { binds: Vec::new() }
    }

    fn position_of_number(&self, number: u16) -> (r: Option<usize>)
        requires
            self.wf(),
        ensures
            match r {
                Some(i) => i < self.spec_len() && self.binds@[i as int].number == number
                    && self.find_number(number) == Some(i as int),
                None => !self.spec_has_number(number) && self.find_number(number) is None,
            },
    {
        let n = self.binds.len();
        let mut k: usize = 0;
        while k < n
            invariant
                self.wf(),
                n == self.spec_len(),
                k <= n,
                forall|j: int| 0 <= j < k ==> (#[trigger] self.binds@[j]).number != number,
            decreases n - k,
        {
            if self.binds[k].number == number {
                proof {
                    assert(self.binds@[k as int].number == number);
                    assert(self.spec_has_number(number));
                    let w = choose|i: int|
                        0 <= i < self.binds@.len() && (#[trigger] self.binds@[i]).number == number;
                    assert(0 <= w < self.binds@.len() && self.binds@[w].number == number);
                    assert(w == k as int);
                }
                return Some(k);
            }
            k = k + 1;
        }
        None
    }

    fn position_of_peer(&self, peer: &Addr) -> (r: Option<usize>)
        requires
            self.wf(),
        ensures
            match r {
                Some(i) => i < self.spec_len() && self.binds@[i as int].peer == *peer,
                None => !self.spec_has_peer(*peer),
            },
    {
        let n = self.binds.len();
        let mut k: usize = 0;
        while k < n
            invariant
                n == self.spec_len(),
                k <= n,
                forall|j: int| 0 <= j < k ==> (#[trigger] self.binds@[j]).peer != *peer,
            decreases n - k,
        {
            if self.binds[k].peer == *peer {
                return Some(k);
            }
            k = k + 1;
        }
        None
    }

    /// The peer bound under this number, if any.
    pub fn get_channel_addr(&self, number: u16) -> (r: Option<Addr>)
        requires
            self.wf(),
        ensures
            match r {
                Some(peer) => exists|i: int|
                    0 <= i < self.binds@.len() && (#[trigger] self.binds@[i]).number == number
                        && self.binds@[i].peer == peer,
                None => !self.spec_has_number(number),
            },
    {
        match self.position_of_number(number) {
            Some(i) => Some(self.binds[i].peer),
            None => None,
        }
    }

    /// The number this peer is bound under, if any.
    pub fn get_channel_number(&self, peer: &Addr) -> (r: Option<u16>)
        requires
            self.wf(),
        ensures
            match r {
                Some(number) => exists|i: int|
                    0 <= i < self.binds@.len() && (#[trigger] self.binds@[i]).peer == *peer
                        && self.binds@[i].number == number,
                None => !self.spec_has_peer(*peer),
            },
    {
        match self.position_of_peer(peer) {
            Some(i) => Some(self.binds[i].number),
            None => None,
        }
    }

    /// Binds `number` to `peer` for `lifetime` from `now`, or refreshes the
    /// identical binding. Fails, changing nothing, exactly when the number
    /// is bound to another peer or the peer to another number.
    pub fn add(&mut self, number: u16, peer: Addr, lifetime: u64, now: u64) -> (r: Result<
        (),
        TurnError,
    >)
        requires
            old(self).wf(),
            MIN_CHANNEL_NUMBER <= number <= MAX_CHANNEL_NUMBER,
            now + lifetime <= u64::MAX,
        ensures
            final(self).wf(),
            r is Err <==> (exists|i: int|
                0 <= i < old(self).binds@.len() && (#[trigger] old(self).binds@[i]).number == number
                    && old(self).binds@[i].peer != peer) || (exists|i: int|
                0 <= i < old(self).binds@.len() && (#[trigger] old(self).binds@[i]).peer == peer
                    && old(self).binds@[i].number != number),
            r is Err ==> *final(self) == *old(self) && r == Result::<(), TurnError>::Err(
                TurnError::SameChannelDifferentPeer,
            ),
            r is Ok ==> final(self).spec_has_number(number) && final(self).spec_has_peer(peer),
            r is Ok ==> match old(self).find_number(number) {
                Some(i) => final(self).binds@ == old(self).binds@.update(
                    i,
                    ChannelBind { number, peer, expires_at: (now + lifetime) as u64 },
                ),
                None => final(self).binds@ == old(self).binds@.push(
                    ChannelBind { number, peer, expires_at: (now + lifetime) as u64 },
                ),
            },
    {
        let entry = ChannelBind { number, peer, expires_at: now + lifetime };
        match self.position_of_number(number) {
            Some(i) => {
                if !(self.binds[i].peer == peer) {
                    return Err(TurnError::SameChannelDifferentPeer);
                }
                self.binds.set(i, entry);
                proof {
                    assert(self.binds@[i as int].number == number);
                    assert(self.binds@[i as int].peer == peer);
                    assert(self.spec_has_number(number));
                    assert(self.spec_has_peer(peer));
                    assert forall|a: int, b: int|
                        0 <= a < self.binds@.len() && 0 <= b < self.binds@.len() && a
                            != b implies (#[trigger] self.binds@[a]).number
                        != (#[trigger] self.binds@[b]).number && self.binds@[a].peer
                        != self.binds@[b].peer by {
                        if a != i && b != i {
                            assert(self.binds@[a] == old(self).binds@[a]);
                            assert(self.binds@[b] == old(self).binds@[b]);
                        } else if a == i {
                            assert(old(self).binds@[i as int].peer == peer);
                            assert(self.binds@[b] == old(self).binds@[b]);
                        } else {
                            assert(old(self).binds@[i as int].peer == peer);
                            assert(self.binds@[a] == old(self).binds@[a]);
                        }
                    }
                }
                Ok(())
            },
            None => {
                match self.position_of_peer(&peer) {
                    Some(_) => Err(TurnError::SameChannelDifferentPeer),
                    None => {
                        self.binds.push(entry);
                        proof {
                            assert(self.binds@[self.binds@.len() - 1].number == number);
                            assert(self.binds@[self.binds@.len() - 1].peer == peer);
                            assert(self.spec_has_number(number));
                            assert(self.spec_has_peer(peer));
                            assert forall|a: int, b: int|
                                0 <= a < self.binds@.len() && 0 <= b < self.binds@.len() && a
                                    != b implies (#[trigger] self.binds@[a]).number
                                != (#[trigger] self.binds@[b]).number && self.binds@[a].peer
                                != self.binds@[b].peer by {
                                if a < self.binds@.len() - 1 && b < self.binds@.len() - 1 {
                                    assert(self.binds@[a] == old(self).binds@[a]);
                                    assert(self.binds@[b] == old(self).binds@[b]);
                                } else if a == self.binds@.len() - 1 {
                                    assert(self.binds@[b] == old(self).binds@[b]);
                                } else {
                                    assert(self.binds@[a] == old(self).binds@[a]);
                                }
                            }
                        }
                        Ok(())
                    },
                }
            },
        }
    }

    /// Unbinds this number; reports whether a binding was there.
    pub fn remove(&mut self, number: u16) -> (r: bool)
        requires
            old(self).wf(),
        ensures
            final(self).wf(),
            r == old(self).spec_has_number(number),
            !final(self).spec_has_number(number),
            match old(self).find_number(number) {
                Some(i) => final(self).binds@ == old(self).binds@.remove(i),
                None => *final(self) == *old(self),
            },
    {
        match self.position_of_number(number) {
            Some(i) => {
                let ghost prev = self.binds@;
                self.binds.remove(i);
                proof {
                    assert forall|a: int, b: int|
                        0 <= a < self.binds@.len() && 0 <= b < self.binds@.len() && a
                            != b implies (#[trigger] self.binds@[a]).number
                        != (#[trigger] self.binds@[b]).number && self.binds@[a].peer
                        != self.binds@[b].peer by {
                        let a0: int = if a < i { a } else { a + 1 };
                        let b0: int = if b < i { b } else { b + 1 };
                        assert(self.binds@[a] == prev[a0]);
                        assert(self.binds@[b] == prev[b0]);
                    }
                    assert forall|a: int|
                        0 <= a < self.binds@.len() implies (#[trigger] self.binds@[a]).number
                        != number by {
                        let a0: int = if a < i { a } else { a + 1 };
                        assert(self.binds@[a] == prev[a0]);
                    }
                    assert forall|a: int|
                        0 <= a < self.binds@.len() implies MIN_CHANNEL_NUMBER
                        <= (#[trigger] self.binds@[a]).number <= MAX_CHANNEL_NUMBER by {
                        let a0: int = if a < i { a } else { a + 1 };
                        assert(self.binds@[a] == prev[a0]);
                    }
                }
                true
            },
            None => false,
        }
    }

    /// Drops every binding whose timer has gone off; permissions are not
    /// touched, they carry their own timers.
    pub fn purge_expired(&mut self, now: u64)
        requires
            old(self).wf(),
        ensures
            final(self).wf(),
            final(self).binds@ == spec_alive_binds(old(self).binds@, now),
    {
        let n = self.binds.len();
        let mut kept: Vec<ChannelBind> = Vec::new();
        let mut k: usize = 0;
        proof {
            assert(self.binds@.skip(0) =~= self.binds@);
            assert(kept@ + spec_alive_binds(self.binds@, now) =~= spec_alive_binds(
                self.binds@,
                now,
            ));
        }
        while k < n
            invariant
                n == self.binds@.len(),
                k <= n,
                kept@ + spec_alive_binds(self.binds@.skip(k as int), now) == spec_alive_binds(
                    self.binds@,
                    now,
                ),
            decreases n - k,
        {
            let e = self.binds[k];
            proof {
                assert(self.binds@.skip(k as int).drop_first() =~= self.binds@.skip(k as int + 1));
                assert(self.binds@.skip(k as int)[0] == e);
            }
            if e.expires_at > now {
                kept.push(e);
                proof {
                    assert(kept@ + spec_alive_binds(self.binds@.skip(k as int + 1), now)
                        =~= spec_alive_binds(self.binds@, now));
                }
            }
            k = k + 1;
        }
        proof {
            assert(self.binds@.skip(n as int) =~= Seq::<ChannelBind>::empty());
            assert(kept@ + spec_alive_binds(self.binds@.skip(n as int), now) =~= kept@);
        }
        self.binds = kept;
        proof {
            lemma_alive_binds_wf(old(self).binds@, now);
        }
    }
}

/// Channel consistency is the well-formedness of the table; spelled out: no
/// two live bindings share a number, and none share a peer.
pub proof fn lemma_channel_consistency(t: ChannelBindTable, i: int, j: int)
    requires
        t.wf(),
        0 <= i < t.binds@.len(),
        0 <= j < t.binds@.len(),
        i != j,
    ensures
        t.binds@[i].number != t.binds@[j].number,
        t.binds@[i].peer != t.binds@[j].peer,
{
}

/// The surviving bindings are among the originals, so channel consistency
/// survives the purge.
proof fn lemma_alive_binds_wf(s: Seq<ChannelBind>, now: u64)
    ensures
        forall|e: ChannelBind| #[trigger] spec_alive_binds(s, now).contains(e) ==> s.contains(e),
        (forall|i: int, j: int|
            0 <= i < s.len() && 0 <= j < s.len() && i != j ==> (#[trigger] s[i]).number
                != (#[trigger] s[j]).number && s[i].peer != s[j].peer) ==> forall|i: int, j: int|
            0 <= i < spec_alive_binds(s, now).len() && 0 <= j < spec_alive_binds(s, now).len() && i
                != j ==> (#[trigger] spec_alive_binds(s, now)[i]).number
                != (#[trigger] spec_alive_binds(s, now)[j]).number && spec_alive_binds(
                s,
                now,
            )[i].peer != spec_alive_binds(s, now)[j].peer,
        (forall|i: int|
            0 <= i < s.len() ==> MIN_CHANNEL_NUMBER <= (#[trigger] s[i]).number
                <= MAX_CHANNEL_NUMBER) ==> forall|i: int|
            0 <= i < spec_alive_binds(s, now).len() ==> MIN_CHANNEL_NUMBER
                <= (#[trigger] spec_alive_binds(s, now)[i]).number <= MAX_CHANNEL_NUMBER,
    decreases s.len(),
{
    if s.len() > 0 {
        lemma_alive_binds_wf(s.drop_first(), now);
        assert forall|e: ChannelBind|
            #[trigger] spec_alive_binds(s, now).contains(e) implies s.contains(e) by {
            if s[0].expires_at > now {
                let k = choose|k: int|
                    0 <= k < spec_alive_binds(s, now).len() && spec_alive_binds(s, now)[k] == e;
                if k == 0 {
                    assert(s[0] == e);
                } else {
                    assert(spec_alive_binds(s.drop_first(), now)[k - 1] == e);
                    assert(spec_alive_binds(s.drop_first(), now).contains(e));
                    let m = choose|m: int|
                        0 <= m < s.drop_first().len() && s.drop_first()[m] == e;
                    assert(s[m + 1] == e);
                }
            } else {
                assert(spec_alive_binds(s.drop_first(), now).contains(e));
                let m = choose|m: int| 0 <= m < s.drop_first().len() && s.drop_first()[m] == e;
                assert(s[m + 1] == e);
            }
        }
        assert forall|i: int, j: int|
            0 <= i < s.drop_first().len() && 0 <= j < s.drop_first().len() && i != j && (forall|
                a: int,
                b: int,
            |
                0 <= a < s.len() && 0 <= b < s.len() && a != b ==> (#[trigger] s[a]).number
                    != (#[trigger] s[b]).number && s[a].peer != s[b].peer) implies (
        #[trigger] s.drop_first()[i]).number != (#[trigger] s.drop_first()[j]).number
            && s.drop_first()[i].peer != s.drop_first()[j].peer by {
            assert(s.drop_first()[i] == s[i + 1]);
            assert(s.drop_first()[j] == s[j + 1]);
        }
        assert forall|i: int|
            0 <= i < s.drop_first().len() && (forall|a: int|
                0 <= a < s.len() ==> MIN_CHANNEL_NUMBER <= (#[trigger] s[a]).number
                    <= MAX_CHANNEL_NUMBER) implies MIN_CHANNEL_NUMBER <= (
        #[trigger] s.drop_first()[i]).number <= MAX_CHANNEL_NUMBER by {
            assert(s.drop_first()[i] == s[i + 1]);
        }
        if forall|i: int, j: int|
            0 <= i < s.len() && 0 <= j < s.len() && i != j ==> (#[trigger] s[i]).number
                != (#[trigger] s[j]).number && s[i].peer != s[j].peer {
            if s[0].expires_at > now {
                let t = spec_alive_binds(s, now);
                let rest = spec_alive_binds(s.drop_first(), now);
                assert forall|i: int, j: int|
                    0 <= i < t.len() && 0 <= j < t.len() && i != j implies (#[trigger] t[i]).number
                    != (#[trigger] t[j]).number && t[i].peer != t[j].peer by {
                    if i == 0 || j == 0 {
                        let k = if i == 0 { j } else { i };
                        assert(t[k] == rest[k - 1]);
                        assert(rest.contains(rest[k - 1]));
                        assert(s.drop_first().contains(rest[k - 1]));
                        let m = choose|m: int|
                            0 <= m < s.drop_first().len() && s.drop_first()[m] == rest[k - 1];
                        assert(s[m + 1] == rest[k - 1]);
                        assert(s[0].number != s[m + 1].number && s[0].peer != s[m + 1].peer);
                    } else {
                        assert(t[i] == rest[i - 1]);
                        assert(t[j] == rest[j - 1]);
                    }
                }
            }
        }
        if forall|i: int|
            0 <= i < s.len() ==> MIN_CHANNEL_NUMBER <= (#[trigger] s[i]).number
                <= MAX_CHANNEL_NUMBER {
            if s[0].expires_at > now {
                let t = spec_alive_binds(s, now);
                let rest = spec_alive_binds(s.drop_first(), now);
                assert forall|i: int|
                    0 <= i < t.len() implies MIN_CHANNEL_NUMBER <= (#[trigger] t[i]).number
                    <= MAX_CHANNEL_NUMBER by {
                    if i > 0 {
                        assert(t[i] == rest[i - 1]);
                        assert(rest.contains(rest[i - 1]));
                        assert(s.drop_first().contains(rest[i - 1]));
                        let m = choose|m: int|
                            0 <= m < s.drop_first().len() && s.drop_first()[m] == rest[i - 1];
                        assert(s[m + 1] == rest[i - 1]);
                    }
                }
            }
        }
    }
}

} // verus!
