use vstd::prelude::*;

verus! {

/// How long a relay permission lives from its last refresh: five minutes.
pub const PERMISSION_LIFETIME_MS: u64 = 300000;

/// Authorization for one remote IP to relay through an allocation, with its
/// expiry instant. One permission per IP, whatever the port.
#[derive(Clone, Copy, PartialEq, Eq, Structural, Debug)]
pub struct Permission {
    pub ip: u128,
    pub expires_at: u64,
}

/// The per-allocation permission table, keyed by remote IP.
pub struct PermissionTable {
    pub perms: Vec<Permission>,
}

/// The permissions still alive at `now`: those expiring strictly later.
pub open spec fn spec_alive_perms(s: Seq<Permission>, now: u64) -> Seq<Permission>
    decreases s.len(),
{
    if s.len() == 0 {
        Seq::empty()
    } else if s[0].expires_at > now {
        seq![s[0]] + spec_alive_perms(s.drop_first(), now)
    } else {
        spec_alive_perms(s.drop_first(), now)
    }
}

impl PermissionTable {
    /// No two entries share an IP.
    pub open spec fn wf(self) -> bool {
        forall|i: int, j: int|
            0 <= i < self.perms@.len() && 0 <= j < self.perms@.len() && i != j
                ==> (#[trigger] self.perms@[i]).ip != (#[trigger] self.perms@[j]).ip
    }

    pub open spec fn spec_len(self) -> nat {
        self.perms@.len()
    }

    /// Whether a permission for this IP is installed.
    pub open spec fn spec_has(self, ip: u128) -> bool {
        exists|i: int| 0 <= i < self.perms@.len() && (#[trigger] self.perms@[i]).ip == ip
    }

    /// The index of the permission for this IP, if any.
    pub open spec fn find_index(self, ip: u128) -> Option<int> {
        if self.spec_has(ip) {
            Some(choose|i: int| 0 <= i < self.perms@.len() && (#[trigger] self.perms@[i]).ip == ip)
        } else {
            None
        }
    }

    pub fn new() -> (r: PermissionTable)
        ensures
            r.wf(),
            r.perms@.len() == 0,
    {
        PermissionTable { perms: Vec::new() }
    }

    fn position(&self, ip: u128) -> (r: Option<usize>)
        requires
            self.wf(),
        ensures
            match r {
                Some(i) => i < self.spec_len() && self.perms@[i as int].ip == ip
                    && self.find_index(ip) == Some(i as int),
                None => !self.spec_has(ip) && self.find_index(ip) is None,
            },
    {
        let n = self.perms.len();
        let mut k: usize = 0;
        while k < n
            invariant
                self.wf(),
                n == self.spec_len(),
                k <= n,
                forall|j: int| 0 <= j < k ==> (#[trigger] self.perms@[j]).ip != ip,
            decreases n - k,
        {
            if self.perms[k].ip == ip {
                proof {
                    assert(self.perms@[k as int].ip == ip);
                    assert(self.spec_has(ip));
                    let w = choose|i: int|
                        0 <= i < self.perms@.len() && (#[trigger] self.perms@[i]).ip == ip;
                    assert(0 <= w < self.perms@.len() && self.perms@[w].ip == ip);
                    assert(w == k as int);
                }
                return Some(k);
            }
            k = k + 1;
        }
        None
    }

    /// Whether a permission for this IP is installed.
    pub fn has(&self, ip: u128) -> (r: bool)
        requires
            self.wf(),
        ensures
            r == self.spec_has(ip),
    {
        self.position(ip).is_some()
    }

    /// Installs a permission for the IP, or refreshes the timer of the one
    /// already installed; either way it then expires at `now` plus the
    /// permission lifetime.
    pub fn add(&mut self, ip: u128, now: u64)
        requires
            old(self).wf(),
            now + PERMISSION_LIFETIME_MS <= u64::MAX,
        ensures
            final(self).wf(),
            final(self).spec_has(ip),
            match old(self).find_index(ip) {
                Some(i) => final(self).perms@ == old(self).perms@.update(
                    i,
                    Permission { ip, expires_at: (now + PERMISSION_LIFETIME_MS) as u64 },
                ),
                None => final(self).perms@ == old(self).perms@.push(
                    Permission { ip, expires_at: (now + PERMISSION_LIFETIME_MS) as u64 },
                ),
            },
    {
        let entry = Permission { ip, expires_at: now + PERMISSION_LIFETIME_MS };
        match self.position(ip) {
            Some(i) => {
                self.perms.set(i, entry);
                proof {
                    assert(self.perms@[i as int].ip == ip);
                    assert(self.spec_has(ip));
                    assert forall|a: int, b: int|
                        0 <= a < self.perms@.len() && 0 <= b < self.perms@.len() && a
                            != b implies (#[trigger] self.perms@[a]).ip
                        != (#[trigger] self.perms@[b]).ip by {
                        assert(self.perms@[a].ip == old(self).perms@[a].ip);
                        assert(self.perms@[b].ip == old(self).perms@[b].ip);
                    }
                }
            },
            None => {
                self.perms.push(entry);
                proof {
                    assert(self.perms@[self.perms@.len() - 1].ip == ip);
                    assert(self.spec_has(ip));
                    assert forall|a: int, b: int|
                        0 <= a < self.perms@.len() && 0 <= b < self.perms@.len() && a
                            != b implies (#[trigger] self.perms@[a]).ip
                        != (#[trigger] self.perms@[b]).ip by {
                        if a < self.perms@.len() - 1 && b < self.perms@.len() - 1 {
                            assert(self.perms@[a] == old(self).perms@[a]);
                            assert(self.perms@[b] == old(self).perms@[b]);
                        }
                    }
                }
            },
        }
    }

    /// Removes the permission for this IP; reports whether one was there.
    pub fn remove(&mut self, ip: u128) -> (r: bool)
        requires
            old(self).wf(),
        ensures
            final(self).wf(),
            r == old(self).spec_has(ip),
            !final(self).spec_has(ip),
            match old(self).find_index(ip) {
                Some(i) => final(self).perms@ == old(self).perms@.remove(i),
                None => *final(self) == *old(self),
            },
    {
        match self.position(ip) {
            Some(i) => {
                let ghost prev = self.perms@;
                self.perms.remove(i);
                proof {
                    assert forall|a: int, b: int|
                        0 <= a < self.perms@.len() && 0 <= b < self.perms@.len() && a
                            != b implies (#[trigger] self.perms@[a]).ip
                        != (#[trigger] self.perms@[b]).ip by {
                        let a0: int = if a < i { a } else { a + 1 };
                        let b0: int = if b < i { b } else { b + 1 };
                        assert(self.perms@[a] == prev[a0]);
                        assert(self.perms@[b] == prev[b0]);
                    }
                    assert forall|a: int|
                        0 <= a < self.perms@.len() implies (#[trigger] self.perms@[a]).ip != ip by {
                        let a0: int = if a < i { a } else { a + 1 };
                        assert(self.perms@[a] == prev[a0]);
                    }
                }
                true
            },
            None => false,
        }
    }

    /// Drops every permission whose timer has gone off: the expiry task of
    /// each entry removing itself at its wake-up.
    pub fn purge_expired(&mut self, now: u64)
        requires
            old(self).wf(),
        ensures
            final(self).wf(),
            final(self).perms@ == spec_alive_perms(old(self).perms@, now),
    {
        let n = self.perms.len();
        let mut kept: Vec<Permission> = Vec::new();
        let mut k: usize = 0;
        proof {
            assert(self.perms@.skip(0) =~= self.perms@);
            assert(kept@ + spec_alive_perms(self.perms@, now) =~= spec_alive_perms(
                self.perms@,
                now,
            ));
        }
        while k < n
            invariant
                n == self.perms@.len(),
                k <= n,
                kept@ + spec_alive_perms(self.perms@.skip(k as int), now) == spec_alive_perms(
                    self.perms@,
                    now,
                ),
            decreases n - k,
        {
            let e = self.perms[k];
            proof {
                assert(self.perms@.skip(k as int).drop_first() =~= self.perms@.skip(k as int + 1));
                assert(self.perms@.skip(k as int)[0] == e);
            }
            if e.expires_at > now {
                kept.push(e);
                proof {
                    assert(kept@ + spec_alive_perms(self.perms@.skip(k as int + 1), now)
                        =~= spec_alive_perms(self.perms@, now));
                }
            }
            k = k + 1;
        }
        proof {
            assert(self.perms@.skip(n as int) =~= Seq::<Permission>::empty());
            assert(kept@ + spec_alive_perms(self.perms@.skip(n as int), now) =~= kept@);
        }
        self.perms = kept;
        proof {
            lemma_alive_perms_wf(old(self).perms@, now);
        }
    }
}

/// The surviving permissions are among the originals, so IP uniqueness
/// survives the purge.
proof fn lemma_alive_perms_wf(s: Seq<Permission>, now: u64)
    ensures
        forall|e: Permission| #[trigger] spec_alive_perms(s, now).contains(e) ==> s.contains(e),
        (forall|i: int, j: int|
            0 <= i < s.len() && 0 <= j < s.len() && i != j ==> (#[trigger] s[i]).ip
                != (#[trigger] s[j]).ip) ==> forall|i: int, j: int|
            0 <= i < spec_alive_perms(s, now).len() && 0 <= j < spec_alive_perms(s, now).len() && i
                != j ==> (#[trigger] spec_alive_perms(s, now)[i]).ip != (#[trigger] spec_alive_perms(
                s,
                now,
            )[j]).ip,
    decreases s.len(),
{
    if s.len() > 0 {
        lemma_alive_perms_wf(s.drop_first(), now);
        assert forall|e: Permission|
            #[trigger] spec_alive_perms(s, now).contains(e) implies s.contains(e) by {
            if s[0].expires_at > now {
                let k = choose|k: int|
                    0 <= k < spec_alive_perms(s, now).len() && spec_alive_perms(s, now)[k] == e;
                if k == 0 {
                    assert(s[0] == e);
                } else {
                    assert(spec_alive_perms(s.drop_first(), now)[k - 1] == e);
                    assert(spec_alive_perms(s.drop_first(), now).contains(e));
                    let m = choose|m: int|
                        0 <= m < s.drop_first().len() && s.drop_first()[m] == e;
                    assert(s[m + 1] == e);
                }
            } else {
                assert(spec_alive_perms(s.drop_first(), now).contains(e));
                let m = choose|m: int| 0 <= m < s.drop_first().len() && s.drop_first()[m] == e;
                assert(s[m + 1] == e);
            }
        }
        if forall|i: int, j: int|
            0 <= i < s.len() && 0 <= j < s.len() && i != j ==> (#[trigger] s[i]).ip
                != (#[trigger] s[j]).ip {
            assert forall|i: int, j: int|
                0 <= i < s.drop_first().len() && 0 <= j < s.drop_first().len() && i
                    != j implies (#[trigger] s.drop_first()[i]).ip
                != (#[trigger] s.drop_first()[j]).ip by {
                assert(s.drop_first()[i] == s[i + 1]);
                assert(s.drop_first()[j] == s[j + 1]);
            }
            if s[0].expires_at > now {
                let t = spec_alive_perms(s, now);
                let rest = spec_alive_perms(s.drop_first(), now);
                assert forall|i: int, j: int|
                    0 <= i < t.len() && 0 <= j < t.len() && i != j implies (#[trigger] t[i]).ip
                    != (#[trigger] t[j]).ip by {
                    if i == 0 || j == 0 {
                        let k = if i == 0 { j } else { i };
                        assert(t[k] == rest[k - 1]);
                        assert(rest.contains(rest[k - 1]));
                        assert(s.drop_first().contains(rest[k - 1]));
                        let m = choose|m: int|
                            0 <= m < s.drop_first().len() && s.drop_first()[m] == rest[k - 1];
                        assert(s[m + 1] == rest[k - 1]);
                        assert(s[0].ip != s[m + 1].ip);
                    } else {
                        assert(t[i] == rest[i - 1]);
                        assert(t[j] == rest[j - 1]);
                    }
                }
            }
        }
    }
}

} // verus!
