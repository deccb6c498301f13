use vstd::prelude::*;

use crate::net::Addr;

verus! {

/// An outstanding binding request: its 96-bit transaction id (held in the
/// low bits of a `u128`), the address it was sent to, whether it carried
/// USE-CANDIDATE, and when it was sent.
#[derive(Clone, Copy, PartialEq, Eq, Structural, Debug)]
pub struct PendingRequest {
    pub transaction_id: u128,
    pub destination: Addr,
    pub is_use_candidate: bool,
    pub sent_at: u64,
}

/// The table of outstanding binding requests, keyed by transaction id.
pub struct TransactionTable {
    pub entries: Vec<PendingRequest>,
}

/// The entries of `s` that are still young enough at `now`: those sent
/// strictly later than `now - rto`.
pub open spec fn spec_keep_fresh(s: Seq<PendingRequest>, now: u64, rto: u64) -> Seq<PendingRequest>
    decreases s.len(),
{
    if s.len() == 0 {
        Seq::empty()
    } else if s[0].sent_at + rto > now {
        seq![s[0]] + spec_keep_fresh(s.drop_first(), now, rto)
    } else {
        spec_keep_fresh(s.drop_first(), now, rto)
    }
}

/// The entries of `s` that have timed out at `now`: those sent at or before
/// `now - rto`, in table order.
pub open spec fn spec_expired(s: Seq<PendingRequest>, now: u64, rto: u64) -> Seq<PendingRequest>
    decreases s.len(),
{
    if s.len() == 0 {
        Seq::empty()
    } else if s[0].sent_at + rto > now {
        spec_expired(s.drop_first(), now, rto)
    } else {
        seq![s[0]] + spec_expired(s.drop_first(), now, rto)
    }
}

impl TransactionTable {
    /// No two outstanding requests share a transaction id.
    pub open spec fn wf(self) -> bool {
        forall|i: int, j: int|
            0 <= i < self.entries@.len() && 0 <= j < self.entries@.len() && i != j
                ==> (#[trigger] self.entries@[i]).transaction_id
                != (#[trigger] self.entries@[j]).transaction_id
    }

    pub open spec fn spec_len(self) -> nat {
        self.entries@.len()
    }

    /// Whether some outstanding request carries this transaction id.
    pub open spec fn spec_contains(self, tx: u128) -> bool {
        exists|i: int|
            0 <= i < self.entries@.len() && (#[trigger] self.entries@[i]).transaction_id == tx
    }

    pub fn new() -> (r: TransactionTable)
        ensures
            r.wf(),
            r.entries@.len() == 0,
    {
        TransactionTable { entries: Vec::new() }
    }

    pub fn len(&self) -> (r: usize)
        ensures
            r == self.spec_len(),
    {
        self.entries.len()
    }

    fn position(&self, tx: u128) -> (r: Option<usize>)
        ensures
            match r {
                Some(i) => i < self.spec_len() && self.entries@[i as int].transaction_id == tx,
                None => !self.spec_contains(tx),
            },
    {
        let n = self.entries.len();
        let mut k: usize = 0;
        while k < n
            invariant
                n == self.spec_len(),
                k <= n,
                forall|j: int|
                    0 <= j < k ==> (#[trigger] self.entries@[j]).transaction_id != tx,
            decreases n - k,
        {
            if self.entries[k].transaction_id == tx {
                return Some(k);
            }
            k = k + 1;
        }
        None
    }

    /// Records an outbound binding request. A stale entry under the same
    /// transaction id, if any, is dropped first, so ids stay unique.
    pub fn register(&mut self, tx: u128, destination: Addr, is_use_candidate: bool, sent_at: u64)
        requires
            old(self).wf(),
        ensures
            final(self).wf(),
            final(self).spec_contains(tx),
            final(self).entries@.last() == (PendingRequest {
                transaction_id: tx,
                destination,
                is_use_candidate,
                sent_at,
            }),
            !old(self).spec_contains(tx) ==> final(self).entries@ == old(self).entries@.push(
                PendingRequest { transaction_id: tx, destination, is_use_candidate, sent_at },
            ),
            forall|e: PendingRequest|
                old(self).spec_contains_entry(e) && e.transaction_id != tx ==> #[trigger] final(self).spec_contains_entry(e),
            forall|e: PendingRequest|
                #[trigger] final(self).spec_contains_entry(e) ==> e == (PendingRequest {
                    transaction_id: tx,
                    destination,
                    is_use_candidate,
                    sent_at,
                }) || old(self).spec_contains_entry(e),
    {
        let consumed = self.consume(tx);
        let ghost mid = self.entries@;
        let entry = PendingRequest { transaction_id: tx, destination, is_use_candidate, sent_at };
        self.entries.push(entry);
        proof {
            let fin = self.entries@;
            assert(fin == mid.push(entry));
            assert(fin[fin.len() - 1] == entry);
            assert forall|a: int, b: int|
                0 <= a < fin.len() && 0 <= b < fin.len() && a
                    != b implies (#[trigger] fin[a]).transaction_id
                != (#[trigger] fin[b]).transaction_id by {
                if a == fin.len() - 1 {
                    assert(fin[b] == mid[b]);
                } else if b == fin.len() - 1 {
                    assert(fin[a] == mid[a]);
                } else {
                    assert(fin[a] == mid[a]);
                    assert(fin[b] == mid[b]);
                }
            }
            assert forall|e: PendingRequest|
                old(self).spec_contains_entry(e) && e.transaction_id != tx implies #[trigger] self.spec_contains_entry(
                e,
            ) by {
                let i = choose|i: int| 0 <= i < old(self).entries@.len() && old(self).entries@[i] == e;
                if old(self).spec_contains(tx) {
                    let k = choose|k: int|
                        0 <= k < old(self).entries@.len() && old(self).entries@[k]
                            == consumed->Some_0 && mid == old(self).entries@.remove(k);
                    if i < k {
                        assert(mid[i] == e);
                        assert(fin[i] == e);
                    } else {
                        assert(i != k);
                        assert(mid[i - 1] == e);
                        assert(fin[i - 1] == e);
                    }
                } else {
                    assert(mid[i] == e);
                    assert(fin[i] == e);
                }
            }
            assert forall|e: PendingRequest|
                #[trigger] self.spec_contains_entry(e) implies e == entry || old(self).spec_contains_entry(e) by {
                let i = choose|i: int| 0 <= i < fin.len() && fin[i] == e;
                if i < fin.len() - 1 {
                    assert(mid[i] == e);
                    if old(self).spec_contains(tx) {
                        let k = choose|k: int|
                            0 <= k < old(self).entries@.len() && old(self).entries@[k]
                                == consumed->Some_0 && mid == old(self).entries@.remove(k);
                        if i < k {
                            assert(old(self).entries@[i] == e);
                        } else {
                            assert(old(self).entries@[i + 1] == e);
                        }
                    } else {
                        assert(old(self).entries@[i] == e);
                    }
                }
            }
        }
    }

    /// Whether the table holds this exact entry.
    pub open spec fn spec_contains_entry(self, e: PendingRequest) -> bool {
        exists|i: int| 0 <= i < self.entries@.len() && #[trigger] self.entries@[i] == e
    }

    /// The entry under this transaction id; meaningful when the table is
    /// well-formed and holds the id, in which case it is unique.
    pub open spec fn spec_entry(self, tx: u128) -> PendingRequest {
        self.entries@[choose|i: int|
            0 <= i < self.entries@.len() && (#[trigger] self.entries@[i]).transaction_id == tx]
    }

    /// In a well-formed table, any held entry with the id is the entry.
    pub proof fn lemma_entry_unique(self, e: PendingRequest)
        requires
            self.wf(),
            self.spec_contains_entry(e),
        ensures
            self.spec_entry(e.transaction_id) == e,
    {
        let j = choose|j: int| 0 <= j < self.entries@.len() && self.entries@[j] == e;
        assert(self.entries@[j].transaction_id == e.transaction_id);
        let i = choose|i: int|
            0 <= i < self.entries@.len() && (#[trigger] self.entries@[i]).transaction_id
                == e.transaction_id;
        assert(i == j);
    }

    /// Removes and returns the outstanding request with this transaction id;
    /// the rest of the table is untouched.
    pub fn consume(&mut self, tx: u128) -> (r: Option<PendingRequest>)
        requires
            old(self).wf(),
        ensures
            final(self).wf(),
            r is Some <==> old(self).spec_contains(tx),
            match r {
                Some(req) => req.transaction_id == tx && old(self).spec_contains_entry(req)
                    && exists|i: int|
                    0 <= i < old(self).entries@.len() && old(self).entries@[i] == req && final(self).entries@ == old(self).entries@.remove(i),
                None => *final(self) == *old(self),
            },
            !final(self).spec_contains(tx),
    {
        match self.position(tx) {
            Some(i) => {
                let req = self.entries[i];
                let ghost prev = self.entries@;
                self.entries.remove(i);
                proof {
                    assert(self.entries@ == prev.remove(i as int));
                    assert forall|a: int, b: int|
                        0 <= a < self.entries@.len() && 0 <= b < self.entries@.len() && a
                            != b implies (#[trigger] self.entries@[a]).transaction_id
                        != (#[trigger] self.entries@[b]).transaction_id by {
                        let a0: int = if a < i { a } else { a + 1 };
                        let b0: int = if b < i { b } else { b + 1 };
                        assert(self.entries@[a] == prev[a0]);
                        assert(self.entries@[b] == prev[b0]);
                    }
                    assert forall|a: int|
                        0 <= a < self.entries@.len() implies (#[trigger] self.entries@[a]).transaction_id
                        != tx by {
                        let a0: int = if a < i { a } else { a + 1 };
                        assert(self.entries@[a] == prev[a0]);
                    }
                }
                Some(req)
            },
            None => None,
        }
    }

    /// Purges every request older than the retransmission timeout and
    /// returns the purged entries; the young entries survive in order.
    pub fn expire(&mut self, now: u64, rto: u64) -> (r: Vec<PendingRequest>)
        requires
            old(self).wf(),
        ensures
            final(self).wf(),
            final(self).entries@ == spec_keep_fresh(old(self).entries@, now, rto),
            r@ == spec_expired(old(self).entries@, now, rto),
    {
        let n = self.entries.len();
        let mut kept: Vec<PendingRequest> = Vec::new();
        let mut gone: Vec<PendingRequest> = Vec::new();
        let mut k: usize = 0;
        proof {
            assert(self.entries@.skip(0) =~= self.entries@);
            assert(kept@ + spec_keep_fresh(self.entries@, now, rto) =~= spec_keep_fresh(
                self.entries@,
                now,
                rto,
            ));
            assert(gone@ + spec_expired(self.entries@, now, rto) =~= spec_expired(
                self.entries@,
                now,
                rto,
            ));
        }
        while k < n
            invariant
                n == self.entries@.len(),
                k <= n,
                kept@ + spec_keep_fresh(self.entries@.skip(k as int), now, rto) == spec_keep_fresh(
                    self.entries@,
                    now,
                    rto,
                ),
                gone@ + spec_expired(self.entries@.skip(k as int), now, rto) == spec_expired(
                    self.entries@,
                    now,
                    rto,
                ),
            decreases n - k,
        {
            let e = self.entries[k];
            proof {
                assert(self.entries@.skip(k as int).drop_first() =~= self.entries@.skip(
                    k as int + 1,
                ));
                assert(self.entries@.skip(k as int)[0] == e);
            }
            let keep = match e.sent_at.checked_add(rto) {
                Some(deadline) => deadline > now,
                None => true,
            };
            if keep {
                kept.push(e);
                proof {
                    assert(kept@ + spec_keep_fresh(self.entries@.skip(k as int + 1), now, rto)
                        =~= spec_keep_fresh(self.entries@, now, rto));
                }
            } else {
                gone.push(e);
                proof {
                    assert(gone@ + spec_expired(self.entries@.skip(k as int + 1), now, rto)
                        =~= spec_expired(self.entries@, now, rto));
                }
            }
            k = k + 1;
        }
        proof {
            assert(self.entries@.skip(n as int) =~= Seq::<PendingRequest>::empty());
            assert(kept@ + spec_keep_fresh(self.entries@.skip(n as int), now, rto) =~= kept@);
            assert(gone@ + spec_expired(self.entries@.skip(n as int), now, rto) =~= gone@);
        }
        self.entries = kept;
        proof {
            lemma_keep_fresh_wf(old(self).entries@, now, rto);
        }
        gone
    }
}

/// Uniqueness of transaction ids survives the purge: the kept entries are a
/// subsequence of the original table.
proof fn lemma_keep_fresh_wf(s: Seq<PendingRequest>, now: u64, rto: u64)
    ensures
        forall|e: PendingRequest|
            #[trigger] spec_keep_fresh(s, now, rto).contains(e) ==> s.contains(e),
        (forall|i: int, j: int|
            0 <= i < s.len() && 0 <= j < s.len() && i != j ==> (#[trigger] s[i]).transaction_id
                != (#[trigger] s[j]).transaction_id) ==> forall|i: int, j: int|
            0 <= i < spec_keep_fresh(s, now, rto).len() && 0 <= j < spec_keep_fresh(
                s,
                now,
                rto,
            ).len() && i != j ==> (#[trigger] spec_keep_fresh(s, now, rto)[i]).transaction_id
                != (#[trigger] spec_keep_fresh(s, now, rto)[j]).transaction_id,
    decreases s.len(),
{
    if s.len() > 0 {
        lemma_keep_fresh_wf(s.drop_first(), now, rto);
        assert forall|e: PendingRequest|
            #[trigger] spec_keep_fresh(s, now, rto).contains(e) implies s.contains(e) by {
            if s[0].sent_at + rto > now {
                let k = choose|k: int|
                    0 <= k < spec_keep_fresh(s, now, rto).len() && spec_keep_fresh(s, now, rto)[k]
                        == e;
                if k == 0 {
                    assert(s[0] == e);
                } else {
                    assert(spec_keep_fresh(s.drop_first(), now, rto)[k - 1] == e);
                    assert(spec_keep_fresh(s.drop_first(), now, rto).contains(e));
                    let m = choose|m: int|
                        0 <= m < s.drop_first().len() && s.drop_first()[m] == e;
                    assert(s[m + 1] == e);
                }
            } else {
                assert(spec_keep_fresh(s.drop_first(), now, rto).contains(e));
                let m = choose|m: int| 0 <= m < s.drop_first().len() && s.drop_first()[m] == e;
                assert(s[m + 1] == e);
            }
        }
        if forall|i: int, j: int|
            0 <= i < s.len() && 0 <= j < s.len() && i != j ==> (#[trigger] s[i]).transaction_id
                != (#[trigger] s[j]).transaction_id {
            assert forall|i: int, j: int|
                0 <= i < s.drop_first().len() && 0 <= j < s.drop_first().len() && i
                    != j implies (#[trigger] s.drop_first()[i]).transaction_id
                != (#[trigger] s.drop_first()[j]).transaction_id by {
                assert(s.drop_first()[i] == s[i + 1]);
                assert(s.drop_first()[j] == s[j + 1]);
            }
            if s[0].sent_at + rto > now {
                let t = spec_keep_fresh(s, now, rto);
                let rest = spec_keep_fresh(s.drop_first(), now, rto);
                assert forall|i: int, j: int|
                    0 <= i < t.len() && 0 <= j < t.len() && i
                        != j implies (#[trigger] t[i]).transaction_id
                    != (#[trigger] t[j]).transaction_id by {
                    if i == 0 || j == 0 {
                        let k = if i == 0 { j } else { i };
                        assert(t[k] == rest[k - 1]);
                        assert(rest.contains(rest[k - 1]));
                        assert(s.drop_first().contains(rest[k - 1]));
                        let m = choose|m: int|
                            0 <= m < s.drop_first().len() && s.drop_first()[m] == rest[k - 1];
                        assert(s[m + 1] == rest[k - 1]);
                        assert(s[0].transaction_id != s[m + 1].transaction_id);
                    } else {
                        assert(t[i] == rest[i - 1]);
                        assert(t[j] == rest[j - 1]);
                    }
                }
            }
        }
    }
}

} // verus!
