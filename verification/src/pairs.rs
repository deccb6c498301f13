use vstd::prelude::*;

use crate::candidate::Candidate;
use crate::net::Addr;

verus! {

/// Which side of the session this agent plays.
#[derive(Clone, Copy, PartialEq, Eq, Structural, Debug)]
pub enum Role {
    Controlling,
    Controlled,
}

/// Check state of a candidate pair.
#[derive(Clone, Copy, PartialEq, Eq, Structural, Debug)]
pub enum PairState {
    Waiting,
    InProgress,
    Succeeded,
    Failed,
    Frozen,
}

/// A (local, remote) candidate pair together with its check state. A pair is
/// identified by the pair of endpoint addresses; the registry never holds
/// two pairs with the same identity.
#[derive(Clone, Copy, PartialEq, Eq, Structural, Debug)]
pub struct CandidatePair {
    pub local: Candidate,
    pub remote: Candidate,
    pub state: PairState,
    pub nominated: bool,
}

/// The standard ICE pair priority, `min(g, d) * 2^32 + max(g, d) * 2 +
/// (g > d ? 1 : 0)`, where `g` is the controlling and `d` the controlled
/// side's candidate priority.
pub open spec fn spec_pair_priority(g: u32, d: u32) -> int {
    if g <= d {
        g * 0x1_0000_0000 + d * 2 + 0
    } else {
        d * 0x1_0000_0000 + g * 2 + 1
    }
}

/// The two single-candidate priorities that feed the pair priority, by role:
/// the controlling side contributes `g`, the controlled side `d`.
pub open spec fn spec_priority_of(role: Role, p: CandidatePair) -> int {
    match role {
        Role::Controlling => spec_pair_priority(p.local.priority, p.remote.priority),
        Role::Controlled => spec_pair_priority(p.remote.priority, p.local.priority),
    }
}

/// Strict preference between pairs: higher pair priority wins, and a
/// priority tie is broken by the lexicographically smaller remote address.
/// Two pairs with equal priority and equal remote address are unordered.
pub open spec fn spec_prefer(role: Role, a: CandidatePair, b: CandidatePair) -> bool {
    spec_priority_of(role, a) > spec_priority_of(role, b) || (spec_priority_of(role, a)
        == spec_priority_of(role, b) && a.remote.addr.lex_lt(b.remote.addr))
}

/// Computes the pair priority for this agent's role.
pub fn pair_priority(role: Role, p: &CandidatePair) -> (r: u128)
    ensures
        r == spec_priority_of(role, *p),
{
    let (g, d): (u32, u32) = match role {
        Role::Controlling => (p.local.priority, p.remote.priority),
        Role::Controlled => (p.remote.priority, p.local.priority),
    };
    if g <= d {
        (g as u128) * 0x1_0000_0000 + (d as u128) * 2
    } else {
        (d as u128) * 0x1_0000_0000 + (g as u128) * 2 + 1
    }
}

/// Decides the strict preference order.
pub fn prefer(role: Role, a: &CandidatePair, b: &CandidatePair) -> (r: bool)
    ensures
        r == spec_prefer(role, *a, *b),
{
    let pa = pair_priority(role, a);
    let pb = pair_priority(role, b);
    pa > pb || (pa == pb && a.remote.addr.lex_less(&b.remote.addr))
}

/// Whether the index sequence holds the value `v` somewhere.
pub open spec fn spec_contains_index(r: Seq<usize>, v: usize) -> bool {
    exists|m: int| 0 <= m < r.len() && r[m] == v
}

/// The registry of discovered candidate pairs. Pairs are appended on
/// discovery and never removed while the agent runs, so an index is a
/// stable identity for a pair.
pub struct PairRegistry {
    pub pairs: Vec<CandidatePair>,
}

impl PairRegistry {
    /// No two registry entries share the same (local, remote) address pair.
    pub open spec fn wf(self) -> bool {
        forall|i: int, j: int|
            0 <= i < self.pairs@.len() && 0 <= j < self.pairs@.len() && i != j
                ==> !(#[trigger] self.pairs@[i].local.addr == #[trigger] self.pairs@[j].local.addr
                && self.pairs@[i].remote.addr == self.pairs@[j].remote.addr)
    }

    pub open spec fn spec_len(self) -> nat {
        self.pairs@.len()
    }

    /// Whether index `i` holds the pair keyed by the two addresses.
    pub open spec fn is_match(self, i: int, local_addr: Addr, remote_addr: Addr) -> bool {
        self.pairs@[i].local.addr == local_addr && self.pairs@[i].remote.addr == remote_addr
    }

    pub fn new() -> (r: PairRegistry)
        ensures
            r.wf(),
            r.pairs@.len() == 0,
    {
        PairRegistry { pairs: Vec::new() }
    }

    pub fn len(&self) -> (r: usize)
        ensures
            r == self.spec_len(),
    {
        self.pairs.len()
    }

    pub fn get(&self, i: usize) -> (r: CandidatePair)
        requires
            i < self.spec_len(),
        ensures
            r == self.pairs@[i as int],
    {
        self.pairs[i]
    }

    /// Finds the pair keyed by the two endpoint addresses.
    pub fn find_pair(&self, local_addr: &Addr, remote_addr: &Addr) -> (r: Option<usize>)
        ensures
            match r {
                Some(i) => i < self.spec_len() && self.is_match(i as int, *local_addr, *remote_addr),
                None => forall|j: int|
                    0 <= j < self.spec_len() ==> !self.is_match(j, *local_addr, *remote_addr),
            },
    {
        let n = self.pairs.len();
        let mut k: usize = 0;
        while k < n
            invariant
                n == self.spec_len(),
                k <= n,
                forall|j: int| 0 <= j < k ==> !self.is_match(j, *local_addr, *remote_addr),
            decreases n - k,
        {
            if self.pairs[k].local.addr == *local_addr && self.pairs[k].remote.addr == *remote_addr
            {
                return Some(k);
            }
            k = k + 1;
        }
        None
    }

    /// Adds the pair if its identity is new, in state Waiting and not
    /// nominated; returns the index of the (new or already present) pair.
    pub fn add_pair(&mut self, local: Candidate, remote: Candidate) -> (r: usize)
        requires
            old(self).wf(),
        ensures
            final(self).wf(),
            r < final(self).spec_len(),
            final(self).is_match(r as int, local.addr, remote.addr),
            match old(self).find_index(local.addr, remote.addr) {
                Some(i) => final(self).pairs@ == old(self).pairs@ && r as int == i,
                None => r == old(self).spec_len() && final(self).pairs@ == old(
                    self).pairs@.push(
                    CandidatePair { local, remote, state: PairState::Waiting, nominated: false },
                ),
            },
    {
        proof {
            old(self).lemma_find_index(local.addr, remote.addr);
        }
        match self.find_pair(&local.addr, &remote.addr) {
            Some(i) => {
                proof {
                    self.lemma_find_index_unique(local.addr, remote.addr, i as int);
                }
                i
            },
            None => {
                let r = self.pairs.len();
                self.pairs.push(
                    CandidatePair { local, remote, state: PairState::Waiting, nominated: false },
                );
                proof {
                    assert forall|a: int, b: int|
                        0 <= a < self.pairs@.len() && 0 <= b < self.pairs@.len() && a
                            != b implies !(#[trigger] self.pairs@[a].local.addr
                        == #[trigger] self.pairs@[b].local.addr && self.pairs@[a].remote.addr
                        == self.pairs@[b].remote.addr) by {
                        if a < r && b < r {
                            assert(old(self).pairs@[a] == self.pairs@[a]);
                            assert(old(self).pairs@[b] == self.pairs@[b]);
                        } else if a == r && b < r {
                            assert(!old(self).is_match(b, local.addr, remote.addr));
                        } else if b == r && a < r {
                            assert(!old(self).is_match(a, local.addr, remote.addr));
                        }
                    }
                }
                r
            },
        }
    }

    /// The index of the pair keyed by the two addresses, if any: the unique
    /// witness under `wf`.
    pub open spec fn find_index(self, local_addr: Addr, remote_addr: Addr) -> Option<int> {
        if exists|j: int| 0 <= j < self.spec_len() && self.is_match(j, local_addr, remote_addr) {
            Some(
                choose|j: int|
                    0 <= j < self.spec_len() && self.is_match(j, local_addr, remote_addr),
            )
        } else {
            None
        }
    }

    pub proof fn lemma_find_index(self, local_addr: Addr, remote_addr: Addr)
        ensures
            match self.find_index(local_addr, remote_addr) {
                Some(i) => 0 <= i < self.spec_len() && self.is_match(i, local_addr, remote_addr),
                None => forall|j: int|
                    0 <= j < self.spec_len() ==> !self.is_match(j, local_addr, remote_addr),
            },
    {
        if exists|j: int| 0 <= j < self.spec_len() && self.is_match(j, local_addr, remote_addr) {
            let j = choose|j: int|
                0 <= j < self.spec_len() && self.is_match(j, local_addr, remote_addr);
            assert(0 <= j < self.spec_len() && self.is_match(j, local_addr, remote_addr));
        }
    }

    /// Under `wf` the matching index is unique.
    pub proof fn lemma_find_index_unique(self, local_addr: Addr, remote_addr: Addr, i: int)
        requires
            self.wf(),
            0 <= i < self.spec_len(),
            self.is_match(i, local_addr, remote_addr),
        ensures
            self.find_index(local_addr, remote_addr) == Some(i),
    {
    }

    /// Overwrites the check state of the pair at `i`.
    pub fn set_state(&mut self, i: usize, s: PairState)
        requires
            i < old(self).spec_len(),
        ensures
            final(self).pairs@ == old(self).pairs@.update(
                i as int,
                CandidatePair { state: s, ..old(self).pairs@[i as int] },
            ),
            old(self).wf() ==> final(self).wf(),
    {
        let p = self.pairs[i];
        self.pairs.set(i, CandidatePair { state: s, ..p });
        proof {
            assert forall|a: int, b: int|
                0 <= a < self.pairs@.len() && 0 <= b < self.pairs@.len() && a != b && old(
                    self,
                ).wf() implies !(#[trigger] self.pairs@[a].local.addr
                == #[trigger] self.pairs@[b].local.addr && self.pairs@[a].remote.addr
                == self.pairs@[b].remote.addr) by {
                assert(self.pairs@[a].local.addr == old(self).pairs@[a].local.addr);
                assert(self.pairs@[b].local.addr == old(self).pairs@[b].local.addr);
            }
        }
    }

    /// Marks the pair at `i` as nominated.
    pub fn set_nominated(&mut self, i: usize, b: bool)
        requires
            i < old(self).spec_len(),
        ensures
            final(self).pairs@ == old(self).pairs@.update(
                i as int,
                CandidatePair { nominated: b, ..old(self).pairs@[i as int] },
            ),
            old(self).wf() ==> final(self).wf(),
    {
        let p = self.pairs[i];
        self.pairs.set(i, CandidatePair { nominated: b, ..p });
        proof {
            assert forall|a: int, b2: int|
                0 <= a < self.pairs@.len() && 0 <= b2 < self.pairs@.len() && a != b2 && old(
                    self,
                ).wf() implies !(#[trigger] self.pairs@[a].local.addr
                == #[trigger] self.pairs@[b2].local.addr && self.pairs@[a].remote.addr
                == self.pairs@[b2].remote.addr) by {
                assert(self.pairs@[a].local.addr == old(self).pairs@[a].local.addr);
                assert(self.pairs@[b2].local.addr == old(self).pairs@[b2].local.addr);
            }
        }
    }

    /// Admits the pairs eligible for `best_valid`.
    pub open spec fn succeeded_pred() -> spec_fn(CandidatePair) -> bool {
        |p: CandidatePair| p.state == PairState::Succeeded
    }

    /// Admits the pairs eligible for `best_available`.
    pub open spec fn available_pred() -> spec_fn(CandidatePair) -> bool {
        |p: CandidatePair| p.state != PairState::Failed
    }

    /// What the best-pair searches select: the most preferred pair among
    /// those admitted by `pred`, the earliest such index on an exact tie.
    pub open spec fn is_best(self, role: Role, i: int, pred: spec_fn(CandidatePair) -> bool) -> bool {
        &&& 0 <= i < self.spec_len()
        &&& pred(self.pairs@[i])
        &&& forall|j: int|
            0 <= j < self.spec_len() && #[trigger] pred(self.pairs@[j]) ==> !spec_prefer(
                role,
                self.pairs@[j],
                self.pairs@[i],
            )
        &&& forall|j: int|
            0 <= j < i && #[trigger] pred(self.pairs@[j]) ==> spec_prefer(
                role,
                self.pairs@[i],
                self.pairs@[j],
            )
    }

    /// The order of the priority sweep: every pair index exactly once, no
    /// later pair strictly preferred over an earlier one.
    pub fn priority_sweep(&self, role: Role) -> (r: Vec<usize>)
        ensures
            r@.len() == self.spec_len(),
            forall|i: int| 0 <= i < r@.len() ==> (#[trigger] r@[i]) < self.spec_len(),
            forall|i: int, j: int| 0 <= i < j < r@.len() ==> r@[i] != r@[j],
            forall|v: usize| v < self.spec_len() ==> #[trigger] spec_contains_index(r@, v),
            forall|i: int, j: int|
                0 <= i < j < r@.len() ==> !spec_prefer(
                    role,
                    self.pairs@[r@[j] as int],
                    self.pairs@[r@[i] as int],
                ),
    {
        let n = self.pairs.len();
        let mut order: Vec<usize> = Vec::new();
        let mut idx: usize = 0;
        while idx < n
            invariant
                n == self.spec_len(),
                idx <= n,
                order@.len() == idx,
                forall|i: int| 0 <= i < order@.len() ==> (#[trigger] order@[i]) < idx,
                forall|i: int, j: int| 0 <= i < j < order@.len() ==> order@[i] != order@[j],
                forall|v: usize| v < idx ==> #[trigger] spec_contains_index(order@, v),
                forall|i: int, j: int|
                    0 <= i < j < order@.len() ==> !spec_prefer(
                        role,
                        self.pairs@[order@[j] as int],
                        self.pairs@[order@[i] as int],
                    ),
            decreases n - idx,
        {
            let mut pos: usize = 0;
            while pos < order.len() && !prefer(
                role,
                &self.pairs[idx],
                &self.pairs[order[pos]],
            )
                invariant
                    n == self.spec_len(),
                    idx < n,
                    pos <= order@.len(),
                    forall|i: int| 0 <= i < order@.len() ==> (#[trigger] order@[i]) < idx,
                    forall|i: int|
                        0 <= i < pos ==> !spec_prefer(
                            role,
                            self.pairs@[idx as int],
                            self.pairs@[(#[trigger] order@[i]) as int],
                        ),
                decreases order@.len() - pos,
            {
                pos = pos + 1;
            }
            let ghost prev = order@;
            order.insert(pos, idx);
            proof {
                assert(order@ == prev.insert(pos as int, idx));
                assert forall|v: usize| v < idx + 1 implies #[trigger] spec_contains_index(
                    order@,
                    v,
                ) by {
                    if v == idx {
                        assert(order@[pos as int] == idx);
                    } else {
                        assert(spec_contains_index(prev, v));
                        let m0 = choose|m0: int| 0 <= m0 < prev.len() && prev[m0] == v;
                        if m0 < pos {
                            assert(order@[m0] == v);
                        } else {
                            assert(order@[m0 + 1] == v);
                        }
                    }
                }
                assert forall|i: int, j: int|
                    0 <= i < j < order@.len() implies !spec_prefer(
                    role,
                    self.pairs@[order@[j] as int],
                    self.pairs@[order@[i] as int],
                ) by {
                    let pi = pos as int;
                    if j < pi {
                        assert(order@[i] == prev[i]);
                        assert(order@[j] == prev[j]);
                    } else if i > pi {
                        assert(order@[i] == prev[i - 1]);
                        assert(order@[j] == prev[j - 1]);
                    } else if i < pi && j > pi {
                        assert(order@[i] == prev[i]);
                        assert(order@[j] == prev[j - 1]);
                    } else if i == pi {
                        assert(order@[i] == idx);
                        assert(order@[j] == prev[j - 1]);
                        if pi < prev.len() {
                            assert(!spec_prefer(
                                role,
                                self.pairs@[prev[j - 1] as int],
                                self.pairs@[prev[pi] as int],
                            ));
                        }
                    } else {
                        assert(j == pi);
                        assert(order@[i] == prev[i]);
                        assert(order@[j] == idx);
                    }
                }
            }
            idx = idx + 1;
        }
        order
    }

    /// The best index for a given predicate is unique: the search returns
    /// the one index no admitted pair strictly beats and every earlier
    /// admitted pair strictly loses to.
    pub proof fn lemma_is_best_unique(
        self,
        role: Role,
        i: int,
        j: int,
        pred: spec_fn(CandidatePair) -> bool,
    )
        requires
            self.is_best(role, i, pred),
            self.is_best(role, j, pred),
        ensures
            i == j,
    {
        if i < j {
            assert(spec_prefer(role, self.pairs@[j], self.pairs@[i]));
        } else if j < i {
            assert(spec_prefer(role, self.pairs@[i], self.pairs@[j]));
        }
    }

    /// The highest-priority pair in state Succeeded, if any.
    pub fn best_valid(&self, role: Role) -> (r: Option<usize>)
        ensures
            match r {
                Some(i) => self.is_best(role, i as int, PairRegistry::succeeded_pred()),
                None => forall|j: int|
                    0 <= j < self.spec_len() ==> (#[trigger] self.pairs@[j]).state
                        != PairState::Succeeded,
            },
    {
        let mut best: Option<usize> = None;
        let n = self.pairs.len();
        let mut k: usize = 0;
        let ghost pred = PairRegistry::succeeded_pred();
        while k < n
            invariant
                n == self.spec_len(),
                k <= n,
                pred == PairRegistry::succeeded_pred(),
                match best {
                    Some(b) => b < k && pred(self.pairs@[b as int]) && (forall|j: int|
                        0 <= j < k && #[trigger] pred(self.pairs@[j]) ==> !spec_prefer(
                            role,
                            self.pairs@[j],
                            self.pairs@[b as int],
                        )) && (forall|j: int|
                        0 <= j < b && #[trigger] pred(self.pairs@[j]) ==> spec_prefer(
                            role,
                            self.pairs@[b as int],
                            self.pairs@[j],
                        )),
                    None => forall|j: int|
                        0 <= j < k ==> (#[trigger] self.pairs@[j]).state != PairState::Succeeded,
                },
            decreases n - k,
        {
            if matches!(self.pairs[k].state, PairState::Succeeded) {
                assert(pred(self.pairs@[k as int]));
                match best {
                    None => {
                        best = Some(k);
                    },
                    Some(b) => {
                        if prefer(role, &self.pairs[k], &self.pairs[b]) {
                            best = Some(k);
                        }
                    },
                }
            } else {
                assert(!pred(self.pairs@[k as int]));
            }
            k = k + 1;
        }
        best
    }

    /// The highest-priority pair in any state but Failed, if any.
    pub fn best_available(&self, role: Role) -> (r: Option<usize>)
        ensures
            match r {
                Some(i) => self.is_best(role, i as int, PairRegistry::available_pred()),
                None => forall|j: int|
                    0 <= j < self.spec_len() ==> (#[trigger] self.pairs@[j]).state
                        == PairState::Failed,
            },
    {
        let mut best: Option<usize> = None;
        let n = self.pairs.len();
        let mut k: usize = 0;
        let ghost pred = PairRegistry::available_pred();
        while k < n
            invariant
                n == self.spec_len(),
                k <= n,
                pred == PairRegistry::available_pred(),
                match best {
                    Some(b) => b < k && pred(self.pairs@[b as int]) && (forall|j: int|
                        0 <= j < k && #[trigger] pred(self.pairs@[j]) ==> !spec_prefer(
                            role,
                            self.pairs@[j],
                            self.pairs@[b as int],
                        )) && (forall|j: int|
                        0 <= j < b && #[trigger] pred(self.pairs@[j]) ==> spec_prefer(
                            role,
                            self.pairs@[b as int],
                            self.pairs@[j],
                        )),
                    None => forall|j: int|
                        0 <= j < k ==> (#[trigger] self.pairs@[j]).state == PairState::Failed,
                },
            decreases n - k,
        {
            if !matches!(self.pairs[k].state, PairState::Failed) {
                assert(pred(self.pairs@[k as int]));
                match best {
                    None => {
                        best = Some(k);
                    },
                    Some(b) => {
                        if prefer(role, &self.pairs[k], &self.pairs[b]) {
                            best = Some(k);
                        }
                    },
                }
            } else {
                assert(!pred(self.pairs@[k as int]));
            }
            k = k + 1;
        }
        best
    }
}

} // verus!
