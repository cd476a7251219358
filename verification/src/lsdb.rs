//! A link-state database: a key-unique store of LSAs, each paired with its
//! aging timer. Entries keep their insertion order, which the header
//! summaries preserve.

use vstd::prelude::*;

use crate::constant::LsaMaxAge;
use crate::lsa::{Lsa, LsaKey, AS_EXTERNAL_LSA};
use crate::timer::{spec_age_at, LsaTimer};

verus! {

/// A store of LSAs with their timers; no two entries share a key.
pub struct LsaDb {
    pub entries: Vec<(Lsa, LsaTimer)>,
}

impl LsaDb {
    /// Key of the entry at position `i`.
    pub open spec fn key_at(self, i: int) -> LsaKey {
        self.entries@[i].0.header.spec_key()
    }

    /// Whether some entry has key `k`.
    pub open spec fn spec_contains(self, k: LsaKey) -> bool {
        exists|i: int| 0 <= i < self.entries@.len() && self.key_at(i) == k
    }

    /// Position of the entry with key `k` (meaningful when one exists).
    pub open spec fn idx_of(self, k: LsaKey) -> int {
        choose|i: int| 0 <= i < self.entries@.len() && self.key_at(i) == k
    }

    /// The entry with key `k`, if any.
    pub open spec fn spec_get(self, k: LsaKey) -> Option<(Lsa, LsaTimer)> {
        if self.spec_contains(k) {
            Some(self.entries@[self.idx_of(k)])
        } else {
            None
        }
    }

    /// Well-formedness: keys are unique, every timer is consistent with the
    /// age its LSA was stored with, and every entry's header carries the key
    /// fields it is stored under.
    pub open spec fn wf(self) -> bool {
        &&& forall|i: int, j: int|
            0 <= i < self.entries@.len() && 0 <= j < self.entries@.len() && i != j
                ==> self.key_at(i) != self.key_at(j)
        &&& forall|i: int|
            0 <= i < self.entries@.len() ==> (#[trigger] self.entries@[i]).1.wf(
                self.entries@[i].0.header.ls_age,
            )
    }

    /// Whether every entry was created at or before instant `now`.
    pub open spec fn fresh(self, now: u64) -> bool {
        forall|i: int|
            0 <= i < self.entries@.len() ==> (#[trigger] self.entries@[i]).1.created_at <= now
    }

    /// Whether every entry holds an LSA of type `t`.
    pub open spec fn all_of_type(self, t: u8) -> bool {
        forall|i: int| 0 <= i < self.entries@.len() ==> self.key_at(i).ls_type == t
    }

    /// Whether no entry holds an AS-external LSA.
    pub open spec fn no_as_external(self) -> bool {
        forall|i: int| 0 <= i < self.entries@.len() ==> self.key_at(i).ls_type != AS_EXTERNAL_LSA
    }

    /// An empty database.
    pub fn new() -> (r: LsaDb)
        ensures
            r.entries@.len() == 0,
            r.wf(),
            forall|k: LsaKey| !r.spec_contains(k),
            forall|now: u64| r.fresh(now),
            r.no_as_external(),
            forall|t: u8| r.all_of_type(t),
    {
        LsaDb { entries: Vec::new() }
    }

    /// Position of the entry with key `k`, if any.
    pub fn index_of(&self, k: &LsaKey) -> (r: Option<usize>)
        ensures
            match r {
                Some(i) => i < self.entries@.len() && self.key_at(i as int) == *k
                    && self.spec_contains(*k),
                None => !self.spec_contains(*k),
            },
    {
        let mut i: usize = 0;
        while i < self.entries.len()
            invariant
                i <= self.entries@.len(),
                forall|j: int| 0 <= j < i ==> self.key_at(j) != *k,
            decreases self.entries@.len() - i,
        {
            let h = &self.entries[i].0.header;
            if h.ls_type == k.ls_type && h.link_state_id == k.link_state_id
                && h.advertising_router == k.advertising_router {
                return Some(i);
            }
            i = i + 1;
        }
        None
    }

    /// Whether the database holds an LSA with key `k`.
    pub fn contains_key(&self, k: &LsaKey) -> (r: bool)
        ensures
            r == self.spec_contains(*k),
    {
        self.index_of(k).is_some()
    }

    /// The entry with key `k`, if any.
    pub fn get(&self, k: &LsaKey) -> (r: Option<&(Lsa, LsaTimer)>)
        requires
            self.wf(),
        ensures
            match r {
                Some(p) => self.spec_get(*k) == Some(*p),
                None => self.spec_get(*k) is None,
            },
    {
        match self.index_of(k) {
            Some(i) => {
                proof {
                    let j = self.idx_of(*k);
                    assert(0 <= j < self.entries@.len() && self.key_at(j) == *k);
                    assert(j == i);
                }
                Some(&self.entries[i])
            },
            None => None,
        }
    }

    /// Stores `lsa` under its key, replacing the entry that held that key,
    /// if any. Other entries are untouched.
    pub fn insert(&mut self, lsa: Lsa, timer: LsaTimer)
        requires
            old(self).wf(),
            timer.wf(lsa.header.ls_age),
        ensures
            final (self).wf(),
            final (self).spec_get(lsa.header.spec_key()) == Some((lsa, timer)),
            forall|k2: LsaKey|
                k2 != lsa.header.spec_key() ==> final (self).spec_get(k2) == old(self).spec_get(k2),
            forall|k2: LsaKey|
                #[trigger] final (self).spec_contains(k2) == (old(self).spec_contains(k2) || k2
                    == lsa.header.spec_key()),
            forall|n: u64|
                old(self).fresh(n) && timer.created_at <= n ==> #[trigger] final (self).fresh(n),
            old(self).no_as_external() && lsa.header.ls_type != AS_EXTERNAL_LSA ==> final (
            self).no_as_external(),
            forall|t: u8|
                #[trigger] old(self).all_of_type(t) && lsa.header.ls_type == t ==> final (
                self).all_of_type(t),
            if old(self).spec_contains(lsa.header.spec_key()) {
                final (self).entries@ == old(self).entries@.update(
                    old(self).idx_of(lsa.header.spec_key()),
                    (lsa, timer),
                )
            } else {
                final (self).entries@ == old(self).entries@.push((lsa, timer))
            },
    {
        let ghost k = lsa.header.spec_key();
        let ghost pre = *self;
        match self.index_of(&lsa.header.key()) {
            Some(i) => {
                proof {
                    let j = pre.idx_of(k);
                    assert(0 <= j < pre.entries@.len() && pre.key_at(j) == k);
                    assert(j == i);
                }
                self.entries.set(i, (lsa, timer));
                proof {
                    lemma_update_preserves(pre, *self, i as int, (lsa, timer));
                }
            },
            None => {
                self.entries.push((lsa, timer));
                proof {
                    lemma_push_preserves(pre, *self, (lsa, timer));
                }
            },
        }
    }

    /// Moves the refresh instant of the entry under `k`, if any: a
    /// re-originated self-originated LSA refreshes at `LsRefreshTime`
    /// after its creation, not at `LsaMaxAge`. Everything else about the
    /// entry, and every other entry, is untouched.
    pub fn reschedule(&mut self, k: &LsaKey, fire_at: u64)
        requires
            old(self).wf(),
            old(self).spec_contains(*k) ==> {
                let t = old(self).spec_get(*k)->Some_0.1;
                fire_at == t.created_at + crate::constant::LsRefreshTime || fire_at == t.created_at
                    + (LsaMaxAge - old(self).spec_get(*k)->Some_0.0.header.ls_age)
            },
        ensures
            final (self).wf(),
            !old(self).spec_contains(*k) ==> final (self).entries@ == old(self).entries@,
            old(self).spec_contains(*k) ==> {
                let e = old(self).spec_get(*k)->Some_0;
                &&& final (self).spec_get(*k) == Some(
                    (e.0, LsaTimer { created_at: e.1.created_at, fire_at }),
                )
                &&& final (self).entries@ == old(self).entries@.update(
                    old(self).idx_of(*k),
                    (e.0, LsaTimer { created_at: e.1.created_at, fire_at }),
                )
            },
            forall|k2: LsaKey|
                k2 != *k ==> final (self).spec_get(k2) == old(self).spec_get(k2),
            forall|k2: LsaKey|
                #[trigger] final (self).spec_contains(k2) == old(self).spec_contains(k2),
            forall|n: u64| old(self).fresh(n) ==> #[trigger] final (self).fresh(n),
            old(self).no_as_external() ==> final (self).no_as_external(),
            forall|t: u8|
                #[trigger] old(self).all_of_type(t) ==> final (self).all_of_type(t),
    {
        let ghost pre = *self;
        match self.index_of(k) {
            Some(i) => {
                proof {
                    let j = pre.idx_of(*k);
                    assert(0 <= j < pre.entries@.len() && pre.key_at(j) == *k);
                    assert(j == i);
                }
                let (lsa, timer) = self.entries.remove(i);
                let nt = LsaTimer { created_at: timer.created_at, fire_at };
                let ghost e = (lsa, nt);
                self.entries.insert(i, (lsa, nt));
                proof {
                    assert(self.entries@ =~= pre.entries@.update(i as int, e));
                    lemma_update_preserves(pre, *self, i as int, e);
                }
            },
            None => {},
        }
    }

    /// Removes the entry with key `k`, if any; reports whether one was
    /// removed. Other entries are untouched.
    pub fn remove(&mut self, k: &LsaKey) -> (r: bool)
        requires
            old(self).wf(),
        ensures
            final (self).wf(),
            r == old(self).spec_contains(*k),
            !final (self).spec_contains(*k),
            forall|k2: LsaKey|
                k2 != *k ==> final (self).spec_get(k2) == old(self).spec_get(k2),
            forall|k2: LsaKey|
                #[trigger] final (self).spec_contains(k2) == (old(self).spec_contains(k2) && k2
                    != *k),
            final (self).entries@.len() == if r {
                old(self).entries@.len() - 1
            } else {
                old(self).entries@.len() as int
            },
            forall|n: u64| old(self).fresh(n) ==> #[trigger] final (self).fresh(n),
            old(self).no_as_external() ==> final (self).no_as_external(),
            forall|t: u8|
                #[trigger] old(self).all_of_type(t) ==> final (self).all_of_type(t),
            r ==> final (self).entries@ == old(self).entries@.remove(old(self).idx_of(*k)),
            !r ==> final (self).entries@ == old(self).entries@,
    {
        let ghost pre = *self;
        match self.index_of(k) {
            Some(i) => {
                proof {
                    let j = pre.idx_of(*k);
                    assert(0 <= j < pre.entries@.len() && pre.key_at(j) == *k);
                    assert(j == i);
                }
                self.entries.remove(i);
                proof {
                    lemma_remove_preserves(pre, *self, i as int);
                }
                true
            },
            None => false,
        }
    }
}

/// After overwriting position `i`, lookups of the new entry's key find it,
/// and lookups of every other key are unchanged.
proof fn lemma_update_preserves(pre: LsaDb, post: LsaDb, i: int, e: (Lsa, LsaTimer))
    requires
        pre.wf(),
        0 <= i < pre.entries@.len(),
        e.1.wf(e.0.header.ls_age),
        pre.key_at(i) == e.0.header.spec_key(),
        post.entries@ == pre.entries@.update(i, e),
    ensures
        post.wf(),
        post.spec_get(e.0.header.spec_key()) == Some(e),
        forall|k2: LsaKey| k2 != e.0.header.spec_key() ==> post.spec_get(k2) == pre.spec_get(k2),
        forall|k2: LsaKey|
            #[trigger] post.spec_contains(k2) == (pre.spec_contains(k2) || k2
                == e.0.header.spec_key()),
        forall|n: u64| pre.fresh(n) && e.1.created_at <= n ==> #[trigger] post.fresh(n),
        pre.no_as_external() && e.0.header.ls_type != AS_EXTERNAL_LSA ==> post.no_as_external(),
        forall|t: u8| #[trigger] pre.all_of_type(t) && e.0.header.ls_type == t ==> post.all_of_type(t),
{
    let k = e.0.header.spec_key();
    assert(forall|j: int| 0 <= j < post.entries@.len() && j != i ==> post.entries@[j] == pre.entries@[j]);
    assert(forall|j: int| 0 <= j < post.entries@.len() && j != i ==> post.key_at(j) == pre.key_at(j));
    assert(post.key_at(i) == k);
    assert(post.key_at(i).ls_type == e.0.header.ls_type);
    assert(post.spec_contains(k) && post.idx_of(k) == i) by {
        assert(0 <= i < post.entries@.len() && post.key_at(i) == k);
        let j = post.idx_of(k);
        if j != i {
            assert(pre.key_at(j) == k && pre.key_at(i) == k);
        }
    }
    assert forall|k2: LsaKey| k2 != k implies post.spec_get(k2) == pre.spec_get(k2) by {
        if pre.spec_contains(k2) {
            let j = pre.idx_of(k2);
            assert(0 <= j < pre.entries@.len() && pre.key_at(j) == k2);
            assert(j != i);
            assert(post.key_at(j) == k2);
            assert(post.spec_contains(k2));
            let j2 = post.idx_of(k2);
            assert(0 <= j2 < post.entries@.len() && post.key_at(j2) == k2);
            assert(j2 != i);
            assert(pre.key_at(j2) == k2);
            assert(j2 == j);
        } else {
            if post.spec_contains(k2) {
                let j2 = post.idx_of(k2);
                assert(0 <= j2 < post.entries@.len() && post.key_at(j2) == k2);
                assert(j2 != i);
                assert(pre.key_at(j2) == k2);
            }
        }
    }
    assert forall|k2: LsaKey| #[trigger] post.spec_contains(k2) == (pre.spec_contains(k2) || k2
        == k) by {
        if post.spec_contains(k2) && k2 != k {
            let j2 = post.idx_of(k2);
            assert(j2 != i && pre.key_at(j2) == k2);
        }
        if pre.spec_contains(k2) && k2 != k {
            let j = pre.idx_of(k2);
            assert(j != i && post.key_at(j) == k2);
        }
    }
}

/// After appending an entry with a fresh key, lookups of that key find it,
/// and lookups of every other key are unchanged.
proof fn lemma_push_preserves(pre: LsaDb, post: LsaDb, e: (Lsa, LsaTimer))
    requires
        pre.wf(),
        e.1.wf(e.0.header.ls_age),
        !pre.spec_contains(e.0.header.spec_key()),
        post.entries@ == pre.entries@.push(e),
    ensures
        post.wf(),
        post.spec_get(e.0.header.spec_key()) == Some(e),
        forall|k2: LsaKey| k2 != e.0.header.spec_key() ==> post.spec_get(k2) == pre.spec_get(k2),
        forall|k2: LsaKey|
            #[trigger] post.spec_contains(k2) == (pre.spec_contains(k2) || k2
                == e.0.header.spec_key()),
        forall|m: u64| pre.fresh(m) && e.1.created_at <= m ==> #[trigger] post.fresh(m),
        pre.no_as_external() && e.0.header.ls_type != AS_EXTERNAL_LSA ==> post.no_as_external(),
        forall|t: u8| #[trigger] pre.all_of_type(t) && e.0.header.ls_type == t ==> post.all_of_type(t),
{
    let k = e.0.header.spec_key();
    let n = pre.entries@.len() as int;
    assert(forall|j: int| 0 <= j < n ==> post.entries@[j] == pre.entries@[j]);
    assert(forall|j: int| 0 <= j < n ==> post.key_at(j) == pre.key_at(j));
    assert(post.key_at(n) == k);
    assert(post.key_at(n).ls_type == e.0.header.ls_type);
    assert(forall|j: int| 0 <= j < n ==> post.key_at(j) != k);
    assert(post.spec_contains(k) && post.idx_of(k) == n) by {
        assert(0 <= n < post.entries@.len() && post.key_at(n) == k);
        let j = post.idx_of(k);
        assert(0 <= j < post.entries@.len() && post.key_at(j) == k);
    }
    assert forall|k2: LsaKey| k2 != k implies post.spec_get(k2) == pre.spec_get(k2) by {
        if pre.spec_contains(k2) {
            let j = pre.idx_of(k2);
            assert(post.key_at(j) == k2);
            assert(post.spec_contains(k2));
            let j2 = post.idx_of(k2);
            assert(0 <= j2 < post.entries@.len() && post.key_at(j2) == k2);
            assert(j2 != n);
            assert(pre.key_at(j2) == k2);
            assert(j2 == j);
        } else {
            if post.spec_contains(k2) {
                let j2 = post.idx_of(k2);
                assert(j2 != n);
                assert(pre.key_at(j2) == k2);
            }
        }
    }
    assert forall|k2: LsaKey| #[trigger] post.spec_contains(k2) == (pre.spec_contains(k2) || k2
        == k) by {
        if post.spec_contains(k2) && k2 != k {
            let j2 = post.idx_of(k2);
            assert(j2 != n && pre.key_at(j2) == k2);
        }
        if pre.spec_contains(k2) {
            let j = pre.idx_of(k2);
            assert(post.key_at(j) == k2);
        }
    }
}

/// After removing position `i`, its key is gone and lookups of every other
/// key are unchanged.
proof fn lemma_remove_preserves(pre: LsaDb, post: LsaDb, i: int)
    requires
        pre.wf(),
        0 <= i < pre.entries@.len(),
        post.entries@ == pre.entries@.remove(i),
    ensures
        post.wf(),
        !post.spec_contains(pre.key_at(i)),
        forall|k2: LsaKey| k2 != pre.key_at(i) ==> post.spec_get(k2) == pre.spec_get(k2),
        forall|k2: LsaKey|
            #[trigger] post.spec_contains(k2) == (pre.spec_contains(k2) && k2 != pre.key_at(i)),
        forall|m: u64| pre.fresh(m) ==> #[trigger] post.fresh(m),
        pre.no_as_external() ==> post.no_as_external(),
        forall|t: u8| #[trigger] pre.all_of_type(t) ==> post.all_of_type(t),
{
    let k = pre.key_at(i);
    let n = pre.entries@.len() as int;
    assert(post.entries@.len() == n - 1);
    assert(forall|j: int| 0 <= j < i ==> post.key_at(j) == pre.key_at(j));
    assert(forall|j: int| i <= j < n - 1 ==> post.key_at(j) == pre.key_at(j + 1));
    assert(post.wf()) by {
        assert forall|a: int, b: int|
            0 <= a < post.entries@.len() && 0 <= b < post.entries@.len() && a != b implies post
            .key_at(a) != post.key_at(b) by {
            let a0 = if a < i { a } else { a + 1 };
            let b0 = if b < i { b } else { b + 1 };
            assert(post.key_at(a) == pre.key_at(a0) && post.key_at(b) == pre.key_at(b0));
        }
        assert forall|j: int| 0 <= j < post.entries@.len() implies (#[trigger] post.entries@[j]).1
            .wf(post.entries@[j].0.header.ls_age) by {
            let j0 = if j < i { j } else { j + 1 };
            assert(post.entries@[j] == pre.entries@[j0]);
        }
    }
    assert(!post.spec_contains(k)) by {
        if post.spec_contains(k) {
            let j = post.idx_of(k);
            let j0 = if j < i { j } else { j + 1 };
            assert(pre.key_at(j0) == k && pre.key_at(i) == k && j0 != i);
        }
    }
    assert forall|k2: LsaKey| k2 != k implies post.spec_get(k2) == pre.spec_get(k2) by {
        if pre.spec_contains(k2) {
            let j = pre.idx_of(k2);
            assert(0 <= j < n && pre.key_at(j) == k2);
            assert(j != i);
            let jp = if j < i { j } else { j - 1 };
            assert(post.key_at(jp) == k2 && post.entries@[jp] == pre.entries@[j]);
            assert(post.spec_contains(k2));
            let j2 = post.idx_of(k2);
            let j20 = if j2 < i { j2 } else { j2 + 1 };
            assert(pre.key_at(j20) == k2);
            assert(j20 == j);
            assert(post.entries@[j2] == pre.entries@[j]);
        } else {
            if post.spec_contains(k2) {
                let j2 = post.idx_of(k2);
                let j20 = if j2 < i { j2 } else { j2 + 1 };
                assert(pre.key_at(j20) == k2);
            }
        }
    }
    assert forall|k2: LsaKey| #[trigger] post.spec_contains(k2) == (pre.spec_contains(k2) && k2
        != k) by {
        if post.spec_contains(k2) {
            let j2 = post.idx_of(k2);
            let j20 = if j2 < i { j2 } else { j2 + 1 };
            assert(pre.key_at(j20) == k2);
            assert(pre.spec_contains(k2));
        }
        if pre.spec_contains(k2) && k2 != k {
            let j = pre.idx_of(k2);
            assert(0 <= j < n && pre.key_at(j) == k2);
            assert(j != i);
            let jp = if j < i { j } else { j - 1 };
            assert(post.key_at(jp) == k2);
            assert(post.spec_contains(k2));
        }
    }
}

/// Live header of a stored entry, read at instant `now`.
pub open spec fn live_header(e: (Lsa, LsaTimer), now: u64) -> crate::lsa::LsaHeader {
    crate::lsa::LsaHeader {
        ls_age: spec_age_at(e.0.header.ls_age, e.1.created_at, now),
        ..e.0.header
    }
}

/// Live header of the entry at position `i` of `db`, read at instant `now`.
pub open spec fn live_header_at(db: LsaDb, i: int, now: u64) -> crate::lsa::LsaHeader {
    live_header(db.entries@[i], now)
}

/// The header summary of `db` at instant `now`: every entry's header with
/// its live age, in store order, entries already at `LsaMaxAge` left out.
pub open spec fn spec_headers(db: LsaDb, now: u64) -> Seq<crate::lsa::LsaHeader> {
    Seq::new(db.entries@.len(), |i: int| live_header_at(db, i, now)).filter(
        |h: crate::lsa::LsaHeader| h.ls_age != LsaMaxAge,
    )
}

} // verus!
