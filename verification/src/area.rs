//! An OSPF area: its local link-state database, address ranges and
//! capabilities. AS-external LSAs never live in the local database; an area
//! with external routing capability reads and writes the process-wide
//! AS-external database, which callers hand in by reference under their
//! serialization guard.

use vstd::prelude::*;

use crate::constant::{LsRefreshTime, LsaMaxAge, MaxAgeDiff, MaxSequenceNumber, MinLSArrival};
use crate::lsa::{cmp_header, spec_cmp_header, spec_header_newer, Lsa, LsaHeader, LsaKey, AS_EXTERNAL_LSA};
use crate::lsdb::{live_header, spec_headers, LsaDb};
use crate::spt::ShortPathTree;
use crate::timer::LsaTimer;

verus! {

/// One configured address range of an area: a prefix with its mask and
/// whether it is advertised outside the area.
#[derive(Clone, Copy, PartialEq, Eq, Structural, Debug)]
pub struct AddrRange {
    pub addr: u32,
    pub mask: u32,
    pub advertise: bool,
}

/// One OSPF area.
pub struct Area {
    pub area_id: u32,
    pub addr_range: Vec<AddrRange>,
    pub lsa_database: LsaDb,
    pub short_path_tree: ShortPathTree,
    pub transit_capability: bool,
    pub external_routing_capability: bool,
    pub stub_default_cost: u32,
}

impl Area {
    /// No two configured address ranges name the same (prefix, mask) pair:
    /// the ordered-map shape of the configuration.
    pub open spec fn wf_ranges(self) -> bool {
        forall|i: int, j: int|
            0 <= i < self.addr_range@.len() && 0 <= j < self.addr_range@.len() && i != j ==> !((
            #[trigger] self.addr_range@[i]).addr == (#[trigger] self.addr_range@[j]).addr
                && self.addr_range@[i].mask == self.addr_range@[j].mask)
    }

    /// Well-formedness: the local database is key-unique with consistent
    /// timers and holds no AS-external LSA, and the address ranges are
    /// key-unique.
    pub open spec fn wf(self) -> bool {
        &&& self.lsa_database.wf()
        &&& self.lsa_database.no_as_external()
        &&& self.wf_ranges()
    }

    /// What a lookup of `k` through this area observes: the local database
    /// first; the AS-external database only when this area routes
    /// externally.
    pub open spec fn spec_lookup(self, ext: LsaDb, k: LsaKey) -> Option<(Lsa, LsaTimer)> {
        if self.lsa_database.spec_contains(k) {
            self.lsa_database.spec_get(k)
        } else if self.external_routing_capability {
            ext.spec_get(k)
        } else {
            None
        }
    }

    /// A fresh area with an empty database; external routing capability is
    /// on until configuration turns it off.
    pub fn new(area_id: u32) -> (r: Area)
        ensures
            r.area_id == area_id,
            r.addr_range@.len() == 0,
            r.lsa_database.entries@.len() == 0,
            r.short_path_tree.nodes@.len() == 0,
            r.transit_capability == false,
            r.external_routing_capability == true,
            r.stub_default_cost == 0,
            r.wf(),
            forall|now: u64| r.lsa_database.fresh(now),
    {
        Area {
            area_id,
            addr_range: Vec::new(),
            lsa_database: LsaDb::new(),
            short_path_tree: ShortPathTree::new(),
            transit_capability: false,
            external_routing_capability: true,
            stub_default_cost: 0,
        }
    }

    /// Whether an LSA with key `key` is observable through this area.
    pub fn contains_lsa(&self, ext: &LsaDb, key: LsaKey) -> (r: bool)
        ensures
            r == (self.lsa_database.spec_contains(key) || (self.external_routing_capability
                && ext.spec_contains(key))),
    {
        self.lsa_database.contains_key(&key) || (self.external_routing_capability
            && ext.contains_key(&key))
    }

    /// The LSA observable under `key`, its age updated to the live age at
    /// `now`; the local database takes precedence over the AS-external one.
    pub fn get_lsa(&self, ext: &LsaDb, key: LsaKey, now: u64) -> (r: Option<Lsa>)
        requires
            self.wf(),
            ext.wf(),
            self.lsa_database.fresh(now),
            ext.fresh(now),
        ensures
            match r {
                Some(l) => {
                    &&& self.spec_lookup(*ext, key) is Some
                    &&& l.header == live_header(self.spec_lookup(*ext, key)->Some_0, now)
                    &&& l@.body == self.spec_lookup(*ext, key)->Some_0.0@.body
                },
                None => self.spec_lookup(*ext, key) is None,
            },
    {
        let found: Option<&(Lsa, LsaTimer)> = match self.lsa_database.get(&key) {
            Some(p) => Some(p),
            None => {
                if self.external_routing_capability {
                    ext.get(&key)
                } else {
                    None
                }
            },
        };
        match found {
            Some(p) => {
                let lsa = p.0.duplicate();
                let header = p.1.update_lsa_age_header(lsa.header, now);
                Some(Lsa { header, body: lsa.body })
            },
            None => None,
        }
    }

    /// Every observable header with its live age at `now`: the local
    /// database's summary, followed by the AS-external database's when this
    /// area routes externally. Entries already at `LsaMaxAge` are left out.
    pub fn get_all_lsa(&self, ext: &LsaDb, now: u64) -> (r: Vec<LsaHeader>)
        requires
            self.lsa_database.fresh(now),
            ext.fresh(now),
        ensures
            r@ == spec_headers(self.lsa_database, now) + if self.external_routing_capability {
                spec_headers(*ext, now)
            } else {
                Seq::<LsaHeader>::empty()
            },
    {
        let mut out: Vec<LsaHeader> = Vec::new();
        append_live_headers(&mut out, &self.lsa_database, now);
        if self.external_routing_capability {
            append_live_headers(&mut out, ext, now);
        }
        out
    }

    /// Installs `lsa`, keyed by its header. A reinstallation within
    /// `MinLSArrival` seconds of the stored instance is rejected, as is one
    /// whose stored instance reads as strictly more recent at `now`; a
    /// rejection changes nothing and returns false. Otherwise the LSA
    /// replaces the stored instance (its timer cancelled) under a fresh
    /// timer created at `now`: an AS-external LSA goes to the AS-external
    /// database, every other type to the local one.
    pub fn insert_lsa(&mut self, ext: &mut LsaDb, lsa: Lsa, now: u64) -> (r: bool)
        requires
            old(self).wf(),
            old(ext).wf(),
            old(ext).all_of_type(AS_EXTERNAL_LSA),
            old(self).lsa_database.fresh(now),
            old(ext).fresh(now),
            lsa.header.ls_type == AS_EXTERNAL_LSA ==> old(self).external_routing_capability,
            lsa.header.ls_age <= LsaMaxAge,
            now + LsaMaxAge <= u64::MAX,
        ensures
            final (self).wf(),
            final (ext).wf(),
            final (ext).all_of_type(AS_EXTERNAL_LSA),
            final (self).lsa_database.fresh(now),
            final (ext).fresh(now),
            ({
                let key = lsa.header.spec_key();
                let prev = old(self).spec_lookup(*old(ext), key);
                let nt = LsaTimer {
                    created_at: now,
                    fire_at: (now + (LsaMaxAge - lsa.header.ls_age)) as u64,
                };
                &&& r == !(prev is Some && (now - prev->Some_0.1.created_at < MinLSArrival
                    || spec_header_newer(live_header(prev->Some_0, now), lsa.header)))
                &&& !r ==> *final (self) == *old(self) && *final (ext) == *old(ext)
                &&& r ==> final (self).spec_lookup(*final (ext), key) == Some::<(Lsa, LsaTimer)>(
                    (lsa, nt),
                )
                &&& r ==> spec_cmp_header(
                    live_header((lsa, nt), now),
                    lsa.header,
                ) == 0
                &&& r ==> (prev is Some ==> now - prev->Some_0.1.created_at >= MinLSArrival)
                &&& r && lsa.header.ls_type == AS_EXTERNAL_LSA ==> *final (self) == *old(self)
                    && final (ext).entries@ == (if old(ext).spec_contains(key) {
                    old(ext).entries@.update(old(ext).idx_of(key), (lsa, nt))
                } else {
                    old(ext).entries@.push((lsa, nt))
                })
                &&& r && lsa.header.ls_type != AS_EXTERNAL_LSA ==> *final (ext) == *old(ext)
                    && *final (self) == (Area {
                    lsa_database: final (self).lsa_database,
                    ..*old(self)
                }) && final (self).lsa_database.entries@ == (if old(self).lsa_database.spec_contains(key) {
                    old(self).lsa_database.entries@.update(
                        old(self).lsa_database.idx_of(key),
                        (lsa, nt),
                    )
                } else {
                    old(self).lsa_database.entries@.push((lsa, nt))
                })
                &&& forall|k2: LsaKey|
                    k2 != key ==> final (self).spec_lookup(*final (ext), k2) == old(
                        self,
                    ).spec_lookup(*old(ext), k2)
            }),
    {
        let key = lsa.header.key();
        let mut reject = false;
        let found: Option<&(Lsa, LsaTimer)> = match self.lsa_database.get(&key) {
            Some(p) => Some(p),
            None => {
                if self.external_routing_capability {
                    ext.get(&key)
                } else {
                    None
                }
            },
        };
        match found {
            Some(p) => {
                let elapsed: u64 = now - p.1.get_created();
                if elapsed < MinLSArrival as u64 {
                    reject = true;
                } else {
                    let aged = p.1.update_lsa_age_header(p.0.header, now);
                    if cmp_header(&aged, &lsa.header) > 0 {
                        reject = true;
                    }
                }
            },
            None => {},
        }
        if reject {
            return false;
        }
        let timer = LsaTimer::new(lsa.header.ls_age, now);
        if self.external_routing_capability && key.ls_type == AS_EXTERNAL_LSA {
            ext.insert(lsa, timer);
        } else {
            assert(key.ls_type != AS_EXTERNAL_LSA);
            self.lsa_database.insert(lsa, timer);
        }
        true
    }

    /// Removes the LSA stored under `key`: from the local database if it is
    /// there, otherwise — when this area routes externally — from the
    /// AS-external database. Afterwards no LSA is observable under `key`.
    pub fn remove_lsa(&mut self, ext: &mut LsaDb, key: LsaKey)
        requires
            old(self).wf(),
            old(ext).wf(),
            old(ext).all_of_type(AS_EXTERNAL_LSA),
        ensures
            final (self).wf(),
            final (ext).wf(),
            *final (self) == (Area { lsa_database: final (self).lsa_database, ..*old(self) }),
            final (self).spec_lookup(*final (ext), key) is None,
            forall|k2: LsaKey|
                k2 != key ==> final (self).spec_lookup(*final (ext), k2) == old(self).spec_lookup(
                    *old(ext),
                    k2,
                ),
            forall|k2: LsaKey|
                #[trigger] final (self).lsa_database.spec_contains(k2) == (old(self).lsa_database.spec_contains(k2) && k2 != key),
            forall|k2: LsaKey|
                #[trigger] final (ext).spec_contains(k2) == (old(ext).spec_contains(k2) && !(k2
                    == key && !old(self).lsa_database.spec_contains(key) && old(self).external_routing_capability)),
            forall|now: u64|
                old(self).lsa_database.fresh(now) && old(ext).fresh(now) ==> final (self).lsa_database.fresh(now) && final (ext).fresh(now),
            old(self).lsa_database.no_as_external() ==> final (self).lsa_database.no_as_external(),
            forall|t: u8| old(ext).all_of_type(t) ==> final (ext).all_of_type(t),
            old(self).lsa_database.spec_contains(key) ==> final (self).lsa_database.entries@ == old(
                self,
            ).lsa_database.entries@.remove(old(self).lsa_database.idx_of(key)) && final (
            ext).entries@ == old(ext).entries@,
            !old(self).lsa_database.spec_contains(key) ==> final (self).lsa_database.entries@
                == old(self).lsa_database.entries@ && (if old(self).external_routing_capability
                && old(ext).spec_contains(key) {
                final (ext).entries@ == old(ext).entries@.remove(old(ext).idx_of(key))
            } else {
                final (ext).entries@ == old(ext).entries@
            }),
    {
        let removed = self.lsa_database.remove(&key);
        if !removed && self.external_routing_capability {
            ext.remove(&key);
        }
        proof {
            if removed && self.external_routing_capability && ext.spec_contains(key) {
                let i = ext.idx_of(key);
                assert(ext.key_at(i) == key && ext.all_of_type(AS_EXTERNAL_LSA));
                assert(key.ls_type == AS_EXTERNAL_LSA);
                let j = old(self).lsa_database.idx_of(key);
                assert(old(self).lsa_database.key_at(j) == key);
                assert(old(self).lsa_database.no_as_external());
            }
        }
    }

    /// The refresh action of the LSA stored under `key`, run when its aging
    /// timer fires: the expired instance is removed; an instance this router
    /// itself advertised is then re-originated with the next sequence number
    /// and age zero, re-entering its database under a timer created at
    /// `now` and due again already at `LsRefreshTime` — a self-originated
    /// LSA refreshes every `LsRefreshTime` seconds, not at `LsaMaxAge`. A
    /// foreign instance, or one already at the largest sequence number, is
    /// only removed.
    pub fn refresh_lsa(&mut self, ext: &mut LsaDb, key: LsaKey, my_router_id: u32, now: u64)
        requires
            old(self).wf(),
            old(ext).wf(),
            old(ext).all_of_type(AS_EXTERNAL_LSA),
            old(self).lsa_database.fresh(now),
            old(ext).fresh(now),
            now + LsaMaxAge <= u64::MAX,
        ensures
            final (self).wf(),
            final (ext).wf(),
            final (ext).all_of_type(AS_EXTERNAL_LSA),
            final (self).lsa_database.fresh(now),
            final (ext).fresh(now),
            *final (self) == (Area { lsa_database: final (self).lsa_database, ..*old(self) }),
            forall|k2: LsaKey|
                k2 != key ==> final (self).spec_lookup(*final (ext), k2) == old(self).spec_lookup(
                    *old(ext),
                    k2,
                ),
            ({
                let prev = old(self).spec_lookup(*old(ext), key);
                if prev is Some && prev->Some_0.0.header.advertising_router == my_router_id
                    && prev->Some_0.0.header.ls_sequence_number < MaxSequenceNumber {
                    let cur = final (self).spec_lookup(*final (ext), key);
                    &&& cur is Some
                    &&& cur->Some_0.0@ == (crate::lsa::LsaV {
                        header: LsaHeader {
                            ls_age: 0,
                            ls_sequence_number: (prev->Some_0.0.header.ls_sequence_number
                                + 1) as i32,
                            ..prev->Some_0.0.header
                        },
                        body: prev->Some_0.0@.body,
                    })
                    &&& cur->Some_0.1.created_at == now
                    &&& cur->Some_0.1.fire_at == now + LsRefreshTime
                } else {
                    final (self).spec_lookup(*final (ext), key) is None
                }
            }),
    {
        let found: Option<&(Lsa, LsaTimer)> = match self.lsa_database.get(&key) {
            Some(p) => Some(p),
            None => {
                if self.external_routing_capability {
                    ext.get(&key)
                } else {
                    None
                }
            },
        };
        let stored: Option<Lsa> = match found {
            Some(p) => Some(p.0.duplicate()),
            None => None,
        };
        proof {
            if old(self).lsa_database.spec_contains(key) {
                let j = old(self).lsa_database.idx_of(key);
                assert(old(self).lsa_database.key_at(j) == key);
            } else if old(self).external_routing_capability && old(ext).spec_contains(key) {
                let j = old(ext).idx_of(key);
                assert(old(ext).key_at(j) == key);
            }
        }
        self.remove_lsa(ext, key);
        match stored {
            Some(l) => {
                if l.header.advertising_router == my_router_id && l.header.ls_sequence_number
                    < MaxSequenceNumber {
                    let header = LsaHeader {
                        ls_age: 0,
                        ls_sequence_number: l.header.ls_sequence_number + 1,
                        ..l.header
                    };
                    proof {
                        assert(header.spec_key() == key);
                    }
                    let inserted = self.insert_lsa(ext, Lsa { header, body: l.body }, now);
                    proof {
                        assert(inserted);
                    }
                    if key.ls_type == AS_EXTERNAL_LSA {
                        ext.reschedule(&key, now + LsRefreshTime as u64);
                    } else {
                        proof {
                            assert(self.lsa_database.spec_contains(key));
                        }
                        self.lsa_database.reschedule(&key, now + LsRefreshTime as u64);
                    }
                }
            },
            None => {},
        }
    }
}

/// No AS-external LSA is ever observable in an area's local database: under
/// the area's well-formedness — which every operation establishes and
/// preserves — whatever key the local store answers to is of another type.
pub proof fn lemma_no_as_external_locally(area: Area, k: LsaKey)
    requires
        area.wf(),
        area.lsa_database.spec_contains(k),
    ensures
        k.ls_type != AS_EXTERNAL_LSA,
{
    let i = area.lsa_database.idx_of(k);
    assert(0 <= i < area.lsa_database.entries@.len() && area.lsa_database.key_at(i) == k);
}

/// What an accepted installation leaves observable stays at least as
/// recent as the LSA handed in: read back at any later instant, the live
/// header compares identical or more recent under the ordering of RFC 2328
/// section 13.1, as long as either no more than `MaxAgeDiff` seconds have
/// passed or the live age has already reached `LsaMaxAge`. (Outside that
/// window the ordering itself ranks the aged copy strictly older: equal
/// sequence number and checksum, ages apart by more than `MaxAgeDiff`.)
pub proof fn lemma_inserted_stays_recent(lsa: Lsa, now: u64, later: u64)
    requires
        lsa.header.ls_age <= LsaMaxAge,
        now <= later,
        later - now <= MaxAgeDiff || lsa.header.ls_age + (later - now) >= LsaMaxAge,
    ensures
        spec_cmp_header(
            live_header(
                (
                    lsa,
                    LsaTimer {
                        created_at: now,
                        fire_at: (now + (LsaMaxAge - lsa.header.ls_age)) as u64,
                    },
                ),
                later,
            ),
            lsa.header,
        ) >= 0,
{
}

/// Appends the live header summary of `db` at `now` to `out`.
fn append_live_headers(out: &mut Vec<LsaHeader>, db: &LsaDb, now: u64)
    requires
        db.fresh(now),
    ensures
        final (out)@ == old(out)@ + spec_headers(*db, now),
{
    let ghost f = |i: int| crate::lsdb::live_header_at(*db, i, now);
    let ghost p = |h: LsaHeader| h.ls_age != LsaMaxAge;
    let ghost base = out@;
    let mut i: usize = 0;
    proof {
        reveal(Seq::filter);
        assert(Seq::new(0nat, f).filter(p) =~= Seq::<LsaHeader>::empty());
        assert(out@ =~= base + Seq::new(0nat, f).filter(p));
    }
    while i < db.entries.len()
        invariant
            i <= db.entries@.len(),
            db.fresh(now),
            out@ == base + Seq::new(i as nat, f).filter(p),
            f == (|j: int| crate::lsdb::live_header_at(*db, j, now)),
            p == (|h: LsaHeader| h.ls_age != LsaMaxAge),
        decreases db.entries@.len() - i,
    {
        let e = &db.entries[i];
        let h = e.1.update_lsa_age_header(e.0.header, now);
        proof {
            reveal(Seq::filter);
            let s1 = Seq::new((i + 1) as nat, f);
            assert(s1.drop_last() =~= Seq::new(i as nat, f));
            assert(s1.last() == f(i as int));
            assert(h == f(i as int));
            if p(h) {
                assert(s1.filter(p) == Seq::new(i as nat, f).filter(p).push(h));
            } else {
                assert(s1.filter(p) == Seq::new(i as nat, f).filter(p));
            }
        }
        if h.ls_age != LsaMaxAge {
            out.push(h);
        }
        i = i + 1;
    }
    proof {
        assert(Seq::new(db.entries@.len(), f) =~= Seq::new(i as nat, f));
        assert(spec_headers(*db, now) == Seq::new(db.entries@.len(), f).filter(p));
    }
}

} // verus!
