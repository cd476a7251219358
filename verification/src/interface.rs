//! Per-interface state: the interface finite state machine of RFC 2328
//! section 9, DR/BDR election (section 9.4), and Hello processing, which
//! drives the neighbor machines.

use vstd::prelude::*;

use crate::neighbor::{spec_clears_lists, spec_next_state, DdSummary, Neighbor, NeighborEvent, NeighborState, INITIAL_DD_SEQ};

verus! {

/// The network types an interface can attach to.
#[derive(Clone, Copy, PartialEq, Eq, Structural, Debug)]
pub enum NetType {
    P2P,
    Broadcast,
    NBMA,
    P2MP,
    Virtual,
}

/// Interface states (RFC 2328 section 9.1).
#[derive(Clone, Copy, PartialEq, Eq, Structural, Debug)]
pub enum InterfaceState {
    Down,
    Loopback,
    Waiting,
    PointToPoint,
    DR,
    Backup,
    DROther,
}

/// Events of the interface state machine.
#[derive(Clone, Copy, PartialEq, Eq, Structural, Debug)]
pub enum InterfaceEvent {
    InterfaceUp,
    WaitTimer,
    BackupSeen,
    NeighborChange,
    InterfaceDown,
}

/// One participant of a DR/BDR election: its interface address, router-id,
/// priority, and the DR and BDR it declares.
#[derive(Clone, Copy, PartialEq, Eq, Structural, Debug)]
pub struct Candidate {
    pub ip: u32,
    pub router_id: u32,
    pub priority: u8,
    pub dr: u32,
    pub bdr: u32,
}

/// Whether candidate `a` outranks `b`: higher priority, ties broken by the
/// higher router-id.
pub open spec fn outranks(a: Candidate, b: Candidate) -> bool {
    a.priority > b.priority || (a.priority == b.priority && a.router_id > b.router_id)
}

/// The best candidate of a list, `outranks` deciding, earlier entries
/// winning exact ties.
pub open spec fn spec_best(s: Seq<Candidate>) -> Option<Candidate>
    decreases s.len(),
{
    if s.len() == 0 {
        None
    } else {
        match spec_best(s.drop_last()) {
            None => Some(s.last()),
            Some(b) => if outranks(s.last(), b) {
                Some(s.last())
            } else {
                Some(b)
            },
        }
    }
}

/// The Backup Designated Router an election over `s` settles on: the best
/// candidate declaring itself BDR but not DR; failing one, the best
/// candidate not declaring itself DR; failing all, `0`.
pub open spec fn spec_bdr(s: Seq<Candidate>) -> u32 {
    match spec_best(s.filter(|c: Candidate| c.dr != c.ip && c.bdr == c.ip)) {
        Some(c) => c.ip,
        None => match spec_best(s.filter(|c: Candidate| c.dr != c.ip)) {
            Some(c) => c.ip,
            None => 0,
        },
    }
}

/// The Designated Router an election over `s` settles on: the best
/// candidate declaring itself DR; failing one, the elected BDR is promoted.
pub open spec fn spec_dr(s: Seq<Candidate>) -> u32 {
    match spec_best(s.filter(|c: Candidate| c.dr == c.ip)) {
        Some(c) => c.ip,
        None => spec_bdr(s),
    }
}

/// The `(dr, bdr)` pair an election over `s` settles on.
pub open spec fn spec_election(s: Seq<Candidate>) -> (u32, u32) {
    (spec_dr(s), spec_bdr(s))
}

/// DR/BDR election is deterministic, hence idempotent: two runs over the
/// same candidate list settle on the same DR and the same BDR.
pub proof fn lemma_election_deterministic(s1: Seq<Candidate>, s2: Seq<Candidate>)
    requires
        s1 == s2,
    ensures
        spec_election(s1) == spec_election(s2),
{
}

/// Best candidate of `v` among those `keep` admits, `outranks` deciding.
fn best_where(v: &Vec<Candidate>, keep: u8) -> (r: Option<Candidate>)
    requires
        keep == 0 || keep == 1 || keep == 2,
    ensures
        r == spec_best(v@.filter(spec_keep(keep))),
{
    let ghost p = spec_keep(keep);
    let mut best: Option<Candidate> = None;
    let mut i: usize = 0;
    proof {
        reveal(Seq::filter);
        assert(v@.take(0).filter(p) =~= Seq::<Candidate>::empty());
    }
    while i < v.len()
        invariant
            i <= v@.len(),
            keep == 0 || keep == 1 || keep == 2,
            p == spec_keep(keep),
            best == spec_best(v@.take(i as int).filter(p)),
        decreases v@.len() - i,
    {
        let c = v[i];
        let admitted = match keep {
            0 => c.dr != c.ip && c.bdr == c.ip,
            1 => c.dr != c.ip,
            _ => c.dr == c.ip,
        };
        proof {
            reveal(Seq::filter);
            let s1 = v@.take(i + 1);
            assert(s1.drop_last() =~= v@.take(i as int));
            assert(s1.last() == c);
            if p(c) {
                assert(s1.filter(p) == v@.take(i as int).filter(p).push(c));
                assert(s1.filter(p).drop_last() =~= v@.take(i as int).filter(p));
                assert(s1.filter(p).last() == c);
            } else {
                assert(s1.filter(p) == v@.take(i as int).filter(p));
            }
        }
        if admitted {
            best = match best {
                None => Some(c),
                Some(b) => {
                    if c.priority > b.priority || (c.priority == b.priority && c.router_id
                        > b.router_id) {
                        Some(c)
                    } else {
                        Some(b)
                    }
                },
            };
        }
        i = i + 1;
    }
    proof {
        assert(v@.take(v@.len() as int) =~= v@);
    }
    best
}

/// The admission predicates of `best_where`: candidates declaring
/// themselves BDR but not DR, candidates not declaring themselves DR,
/// candidates declaring themselves DR.
pub open spec fn spec_keep(keep: u8) -> spec_fn(Candidate) -> bool {
    if keep == 0 {
        |c: Candidate| c.dr != c.ip && c.bdr == c.ip
    } else if keep == 1 {
        |c: Candidate| c.dr != c.ip
    } else {
        |c: Candidate| c.dr == c.ip
    }
}

/// Runs one DR/BDR election over `candidates` (RFC 2328 section 9.4): the
/// BDR is the best candidate declaring itself BDR and not DR, else the best
/// not declaring itself DR; the DR is the best declaring itself DR, else
/// the BDR is promoted.
pub fn elect(candidates: &Vec<Candidate>) -> (r: (u32, u32))
    ensures
        r == spec_election(candidates@),
{
    let bdr: u32 = match best_where(candidates, 0) {
        Some(c) => c.ip,
        None => match best_where(candidates, 1) {
            Some(c) => c.ip,
            None => 0,
        },
    };
    let dr: u32 = match best_where(candidates, 2) {
        Some(c) => c.ip,
        None => bdr,
    };
    (dr, bdr)
}

/// The fields of a received Hello packet the state machines read.
pub struct HelloPacket {
    pub router_id: u32,
    pub priority: u8,
    pub dr: u32,
    pub bdr: u32,
    /// Router-ids the sender has heard from recently.
    pub neighbors: Vec<u32>,
}

/// One attachment of this router to a network.
pub struct Interface {
    pub interface_name: String,
    pub net_type: NetType,
    pub state: InterfaceState,
    pub ip_addr: u32,
    pub ip_mask: u32,
    pub area_id: u32,
    pub hello_interval: u16,
    pub dead_interval: u32,
    pub inf_trans_delay: u16,
    pub router_priority: u8,
    pub external_routing: bool,
    /// Whether the Hello timer is scheduled.
    pub hello_timer: bool,
    /// Whether the Wait timer is scheduled.
    pub wait_timer: bool,
    /// Whether the retransmission timer is scheduled.
    pub retransmission_timer: bool,
    /// Neighbors seen on this network, keyed by their interface address
    /// (by their router-id on point-to-point and virtual links).
    pub neighbors: Vec<Neighbor>,
    pub dr: u32,
    pub bdr: u32,
    pub cost: u16,
    pub rxmt_interval: u16,
    pub au_type: u16,
    pub au_key: u64,
}

impl Interface {
    /// Whether some neighbor is keyed by `ip`.
    pub open spec fn nbr_contains(self, ip: u32) -> bool {
        exists|i: int| 0 <= i < self.neighbors@.len() && self.neighbors@[i].ip == ip
    }

    /// Position of the neighbor keyed by `ip` (meaningful when one exists).
    pub open spec fn nbr_idx(self, ip: u32) -> int {
        choose|i: int| 0 <= i < self.neighbors@.len() && self.neighbors@[i].ip == ip
    }

    /// Well-formedness: no two neighbors share a key.
    pub open spec fn wf_nbrs(self) -> bool {
        forall|i: int, j: int|
            0 <= i < self.neighbors@.len() && 0 <= j < self.neighbors@.len() && i != j
                ==> self.neighbors@[i].ip != self.neighbors@[j].ip
    }

    /// A fresh interface on network `ip_addr`/`ip_mask` in area `area_id`,
    /// down, with the protocol's default timers and priorities.
    pub fn new(area_id: u32, interface_name: String, ip_addr: u32, ip_mask: u32) -> (r: Interface)
        ensures
            r.interface_name@ == interface_name@,
            r.net_type == NetType::Broadcast,
            r.state == InterfaceState::Down,
            r.ip_addr == ip_addr,
            r.ip_mask == ip_mask,
            r.area_id == area_id,
            r.hello_interval == 10,
            r.dead_interval == 40,
            r.inf_trans_delay == 1,
            r.router_priority == 1,
            r.external_routing == true,
            !r.hello_timer && !r.wait_timer && !r.retransmission_timer,
            r.neighbors@.len() == 0,
            r.dr == 0 && r.bdr == 0,
            r.cost == 1,
            r.rxmt_interval == 4,
            r.au_type == 0 && r.au_key == 0,
            r.wf_nbrs(),
    {
        Interface {
            interface_name,
            net_type: NetType::Broadcast,
            state: InterfaceState::Down,
            ip_addr,
            ip_mask,
            area_id,
            hello_interval: 10,
            dead_interval: 40,
            inf_trans_delay: 1,
            router_priority: 1,
            external_routing: true,
            hello_timer: false,
            wait_timer: false,
            retransmission_timer: false,
            neighbors: Vec::new(),
            dr: 0,
            bdr: 0,
            cost: 1,
            rxmt_interval: 4,
            au_type: 0,
            au_key: 0,
        }
    }

    /// Whether this router is the DR on this network.
    pub fn is_dr(&self) -> (r: bool)
        ensures
            r == (self.dr == self.ip_addr),
    {
        self.dr == self.ip_addr
    }

    /// Whether this router is the BDR on this network.
    pub fn is_bdr(&self) -> (r: bool)
        ensures
            r == (self.bdr == self.ip_addr),
    {
        self.bdr == self.ip_addr
    }

    /// Whether this router is neither DR nor BDR on this network.
    pub fn is_drother(&self) -> (r: bool)
        ensures
            r == (self.dr != self.ip_addr && self.bdr != self.ip_addr),
    {
        !self.is_dr() && !self.is_bdr()
    }

    /// Tears the interface's dynamic state down: the three timers are
    /// cancelled, the neighbors dropped, DR, BDR and cost cleared.
    pub fn reset(&mut self)
        ensures
            *final (self) == (Interface {
                hello_timer: false,
                wait_timer: false,
                retransmission_timer: false,
                neighbors: final (self).neighbors,
                dr: 0,
                bdr: 0,
                cost: 0,
                ..*old(self)
            }),
            final (self).neighbors@.len() == 0,
    {
        self.hello_timer = false;
        self.wait_timer = false;
        self.retransmission_timer = false;
        self.neighbors = Vec::new();
        self.dr = 0;
        self.bdr = 0;
        self.cost = 0;
    }

    /// Drops every neighbor whose conversation is down.
    pub fn shrink_neighbors(&mut self)
        ensures
            *final (self) == (Interface { neighbors: final (self).neighbors, ..*old(self) }),
            final (self).neighbors@ == old(self).neighbors@.filter(
                |n: Neighbor| n.state != NeighborState::Down,
            ),
    {
        let ghost p = |n: Neighbor| n.state != NeighborState::Down;
        let ghost orig = self.neighbors@;
        let mut i: usize = 0;
        let ghost j: int = 0;
        proof {
            reveal(Seq::filter);
            assert(orig.take(0).filter(p) =~= Seq::<Neighbor>::empty());
            assert(self.neighbors@ =~= orig.take(0).filter(p) + orig.skip(0));
        }
        while i < self.neighbors.len()
            invariant
                0 <= j <= orig.len(),
                i == orig.take(j).filter(p).len(),
                self.neighbors@ == orig.take(j).filter(p) + orig.skip(j),
                *self == (Interface { neighbors: self.neighbors, ..*old(self) }),
                p == (|n: Neighbor| n.state != NeighborState::Down),
            decreases orig.len() - j,
        {
            proof {
                reveal(Seq::filter);
                let s1 = orig.take(j + 1);
                assert(s1.drop_last() =~= orig.take(j));
                assert(s1.last() == orig[j]);
                assert(self.neighbors@[i as int] == orig[j]);
            }
            let down = matches!(self.neighbors[i].state, NeighborState::Down);
            if down {
                self.neighbors.remove(i);
                proof {
                    assert(self.neighbors@ =~= orig.take(j + 1).filter(p) + orig.skip(j + 1));
                }
            } else {
                i = i + 1;
                proof {
                    assert(orig.take(j + 1).filter(p) =~= orig.take(j).filter(p).push(orig[j]));
                    assert(self.neighbors@ =~= orig.take(j + 1).filter(p) + orig.skip(j + 1));
                }
            }
            proof {
                j = j + 1;
            }
        }
        proof {
            assert(orig.take(orig.len() as int) =~= orig);
            assert(orig.skip(orig.len() as int) =~= Seq::<Neighbor>::empty());
            assert(self.neighbors@ =~= orig.filter(p));
        }
    }

    /// Position of the neighbor keyed by `ip`, if any.
    pub fn find_neighbor(&self, ip: u32) -> (r: Option<usize>)
        ensures
            match r {
                Some(i) => i < self.neighbors@.len() && self.neighbors@[i as int].ip == ip
                    && self.nbr_contains(ip),
                None => !self.nbr_contains(ip),
            },
    {
        let mut i: usize = 0;
        while i < self.neighbors.len()
            invariant
                i <= self.neighbors@.len(),
                forall|j: int| 0 <= j < i ==> self.neighbors@[j].ip != ip,
            decreases self.neighbors@.len() - i,
        {
            if self.neighbors[i].ip == ip {
                return Some(i);
            }
            i = i + 1;
        }
        None
    }

    /// The candidate this router itself enters an election with.
    pub open spec fn spec_self_candidate(self, my_router_id: u32) -> Candidate {
        Candidate {
            ip: self.ip_addr,
            router_id: my_router_id,
            priority: self.router_priority,
            dr: self.dr,
            bdr: self.bdr,
        }
    }

    /// The eligible candidates of an election on this interface: this
    /// router when its priority allows, and every neighbor whose
    /// conversation reached two-way contact and whose priority allows.
    pub open spec fn spec_candidates(self, my_router_id: u32) -> Seq<Candidate> {
        let nbrs = self.neighbors@.filter(
            |n: Neighbor| n.state.rank() >= NeighborState::TwoWay.rank() && n.priority > 0,
        ).map_values(
            |n: Neighbor| Candidate {
                ip: n.ip,
                router_id: n.router_id,
                priority: n.priority,
                dr: n.dr,
                bdr: n.bdr,
            },
        );
        if self.router_priority > 0 {
            seq![self.spec_self_candidate(my_router_id)] + nbrs
        } else {
            nbrs
        }
    }

    /// The eligible candidates of an election on this interface.
    fn gather_candidates(&self, my_router_id: u32) -> (r: Vec<Candidate>)
        ensures
            r@ == self.spec_candidates(my_router_id),
    {
        let ghost p = |n: Neighbor| n.state.rank() >= NeighborState::TwoWay.rank() && n.priority
            > 0;
        let ghost f = |n: Neighbor| Candidate {
            ip: n.ip,
            router_id: n.router_id,
            priority: n.priority,
            dr: n.dr,
            bdr: n.bdr,
        };
        let mut r: Vec<Candidate> = Vec::new();
        if self.router_priority > 0 {
            r.push(
                Candidate {
                    ip: self.ip_addr,
                    router_id: my_router_id,
                    priority: self.router_priority,
                    dr: self.dr,
                    bdr: self.bdr,
                },
            );
        }
        let ghost base = r@;
        let mut i: usize = 0;
        proof {
            reveal(Seq::filter);
            assert(self.neighbors@.take(0).filter(p) =~= Seq::<Neighbor>::empty());
            assert(r@ =~= base + self.neighbors@.take(0).filter(p).map_values(f));
        }
        while i < self.neighbors.len()
            invariant
                i <= self.neighbors@.len(),
                r@ == base + self.neighbors@.take(i as int).filter(p).map_values(f),
                p == (|n: Neighbor| n.state.rank() >= NeighborState::TwoWay.rank() && n.priority
                    > 0),
                f == (|n: Neighbor| Candidate {
                    ip: n.ip,
                    router_id: n.router_id,
                    priority: n.priority,
                    dr: n.dr,
                    bdr: n.bdr,
                }),
            decreases self.neighbors@.len() - i,
        {
            let n = &self.neighbors[i];
            let eligible = matches!(
                n.state,
                NeighborState::TwoWay | NeighborState::ExStart | NeighborState::Exchange
                    | NeighborState::Loading | NeighborState::Full,
            ) && n.priority > 0;
            proof {
                reveal(Seq::filter);
                let s1 = self.neighbors@.take(i + 1);
                assert(s1.drop_last() =~= self.neighbors@.take(i as int));
                assert(s1.last() == self.neighbors@[i as int]);
                if p(self.neighbors@[i as int]) {
                    assert(s1.filter(p) == self.neighbors@.take(i as int).filter(p).push(
                        self.neighbors@[i as int],
                    ));
                    assert(s1.filter(p).map_values(f) =~= self.neighbors@.take(i as int).filter(
                        p,
                    ).map_values(f).push(f(self.neighbors@[i as int])));
                } else {
                    assert(s1.filter(p) == self.neighbors@.take(i as int).filter(p));
                }
            }
            if eligible {
                r.push(
                    Candidate {
                        ip: n.ip,
                        router_id: n.router_id,
                        priority: n.priority,
                        dr: n.dr,
                        bdr: n.bdr,
                    },
                );
            }
            i = i + 1;
        }
        proof {
            assert(self.neighbors@.take(self.neighbors@.len() as int) =~= self.neighbors@);
        }
        r
    }

    /// What two passes of election settle on: the first pass is run with
    /// this router's current declarations, its outcome replaces them, and
    /// the election is run once more (RFC 2328 section 9.4, step 4).
    pub open spec fn spec_election_outcome(self, my_router_id: u32) -> (u32, u32) {
        let first = spec_election(self.spec_candidates(my_router_id));
        spec_election(
            (Interface { dr: first.0, bdr: first.1, ..self }).spec_candidates(my_router_id),
        )
    }

    /// The interface state a settled election puts this interface in.
    pub open spec fn spec_elected_state(self, dr: u32, bdr: u32) -> InterfaceState {
        if dr == self.ip_addr {
            InterfaceState::DR
        } else if bdr == self.ip_addr {
            InterfaceState::Backup
        } else {
            InterfaceState::DROther
        }
    }

    /// Runs DR/BDR election on this interface: one pass with the current
    /// declarations, then — the outcome standing in for this router's
    /// declarations — one more. The interface enters DR, Backup or DROther
    /// as the final outcome names it or not.
    pub fn run_election(&mut self, my_router_id: u32)
        ensures
            *final (self) == (Interface {
                dr: old(self).spec_election_outcome(my_router_id).0,
                bdr: old(self).spec_election_outcome(my_router_id).1,
                state: old(self).spec_elected_state(
                    old(self).spec_election_outcome(my_router_id).0,
                    old(self).spec_election_outcome(my_router_id).1,
                ),
                ..*old(self)
            }),
    {
        let c1 = self.gather_candidates(my_router_id);
        let (dr1, bdr1) = elect(&c1);
        self.dr = dr1;
        self.bdr = bdr1;
        let c2 = self.gather_candidates(my_router_id);
        let (dr2, bdr2) = elect(&c2);
        self.dr = dr2;
        self.bdr = bdr2;
        self.state = if dr2 == self.ip_addr {
            InterfaceState::DR
        } else if bdr2 == self.ip_addr {
            InterfaceState::Backup
        } else {
            InterfaceState::DROther
        };
    }

    /// Drives the interface state machine one step (RFC 2328 section 9.3):
    /// bringing the interface up starts the Hello protocol — straight to
    /// Point-to-Point on such networks, to DROther or Waiting on broadcast
    /// ones; the Wait timer expiring, a BackupSeen or a NeighborChange runs
    /// the election; taking the interface down resets it.
    pub fn handle_event(&mut self, ev: InterfaceEvent, my_router_id: u32)
        ensures
            ev == InterfaceEvent::InterfaceUp && old(self).state == InterfaceState::Down ==> (
            match old(self).net_type {
                NetType::P2P | NetType::P2MP | NetType::Virtual => *final (self) == (Interface {
                    state: InterfaceState::PointToPoint,
                    hello_timer: true,
                    ..*old(self)
                }),
                NetType::Broadcast | NetType::NBMA => if old(self).router_priority == 0 {
                    *final (self) == (Interface {
                        state: InterfaceState::DROther,
                        hello_timer: true,
                        ..*old(self)
                    })
                } else {
                    *final (self) == (Interface {
                        state: InterfaceState::Waiting,
                        hello_timer: true,
                        wait_timer: true,
                        ..*old(self)
                    })
                },
            }),
            ev == InterfaceEvent::InterfaceUp && old(self).state != InterfaceState::Down ==> *final (
            self) == *old(self),
            (ev == InterfaceEvent::WaitTimer || ev == InterfaceEvent::BackupSeen) ==> if old(
                self,
            ).state == InterfaceState::Waiting {
                *final (self) == (Interface {
                    dr: old(self).spec_election_outcome(my_router_id).0,
                    bdr: old(self).spec_election_outcome(my_router_id).1,
                    state: old(self).spec_elected_state(
                        old(self).spec_election_outcome(my_router_id).0,
                        old(self).spec_election_outcome(my_router_id).1,
                    ),
                    wait_timer: false,
                    ..*old(self)
                })
            } else {
                *final (self) == *old(self)
            },
            ev == InterfaceEvent::NeighborChange ==> if old(self).state == InterfaceState::DR || old(
                self,
            ).state == InterfaceState::Backup || old(self).state == InterfaceState::DROther {
                *final (self) == (Interface {
                    dr: old(self).spec_election_outcome(my_router_id).0,
                    bdr: old(self).spec_election_outcome(my_router_id).1,
                    state: old(self).spec_elected_state(
                        old(self).spec_election_outcome(my_router_id).0,
                        old(self).spec_election_outcome(my_router_id).1,
                    ),
                    ..*old(self)
                })
            } else {
                *final (self) == *old(self)
            },
            ev == InterfaceEvent::InterfaceDown ==> *final (self) == (Interface {
                state: InterfaceState::Down,
                hello_timer: false,
                wait_timer: false,
                retransmission_timer: false,
                neighbors: final (self).neighbors,
                dr: 0,
                bdr: 0,
                cost: 0,
                ..*old(self)
            }) && final (self).neighbors@.len() == 0,
    {
        match ev {
            InterfaceEvent::InterfaceUp => {
                if matches!(self.state, InterfaceState::Down) {
                    match self.net_type {
                        NetType::P2P | NetType::P2MP | NetType::Virtual => {
                            self.state = InterfaceState::PointToPoint;
                            self.hello_timer = true;
                        },
                        NetType::Broadcast | NetType::NBMA => {
                            if self.router_priority == 0 {
                                self.state = InterfaceState::DROther;
                                self.hello_timer = true;
                            } else {
                                self.state = InterfaceState::Waiting;
                                self.hello_timer = true;
                                self.wait_timer = true;
                            }
                        },
                    }
                }
            },
            InterfaceEvent::WaitTimer | InterfaceEvent::BackupSeen => {
                if matches!(self.state, InterfaceState::Waiting) {
                    self.wait_timer = false;
                    self.run_election(my_router_id);
                }
            },
            InterfaceEvent::NeighborChange => {
                if matches!(
                    self.state,
                    InterfaceState::DR | InterfaceState::Backup | InterfaceState::DROther,
                ) {
                    self.run_election(my_router_id);
                }
            },
            InterfaceEvent::InterfaceDown => {
                self.reset();
                self.state = InterfaceState::Down;
            },
        }
    }

    /// Where the periodic Hello is sent (RFC 2328 section 9.5): to the
    /// AllSPFRouters group on broadcast, point-to-point and virtual
    /// networks; nowhere collectively on NBMA and point-to-multipoint ones,
    /// where it goes unicast to each neighbor instead.
    pub fn hello_destination(&self) -> (r: Option<u32>)
        ensures
            match self.net_type {
                NetType::Broadcast | NetType::P2P | NetType::Virtual => r == Some(
                    crate::constant::AllSPFRouters,
                ),
                NetType::NBMA | NetType::P2MP => r is None,
            },
    {
        match self.net_type {
            NetType::Broadcast | NetType::P2P | NetType::Virtual => Some(
                crate::constant::AllSPFRouters,
            ),
            NetType::NBMA | NetType::P2MP => None,
        }
    }

    /// The Hello this router offers on this interface: its own priority and
    /// its current DR and BDR declarations, listing the router-id of every
    /// neighbor heard from recently.
    pub fn build_hello(&self, my_router_id: u32) -> (r: HelloPacket)
        ensures
            r.router_id == my_router_id,
            r.priority == self.router_priority,
            r.dr == self.dr,
            r.bdr == self.bdr,
            r.neighbors@ == self.neighbors@.filter(
                |n: Neighbor| n.state != NeighborState::Down,
            ).map_values(|n: Neighbor| n.router_id),
    {
        let ghost p = |n: Neighbor| n.state != NeighborState::Down;
        let ghost f = |n: Neighbor| n.router_id;
        let mut ids: Vec<u32> = Vec::new();
        let mut i: usize = 0;
        proof {
            reveal(Seq::filter);
            assert(self.neighbors@.take(0).filter(p) =~= Seq::<Neighbor>::empty());
            assert(ids@ =~= self.neighbors@.take(0).filter(p).map_values(f));
        }
        while i < self.neighbors.len()
            invariant
                i <= self.neighbors@.len(),
                ids@ == self.neighbors@.take(i as int).filter(p).map_values(f),
                p == (|n: Neighbor| n.state != NeighborState::Down),
                f == (|n: Neighbor| n.router_id),
            decreases self.neighbors@.len() - i,
        {
            let n = &self.neighbors[i];
            proof {
                reveal(Seq::filter);
                let s1 = self.neighbors@.take(i + 1);
                assert(s1.drop_last() =~= self.neighbors@.take(i as int));
                assert(s1.last() == self.neighbors@[i as int]);
                if p(self.neighbors@[i as int]) {
                    assert(s1.filter(p) == self.neighbors@.take(i as int).filter(p).push(
                        self.neighbors@[i as int],
                    ));
                    assert(s1.filter(p).map_values(f) =~= self.neighbors@.take(i as int).filter(
                        p,
                    ).map_values(f).push(f(self.neighbors@[i as int])));
                } else {
                    assert(s1.filter(p) == self.neighbors@.take(i as int).filter(p));
                }
            }
            if !matches!(n.state, NeighborState::Down) {
                ids.push(n.router_id);
            }
            i = i + 1;
        }
        proof {
            assert(self.neighbors@.take(self.neighbors@.len() as int) =~= self.neighbors@);
        }
        HelloPacket {
            router_id: my_router_id,
            priority: self.router_priority,
            dr: self.dr,
            bdr: self.bdr,
            neighbors: ids,
        }
    }

    /// Whether an adjacency should be formed with the neighbor keyed by
    /// `key_ip` (RFC 2328 section 10.4): always on point-to-point,
    /// point-to-multipoint and virtual networks; on others only when the
    /// neighbor or this router is the DR or the BDR.
    pub open spec fn spec_adj_ok(self, key_ip: u32) -> bool {
        match self.net_type {
            NetType::P2P | NetType::P2MP | NetType::Virtual => true,
            NetType::Broadcast | NetType::NBMA => key_ip == self.dr || key_ip == self.bdr
                || self.ip_addr == self.dr || self.ip_addr == self.bdr,
        }
    }

    /// Takes a received Hello into account (RFC 2328 section 10.5). The
    /// sender's neighbor entry — created at first contact — restarts its
    /// inactivity timer, adopts the declared priority, DR and BDR, and
    /// moves: to Init on first contact; on to ExStart or TwoWay when this
    /// router is listed among the sender's neighbors, as the adjacency
    /// decision rules; back to TwoWay when it is not.
    pub fn handle_hello(&mut self, key_ip: u32, hello: &HelloPacket, my_router_id: u32)
        requires
            old(self).wf_nbrs(),
        ensures
            final (self).wf_nbrs(),
            *final (self) == (Interface { neighbors: final (self).neighbors, ..*old(self) }),
            ({
                let existed = old(self).nbr_contains(key_ip);
                let idx = if existed {
                    old(self).nbr_idx(key_ip)
                } else {
                    old(self).neighbors@.len() as int
                };
                let s0 = if existed {
                    old(self).neighbors@[idx].state
                } else {
                    NeighborState::Down
                };
                let listed = hello.neighbors@.contains(my_router_id);
                let s1 = spec_next_state(s0, NeighborEvent::HelloReceived, false, true);
                let s2 = if listed {
                    spec_next_state(
                        s1,
                        NeighborEvent::TwoWayReceived,
                        old(self).spec_adj_ok(key_ip),
                        true,
                    )
                } else {
                    spec_next_state(s1, NeighborEvent::OneWayReceived, false, true)
                };
                &&& final (self).neighbors@.len() == (if existed {
                    old(self).neighbors@.len() as int
                } else {
                    old(self).neighbors@.len() + 1int
                })
                &&& forall|j: int|
                    0 <= j < old(self).neighbors@.len() && j != idx ==> final (self).neighbors@[j]
                        == old(self).neighbors@[j]
                &&& final (self).neighbors@[idx].ip == key_ip
                &&& final (self).neighbors@[idx].state == s2
                &&& final (self).neighbors@[idx].inactivity_timer == true
                &&& final (self).neighbors@[idx].priority == hello.priority
                &&& final (self).neighbors@[idx].dr == hello.dr
                &&& final (self).neighbors@[idx].bdr == hello.bdr
                &&& final (self).neighbors@[idx].router_id == hello.router_id
                &&& ({
                    let n1 = final (self).neighbors@[idx];
                    let m0 = if existed {
                        old(self).neighbors@[idx].master
                    } else {
                        false
                    };
                    let q0 = if existed {
                        old(self).neighbors@[idx].dd_seq
                    } else {
                        0
                    };
                    let ld0 = if existed {
                        old(self).neighbors@[idx].last_dd
                    } else {
                        (DdSummary { init: false, more: false, master: false, dd_seq: 0 })
                    };
                    let clears = if listed {
                        spec_clears_lists(
                            s1,
                            NeighborEvent::TwoWayReceived,
                            old(self).spec_adj_ok(key_ip),
                        )
                    } else {
                        spec_clears_lists(s1, NeighborEvent::OneWayReceived, false)
                    };
                    &&& (s2 == NeighborState::ExStart && s1 != NeighborState::ExStart) ==> (
                    n1.master == true && n1.dd_seq == INITIAL_DD_SEQ)
                    &&& !(s2 == NeighborState::ExStart && s1 != NeighborState::ExStart) ==> (
                    n1.master == m0 && n1.dd_seq == q0)
                    &&& n1.last_dd == ld0
                    &&& clears ==> n1.ls_request_list@.len() == 0 && n1.db_summary_list@.len() == 0
                        && n1.ls_retransmission_list@.len() == 0
                    &&& !clears ==> n1.ls_request_list@ == (if existed {
                        old(self).neighbors@[idx].ls_request_list@
                    } else {
                        Seq::<crate::lsa::LsaHeader>::empty()
                    }) && n1.db_summary_list@ == (if existed {
                        old(self).neighbors@[idx].db_summary_list@
                    } else {
                        Seq::<crate::lsa::LsaHeader>::empty()
                    }) && n1.ls_retransmission_list@ == (if existed {
                        old(self).neighbors@[idx].ls_retransmission_list@
                    } else {
                        Seq::<crate::lsa::LsaKey>::empty()
                    })
                })
            }),
    {
        let idx: usize = match self.find_neighbor(key_ip) {
            Some(i) => {
                proof {
                    let j = old(self).nbr_idx(key_ip);
                    assert(0 <= j < old(self).neighbors@.len() && old(self).neighbors@[j].ip
                        == key_ip);
                    assert(j == i);
                }
                i
            },
            None => {
                let i = self.neighbors.len();
                self.neighbors.push(Neighbor::new(hello.router_id, key_ip, hello.priority));
                i
            },
        };
        let ghost mid = self.neighbors@;
        let mut n = self.neighbors.remove(idx);
        n.handle_event(NeighborEvent::HelloReceived, false);
        n.inactivity_timer = true;
        n.priority = hello.priority;
        n.dr = hello.dr;
        n.bdr = hello.bdr;
        n.router_id = hello.router_id;
        let listed = contains_id(&hello.neighbors, my_router_id);
        if listed {
            let adj_ok = match self.net_type {
                NetType::P2P | NetType::P2MP | NetType::Virtual => true,
                NetType::Broadcast | NetType::NBMA => key_ip == self.dr || key_ip == self.bdr
                    || self.ip_addr == self.dr || self.ip_addr == self.bdr,
            };
            n.handle_event(NeighborEvent::TwoWayReceived, adj_ok);
        } else {
            n.handle_event(NeighborEvent::OneWayReceived, false);
        }
        let ghost nfinal = n;
        self.neighbors.insert(idx, n);
        proof {
            assert(self.neighbors@ =~= mid.update(idx as int, nfinal));
            assert forall|i: int, j: int|
                0 <= i < self.neighbors@.len() && 0 <= j < self.neighbors@.len() && i
                    != j implies self.neighbors@[i].ip != self.neighbors@[j].ip by {
                if old(self).nbr_contains(key_ip) {
                    assert(self.neighbors@[i] == if i == idx {
                        nfinal
                    } else {
                        old(self).neighbors@[i]
                    });
                    assert(self.neighbors@[j] == if j == idx {
                        nfinal
                    } else {
                        old(self).neighbors@[j]
                    });
                } else {
                    assert(forall|m: int|
                        0 <= m < old(self).neighbors@.len() ==> old(self).neighbors@[m].ip
                            != key_ip);
                }
            }
        }
    }
}

/// Whether `id` occurs in `ids`.
fn contains_id(ids: &Vec<u32>, id: u32) -> (r: bool)
    ensures
        r == ids@.contains(id),
{
    let mut i: usize = 0;
    while i < ids.len()
        invariant
            i <= ids@.len(),
            forall|j: int| 0 <= j < i ==> ids@[j] != id,
        decreases ids@.len() - i,
    {
        if ids[i] == id {
            proof {
                assert(ids@[i as int] == id);
            }
            return true;
        }
        i = i + 1;
    }
    false
}

} // verus!
