//! Per-neighbor state: the neighbor finite state machine of RFC 2328
//! section 10, the master/slave negotiation of the database exchange, and
//! the three per-neighbor lists it maintains.

use vstd::prelude::*;

use crate::lsa::{LsaHeader, LsaKey};

verus! {

/// Neighbor conversation states, in ascending order of progress.
#[derive(Clone, Copy, PartialEq, Eq, Structural, Debug)]
pub enum NeighborState {
    Down,
    Attempt,
    Init,
    TwoWay,
    ExStart,
    Exchange,
    Loading,
    Full,
}

impl NeighborState {
    /// Rank of a state on the progress ladder.
    pub open spec fn rank(self) -> int {
        match self {
            NeighborState::Down => 0,
            NeighborState::Attempt => 1,
            NeighborState::Init => 2,
            NeighborState::TwoWay => 3,
            NeighborState::ExStart => 4,
            NeighborState::Exchange => 5,
            NeighborState::Loading => 6,
            NeighborState::Full => 7,
        }
    }
}

/// Events of the neighbor state machine.
#[derive(Clone, Copy, PartialEq, Eq, Structural, Debug)]
pub enum NeighborEvent {
    HelloReceived,
    Start,
    TwoWayReceived,
    NegotiationDone,
    ExchangeDone,
    LoadingDone,
    AdjOk,
    SeqNumberMismatch,
    BadLSReq,
    KillNbr,
    InactivityTimer,
    LLDown,
    OneWayReceived,
}

/// The fields of the last Database Description packet a neighbor sent,
/// kept to recognise duplicates.
#[derive(Clone, Copy, PartialEq, Eq, Structural, Debug, Default)]
pub struct DdSummary {
    pub init: bool,
    pub more: bool,
    pub master: bool,
    pub dd_seq: u32,
}

/// The sequence number this router opens a database exchange with.
pub const INITIAL_DD_SEQ: u32 = 0x1000;

/// One neighboring router seen on an interface.
pub struct Neighbor {
    pub router_id: u32,
    pub ip: u32,
    pub state: NeighborState,
    pub priority: u8,
    /// The Designated Router the neighbor declares in its Hellos.
    pub dr: u32,
    /// The Backup Designated Router the neighbor declares in its Hellos.
    pub bdr: u32,
    pub options: u8,
    /// Whether this router is the master of the database exchange.
    pub master: bool,
    /// Sequence number of the database exchange; the master owns it.
    pub dd_seq: u32,
    pub last_dd: DdSummary,
    /// Headers this router must still request from the neighbor.
    pub ls_request_list: Vec<LsaHeader>,
    /// Headers this router must still describe to the neighbor.
    pub db_summary_list: Vec<LsaHeader>,
    /// LSAs sent to the neighbor and not yet acknowledged.
    pub ls_retransmission_list: Vec<LsaKey>,
    /// Whether the inactivity timer is running.
    pub inactivity_timer: bool,
}

/// Whether a header a neighbor described must be requested from it: this
/// router observes no instance under its key, or the described instance is
/// strictly more recent than the live one stored.
pub open spec fn needs_request(
    area: crate::area::Area,
    ext: crate::lsdb::LsaDb,
    now: u64,
    h: LsaHeader,
) -> bool {
    match area.spec_lookup(ext, h.spec_key()) {
        None => true,
        Some(e) => crate::lsa::spec_header_newer(h, crate::lsdb::live_header(e, now)),
    }
}

/// Whether this router holds a strictly more recent instance than a header
/// a neighbor described: that instance must be summarised to the neighbor.
pub open spec fn holds_newer(
    area: crate::area::Area,
    ext: crate::lsdb::LsaDb,
    now: u64,
    h: LsaHeader,
) -> bool {
    match area.spec_lookup(ext, h.spec_key()) {
        None => false,
        Some(e) => crate::lsa::spec_header_newer(crate::lsdb::live_header(e, now), h),
    }
}

/// The live header of the instance this router holds under a described
/// header's key (meaningful when one is held).
pub open spec fn stored_live_header(
    area: crate::area::Area,
    ext: crate::lsdb::LsaDb,
    now: u64,
    h: LsaHeader,
) -> LsaHeader {
    crate::lsdb::live_header(area.spec_lookup(ext, h.spec_key())->Some_0, now)
}

/// Events that tear the conversation down completely.
pub open spec fn is_kill_event(ev: NeighborEvent) -> bool {
    ev == NeighborEvent::KillNbr || ev == NeighborEvent::InactivityTimer || ev
        == NeighborEvent::LLDown
}

/// The state the neighbor machine moves to on `ev` from `s`. `adj_ok` is
/// the decision whether an adjacency should be formed with this neighbor;
/// `requests_empty` whether the request list is empty when the database
/// exchange completes.
pub open spec fn spec_next_state(
    s: NeighborState,
    ev: NeighborEvent,
    adj_ok: bool,
    requests_empty: bool,
) -> NeighborState {
    match ev {
        NeighborEvent::HelloReceived => if s == NeighborState::Down || s
            == NeighborState::Attempt {
            NeighborState::Init
        } else {
            s
        },
        NeighborEvent::Start => if s == NeighborState::Down {
            NeighborState::Attempt
        } else {
            s
        },
        NeighborEvent::TwoWayReceived => if s == NeighborState::Init {
            if adj_ok {
                NeighborState::ExStart
            } else {
                NeighborState::TwoWay
            }
        } else {
            s
        },
        NeighborEvent::NegotiationDone => if s == NeighborState::ExStart {
            NeighborState::Exchange
        } else {
            s
        },
        NeighborEvent::ExchangeDone => if s == NeighborState::Exchange {
            if requests_empty {
                NeighborState::Full
            } else {
                NeighborState::Loading
            }
        } else {
            s
        },
        NeighborEvent::LoadingDone => if s == NeighborState::Loading {
            NeighborState::Full
        } else {
            s
        },
        NeighborEvent::AdjOk => if s == NeighborState::TwoWay && adj_ok {
            NeighborState::ExStart
        } else if s.rank() > NeighborState::TwoWay.rank() && !adj_ok {
            NeighborState::TwoWay
        } else {
            s
        },
        NeighborEvent::SeqNumberMismatch | NeighborEvent::BadLSReq => if s.rank()
            >= NeighborState::Exchange.rank() {
            NeighborState::ExStart
        } else {
            s
        },
        NeighborEvent::OneWayReceived => if s.rank() >= NeighborState::TwoWay.rank() {
            NeighborState::TwoWay
        } else {
            s
        },
        NeighborEvent::KillNbr | NeighborEvent::InactivityTimer | NeighborEvent::LLDown =>
            NeighborState::Down,
    }
}

/// Whether moving from `s` by `ev` clears the three per-neighbor lists: the
/// adjacency was torn down or wound back.
pub open spec fn spec_clears_lists(
    s: NeighborState,
    ev: NeighborEvent,
    adj_ok: bool,
) -> bool {
    ||| is_kill_event(ev)
    ||| (ev == NeighborEvent::SeqNumberMismatch || ev == NeighborEvent::BadLSReq) && s.rank()
        >= NeighborState::Exchange.rank()
    ||| ev == NeighborEvent::OneWayReceived && s.rank() >= NeighborState::TwoWay.rank()
    ||| ev == NeighborEvent::AdjOk && s.rank() > NeighborState::TwoWay.rank() && !adj_ok
}

impl Neighbor {
    /// A neighbor first heard from, still down.
    pub fn new(router_id: u32, ip: u32, priority: u8) -> (r: Neighbor)
        ensures
            r.router_id == router_id,
            r.ip == ip,
            r.priority == priority,
            r.state == NeighborState::Down,
            r.dr == 0 && r.bdr == 0,
            r.master == false,
            r.dd_seq == 0,
            r.ls_request_list@.len() == 0,
            r.db_summary_list@.len() == 0,
            r.ls_retransmission_list@.len() == 0,
            r.inactivity_timer == false,
            r.last_dd == (DdSummary { init: false, more: false, master: false, dd_seq: 0 }),
            r.options == 0,
    {
        Neighbor {
            router_id,
            ip,
            state: NeighborState::Down,
            priority,
            dr: 0,
            bdr: 0,
            options: 0,
            master: false,
            dd_seq: 0,
            last_dd: DdSummary { init: false, more: false, master: false, dd_seq: 0 },
            ls_request_list: Vec::new(),
            db_summary_list: Vec::new(),
            ls_retransmission_list: Vec::new(),
            inactivity_timer: false,
        }
    }

    /// Drives the state machine one step. The new state follows
    /// `spec_next_state`; a teardown or wind-back clears the three lists;
    /// entering `ExStart` starts a database exchange: this router assumes
    /// mastership and proposes a fresh sequence number.
    pub fn handle_event(&mut self, ev: NeighborEvent, adj_ok: bool)
        ensures
            final (self).state == spec_next_state(
                old(self).state,
                ev,
                adj_ok,
                old(self).ls_request_list@.len() == 0,
            ),
            spec_clears_lists(old(self).state, ev, adj_ok) ==> final (
            self).ls_request_list@.len() == 0 && final (self).db_summary_list@.len() == 0 && final (
            self).ls_retransmission_list@.len() == 0,
            !spec_clears_lists(old(self).state, ev, adj_ok) ==> final (self).ls_request_list == old(
                self,
            ).ls_request_list && final (self).db_summary_list == old(self).db_summary_list
                && final (self).ls_retransmission_list == old(self).ls_retransmission_list,
            final (self).state == NeighborState::ExStart && old(self).state
                != NeighborState::ExStart ==> final (self).master == true && final (self).dd_seq
                == INITIAL_DD_SEQ,
            final (self).state != NeighborState::ExStart || old(self).state
                == NeighborState::ExStart ==> final (self).master == old(self).master && final (
            self).dd_seq == old(self).dd_seq,
            final (self).router_id == old(self).router_id,
            final (self).ip == old(self).ip,
            final (self).priority == old(self).priority,
            final (self).dr == old(self).dr,
            final (self).bdr == old(self).bdr,
            final (self).inactivity_timer == old(self).inactivity_timer,
            final (self).last_dd == old(self).last_dd,
            final (self).options == old(self).options,
    {
        let requests_empty = self.ls_request_list.len() == 0;
        let next = match ev {
            NeighborEvent::HelloReceived => {
                if matches!(self.state, NeighborState::Down | NeighborState::Attempt) {
                    NeighborState::Init
                } else {
                    self.state
                }
            },
            NeighborEvent::Start => {
                if matches!(self.state, NeighborState::Down) {
                    NeighborState::Attempt
                } else {
                    self.state
                }
            },
            NeighborEvent::TwoWayReceived => {
                if matches!(self.state, NeighborState::Init) {
                    if adj_ok {
                        NeighborState::ExStart
                    } else {
                        NeighborState::TwoWay
                    }
                } else {
                    self.state
                }
            },
            NeighborEvent::NegotiationDone => {
                if matches!(self.state, NeighborState::ExStart) {
                    NeighborState::Exchange
                } else {
                    self.state
                }
            },
            NeighborEvent::ExchangeDone => {
                if matches!(self.state, NeighborState::Exchange) {
                    if requests_empty {
                        NeighborState::Full
                    } else {
                        NeighborState::Loading
                    }
                } else {
                    self.state
                }
            },
            NeighborEvent::LoadingDone => {
                if matches!(self.state, NeighborState::Loading) {
                    NeighborState::Full
                } else {
                    self.state
                }
            },
            NeighborEvent::AdjOk => {
                if matches!(self.state, NeighborState::TwoWay) && adj_ok {
                    NeighborState::ExStart
                } else if matches!(
                    self.state,
                    NeighborState::ExStart | NeighborState::Exchange | NeighborState::Loading
                        | NeighborState::Full,
                ) && !adj_ok {
                    NeighborState::TwoWay
                } else {
                    self.state
                }
            },
            NeighborEvent::SeqNumberMismatch | NeighborEvent::BadLSReq => {
                if matches!(
                    self.state,
                    NeighborState::Exchange | NeighborState::Loading | NeighborState::Full,
                ) {
                    NeighborState::ExStart
                } else {
                    self.state
                }
            },
            NeighborEvent::OneWayReceived => {
                if matches!(
                    self.state,
                    NeighborState::TwoWay | NeighborState::ExStart | NeighborState::Exchange
                        | NeighborState::Loading | NeighborState::Full,
                ) {
                    NeighborState::TwoWay
                } else {
                    self.state
                }
            },
            NeighborEvent::KillNbr | NeighborEvent::InactivityTimer | NeighborEvent::LLDown => {
                NeighborState::Down
            },
        };
        let clears = match ev {
            NeighborEvent::KillNbr | NeighborEvent::InactivityTimer | NeighborEvent::LLDown => true,
            NeighborEvent::SeqNumberMismatch | NeighborEvent::BadLSReq => matches!(
                self.state,
                NeighborState::Exchange | NeighborState::Loading | NeighborState::Full,
            ),
            NeighborEvent::OneWayReceived => matches!(
                self.state,
                NeighborState::TwoWay | NeighborState::ExStart | NeighborState::Exchange
                    | NeighborState::Loading | NeighborState::Full,
            ),
            NeighborEvent::AdjOk => matches!(
                self.state,
                NeighborState::ExStart | NeighborState::Exchange | NeighborState::Loading
                    | NeighborState::Full,
            ) && !adj_ok,
            _ => false,
        };
        if clears {
            self.ls_request_list = Vec::new();
            self.db_summary_list = Vec::new();
            self.ls_retransmission_list = Vec::new();
        }
        let entering_exstart = matches!(next, NeighborState::ExStart) && !matches!(
            self.state,
            NeighborState::ExStart,
        );
        if entering_exstart {
            self.master = true;
            self.dd_seq = INITIAL_DD_SEQ;
        }
        self.state = next;
    }

    /// The Database Description packet this router currently offers the
    /// neighbor: the I bit while negotiating, the M bit until the exchange
    /// is over, the MS bit and the sequence number as locally held.
    pub fn build_dd(&self) -> (r: DdSummary)
        ensures
            r.init == (self.state == NeighborState::ExStart),
            r.more == (self.state == NeighborState::ExStart || self.state
                == NeighborState::Exchange),
            r.master == self.master,
            r.dd_seq == self.dd_seq,
    {
        DdSummary {
            init: matches!(self.state, NeighborState::ExStart),
            more: matches!(self.state, NeighborState::ExStart | NeighborState::Exchange),
            master: self.master,
            dd_seq: self.dd_seq,
        }
    }

    /// Master/slave resolution in `ExStart` (RFC 2328 section 10.8), on an
    /// empty Database Description packet from the neighbor carrying the
    /// flags `dd` and `header_count` headers. The router with the higher
    /// router-id becomes master and its sequence number stands; the slave
    /// adopts it. Returns whether negotiation completed, moving to
    /// `Exchange`.
    pub fn handle_dd_exstart(&mut self, my_router_id: u32, dd: DdSummary, header_count: usize) -> (r:
        bool)
        requires
            old(self).state == NeighborState::ExStart,
        ensures
            ({
                let slave_case = dd.init && dd.more && dd.master && header_count == 0 && old(
                    self,
                ).router_id > my_router_id;
                let master_case = !dd.init && !dd.master && dd.dd_seq == old(self).dd_seq
                    && my_router_id > old(self).router_id;
                &&& r == (slave_case || master_case)
                &&& slave_case ==> final (self).master == false && final (self).dd_seq == dd.dd_seq
                &&& !slave_case ==> final (self).master == old(self).master && final (self).dd_seq
                    == old(self).dd_seq
                &&& r ==> final (self).state == NeighborState::Exchange && final (self).last_dd
                    == dd
                &&& !r ==> final (self).state == NeighborState::ExStart && final (self).last_dd
                    == old(self).last_dd
            }),
            final (self).router_id == old(self).router_id && final (self).ip == old(self).ip,
            final (self).ls_request_list == old(self).ls_request_list,
            final (self).db_summary_list == old(self).db_summary_list,
            final (self).ls_retransmission_list == old(self).ls_retransmission_list,
            final (self).priority == old(self).priority,
            final (self).dr == old(self).dr && final (self).bdr == old(self).bdr,
            final (self).options == old(self).options,
            final (self).inactivity_timer == old(self).inactivity_timer,
    {
        if dd.init && dd.more && dd.master && header_count == 0 && self.router_id > my_router_id {
            self.master = false;
            self.dd_seq = dd.dd_seq;
            self.last_dd = dd;
            self.handle_event(NeighborEvent::NegotiationDone, false);
            true
        } else if !dd.init && !dd.master && dd.dd_seq == self.dd_seq && my_router_id
            > self.router_id {
            self.last_dd = dd;
            self.handle_event(NeighborEvent::NegotiationDone, false);
            true
        } else {
            false
        }
    }

    /// Diffs the header list of a received Database Description packet
    /// against what this area observes (RFC 2328 section 10.6): every
    /// header the neighbor holds a more recent instance of — or one this
    /// router lacks — joins the request list; the live header of every
    /// instance this router holds more recently joins the summary list to
    /// be described back. Both in packet order.
    pub fn note_dd_headers(
        &mut self,
        area: &crate::area::Area,
        ext: &crate::lsdb::LsaDb,
        headers: &Vec<LsaHeader>,
        now: u64,
    )
        requires
            area.wf(),
            ext.wf(),
            area.lsa_database.fresh(now),
            ext.fresh(now),
        ensures
            final (self).ls_request_list@ == old(self).ls_request_list@ + headers@.filter(
                |h: LsaHeader| needs_request(*area, *ext, now, h),
            ),
            final (self).db_summary_list@ == old(self).db_summary_list@ + headers@.filter(
                |h: LsaHeader| holds_newer(*area, *ext, now, h),
            ).map_values(|h: LsaHeader| stored_live_header(*area, *ext, now, h)),
            *final (self) == (Neighbor {
                ls_request_list: final (self).ls_request_list,
                db_summary_list: final (self).db_summary_list,
                ..*old(self)
            }),
    {
        let ghost p = |h: LsaHeader| needs_request(*area, *ext, now, h);
        let ghost q = |h: LsaHeader| holds_newer(*area, *ext, now, h);
        let ghost g = |h: LsaHeader| stored_live_header(*area, *ext, now, h);
        let ghost base = self.ls_request_list@;
        let ghost base2 = self.db_summary_list@;
        let mut i: usize = 0;
        proof {
            reveal(Seq::filter);
            assert(headers@.take(0).filter(p) =~= Seq::<LsaHeader>::empty());
            assert(headers@.take(0).filter(q) =~= Seq::<LsaHeader>::empty());
            assert(self.ls_request_list@ =~= base + headers@.take(0).filter(p));
            assert(self.db_summary_list@ =~= base2 + headers@.take(0).filter(q).map_values(g));
        }
        while i < headers.len()
            invariant
                i <= headers@.len(),
                area.wf(),
                ext.wf(),
                area.lsa_database.fresh(now),
                ext.fresh(now),
                self.ls_request_list@ == base + headers@.take(i as int).filter(p),
                self.db_summary_list@ == base2 + headers@.take(i as int).filter(q).map_values(g),
                *self == (Neighbor {
                    ls_request_list: self.ls_request_list,
                    db_summary_list: self.db_summary_list,
                    ..*old(self)
                }),
                p == (|h: LsaHeader| needs_request(*area, *ext, now, h)),
                q == (|h: LsaHeader| holds_newer(*area, *ext, now, h)),
                g == (|h: LsaHeader| stored_live_header(*area, *ext, now, h)),
            decreases headers@.len() - i,
        {
            let h = headers[i];
            let stored = area.get_lsa(ext, h.key(), now);
            let wanted = match &stored {
                None => true,
                Some(l) => crate::lsa::cmp_header(&h, &l.header) > 0,
            };
            proof {
                reveal(Seq::filter);
                let s1 = headers@.take(i + 1);
                assert(s1.drop_last() =~= headers@.take(i as int));
                assert(s1.last() == h);
                assert(wanted == p(h));
                if q(h) {
                    assert(s1.filter(q) == headers@.take(i as int).filter(q).push(h));
                    assert(s1.filter(q).map_values(g) =~= headers@.take(i as int).filter(
                        q,
                    ).map_values(g).push(g(h)));
                } else {
                    assert(s1.filter(q) == headers@.take(i as int).filter(q));
                }
            }
            if wanted {
                self.ls_request_list.push(h);
            }
            match stored {
                Some(l) => {
                    let newer_here = crate::lsa::cmp_header(&l.header, &h) > 0;
                    proof {
                        assert(newer_here == q(h));
                        if newer_here {
                            assert(l.header == g(h));
                        }
                    }
                    if newer_here {
                        self.db_summary_list.push(l.header);
                    }
                },
                None => {
                    proof {
                        assert(!q(h));
                    }
                },
            }
            i = i + 1;
        }
        proof {
            assert(headers@.take(headers@.len() as int) =~= headers@);
        }
    }

    /// Takes a received LS Update or LS Ack for `key` into account: the
    /// matching entries leave the request and retransmission lists.
    pub fn satisfy_lsa(&mut self, key: LsaKey)
        ensures
            final (self).ls_request_list@ == old(self).ls_request_list@.filter(
                |h: LsaHeader| h.spec_key() != key,
            ),
            final (self).ls_retransmission_list@ == old(self).ls_retransmission_list@.filter(
                |k: LsaKey| k != key,
            ),
            final (self).db_summary_list == old(self).db_summary_list,
            final (self).state == old(self).state,
            final (self).router_id == old(self).router_id && final (self).ip == old(self).ip,
            final (self).master == old(self).master && final (self).dd_seq == old(self).dd_seq,
    {
        let ghost p = |h: LsaHeader| h.spec_key() != key;
        let mut kept: Vec<LsaHeader> = Vec::new();
        let mut i: usize = 0;
        proof {
            reveal(Seq::filter);
            assert(self.ls_request_list@.take(0).filter(p) =~= Seq::<LsaHeader>::empty());
            assert(kept@ =~= self.ls_request_list@.take(0).filter(p));
        }
        while i < self.ls_request_list.len()
            invariant
                i <= self.ls_request_list@.len(),
                kept@ == self.ls_request_list@.take(i as int).filter(p),
                p == (|h: LsaHeader| h.spec_key() != key),
            decreases self.ls_request_list@.len() - i,
        {
            let h = self.ls_request_list[i];
            proof {
                reveal(Seq::filter);
                let s1 = self.ls_request_list@.take(i + 1);
                assert(s1.drop_last() =~= self.ls_request_list@.take(i as int));
                assert(s1.last() == h);
            }
            if !(h.ls_type == key.ls_type && h.link_state_id == key.link_state_id
                && h.advertising_router == key.advertising_router) {
                kept.push(h);
            }
            i = i + 1;
        }
        proof {
            assert(self.ls_request_list@.take(self.ls_request_list@.len() as int)
                =~= self.ls_request_list@);
        }
        self.ls_request_list = kept;
        let ghost q = |k: LsaKey| k != key;
        let mut kept2: Vec<LsaKey> = Vec::new();
        let mut j: usize = 0;
        proof {
            reveal(Seq::filter);
            assert(self.ls_retransmission_list@.take(0).filter(q) =~= Seq::<LsaKey>::empty());
            assert(kept2@ =~= self.ls_retransmission_list@.take(0).filter(q));
        }
        while j < self.ls_retransmission_list.len()
            invariant
                j <= self.ls_retransmission_list@.len(),
                kept2@ == self.ls_retransmission_list@.take(j as int).filter(q),
                q == (|k: LsaKey| k != key),
            decreases self.ls_retransmission_list@.len() - j,
        {
            let k = self.ls_retransmission_list[j];
            proof {
                reveal(Seq::filter);
                let s1 = self.ls_retransmission_list@.take(j + 1);
                assert(s1.drop_last() =~= self.ls_retransmission_list@.take(j as int));
                assert(s1.last() == k);
            }
            if !(k.ls_type == key.ls_type && k.link_state_id == key.link_state_id
                && k.advertising_router == key.advertising_router) {
                kept2.push(k);
            }
            j = j + 1;
        }
        proof {
            assert(self.ls_retransmission_list@.take(self.ls_retransmission_list@.len() as int)
                =~= self.ls_retransmission_list@);
        }
        self.ls_retransmission_list = kept2;
    }
}

} // verus!
