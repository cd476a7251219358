//! The routing table built from the per-area shortest-path trees and the
//! AS-external database (RFC 2328 sections 11 and 16), and the helpers that
//! turn a routing item into an installable route.

use vstd::prelude::*;

use crate::area::Area;
use crate::constant::LSInfinity;
use crate::lsa::{Lsa, LsaBody, LsaBodyV, LsaKey, AS_EXTERNAL_LSA, NETWORK_LSA, SUMMARY_ASBR_LSA, SUMMARY_NET_LSA};
use crate::timer::LsaTimer;
use crate::lsdb::LsaDb;
use crate::spt::{ShortPathTree, SptNode, VertexType};

verus! {

/// What a routing item leads to.
#[derive(Clone, Copy, PartialEq, Eq, Structural, Debug)]
pub enum RoutingTableItemType {
    Network,
    Router,
}

/// How a routing item's path was learned, in order of preference.
#[derive(Clone, Copy, PartialEq, Eq, Structural, Debug)]
pub enum RoutingTablePathType {
    AreaInternal,
    AreaExternal,
    AsExternalT1,
    AsExternalT2,
}

impl RoutingTablePathType {
    /// Preference rank: lower is preferred.
    pub open spec fn rank(self) -> int {
        match self {
            RoutingTablePathType::AreaInternal => 0,
            RoutingTablePathType::AreaExternal => 1,
            RoutingTablePathType::AsExternalT1 => 2,
            RoutingTablePathType::AsExternalT2 => 3,
        }
    }

    /// Preference rank: lower is preferred.
    pub fn rank_of(&self) -> (r: u8)
        ensures
            r as int == self.rank(),
    {
        match self {
            RoutingTablePathType::AreaInternal => 0,
            RoutingTablePathType::AreaExternal => 1,
            RoutingTablePathType::AsExternalT1 => 2,
            RoutingTablePathType::AsExternalT2 => 3,
        }
    }
}

/// One destination the router knows a path to.
#[derive(Clone, Copy, PartialEq, Eq, Structural, Debug)]
pub struct RoutingTableItem {
    /// Destination type.
    pub dest_type: RoutingTableItemType,
    /// Destination id (a network number or a router id).
    pub dest_id: u32,
    /// Address mask of the destination network.
    pub addr_mask: u32,
    /// Optional capabilities of a destination router.
    pub external_cap: bool,
    /// Area the path leads through.
    pub area_id: u32,
    /// How the path was learned.
    pub path_type: RoutingTablePathType,
    /// Cost of the path.
    pub cost: u32,
    /// Type 2 cost (AS-external type 2 paths only).
    pub cost_t2: u32,
    /// The LSA the path was derived from.
    pub lsa_origin: LsaKey,
    /// Next hop towards the destination.
    pub next_hop: u32,
    /// Router that advertised the destination.
    pub ad_router: u32,
}

/// Whether path `a` is preferred over path `b` to the same destination
/// (RFC 2328 section 16.4.1): by path type, then by cost, then by type 2
/// cost.
pub open spec fn spec_route_better(a: RoutingTableItem, b: RoutingTableItem) -> bool {
    ||| a.path_type.rank() < b.path_type.rank()
    ||| (a.path_type.rank() == b.path_type.rank() && a.cost < b.cost)
    ||| (a.path_type.rank() == b.path_type.rank() && a.cost == b.cost && a.cost_t2 < b.cost_t2)
}

/// Whether path `a` is preferred over path `b` to the same destination.
pub fn route_better(a: &RoutingTableItem, b: &RoutingTableItem) -> (r: bool)
    ensures
        r == spec_route_better(*a, *b),
{
    let ra = a.path_type.rank_of();
    let rb = b.path_type.rank_of();
    ra < rb || (ra == rb && a.cost < b.cost) || (ra == rb && a.cost == b.cost && a.cost_t2
        < b.cost_t2)
}

/// The preference is a total preorder: what is strictly preferred over a
/// path is strictly preferred over everything that path is at least as
/// preferred as.
pub proof fn lemma_route_pref_trans(a: RoutingTableItem, b: RoutingTableItem, c: RoutingTableItem)
    requires
        !spec_route_better(a, b),
        !spec_route_better(b, c),
    ensures
        !spec_route_better(a, c),
{
}

/// A network prefix: its address and the length of its mask.
#[derive(Clone, Copy, PartialEq, Eq, Structural, Debug, Hash, PartialOrd, Ord)]
pub struct Ipv4AddrMask(pub u32, pub u8);

/// Number of set bits, low bit first.
pub open spec fn spec_ones(m: int) -> int
    decreases m,
{
    if m <= 0 {
        0
    } else {
        m % 2 + spec_ones(m / 2)
    }
}

/// A value below `2^b` has at most `b` set bits.
proof fn lemma_ones_bound(m: int, b: int)
    requires
        b >= 0,
        0 <= m,
        m < vstd::arithmetic::power2::pow2(b as nat),
    ensures
        0 <= spec_ones(m) <= b,
    decreases b,
{
    if b == 0 {
        assert(vstd::arithmetic::power2::pow2(0) == 1) by {
            vstd::arithmetic::power2::lemma2_to64();
        }
        assert(m == 0);
    } else {
        vstd::arithmetic::power2::lemma_pow2_unfold(b as nat);
        assert(vstd::arithmetic::power2::pow2(b as nat) == 2 * vstd::arithmetic::power2::pow2(
            (b - 1) as nat,
        ));
        lemma_ones_bound(m / 2, b - 1);
    }
}

/// Number of set bits of `m`; at most 32.
fn count_ones(m: u32) -> (r: u8)
    ensures
        r as int == spec_ones(m as int),
        r <= 32,
{
    proof {
        assert(vstd::arithmetic::power2::pow2(32) == 0x100000000) by {
            vstd::arithmetic::power2::lemma2_to64();
        }
        lemma_ones_bound(m as int, 32);
    }
    let ghost m0 = m as int;
    let mut rest: u32 = m;
    let mut c: u8 = 0;
    while rest > 0
        invariant
            c as int + spec_ones(rest as int) == spec_ones(m0),
            0 <= spec_ones(rest as int),
            spec_ones(m0) <= 32,
        decreases rest,
    {
        proof {
            assert(vstd::arithmetic::power2::pow2(32) == 0x100000000) by {
                vstd::arithmetic::power2::lemma2_to64();
            }
            lemma_ones_bound(rest as int / 2, 32);
        }
        c = c + ((rest % 2) as u8);
        rest = rest / 2;
    }
    c
}

impl Ipv4AddrMask {
    /// The mask `prefix_len` leading one-bits stand for.
    pub open spec fn spec_mask_of(prefix_len: u8) -> u32 {
        if prefix_len == 0 {
            0u32
        } else if prefix_len >= 32 {
            0xffffffffu32
        } else {
            (0xffffffffu64 << (32 - prefix_len) as u64) as u32
        }
    }

    /// The prefix a network address and its mask name: the address with the
    /// host bits cleared, and the number of set mask bits.
    pub fn from(addr: u32, mask: u32) -> (r: Ipv4AddrMask)
        ensures
            r.0 == addr & mask,
            r.1 as int == spec_ones(mask as int),
            r.1 <= 32,
    {
        Ipv4AddrMask(addr & mask, count_ones(mask))
    }

    /// The mask of this prefix.
    pub fn mask(&self) -> (r: u32)
        ensures
            r == Ipv4AddrMask::spec_mask_of(self.1),
    {
        if self.1 == 0 {
            0
        } else if self.1 >= 32 {
            0xffffffff
        } else {
            let shift: u64 = (32 - self.1) as u64;
            #[verifier::truncate] ((0xffffffffu64 << shift) as u32)
        }
    }

    /// The network address of this prefix.
    pub fn network(&self) -> (r: u32)
        ensures
            r == self.0 & Ipv4AddrMask::spec_mask_of(self.1),
    {
        self.0 & self.mask()
    }
}

/// Whether `t` settled a router vertex for `adv`.
pub open spec fn spt_settled_router(t: ShortPathTree, adv: u32) -> bool {
    exists|i: int|
        0 <= i < t.nodes@.len() && (#[trigger] t.nodes@[i]).vtype == VertexType::Router
            && t.nodes@[i].id == adv
}

/// Position of the settled router vertex for `adv` (meaningful when
/// settled; unique when the tree's vertices are distinct).
pub open spec fn spt_router_idx(t: ShortPathTree, adv: u32) -> int {
    choose|i: int|
        0 <= i < t.nodes@.len() && (#[trigger] t.nodes@[i]).vtype == VertexType::Router
            && t.nodes@[i].id == adv
}

/// The next hop towards a destination advertised by `adv`: the forwarding
/// address when one is named, else the first recorded next hop towards the
/// advertising router, else unspecified.
pub open spec fn spec_next_hop_via(t: ShortPathTree, adv: u32, fwd: u32) -> u32 {
    let n = t.nodes@[spt_router_idx(t, adv)];
    if fwd != 0 {
        fwd
    } else if n.nexthops@.len() > 0 {
        n.nexthops@[0]
    } else {
        0
    }
}

/// Whether entry `li` of `db` is an AS-external LSA, header and body.
pub open spec fn is_external_entry(db: LsaDb, li: int) -> bool {
    db.entries@[li].0.header.ls_type == AS_EXTERNAL_LSA && db.entries@[li].0.body@ is AsExternal
}

/// The routing item an AS-external LSA yields over `area`'s tree (RFC 2328
/// section 16.4): a type 1 metric adds to the cost to the ASBR, a type 2
/// metric is carried beside that cost.
pub open spec fn spec_external_item(area: Area, lsa: Lsa) -> RoutingTableItem {
    match lsa.body@ {
        LsaBodyV::AsExternal { network_mask, e2, metric, forwarding_address } => {
            let d = area.short_path_tree.nodes@[spt_router_idx(
                area.short_path_tree,
                lsa.header.advertising_router,
            )].dist;
            RoutingTableItem {
                dest_type: RoutingTableItemType::Network,
                dest_id: lsa.header.link_state_id & network_mask,
                addr_mask: network_mask,
                external_cap: true,
                area_id: area.area_id,
                path_type: if e2 {
                    RoutingTablePathType::AsExternalT2
                } else {
                    RoutingTablePathType::AsExternalT1
                },
                cost: if e2 {
                    d
                } else if d + metric <= LSInfinity {
                    (d + metric) as u32
                } else {
                    LSInfinity
                },
                cost_t2: if e2 {
                    metric
                } else {
                    0
                },
                lsa_origin: lsa.header.spec_key(),
                next_hop: spec_next_hop_via(
                    area.short_path_tree,
                    lsa.header.advertising_router,
                    forwarding_address,
                ),
                ad_router: lsa.header.advertising_router,
            }
        },
        _ => vstd::pervasive::arbitrary(),
    }
}

/// Whether entry `li` of `db` is a Summary-LSA, header and body.
pub open spec fn is_summary_entry(db: LsaDb, li: int) -> bool {
    ||| db.entries@[li].0.header.ls_type == SUMMARY_NET_LSA && db.entries@[li].0.body@
        is SummaryNetwork
    ||| db.entries@[li].0.header.ls_type == SUMMARY_ASBR_LSA && db.entries@[li].0.body@
        is SummaryAsbr
}

/// The inter-area routing item a Summary-LSA of the backbone yields (RFC
/// 2328 section 16.2): the summary metric adds to the cost to the border
/// router advertising it.
pub open spec fn spec_summary_item(area: Area, lsa: Lsa) -> RoutingTableItem {
    let d = area.short_path_tree.nodes@[spt_router_idx(
        area.short_path_tree,
        lsa.header.advertising_router,
    )].dist;
    let nh = spec_next_hop_via(area.short_path_tree, lsa.header.advertising_router, 0);
    match lsa.body@ {
        LsaBodyV::SummaryNetwork { network_mask, metric } => RoutingTableItem {
            dest_type: RoutingTableItemType::Network,
            dest_id: lsa.header.link_state_id & network_mask,
            addr_mask: network_mask,
            external_cap: area.external_routing_capability,
            area_id: area.area_id,
            path_type: RoutingTablePathType::AreaExternal,
            cost: if d + metric <= LSInfinity {
                (d + metric) as u32
            } else {
                LSInfinity
            },
            cost_t2: 0,
            lsa_origin: lsa.header.spec_key(),
            next_hop: nh,
            ad_router: lsa.header.advertising_router,
        },
        LsaBodyV::SummaryAsbr { network_mask, metric } => RoutingTableItem {
            dest_type: RoutingTableItemType::Router,
            dest_id: lsa.header.link_state_id,
            addr_mask: network_mask,
            external_cap: area.external_routing_capability,
            area_id: area.area_id,
            path_type: RoutingTablePathType::AreaExternal,
            cost: if d + metric <= LSInfinity {
                (d + metric) as u32
            } else {
                LSInfinity
            },
            cost_t2: 0,
            lsa_origin: lsa.header.spec_key(),
            next_hop: nh,
            ad_router: lsa.header.advertising_router,
        },
        _ => vstd::pervasive::arbitrary(),
    }
}

/// Position of the area whose tree arbitrates inter-area and external
/// costs: the first backbone area, or the first area where no backbone is
/// configured.
pub open spec fn spec_arbiter_idx(areas: Seq<Area>) -> int {
    if exists|b: int|
        0 <= b < areas.len() && (#[trigger] areas[b]).area_id == crate::constant::BackboneArea {
        choose|b: int|
            0 <= b < areas.len() && (#[trigger] areas[b]).area_id == crate::constant::BackboneArea
                && (forall|x: int|
                0 <= x < b ==> (#[trigger] areas[x]).area_id != crate::constant::BackboneArea)
    } else {
        0
    }
}

/// The routing table: at most one item per `(destination, mask)` pair.
pub struct RoutingTable {
    pub table: Vec<RoutingTableItem>,
}

impl RoutingTable {
    /// Whether some item leads to `(dest_id, addr_mask)`.
    pub open spec fn spec_contains(self, dest_id: u32, addr_mask: u32) -> bool {
        exists|i: int|
            0 <= i < self.table@.len() && (#[trigger] self.table@[i]).dest_id == dest_id
                && self.table@[i].addr_mask == addr_mask
    }

    /// Position of the item leading to `(dest_id, addr_mask)` (meaningful
    /// when one exists).
    pub open spec fn idx_of_key(self, dest_id: u32, addr_mask: u32) -> int {
        choose|i: int|
            0 <= i < self.table@.len() && (#[trigger] self.table@[i]).dest_id == dest_id
                && self.table@[i].addr_mask == addr_mask
    }

    /// The item leading to `(dest_id, addr_mask)`, if any.
    pub open spec fn spec_find(self, dest_id: u32, addr_mask: u32) -> Option<RoutingTableItem> {
        if self.spec_contains(dest_id, addr_mask) {
            Some(self.table@[self.idx_of_key(dest_id, addr_mask)])
        } else {
            None
        }
    }

    /// No two items lead to the same `(destination, mask)` pair.
    pub open spec fn wf(self) -> bool {
        forall|i: int, j: int|
            0 <= i < self.table@.len() && 0 <= j < self.table@.len() && i != j ==> !((
            #[trigger] self.table@[i]).dest_id == (#[trigger] self.table@[j]).dest_id
                && self.table@[i].addr_mask == self.table@[j].addr_mask)
    }

    /// An empty routing table.
    pub fn new() -> (r: RoutingTable)
        ensures
            r.table@.len() == 0,
            r.wf(),
    {
        RoutingTable { table: Vec::new() }
    }

    /// Position of the item leading to `(dest_id, addr_mask)`, if any.
    pub fn find(&self, dest_id: u32, addr_mask: u32) -> (r: Option<usize>)
        ensures
            match r {
                Some(i) => i < self.table@.len() && self.table@[i as int].dest_id == dest_id
                    && self.table@[i as int].addr_mask == addr_mask,
                None => !self.spec_contains(dest_id, addr_mask),
            },
    {
        let mut i: usize = 0;
        while i < self.table.len()
            invariant
                i <= self.table@.len(),
                forall|j: int|
                    0 <= j < i ==> !((#[trigger] self.table@[j]).dest_id == dest_id
                        && self.table@[j].addr_mask == addr_mask),
            decreases self.table@.len() - i,
        {
            if self.table[i].dest_id == dest_id && self.table[i].addr_mask == addr_mask {
                return Some(i);
            }
            i = i + 1;
        }
        None
    }

    /// Stores `item` under its destination, displacing the item that led
    /// there, if any. Every other destination's item is untouched.
    pub fn upsert(&mut self, item: RoutingTableItem)
        requires
            old(self).wf(),
        ensures
            final (self).wf(),
            final (self).spec_find(item.dest_id, item.addr_mask) == Some(item),
            forall|d: u32, m: u32|
                !(d == item.dest_id && m == item.addr_mask) ==> #[trigger] final (self).spec_find(
                    d,
                    m,
                ) == old(self).spec_find(d, m),
    {
        match self.find(item.dest_id, item.addr_mask) {
            Some(i) => {
                proof {
                    let j = old(self).idx_of_key(item.dest_id, item.addr_mask);
                    assert(0 <= j < old(self).table@.len() && old(self).table@[j].dest_id
                        == item.dest_id && old(self).table@[j].addr_mask == item.addr_mask);
                    assert(j == i);
                }
                self.table.set(i, item);
                proof {
                    assert(self.table@[i as int] == item);
                    assert forall|a: int, b: int|
                        0 <= a < self.table@.len() && 0 <= b < self.table@.len() && a
                            != b implies !((#[trigger] self.table@[a]).dest_id == (
                    #[trigger] self.table@[b]).dest_id && self.table@[a].addr_mask
                        == self.table@[b].addr_mask) by {
                        assert(self.table@[a] == if a == i as int {
                            item
                        } else {
                            old(self).table@[a]
                        });
                        assert(self.table@[b] == if b == i as int {
                            item
                        } else {
                            old(self).table@[b]
                        });
                        assert(old(self).table@[i as int].dest_id == item.dest_id && old(
                            self,
                        ).table@[i as int].addr_mask == item.addr_mask);
                    }
                    lemma_upsert_find(*old(self), *self, i as int, item);
                }
            },
            None => {
                self.table.push(item);
                proof {
                    let n = self.table@.len() - 1;
                    assert(self.table@[n] == item);
                    assert forall|a: int, b: int|
                        0 <= a < self.table@.len() && 0 <= b < self.table@.len() && a
                            != b implies !((#[trigger] self.table@[a]).dest_id == (
                    #[trigger] self.table@[b]).dest_id && self.table@[a].addr_mask
                        == self.table@[b].addr_mask) by {
                        if a < n && b < n {
                            assert(self.table@[a] == old(self).table@[a]);
                            assert(self.table@[b] == old(self).table@[b]);
                        } else if a == n {
                            assert(self.table@[b] == old(self).table@[b]);
                        } else {
                            assert(self.table@[a] == old(self).table@[a]);
                        }
                    }
                    lemma_upsert_find(*old(self), *self, self.table@.len() - 1, item);
                }
            },
        }
    }

    /// Stores `item` unless an item already leading to its destination is
    /// preferred over it (RFC 2328 section 16.4.1): the preferred path to
    /// each destination stands; every other destination's item is
    /// untouched.
    pub fn upsert_if_better(&mut self, item: RoutingTableItem)
        requires
            old(self).wf(),
        ensures
            final (self).wf(),
            ({
                let prev = old(self).spec_find(item.dest_id, item.addr_mask);
                match prev {
                    Some(o) => if spec_route_better(o, item) {
                        *final (self) == *old(self)
                    } else {
                        final (self).spec_find(item.dest_id, item.addr_mask) == Some(item)
                    },
                    None => final (self).spec_find(item.dest_id, item.addr_mask) == Some(item),
                }
            }),
            forall|d: u32, m: u32|
                !(d == item.dest_id && m == item.addr_mask) ==> #[trigger] final (self).spec_find(
                    d,
                    m,
                ) == old(self).spec_find(d, m),
    {
        let keep = match self.find(item.dest_id, item.addr_mask) {
            Some(i) => {
                proof {
                    let j = self.idx_of_key(item.dest_id, item.addr_mask);
                    assert(0 <= j < self.table@.len() && self.table@[j].dest_id == item.dest_id
                        && self.table@[j].addr_mask == item.addr_mask);
                    assert(j == i);
                }
                route_better(&self.table[i], &item)
            },
            None => false,
        };
        if !keep {
            self.upsert(item);
        }
    }

    /// Recomputes the table from every area: each area's shortest-path
    /// tree is rebuilt by Dijkstra with this router (`root`) as root and
    /// its intra-area items and stub-network leaves entered, one per
    /// destination, a later area's item displacing an earlier one; then
    /// inter-area routes are derived from the backbone's Summary-LSAs, and
    /// the AS-external database is processed against the backbone's tree —
    /// against the first area's where no backbone is configured — neither
    /// ever displacing an intra-area route.
    #[verifier::rlimit(100)]
    #[verifier::spinoff_prover]
    pub fn recalculate(&mut self, areas: &mut Vec<Area>, ext: &LsaDb, root: u32)
        requires
            old(self).wf(),
        ensures
            final (self).wf(),
            final (areas)@.len() == old(areas)@.len(),
            forall|a: int|
                0 <= a < final (areas)@.len() ==> (#[trigger] final (areas)@[a]).short_path_tree.sorted_by_dist()
                    && crate::spt::distinct_vertices(final (areas)@[a].short_path_tree.nodes@)
                    && final (areas)@[a].short_path_tree.nodes@.len() > 0 && final (
                areas)@[a].short_path_tree.nodes@[0].vtype == VertexType::Router && final (
                areas)@[a].short_path_tree.nodes@[0].id == root && final (
                areas)@[a].short_path_tree.nodes@[0].dist == 0 && crate::spt::closed_under_links(
                final (areas)@[a].lsa_database,
                final (areas)@[a].short_path_tree.nodes@,
            ),
            forall|x: int, j: int| #![trigger spec_intra_items(final (areas)@[x])[j]]
                0 <= x < final (areas)@.len() && 0 <= j < spec_intra_items(
                    final (areas)@[x],
                ).len() ==> final (self).spec_find(
                    spec_intra_items(final (areas)@[x])[j].dest_id,
                    spec_intra_items(final (areas)@[x])[j].addr_mask,
                ) is Some && final (self).spec_find(
                    spec_intra_items(final (areas)@[x])[j].dest_id,
                    spec_intra_items(final (areas)@[x])[j].addr_mask,
                )->Some_0.path_type == RoutingTablePathType::AreaInternal,
            forall|x: int, i: int, k: int| #![trigger spec_stub_item(final (areas)@[x], i, k)]
                0 <= x < final (areas)@.len() && stub_valid(final (areas)@[x], i, k) ==> final (
                self).spec_find(
                    spec_stub_item(final (areas)@[x], i, k).dest_id,
                    spec_stub_item(final (areas)@[x], i, k).addr_mask,
                ) is Some && final (self).spec_find(
                    spec_stub_item(final (areas)@[x], i, k).dest_id,
                    spec_stub_item(final (areas)@[x], i, k).addr_mask,
                )->Some_0.path_type == RoutingTablePathType::AreaInternal,
            final (areas)@.len() > 0 ==> forall|li: int| #![trigger ext.entries@[li]]
                0 <= li < ext.entries@.len() && is_external_entry(*ext, li) && spt_settled_router(
                    final (areas)@[spec_arbiter_idx(final (areas)@)].short_path_tree,
                    ext.entries@[li].0.header.advertising_router,
                ) ==> final (self).spec_find(
                    spec_external_item(
                        final (areas)@[spec_arbiter_idx(final (areas)@)],
                        ext.entries@[li].0,
                    ).dest_id,
                    spec_external_item(
                        final (areas)@[spec_arbiter_idx(final (areas)@)],
                        ext.entries@[li].0,
                    ).addr_mask,
                ) is Some && !spec_route_better(
                    spec_external_item(
                        final (areas)@[spec_arbiter_idx(final (areas)@)],
                        ext.entries@[li].0,
                    ),
                    final (self).spec_find(
                        spec_external_item(
                            final (areas)@[spec_arbiter_idx(final (areas)@)],
                            ext.entries@[li].0,
                        ).dest_id,
                        spec_external_item(
                            final (areas)@[spec_arbiter_idx(final (areas)@)],
                            ext.entries@[li].0,
                        ).addr_mask,
                    )->Some_0,
                ),
    {
        let mut a: usize = 0;
        while a < areas.len()
            invariant
                self.wf(),
                a <= areas@.len(),
                areas@.len() == old(areas)@.len(),
                forall|x: int|
                    0 <= x < a ==> (#[trigger] areas@[x]).short_path_tree.sorted_by_dist()
                        && crate::spt::distinct_vertices(areas@[x].short_path_tree.nodes@)
                        && areas@[x].short_path_tree.nodes@.len() > 0
                        && areas@[x].short_path_tree.nodes@[0].vtype == VertexType::Router
                        && areas@[x].short_path_tree.nodes@[0].id == root
                        && areas@[x].short_path_tree.nodes@[0].dist == 0
                        && crate::spt::closed_under_links(
                        areas@[x].lsa_database,
                        areas@[x].short_path_tree.nodes@,
                    ),
                forall|x: int, j: int| #![trigger spec_intra_items(areas@[x])[j]]
                    0 <= x < a && 0 <= j < spec_intra_items(areas@[x]).len() ==> self.spec_find(
                        spec_intra_items(areas@[x])[j].dest_id,
                        spec_intra_items(areas@[x])[j].addr_mask,
                    ) is Some && self.spec_find(
                        spec_intra_items(areas@[x])[j].dest_id,
                        spec_intra_items(areas@[x])[j].addr_mask,
                    )->Some_0.path_type == RoutingTablePathType::AreaInternal,
                forall|x: int, i2: int, k2: int| #![trigger spec_stub_item(areas@[x], i2, k2)]
                    0 <= x < a && stub_valid(areas@[x], i2, k2) ==> self.spec_find(
                        spec_stub_item(areas@[x], i2, k2).dest_id,
                        spec_stub_item(areas@[x], i2, k2).addr_mask,
                    ) is Some && self.spec_find(
                        spec_stub_item(areas@[x], i2, k2).dest_id,
                        spec_stub_item(areas@[x], i2, k2).addr_mask,
                    )->Some_0.path_type == RoutingTablePathType::AreaInternal,
            decreases areas@.len() - a,
        {
            let ghost before = areas@;
            let mut area = areas.remove(a);
            area.recalc_routing(root);
            let items = area.get_routing();
            let stubs = area.get_stub_routing();
            let ghost settled = area;
            let mut j: usize = 0;
            while j < items.len()
                invariant
                    self.wf(),
                    j <= items@.len(),
                    items@ == spec_intra_items(settled),
                    forall|j2: int|
                        0 <= j2 < items@.len() ==> (#[trigger] items@[j2]).path_type
                            == RoutingTablePathType::AreaInternal,
                    forall|j2: int| #![trigger items@[j2]]
                        0 <= j2 < j ==> self.spec_find(
                            items@[j2].dest_id,
                            items@[j2].addr_mask,
                        ) is Some && self.spec_find(
                            items@[j2].dest_id,
                            items@[j2].addr_mask,
                        )->Some_0.path_type == RoutingTablePathType::AreaInternal,
                    forall|x: int, j2: int| #![trigger spec_intra_items(before[x])[j2]]
                        0 <= x < a && 0 <= j2 < spec_intra_items(before[x]).len()
                            ==> self.spec_find(
                            spec_intra_items(before[x])[j2].dest_id,
                            spec_intra_items(before[x])[j2].addr_mask,
                        ) is Some && self.spec_find(
                            spec_intra_items(before[x])[j2].dest_id,
                            spec_intra_items(before[x])[j2].addr_mask,
                        )->Some_0.path_type == RoutingTablePathType::AreaInternal,
                    forall|x: int, i2: int, k2: int| #![trigger spec_stub_item(before[x], i2, k2)]
                        0 <= x < a && stub_valid(before[x], i2, k2) ==> self.spec_find(
                            spec_stub_item(before[x], i2, k2).dest_id,
                            spec_stub_item(before[x], i2, k2).addr_mask,
                        ) is Some && self.spec_find(
                            spec_stub_item(before[x], i2, k2).dest_id,
                            spec_stub_item(before[x], i2, k2).addr_mask,
                        )->Some_0.path_type == RoutingTablePathType::AreaInternal,
                    a < before.len(),
                    forall|x: int| 0 <= x < a ==> before[x] == areas@[x],
                    areas@.len() == before.len() - 1,
                decreases items@.len() - j,
            {
                self.upsert(items[j]);
                j = j + 1;
            }
            let mut j2: usize = 0;
            while j2 < stubs.len()
                invariant
                    self.wf(),
                    j2 <= stubs@.len(),
                    forall|j3: int|
                        0 <= j3 < stubs@.len() ==> (#[trigger] stubs@[j3]).path_type
                            == RoutingTablePathType::AreaInternal,
                    forall|j3: int| #![trigger stubs@[j3]]
                        0 <= j3 < j2 ==> self.spec_find(
                            stubs@[j3].dest_id,
                            stubs@[j3].addr_mask,
                        ) is Some && self.spec_find(
                            stubs@[j3].dest_id,
                            stubs@[j3].addr_mask,
                        )->Some_0.path_type == RoutingTablePathType::AreaInternal,
                    forall|j3: int| #![trigger items@[j3]]
                        0 <= j3 < items@.len() ==> self.spec_find(
                            items@[j3].dest_id,
                            items@[j3].addr_mask,
                        ) is Some && self.spec_find(
                            items@[j3].dest_id,
                            items@[j3].addr_mask,
                        )->Some_0.path_type == RoutingTablePathType::AreaInternal,
                    forall|j3: int|
                        0 <= j3 < items@.len() ==> (#[trigger] items@[j3]).path_type
                            == RoutingTablePathType::AreaInternal,
                    forall|x: int, j3: int| #![trigger spec_intra_items(before[x])[j3]]
                        0 <= x < a && 0 <= j3 < spec_intra_items(before[x]).len()
                            ==> self.spec_find(
                            spec_intra_items(before[x])[j3].dest_id,
                            spec_intra_items(before[x])[j3].addr_mask,
                        ) is Some && self.spec_find(
                            spec_intra_items(before[x])[j3].dest_id,
                            spec_intra_items(before[x])[j3].addr_mask,
                        )->Some_0.path_type == RoutingTablePathType::AreaInternal,
                    forall|x: int, i2: int, k2: int| #![trigger spec_stub_item(before[x], i2, k2)]
                        0 <= x < a && stub_valid(before[x], i2, k2) ==> self.spec_find(
                            spec_stub_item(before[x], i2, k2).dest_id,
                            spec_stub_item(before[x], i2, k2).addr_mask,
                        ) is Some && self.spec_find(
                            spec_stub_item(before[x], i2, k2).dest_id,
                            spec_stub_item(before[x], i2, k2).addr_mask,
                        )->Some_0.path_type == RoutingTablePathType::AreaInternal,
                    a < before.len(),
                    forall|x: int| 0 <= x < a ==> before[x] == areas@[x],
                    areas@.len() == before.len() - 1,
                decreases stubs@.len() - j2,
            {
                self.upsert(stubs[j2]);
                j2 = j2 + 1;
            }
            areas.insert(a, area);
            proof {
                assert(areas@ =~= before.update(a as int, settled));
                assert forall|x: int|
                    0 <= x < a + 1 implies (#[trigger] areas@[x]).short_path_tree.sorted_by_dist()
                        && crate::spt::distinct_vertices(areas@[x].short_path_tree.nodes@)
                        && areas@[x].short_path_tree.nodes@.len() > 0
                        && areas@[x].short_path_tree.nodes@[0].vtype == VertexType::Router
                        && areas@[x].short_path_tree.nodes@[0].id == root
                        && areas@[x].short_path_tree.nodes@[0].dist == 0
                        && crate::spt::closed_under_links(
                        areas@[x].lsa_database,
                        areas@[x].short_path_tree.nodes@,
                    ) by {
                    if x < a as int {
                        assert(areas@[x] == before[x]);
                    } else {
                        assert(areas@[x] == settled);
                    }
                }
                assert forall|x: int, j2: int| #![trigger spec_intra_items(areas@[x])[j2]]
                    0 <= x < a + 1 && 0 <= j2 < spec_intra_items(areas@[x]).len() implies self.spec_find(
                    spec_intra_items(areas@[x])[j2].dest_id,
                    spec_intra_items(areas@[x])[j2].addr_mask,
                ) is Some && self.spec_find(
                    spec_intra_items(areas@[x])[j2].dest_id,
                    spec_intra_items(areas@[x])[j2].addr_mask,
                )->Some_0.path_type == RoutingTablePathType::AreaInternal by {
                    if x < a as int {
                        assert(areas@[x] == before[x]);
                    } else {
                        assert(areas@[x] == settled);
                        assert(spec_intra_items(settled)[j2] == items@[j2]);
                    }
                }
                assert forall|x: int, i2: int, k2: int|
                    #![trigger spec_stub_item(areas@[x], i2, k2)]
                    0 <= x < a + 1 && stub_valid(areas@[x], i2, k2) implies self.spec_find(
                    spec_stub_item(areas@[x], i2, k2).dest_id,
                    spec_stub_item(areas@[x], i2, k2).addr_mask,
                ) is Some && self.spec_find(
                    spec_stub_item(areas@[x], i2, k2).dest_id,
                    spec_stub_item(areas@[x], i2, k2).addr_mask,
                )->Some_0.path_type == RoutingTablePathType::AreaInternal by {
                    if x < a as int {
                        assert(areas@[x] == before[x]);
                    } else {
                        assert(areas@[x] == settled);
                        let j3 = choose|j3: int|
                            0 <= j3 < stubs@.len() && stubs@[j3] == spec_stub_item(
                                settled,
                                i2,
                                k2,
                            );
                        assert(self.spec_find(stubs@[j3].dest_id, stubs@[j3].addr_mask) is Some);
                    }
                }
            }
            a = a + 1;
        }
        let backbone = self.find_backbone(areas);
        if let Some(bi) = backbone {
            let ghost pre_areas = areas@;
            let ghost pre_self = *self;
            let b = areas.remove(bi);
            self.add_inter_area_routes(&b);
            areas.insert(bi, b);
            proof {
                assert(areas@ =~= pre_areas);
                lemma_internal_keys_stay(pre_self, *self, areas@);
                lemma_stub_keys_stay(pre_self, *self, areas@);
            }
        }
        // the backbone's tree arbitrates external costs; the first area's
        // only where no backbone is configured
        let arb: usize = match backbone {
            Some(bi) => bi,
            None => 0,
        };
        if areas.len() > 0 {
            let ghost pre_areas = areas@;
            let ghost pre_self = *self;
            let area = areas.remove(arb);
            self.add_external_routes(&area, ext);
            areas.insert(arb, area);
            proof {
                assert(areas@ =~= pre_areas);
                assert(areas@ == pre_areas);
                lemma_internal_keys_stay(pre_self, *self, areas@);
                lemma_stub_keys_stay(pre_self, *self, areas@);
            }
        }
    }

    /// Position of the first backbone area, if one is configured.
    fn find_backbone(&self, areas: &Vec<Area>) -> (r: Option<usize>)
        ensures
            match r {
                Some(i) => i < areas@.len() && i as int == spec_arbiter_idx(areas@)
                    && areas@[i as int].area_id == crate::constant::BackboneArea,
                None => forall|b: int|
                    0 <= b < areas@.len() ==> (#[trigger] areas@[b]).area_id
                        != crate::constant::BackboneArea,
            },
    {
        let mut i: usize = 0;
        while i < areas.len()
            invariant
                i <= areas@.len(),
                forall|b: int|
                    0 <= b < i ==> (#[trigger] areas@[b]).area_id != crate::constant::BackboneArea,
            decreases areas@.len() - i,
        {
            if areas[i].area_id == crate::constant::BackboneArea {
                proof {
                    let c = spec_arbiter_idx(areas@);
                    assert(0 <= c < areas@.len() && areas@[c].area_id
                        == crate::constant::BackboneArea && (forall|x: int|
                        0 <= x < c ==> (#[trigger] areas@[x]).area_id
                            != crate::constant::BackboneArea));
                    assert(c == i as int);
                }
                return Some(i);
            }
            i = i + 1;
        }
        None
    }

    /// Enters the AS-external routes (RFC 2328 section 16.4): for every
    /// AS-external LSA whose advertising router the tree settled, the
    /// prescribed item — a type 1 metric added to the cost to the ASBR, a
    /// type 2 metric carried beside it — enters unless a route at least as
    /// preferred already leads there; afterwards a route at least as
    /// preferred as every such item stands. Intra-area routes are never
    /// displaced.
    #[verifier::spinoff_prover]
    pub fn add_external_routes(&mut self, area: &Area, ext: &LsaDb)
        requires
            old(self).wf(),
            crate::spt::distinct_vertices(area.short_path_tree.nodes@),
        ensures
            final (self).wf(),
            forall|li: int| #![trigger ext.entries@[li]]
                0 <= li < ext.entries@.len() && is_external_entry(*ext, li) && spt_settled_router(
                    area.short_path_tree,
                    ext.entries@[li].0.header.advertising_router,
                ) ==> final (self).spec_find(
                    spec_external_item(*area, ext.entries@[li].0).dest_id,
                    spec_external_item(*area, ext.entries@[li].0).addr_mask,
                ) is Some && !spec_route_better(
                    spec_external_item(*area, ext.entries@[li].0),
                    final (self).spec_find(
                        spec_external_item(*area, ext.entries@[li].0).dest_id,
                        spec_external_item(*area, ext.entries@[li].0).addr_mask,
                    )->Some_0,
                ),
            forall|d: u32, m: u32| #![trigger final (self).spec_find(d, m)]
                old(self).spec_find(d, m) is Some && old(self).spec_find(d, m)->Some_0.path_type
                    == RoutingTablePathType::AreaInternal ==> final (self).spec_find(d, m) == old(
                    self,
                ).spec_find(d, m),
    {
        let mut i: usize = 0;
        while i < ext.entries.len()
            invariant
                self.wf(),
                i <= ext.entries@.len(),
                crate::spt::distinct_vertices(area.short_path_tree.nodes@),
                forall|li: int| #![trigger ext.entries@[li]]
                    0 <= li < i && is_external_entry(*ext, li) && spt_settled_router(
                        area.short_path_tree,
                        ext.entries@[li].0.header.advertising_router,
                    ) ==> self.spec_find(
                        spec_external_item(*area, ext.entries@[li].0).dest_id,
                        spec_external_item(*area, ext.entries@[li].0).addr_mask,
                    ) is Some && !spec_route_better(
                        spec_external_item(*area, ext.entries@[li].0),
                        self.spec_find(
                            spec_external_item(*area, ext.entries@[li].0).dest_id,
                            spec_external_item(*area, ext.entries@[li].0).addr_mask,
                        )->Some_0,
                    ),
                forall|d: u32, m: u32| #![trigger self.spec_find(d, m)]
                    old(self).spec_find(d, m) is Some && old(self).spec_find(
                        d,
                        m,
                    )->Some_0.path_type == RoutingTablePathType::AreaInternal ==> self.spec_find(
                        d,
                        m,
                    ) == old(self).spec_find(d, m),
            decreases ext.entries@.len() - i,
        {
            let lsa = &ext.entries[i].0;
            if lsa.header.ls_type == AS_EXTERNAL_LSA {
                if let LsaBody::AsExternal { network_mask, e2, metric, forwarding_address } =
                    &lsa.body {
                    let asbr = area.short_path_tree.find(
                        VertexType::Router,
                        lsa.header.advertising_router,
                    );
                    if let Some(vi) = asbr {
                        proof {
                            let c = spt_router_idx(
                                area.short_path_tree,
                                lsa.header.advertising_router,
                            );
                            assert(0 <= c < area.short_path_tree.nodes@.len()
                                && area.short_path_tree.nodes@[c].vtype == VertexType::Router
                                && area.short_path_tree.nodes@[c].id
                                == lsa.header.advertising_router);
                            assert(c == vi as int);
                        }
                        let node = &area.short_path_tree.nodes[vi];
                        let cost_to_asbr = node.dist;
                        let nh: u32 = if *forwarding_address != 0 {
                            *forwarding_address
                        } else if node.nexthops.len() > 0 {
                            node.nexthops[0]
                        } else {
                            0
                        };
                        let (path_type, cost, cost_t2) = if *e2 {
                            (RoutingTablePathType::AsExternalT2, cost_to_asbr, *metric)
                        } else {
                            if (cost_to_asbr as u64) + (*metric as u64) <= (LSInfinity as u64) {
                                (
                                    RoutingTablePathType::AsExternalT1,
                                    cost_to_asbr + *metric,
                                    0u32,
                                )
                            } else {
                                (RoutingTablePathType::AsExternalT1, LSInfinity, 0u32)
                            }
                        };
                        let item = RoutingTableItem {
                            dest_type: RoutingTableItemType::Network,
                            dest_id: lsa.header.link_state_id & *network_mask,
                            addr_mask: *network_mask,
                            external_cap: true,
                            area_id: area.area_id,
                            path_type,
                            cost,
                            cost_t2,
                            lsa_origin: lsa.header.key(),
                            next_hop: nh,
                            ad_router: lsa.header.advertising_router,
                        };
                        proof {
                            assert(item == spec_external_item(*area, ext.entries@[i as int].0));
                        }
                        let ghost pre = *self;
                        self.upsert_if_better(item);
                        proof {
                            lemma_entry_monotone(pre, *self, item);
                            assert forall|li: int| #![trigger ext.entries@[li]]
                                0 <= li < i + 1 && is_external_entry(*ext, li)
                                    && spt_settled_router(
                                    area.short_path_tree,
                                    ext.entries@[li].0.header.advertising_router,
                                ) implies self.spec_find(
                                spec_external_item(*area, ext.entries@[li].0).dest_id,
                                spec_external_item(*area, ext.entries@[li].0).addr_mask,
                            ) is Some && !spec_route_better(
                                spec_external_item(*area, ext.entries@[li].0),
                                self.spec_find(
                                    spec_external_item(*area, ext.entries@[li].0).dest_id,
                                    spec_external_item(*area, ext.entries@[li].0).addr_mask,
                                )->Some_0,
                            ) by {
                                let q = spec_external_item(*area, ext.entries@[li].0);
                                if li < i as int {
                                    if q.dest_id == item.dest_id && q.addr_mask == item.addr_mask {
                                        lemma_route_pref_trans(
                                            q,
                                            pre.spec_find(q.dest_id, q.addr_mask)->Some_0,
                                            self.spec_find(q.dest_id, q.addr_mask)->Some_0,
                                        );
                                    }
                                }
                            }
                        }
                    }
                }
            }
            i = i + 1;
        }
    }

    /// Enters the inter-area routes (RFC 2328 section 16.2): for every
    /// Summary-LSA of the backbone whose advertising border router the
    /// backbone's tree settled, the prescribed item — the summary metric
    /// added to the cost to that router — enters unless a route at least as
    /// preferred already leads there. Intra-area routes are never displaced.
    #[verifier::spinoff_prover]
    pub fn add_inter_area_routes(&mut self, backbone: &Area)
        requires
            old(self).wf(),
            crate::spt::distinct_vertices(backbone.short_path_tree.nodes@),
        ensures
            final (self).wf(),
            forall|li: int| #![trigger backbone.lsa_database.entries@[li]]
                0 <= li < backbone.lsa_database.entries@.len() && is_summary_entry(
                    backbone.lsa_database,
                    li,
                ) && spt_settled_router(
                    backbone.short_path_tree,
                    backbone.lsa_database.entries@[li].0.header.advertising_router,
                ) ==> final (self).spec_find(
                    spec_summary_item(*backbone, backbone.lsa_database.entries@[li].0).dest_id,
                    spec_summary_item(*backbone, backbone.lsa_database.entries@[li].0).addr_mask,
                ) is Some && !spec_route_better(
                    spec_summary_item(*backbone, backbone.lsa_database.entries@[li].0),
                    final (self).spec_find(
                        spec_summary_item(*backbone, backbone.lsa_database.entries@[li].0).dest_id,
                        spec_summary_item(
                            *backbone,
                            backbone.lsa_database.entries@[li].0,
                        ).addr_mask,
                    )->Some_0,
                ),
            forall|d: u32, m: u32| #![trigger final (self).spec_find(d, m)]
                old(self).spec_find(d, m) is Some && old(self).spec_find(d, m)->Some_0.path_type
                    == RoutingTablePathType::AreaInternal ==> final (self).spec_find(d, m) == old(
                    self,
                ).spec_find(d, m),
    {
        let mut i: usize = 0;
        while i < backbone.lsa_database.entries.len()
            invariant
                self.wf(),
                i <= backbone.lsa_database.entries@.len(),
                crate::spt::distinct_vertices(backbone.short_path_tree.nodes@),
                forall|li: int| #![trigger backbone.lsa_database.entries@[li]]
                    0 <= li < i && is_summary_entry(backbone.lsa_database, li)
                        && spt_settled_router(
                        backbone.short_path_tree,
                        backbone.lsa_database.entries@[li].0.header.advertising_router,
                    ) ==> self.spec_find(
                        spec_summary_item(
                            *backbone,
                            backbone.lsa_database.entries@[li].0,
                        ).dest_id,
                        spec_summary_item(
                            *backbone,
                            backbone.lsa_database.entries@[li].0,
                        ).addr_mask,
                    ) is Some && !spec_route_better(
                        spec_summary_item(*backbone, backbone.lsa_database.entries@[li].0),
                        self.spec_find(
                            spec_summary_item(
                                *backbone,
                                backbone.lsa_database.entries@[li].0,
                            ).dest_id,
                            spec_summary_item(
                                *backbone,
                                backbone.lsa_database.entries@[li].0,
                            ).addr_mask,
                        )->Some_0,
                    ),
                forall|d: u32, m: u32| #![trigger self.spec_find(d, m)]
                    old(self).spec_find(d, m) is Some && old(self).spec_find(
                        d,
                        m,
                    )->Some_0.path_type == RoutingTablePathType::AreaInternal ==> self.spec_find(
                        d,
                        m,
                    ) == old(self).spec_find(d, m),
            decreases backbone.lsa_database.entries@.len() - i,
        {
            let lsa = &backbone.lsa_database.entries[i].0;
            let summary = lsa.header.ls_type == SUMMARY_NET_LSA || lsa.header.ls_type
                == SUMMARY_ASBR_LSA;
            if summary {
                let abr = backbone.short_path_tree.find(
                    VertexType::Router,
                    lsa.header.advertising_router,
                );
                if let Some(vi) = abr {
                    proof {
                        let c = spt_router_idx(
                            backbone.short_path_tree,
                            lsa.header.advertising_router,
                        );
                        assert(0 <= c < backbone.short_path_tree.nodes@.len()
                            && backbone.short_path_tree.nodes@[c].vtype == VertexType::Router
                            && backbone.short_path_tree.nodes@[c].id
                            == lsa.header.advertising_router);
                        assert(c == vi as int);
                    }
                    let node = &backbone.short_path_tree.nodes[vi];
                    let d = node.dist;
                    let nh: u32 = if node.nexthops.len() > 0 {
                        node.nexthops[0]
                    } else {
                        0
                    };
                    let picked: Option<RoutingTableItem> = match &lsa.body {
                        LsaBody::SummaryNetwork { network_mask, metric } => Some(
                            RoutingTableItem {
                                dest_type: RoutingTableItemType::Network,
                                dest_id: lsa.header.link_state_id & *network_mask,
                                addr_mask: *network_mask,
                                external_cap: backbone.external_routing_capability,
                                area_id: backbone.area_id,
                                path_type: RoutingTablePathType::AreaExternal,
                                cost: if (d as u64) + (*metric as u64) <= (LSInfinity as u64) {
                                    d + *metric
                                } else {
                                    LSInfinity
                                },
                                cost_t2: 0,
                                lsa_origin: lsa.header.key(),
                                next_hop: nh,
                                ad_router: lsa.header.advertising_router,
                            },
                        ),
                        LsaBody::SummaryAsbr { network_mask, metric } => Some(
                            RoutingTableItem {
                                dest_type: RoutingTableItemType::Router,
                                dest_id: lsa.header.link_state_id,
                                addr_mask: *network_mask,
                                external_cap: backbone.external_routing_capability,
                                area_id: backbone.area_id,
                                path_type: RoutingTablePathType::AreaExternal,
                                cost: if (d as u64) + (*metric as u64) <= (LSInfinity as u64) {
                                    d + *metric
                                } else {
                                    LSInfinity
                                },
                                cost_t2: 0,
                                lsa_origin: lsa.header.key(),
                                next_hop: nh,
                                ad_router: lsa.header.advertising_router,
                            },
                        ),
                        _ => None,
                    };
                    if let Some(item) = picked {
                        proof {
                            assert(item == spec_summary_item(
                                *backbone,
                                backbone.lsa_database.entries@[i as int].0,
                            ));
                        }
                        let ghost pre = *self;
                        self.upsert_if_better(item);
                        proof {
                            lemma_entry_monotone(pre, *self, item);
                            assert forall|li: int| #![trigger backbone.lsa_database.entries@[li]]
                                0 <= li < i + 1 && is_summary_entry(backbone.lsa_database, li)
                                    && spt_settled_router(
                                    backbone.short_path_tree,
                                    backbone.lsa_database.entries@[li].0.header.advertising_router,
                                ) implies self.spec_find(
                                spec_summary_item(
                                    *backbone,
                                    backbone.lsa_database.entries@[li].0,
                                ).dest_id,
                                spec_summary_item(
                                    *backbone,
                                    backbone.lsa_database.entries@[li].0,
                                ).addr_mask,
                            ) is Some && !spec_route_better(
                                spec_summary_item(*backbone, backbone.lsa_database.entries@[li].0),
                                self.spec_find(
                                    spec_summary_item(
                                        *backbone,
                                        backbone.lsa_database.entries@[li].0,
                                    ).dest_id,
                                    spec_summary_item(
                                        *backbone,
                                        backbone.lsa_database.entries@[li].0,
                                    ).addr_mask,
                                )->Some_0,
                            ) by {
                                let q = spec_summary_item(
                                    *backbone,
                                    backbone.lsa_database.entries@[li].0,
                                );
                                if li < i as int {
                                    if q.dest_id == item.dest_id && q.addr_mask == item.addr_mask {
                                        lemma_route_pref_trans(
                                            q,
                                            pre.spec_find(q.dest_id, q.addr_mask)->Some_0,
                                            self.spec_find(q.dest_id, q.addr_mask)->Some_0,
                                        );
                                    }
                                }
                            }
                        }
                    }
                }
            }
            i = i + 1;
        }
    }
}

/// When a table change keeps every intra-area entry in place, the entries
/// the areas' intra-area items name stay in place too.
proof fn lemma_internal_keys_stay(pre: RoutingTable, post: RoutingTable, areas: Seq<Area>)
    requires
        forall|d: u32, m: u32| #![trigger post.spec_find(d, m)]
            pre.spec_find(d, m) is Some && pre.spec_find(d, m)->Some_0.path_type
                == RoutingTablePathType::AreaInternal ==> post.spec_find(d, m) == pre.spec_find(
                d,
                m,
            ),
        forall|x: int, j: int| #![trigger spec_intra_items(areas[x])[j]]
            0 <= x < areas.len() && 0 <= j < spec_intra_items(areas[x]).len() ==> pre.spec_find(
                spec_intra_items(areas[x])[j].dest_id,
                spec_intra_items(areas[x])[j].addr_mask,
            ) is Some && pre.spec_find(
                spec_intra_items(areas[x])[j].dest_id,
                spec_intra_items(areas[x])[j].addr_mask,
            )->Some_0.path_type == RoutingTablePathType::AreaInternal,
    ensures
        forall|x: int, j: int| #![trigger spec_intra_items(areas[x])[j]]
            0 <= x < areas.len() && 0 <= j < spec_intra_items(areas[x]).len() ==> post.spec_find(
                spec_intra_items(areas[x])[j].dest_id,
                spec_intra_items(areas[x])[j].addr_mask,
            ) is Some && post.spec_find(
                spec_intra_items(areas[x])[j].dest_id,
                spec_intra_items(areas[x])[j].addr_mask,
            )->Some_0.path_type == RoutingTablePathType::AreaInternal,
{
}

/// When a table change keeps every intra-area entry in place, the entries
/// the areas' stub leaves name stay in place too.
proof fn lemma_stub_keys_stay(pre: RoutingTable, post: RoutingTable, areas: Seq<Area>)
    requires
        forall|d: u32, m: u32| #![trigger post.spec_find(d, m)]
            pre.spec_find(d, m) is Some && pre.spec_find(d, m)->Some_0.path_type
                == RoutingTablePathType::AreaInternal ==> post.spec_find(d, m) == pre.spec_find(
                d,
                m,
            ),
        forall|x: int, i: int, k: int| #![trigger spec_stub_item(areas[x], i, k)]
            0 <= x < areas.len() && stub_valid(areas[x], i, k) ==> pre.spec_find(
                spec_stub_item(areas[x], i, k).dest_id,
                spec_stub_item(areas[x], i, k).addr_mask,
            ) is Some && pre.spec_find(
                spec_stub_item(areas[x], i, k).dest_id,
                spec_stub_item(areas[x], i, k).addr_mask,
            )->Some_0.path_type == RoutingTablePathType::AreaInternal,
    ensures
        forall|x: int, i: int, k: int| #![trigger spec_stub_item(areas[x], i, k)]
            0 <= x < areas.len() && stub_valid(areas[x], i, k) ==> post.spec_find(
                spec_stub_item(areas[x], i, k).dest_id,
                spec_stub_item(areas[x], i, k).addr_mask,
            ) is Some && post.spec_find(
                spec_stub_item(areas[x], i, k).dest_id,
                spec_stub_item(areas[x], i, k).addr_mask,
            )->Some_0.path_type == RoutingTablePathType::AreaInternal,
{
}

/// What one preferring upsert leaves behind: the destination's item stands,
/// is at least as preferred as the offer, keeps an intra-area item
/// untouched, and every other destination's item is untouched.
proof fn lemma_entry_monotone(pre: RoutingTable, post: RoutingTable, item: RoutingTableItem)
    requires
        pre.wf(),
        post.wf(),
        ({
            let prev = pre.spec_find(item.dest_id, item.addr_mask);
            match prev {
                Some(o) => if spec_route_better(o, item) {
                    post == pre
                } else {
                    post.spec_find(item.dest_id, item.addr_mask) == Some(item)
                },
                None => post.spec_find(item.dest_id, item.addr_mask) == Some(item),
            }
        }),
        forall|d: u32, m: u32|
            !(d == item.dest_id && m == item.addr_mask) ==> #[trigger] post.spec_find(d, m)
                == pre.spec_find(d, m),
        item.path_type.rank() >= 1,
    ensures
        post.spec_find(item.dest_id, item.addr_mask) is Some,
        !spec_route_better(item, post.spec_find(item.dest_id, item.addr_mask)->Some_0),
        forall|d: u32, m: u32| #![trigger post.spec_find(d, m)]
            pre.spec_find(d, m) is Some && pre.spec_find(d, m)->Some_0.path_type
                == RoutingTablePathType::AreaInternal ==> post.spec_find(d, m) == pre.spec_find(
                d,
                m,
            ),
{
    let prev = pre.spec_find(item.dest_id, item.addr_mask);
    match prev {
        Some(o) => {
            if spec_route_better(o, item) {
                assert(post.spec_find(item.dest_id, item.addr_mask) == Some(o));
            }
        },
        None => {},
    }
    assert forall|d: u32, m: u32| #![trigger post.spec_find(d, m)]
        pre.spec_find(d, m) is Some && pre.spec_find(d, m)->Some_0.path_type
            == RoutingTablePathType::AreaInternal implies post.spec_find(d, m) == pre.spec_find(
        d,
        m,
    ) by {
        if d == item.dest_id && m == item.addr_mask {
            let o = pre.spec_find(d, m)->Some_0;
            assert(o.path_type.rank() == 0 && item.path_type.rank() >= 1);
            assert(spec_route_better(o, item));
        }
    }
}

/// Whether entry `li` of `db` is a Network-LSA — header and body — whose
/// link-state id is `id`.
pub open spec fn is_network_lsa_at(db: LsaDb, li: int, id: u32) -> bool {
    &&& db.entries@[li].0.header.ls_type == NETWORK_LSA
    &&& db.entries@[li].0.header.link_state_id == id
    &&& db.entries@[li].0.body@ is Network
}

/// Position of the first Network-LSA of `db` whose link-state id is `id`
/// (meaningful when one exists).
pub open spec fn first_network_lsa_idx(db: LsaDb, id: u32) -> int {
    choose|li: int|
        0 <= li < db.entries@.len() && is_network_lsa_at(db, li, id) && (forall|j: int|
            0 <= j < li ==> !is_network_lsa_at(db, j, id))
}

/// The intra-area routing item a settled network vertex of `area` yields:
/// its prefix and advertiser read from the first matching Network-LSA, its
/// cost the vertex's distance, its next hop the first equal-cost next hop
/// recorded.
pub open spec fn spec_intra_item(area: Area, n: SptNode) -> RoutingTableItem {
    let e = area.lsa_database.entries@[first_network_lsa_idx(area.lsa_database, n.id)].0;
    match e.body@ {
        LsaBodyV::Network { network_mask, attached_routers } => RoutingTableItem {
            dest_type: RoutingTableItemType::Network,
            dest_id: n.id & network_mask,
            addr_mask: network_mask,
            external_cap: area.external_routing_capability,
            area_id: area.area_id,
            path_type: RoutingTablePathType::AreaInternal,
            cost: n.dist,
            cost_t2: 0,
            lsa_origin: e.header.spec_key(),
            next_hop: if n.nexthops@.len() > 0 {
                n.nexthops@[0]
            } else {
                0
            },
            ad_router: e.header.advertising_router,
        },
        _ => vstd::pervasive::arbitrary(),
    }
}

/// Whether a settled vertex of `area` yields an intra-area routing item: a
/// network vertex backed by a Network-LSA.
pub open spec fn intra_vertex_pred(area: Area) -> spec_fn(SptNode) -> bool {
    |n: SptNode| n.vtype == VertexType::Network && has_network_lsa(area.lsa_database, n.id)
}

/// The item a settled vertex of `area` yields, as a function.
pub open spec fn intra_item_fn(area: Area) -> spec_fn(SptNode) -> RoutingTableItem {
    |n: SptNode| spec_intra_item(area, n)
}

/// The intra-area routing items of `area`: one per settled network vertex
/// backed by a Network-LSA, in settlement order.
pub open spec fn spec_intra_items(area: Area) -> Seq<RoutingTableItem> {
    area.short_path_tree.nodes@.filter(intra_vertex_pred(area)).map_values(intra_item_fn(area))
}

/// Whether link `k` of the Router-LSA behind the settled vertex at position
/// `i` of `area`'s tree is a stub link Dijkstra turns into a network leaf:
/// the vertex is a backed router, the link a stub one, the total cost
/// within `LSInfinity`.
#[verifier::opaque]
pub open spec fn stub_valid(area: Area, i: int, k: int) -> bool {
    &&& 0 <= i < area.short_path_tree.nodes@.len()
    &&& area.short_path_tree.nodes@[i].vtype == VertexType::Router
    &&& crate::spt::vertex_backed(
        area.lsa_database,
        VertexType::Router,
        area.short_path_tree.nodes@[i].id,
    )
    &&& match area.lsa_database.entries@[crate::spt::first_vertex_lsa_idx(
        area.lsa_database,
        VertexType::Router,
        area.short_path_tree.nodes@[i].id,
    )].0.body@ {
        LsaBodyV::Router { links } => 0 <= k < links.len() && links[k].link_type
            == crate::lsa::LINK_STUB && area.short_path_tree.nodes@[i].dist + links[k].metric
            <= LSInfinity,
        _ => false,
    }
}

/// The network leaf a stub link yields (RFC 2328 section 16.1 stage 2):
/// the stub's network number and mask, at the router's distance plus the
/// link metric.
#[verifier::opaque]
pub open spec fn spec_stub_item(area: Area, i: int, k: int) -> RoutingTableItem {
    let n = area.short_path_tree.nodes@[i];
    let e = area.lsa_database.entries@[crate::spt::first_vertex_lsa_idx(
        area.lsa_database,
        VertexType::Router,
        n.id,
    )].0;
    match e.body@ {
        LsaBodyV::Router { links } => RoutingTableItem {
            dest_type: RoutingTableItemType::Network,
            dest_id: links[k].link_id & links[k].link_data,
            addr_mask: links[k].link_data,
            external_cap: area.external_routing_capability,
            area_id: area.area_id,
            path_type: RoutingTablePathType::AreaInternal,
            cost: (n.dist + links[k].metric) as u32,
            cost_t2: 0,
            lsa_origin: e.header.spec_key(),
            next_hop: if n.nexthops@.len() > 0 {
                n.nexthops@[0]
            } else {
                0
            },
            ad_router: e.header.advertising_router,
        },
        _ => vstd::pervasive::arbitrary(),
    }
}

impl Area {
    /// Rebuilds this area's shortest-path tree by Dijkstra over its
    /// database, rooted at this router.
    pub fn recalc_routing(&mut self, root: u32)
        ensures
            *final (self) == (Area { short_path_tree: final (self).short_path_tree, ..*old(self) }),
            final (self).short_path_tree.sorted_by_dist(),
            final (self).short_path_tree.nodes@.len() > 0,
            final (self).short_path_tree.nodes@[0].vtype == VertexType::Router && final (
            self).short_path_tree.nodes@[0].id == root && final (self).short_path_tree.nodes@[0].dist
                == 0,
            crate::spt::distinct_vertices(final (self).short_path_tree.nodes@),
            forall|i: int|
                1 <= i < final (self).short_path_tree.nodes@.len() ==> crate::spt::vertex_backed(
                    final (self).lsa_database,
                    (#[trigger] final (self).short_path_tree.nodes@[i]).vtype,
                    final (self).short_path_tree.nodes@[i].id,
                ),
            crate::spt::closed_under_links(
                final (self).lsa_database,
                final (self).short_path_tree.nodes@,
            ),
    {
        self.short_path_tree = ShortPathTree::build(&self.lsa_database, root);
    }

    /// The intra-area routing items this area's shortest-path tree yields:
    /// one per settled network vertex, its mask read from the Network-LSA,
    /// its cost the vertex's distance, its next hop the first equal-cost
    /// next hop recorded.
    #[verifier::spinoff_prover]
    pub fn get_routing(&self) -> (r: Vec<RoutingTableItem>)
        ensures
            r@ == spec_intra_items(*self),
            forall|j: int|
                0 <= j < r@.len() ==> (#[trigger] r@[j]).path_type
                    == RoutingTablePathType::AreaInternal && r@[j].area_id == self.area_id
                    && r@[j].dest_type == RoutingTableItemType::Network && r@[j].external_cap
                    == self.external_routing_capability,
    {
        let ghost p = intra_vertex_pred(*self);
        let ghost f = intra_item_fn(*self);
        let mut r: Vec<RoutingTableItem> = Vec::new();
        let mut i: usize = 0;
        proof {
            reveal(Seq::filter);
            assert(self.short_path_tree.nodes@.take(0).filter(p) =~= Seq::<SptNode>::empty());
            assert(r@ =~= self.short_path_tree.nodes@.take(0).filter(p).map_values(f));
        }
        while i < self.short_path_tree.nodes.len()
            invariant
                i <= self.short_path_tree.nodes@.len(),
                r@ == self.short_path_tree.nodes@.take(i as int).filter(p).map_values(f),
                p == intra_vertex_pred(*self),
                f == intra_item_fn(*self),
                forall|j: int|
                    0 <= j < r@.len() ==> (#[trigger] r@[j]).path_type
                        == RoutingTablePathType::AreaInternal && r@[j].area_id == self.area_id
                        && r@[j].dest_type == RoutingTableItemType::Network && r@[j].external_cap
                        == self.external_routing_capability,
            decreases self.short_path_tree.nodes@.len() - i,
        {
            let node = &self.short_path_tree.nodes[i];
            proof {
                reveal(Seq::filter);
                let s1 = self.short_path_tree.nodes@.take(i + 1);
                assert(s1.drop_last() =~= self.short_path_tree.nodes@.take(i as int));
                assert(s1.last() == self.short_path_tree.nodes@[i as int]);
                if p(self.short_path_tree.nodes@[i as int]) {
                    assert(s1.filter(p) == self.short_path_tree.nodes@.take(i as int).filter(
                        p,
                    ).push(self.short_path_tree.nodes@[i as int]));
                    assert(s1.filter(p).map_values(f) =~= self.short_path_tree.nodes@.take(
                        i as int,
                    ).filter(p).map_values(f).push(f(self.short_path_tree.nodes@[i as int])));
                } else {
                    assert(s1.filter(p) == self.short_path_tree.nodes@.take(i as int).filter(p));
                }
            }
            if matches!(node.vtype, VertexType::Network) {
                let lsa = self.find_network_lsa(node.id);
                if let Some(li) = lsa {
                    proof {
                        let fli = first_network_lsa_idx(self.lsa_database, node.id);
                        assert(is_network_lsa_at(self.lsa_database, li as int, node.id)
                            && forall|j: int|
                            0 <= j < li ==> !is_network_lsa_at(self.lsa_database, j, node.id));
                        assert(0 <= fli < self.lsa_database.entries@.len() && is_network_lsa_at(
                            self.lsa_database,
                            fli,
                            node.id,
                        ) && forall|j: int|
                            0 <= j < fli ==> !is_network_lsa_at(self.lsa_database, j, node.id));
                        assert(fli == li as int);
                    }
                    let entry = &self.lsa_database.entries[li].0;
                    if let LsaBody::Network { network_mask, attached_routers: _ } = &entry.body {
                        let item = RoutingTableItem {
                            dest_type: RoutingTableItemType::Network,
                            dest_id: node.id & *network_mask,
                            addr_mask: *network_mask,
                            external_cap: self.external_routing_capability,
                            area_id: self.area_id,
                            path_type: RoutingTablePathType::AreaInternal,
                            cost: node.dist,
                            cost_t2: 0,
                            lsa_origin: entry.header.key(),
                            next_hop: if node.nexthops.len() > 0 {
                                node.nexthops[0]
                            } else {
                                0
                            },
                            ad_router: entry.header.advertising_router,
                        };
                        proof {
                            assert(item == f(self.short_path_tree.nodes@[i as int]));
                        }
                        r.push(item);
                    }
                }
            }
            i = i + 1;
        }
        proof {
            assert(self.short_path_tree.nodes@.take(self.short_path_tree.nodes@.len() as int)
                =~= self.short_path_tree.nodes@);
        }
        r
    }

    /// The network leaves this area's stub links yield (RFC 2328 section
    /// 16.1 stage 2): one item per stub link of every settled router's
    /// Router-LSA whose total cost stays within `LSInfinity`, and nothing
    /// else.
    #[verifier::spinoff_prover]
    pub fn get_stub_routing(&self) -> (r: Vec<RoutingTableItem>)
        ensures
            forall|j: int| #![trigger r@[j]]
                0 <= j < r@.len() ==> exists|i: int, k: int|
                    stub_valid(*self, i, k) && r@[j] == spec_stub_item(*self, i, k),
            forall|i: int, k: int|
                #[trigger] stub_valid(*self, i, k) ==> exists|j: int|
                    0 <= j < r@.len() && r@[j] == spec_stub_item(*self, i, k),
            forall|j: int|
                0 <= j < r@.len() ==> (#[trigger] r@[j]).path_type
                    == RoutingTablePathType::AreaInternal && r@[j].area_id == self.area_id
                    && r@[j].dest_type == RoutingTableItemType::Network && r@[j].external_cap
                    == self.external_routing_capability,
    {
        let mut r: Vec<RoutingTableItem> = Vec::new();
        let mut i: usize = 0;
        while i < self.short_path_tree.nodes.len()
            invariant
                i <= self.short_path_tree.nodes@.len(),
                forall|j: int| #![trigger r@[j]]
                    0 <= j < r@.len() ==> exists|i2: int, k2: int|
                        stub_valid(*self, i2, k2) && r@[j] == spec_stub_item(*self, i2, k2),
                forall|i2: int, k2: int|
                    #[trigger] stub_valid(*self, i2, k2) && 0 <= i2 < i ==> exists|j: int|
                        0 <= j < r@.len() && r@[j] == spec_stub_item(*self, i2, k2),
                forall|j: int|
                    0 <= j < r@.len() ==> (#[trigger] r@[j]).path_type
                        == RoutingTablePathType::AreaInternal && r@[j].area_id == self.area_id
                        && r@[j].dest_type == RoutingTableItemType::Network && r@[j].external_cap
                        == self.external_routing_capability,
            decreases self.short_path_tree.nodes@.len() - i,
        {
            let ghost r_pre = r@;
            self.push_stub_leaves(i, &mut r);
            proof {
                assert forall|j: int| 0 <= j < r_pre.len() implies r@[j] == r_pre[j] by {
                    assert(r@.take(r_pre.len() as int) == r_pre);
                    assert(r@.take(r_pre.len() as int)[j] == r@[j]);
                }
                assert forall|j: int| #![trigger r@[j]]
                    0 <= j < r@.len() implies exists|i2: int, k2: int|
                    stub_valid(*self, i2, k2) && r@[j] == spec_stub_item(*self, i2, k2) by {
                    if j < r_pre.len() {
                        assert(r@[j] == r_pre[j]);
                    }
                }
                assert forall|i2: int, k2: int|
                    #[trigger] stub_valid(*self, i2, k2) && 0 <= i2 < i + 1 implies exists|j: int|
                    0 <= j < r@.len() && r@[j] == spec_stub_item(*self, i2, k2) by {
                    if i2 < i as int {
                        let j0 = choose|j0: int|
                            0 <= j0 < r_pre.len() && r_pre[j0] == spec_stub_item(*self, i2, k2);
                        assert(r@[j0] == r_pre[j0]);
                    }
                }
                assert forall|j: int|
                    0 <= j < r@.len() implies (#[trigger] r@[j]).path_type
                    == RoutingTablePathType::AreaInternal && r@[j].area_id == self.area_id
                    && r@[j].dest_type == RoutingTableItemType::Network && r@[j].external_cap
                    == self.external_routing_capability by {
                    if j < r_pre.len() {
                        assert(r@[j] == r_pre[j]);
                    }
                }
            }
            i = i + 1;
        }
        proof {
            assert forall|i2: int, k2: int| #[trigger] stub_valid(*self, i2, k2) implies exists|
                j: int|
                0 <= j < r@.len() && r@[j] == spec_stub_item(*self, i2, k2) by {
                reveal(stub_valid);
                assert(0 <= i2 < self.short_path_tree.nodes@.len());
            }
        }
        r
    }

    /// Appends the network leaves of the stub links of the settled vertex
    /// at position `i`: all of them when it is a backed router, nothing
    /// otherwise.
    #[verifier::rlimit(100)]
    #[verifier::spinoff_prover]
    fn push_stub_leaves(&self, i: usize, r: &mut Vec<RoutingTableItem>)
        requires
            i < self.short_path_tree.nodes@.len(),
        ensures
            final (r)@.len() >= old(r)@.len(),
            final (r)@.take(old(r)@.len() as int) == old(r)@,
            forall|j: int| #![trigger final (r)@[j]]
                old(r)@.len() <= j < final (r)@.len() ==> exists|k: int|
                    stub_valid(*self, i as int, k) && final (r)@[j] == spec_stub_item(
                        *self,
                        i as int,
                        k,
                    ),
            forall|k: int|
                #[trigger] stub_valid(*self, i as int, k) ==> exists|j: int|
                    0 <= j < final (r)@.len() && final (r)@[j] == spec_stub_item(*self, i as int, k),
            forall|j: int|
                old(r)@.len() <= j < final (r)@.len() ==> (#[trigger] final (r)@[j]).path_type
                    == RoutingTablePathType::AreaInternal && final (r)@[j].area_id == self.area_id
                    && final (r)@[j].dest_type == RoutingTableItemType::Network && final (
                r)@[j].external_cap == self.external_routing_capability,
    {
        let node = &self.short_path_tree.nodes[i];
        if !matches!(node.vtype, VertexType::Router) {
            proof {
                assert forall|k2: int| !(#[trigger] stub_valid(*self, i as int, k2)) by {
                    reveal(stub_valid);
                }
                assert(r@.take(old(r)@.len() as int) =~= old(r)@);
            }
            return ;
        }
        let found = crate::spt::find_vertex_lsa(&self.lsa_database, VertexType::Router, node.id);
        let li = match found {
            Some(li) => li,
            None => {
                proof {
                    assert forall|k2: int| !(#[trigger] stub_valid(*self, i as int, k2)) by {
                        reveal(stub_valid);
                    }
                    assert(r@.take(old(r)@.len() as int) =~= old(r)@);
                }
                return ;
            },
        };
        proof {
            assert(r@.take(old(r)@.len() as int) =~= old(r)@);
        }
        match &self.lsa_database.entries[li].0.body {
            LsaBody::Router { links } => {
                let mut k: usize = 0;
                while k < links.len()
                    invariant
                        i < self.short_path_tree.nodes@.len(),
                        self.short_path_tree.nodes@[i as int].vtype == VertexType::Router,
                        li < self.lsa_database.entries@.len(),
                        li as int == crate::spt::first_vertex_lsa_idx(
                            self.lsa_database,
                            VertexType::Router,
                            self.short_path_tree.nodes@[i as int].id,
                        ),
                        crate::spt::vertex_backed(
                            self.lsa_database,
                            VertexType::Router,
                            self.short_path_tree.nodes@[i as int].id,
                        ),
                        links@ == (match self.lsa_database.entries@[li as int].0.body@ {
                            LsaBodyV::Router { links } => links,
                            _ => Seq::empty(),
                        }),
                        k <= links@.len(),
                        r@.len() >= old(r)@.len(),
                        r@.take(old(r)@.len() as int) == old(r)@,
                        forall|j: int| #![trigger r@[j]]
                            old(r)@.len() <= j < r@.len() ==> exists|k2: int|
                                stub_valid(*self, i as int, k2) && r@[j] == spec_stub_item(
                                    *self,
                                    i as int,
                                    k2,
                                ),
                        forall|k2: int|
                            #[trigger] stub_valid(*self, i as int, k2) && 0 <= k2 < k ==> exists|
                                j: int|
                                0 <= j < r@.len() && r@[j] == spec_stub_item(*self, i as int, k2),
                        forall|j: int|
                            old(r)@.len() <= j < r@.len() ==> (#[trigger] r@[j]).path_type
                                == RoutingTablePathType::AreaInternal && r@[j].area_id
                                == self.area_id && r@[j].dest_type == RoutingTableItemType::Network
                                && r@[j].external_cap == self.external_routing_capability,
                    decreases links@.len() - k,
                {
                    let l = links[k];
                    let d = self.short_path_tree.nodes[i].dist;
                    if l.link_type == crate::lsa::LINK_STUB && (d as u64) + (l.metric as u64) <= (
                    LSInfinity as u64) {
                        let entry = &self.lsa_database.entries[li].0;
                        let item = RoutingTableItem {
                            dest_type: RoutingTableItemType::Network,
                            dest_id: l.link_id & l.link_data,
                            addr_mask: l.link_data,
                            external_cap: self.external_routing_capability,
                            area_id: self.area_id,
                            path_type: RoutingTablePathType::AreaInternal,
                            cost: d + (l.metric as u32),
                            cost_t2: 0,
                            lsa_origin: entry.header.key(),
                            next_hop: if self.short_path_tree.nodes[i].nexthops.len() > 0 {
                                self.short_path_tree.nodes[i].nexthops[0]
                            } else {
                                0
                            },
                            ad_router: entry.header.advertising_router,
                        };
                        let ghost r_pre = r@;
                        proof {
                            reveal(stub_valid);
                            reveal(spec_stub_item);
                            assert(stub_valid(*self, i as int, k as int));
                            assert(item == spec_stub_item(*self, i as int, k as int));
                        }
                        r.push(item);
                        proof {
                            assert(r@ == r_pre.push(item));
                            assert(forall|j: int| 0 <= j < r_pre.len() ==> r@[j] == r_pre[j]);
                            assert(r@.take(old(r)@.len() as int) =~= r_pre.take(
                                old(r)@.len() as int,
                            ));
                            assert(r@[r@.len() - 1] == spec_stub_item(*self, i as int, k as int));
                        }
                    } else {
                        proof {
                            assert(!stub_valid(*self, i as int, k as int)) by {
                                reveal(stub_valid);
                            }
                        }
                    }
                    k = k + 1;
                }
                proof {
                    assert forall|k2: int| #[trigger] stub_valid(*self, i as int, k2) implies exists|
                        j: int|
                        0 <= j < r@.len() && r@[j] == spec_stub_item(*self, i as int, k2) by {
                        reveal(stub_valid);
                        assert(0 <= k2 < links@.len());
                    }
                    assert forall|j: int| #![trigger r@[j]]
                        old(r)@.len() <= j < r@.len() implies exists|k2: int|
                        stub_valid(*self, i as int, k2) && r@[j] == spec_stub_item(
                            *self,
                            i as int,
                            k2,
                        ) by {}
                }
            },
            _ => {
                proof {
                    assert forall|k2: int| !(#[trigger] stub_valid(*self, i as int, k2)) by {
                        reveal(stub_valid);
                    }
                    assert(r@.take(old(r)@.len() as int) =~= old(r)@);
                }
            },
        }
    }

    /// Position of the first Network-LSA whose link-state id is `id`, if
    /// any.
    fn find_network_lsa(&self, id: u32) -> (r: Option<usize>)
        ensures
            match r {
                Some(i) => i < self.lsa_database.entries@.len() && is_network_lsa_at(
                    self.lsa_database,
                    i as int,
                    id,
                ) && forall|j: int| 0 <= j < i ==> !is_network_lsa_at(self.lsa_database, j, id),
                None => !has_network_lsa(self.lsa_database, id),
            },
    {
        let mut i: usize = 0;
        while i < self.lsa_database.entries.len()
            invariant
                i <= self.lsa_database.entries@.len(),
                forall|j: int|
                    0 <= j < i ==> !((#[trigger] self.lsa_database.entries@[j]).0.header.ls_type
                        == NETWORK_LSA && self.lsa_database.entries@[j].0.header.link_state_id == id
                        && self.lsa_database.entries@[j].0.body@ is Network),
            decreases self.lsa_database.entries@.len() - i,
        {
            let e = &self.lsa_database.entries[i].0;
            if e.header.ls_type == NETWORK_LSA && e.header.link_state_id == id && matches!(
                e.body,
                LsaBody::Network { .. },
            ) {
                return Some(i);
            }
            i = i + 1;
        }
        None
    }
}

/// After position `i` of a well-formed table is overwritten with `it` —
/// appended, when `i` is the old length — under `it`'s own destination,
/// lookups of that destination find `it` and lookups of every other are
/// unchanged.
proof fn lemma_upsert_find(pre: RoutingTable, post: RoutingTable, i: int, it: RoutingTableItem)
    requires
        pre.wf(),
        post.wf(),
        0 <= i < post.table@.len(),
        i <= pre.table@.len(),
        post.table@[i] == it,
        i < pre.table@.len() ==> pre.table@[i].dest_id == it.dest_id && pre.table@[i].addr_mask
            == it.addr_mask && post.table@ == pre.table@.update(i, it),
        i == pre.table@.len() ==> post.table@ == pre.table@.push(it) && !pre.spec_contains(
            it.dest_id,
            it.addr_mask,
        ),
    ensures
        post.spec_find(it.dest_id, it.addr_mask) == Some(it),
        forall|d: u32, m: u32|
            !(d == it.dest_id && m == it.addr_mask) ==> #[trigger] post.spec_find(d, m)
                == pre.spec_find(d, m),
{
    assert(forall|j: int|
        0 <= j < post.table@.len() && j != i ==> post.table@[j] == pre.table@[j]);
    assert(post.spec_contains(it.dest_id, it.addr_mask));
    assert(post.idx_of_key(it.dest_id, it.addr_mask) == i) by {
        let j = post.idx_of_key(it.dest_id, it.addr_mask);
        assert(0 <= j < post.table@.len() && post.table@[j].dest_id == it.dest_id
            && post.table@[j].addr_mask == it.addr_mask);
        if j != i {
            assert(post.table@[j].dest_id == post.table@[i].dest_id && post.table@[j].addr_mask
                == post.table@[i].addr_mask);
        }
    }
    assert forall|d: u32, m: u32|
        !(d == it.dest_id && m == it.addr_mask) implies #[trigger] post.spec_find(d, m)
        == pre.spec_find(d, m) by {
        if pre.spec_contains(d, m) {
            let j = pre.idx_of_key(d, m);
            assert(0 <= j < pre.table@.len() && pre.table@[j].dest_id == d
                && pre.table@[j].addr_mask == m);
            assert(j != i);
            assert(post.table@[j] == pre.table@[j]);
            assert(post.spec_contains(d, m));
            let j2 = post.idx_of_key(d, m);
            assert(0 <= j2 < post.table@.len() && post.table@[j2].dest_id == d
                && post.table@[j2].addr_mask == m);
            assert(j2 != i);
            assert(post.table@[j2] == pre.table@[j2]);
            assert(j2 == j);
        } else {
            if post.spec_contains(d, m) {
                let j2 = post.idx_of_key(d, m);
                assert(0 <= j2 < post.table@.len() && post.table@[j2].dest_id == d
                    && post.table@[j2].addr_mask == m);
                assert(j2 != i);
                assert(post.table@[j2] == pre.table@[j2]);
            }
        }
    }
}

/// Whether `db` holds a Network-LSA — header and body — whose link-state
/// id is `id`.
pub open spec fn has_network_lsa(db: LsaDb, id: u32) -> bool {
    exists|li: int|
        0 <= li < db.entries@.len() && (#[trigger] db.entries@[li]).0.header.ls_type == NETWORK_LSA
            && db.entries@[li].0.header.link_state_id == id && db.entries@[li].0.body@ is Network
}

/// Whether two byte strings hold the same bytes.
fn bytes_eq(a: &Vec<u8>, b: &Vec<u8>) -> (r: bool)
    ensures
        r == (a@ == b@),
{
    if a.len() != b.len() {
        return false;
    }
    let mut i: usize = 0;
    while i < a.len()
        invariant
            a@.len() == b@.len(),
            i <= a@.len(),
            forall|j: int| 0 <= j < i ==> a@[j] == b@[j],
        decreases a@.len() - i,
    {
        if a[i] != b[i] {
            return false;
        }
        i = i + 1;
    }
    proof {
        assert(a@ =~= b@);
    }
    true
}

/// Position of the first interface whose name — as bytes — is `want`: the
/// compute half of looking an interface up by its configured name; the OS
/// enumeration itself stays outside the core.
pub fn find_interface_by_name(names: &Vec<Vec<u8>>, want: &Vec<u8>) -> (r: Option<usize>)
    ensures
        match r {
            Some(i) => i < names@.len() && names@[i as int]@ == want@ && forall|j: int|
                0 <= j < i ==> (#[trigger] names@[j])@ != want@,
            None => forall|j: int| 0 <= j < names@.len() ==> (#[trigger] names@[j])@ != want@,
        },
{
    let mut i: usize = 0;
    while i < names.len()
        invariant
            i <= names@.len(),
            forall|j: int| 0 <= j < i ==> (#[trigger] names@[j])@ != want@,
        decreases names@.len() - i,
    {
        if bytes_eq(&names[i], want) {
            return Some(i);
        }
        i = i + 1;
    }
    None
}

/// Position of the first interface — given as `(address, mask)` pairs —
/// whose subnet contains `next_hop`, if any: the interface an installable
/// route for that next hop leaves through.
pub fn find_interface_for(ifaces: &Vec<(u32, u32)>, next_hop: u32) -> (r: Option<usize>)
    ensures
        match r {
            Some(i) => i < ifaces@.len() && (ifaces@[i as int].0 & ifaces@[i as int].1) == (next_hop
                & ifaces@[i as int].1) && forall|j: int|
                0 <= j < i ==> ((#[trigger] ifaces@[j]).0 & ifaces@[j].1) != (next_hop
                    & ifaces@[j].1),
            None => forall|j: int|
                0 <= j < ifaces@.len() ==> ((#[trigger] ifaces@[j]).0 & ifaces@[j].1) != (next_hop
                    & ifaces@[j].1),
        },
{
    let mut i: usize = 0;
    while i < ifaces.len()
        invariant
            i <= ifaces@.len(),
            forall|j: int|
                0 <= j < i ==> ((#[trigger] ifaces@[j]).0 & ifaces@[j].1) != (next_hop
                    & ifaces@[j].1),
        decreases ifaces@.len() - i,
    {
        let (ip, mask) = ifaces[i];
        if (ip & mask) == (next_hop & mask) {
            return Some(i);
        }
        i = i + 1;
    }
    None
}

} // verus!
