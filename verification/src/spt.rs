//! Shortest-path tree: Dijkstra over an area's link-state database, rooted
//! at this router, retaining all equal-cost parallel paths (ECMP). At equal
//! distance, network vertices are settled before router vertices.

use vstd::prelude::*;

use crate::constant::LSInfinity;
use crate::lsa::{copy_vec, LsaBody, LINK_P2P, LINK_TRANSIT, NETWORK_LSA, ROUTER_LSA};
use crate::lsdb::LsaDb;

verus! {

/// Kind of a vertex of the shortest-path tree.
#[derive(Clone, Copy, PartialEq, Eq, Structural, Debug)]
pub enum VertexType {
    Router,
    Network,
}

/// One settled vertex of the tree: its kind, the link-state id of the LSA
/// it stands for, its distance from the root, and every next hop of an
/// equal-cost shortest path towards it (empty at the root itself).
#[derive(Debug)]
pub struct SptNode {
    pub vtype: VertexType,
    pub id: u32,
    pub dist: u32,
    pub nexthops: Vec<u32>,
}

/// The shortest-path tree of one area, vertices in the order Dijkstra
/// settled them.
#[derive(Debug)]
pub struct ShortPathTree {
    pub nodes: Vec<SptNode>,
}

/// Distances never exceed `LSInfinity`.
pub open spec fn dists_bounded(s: Seq<SptNode>) -> bool {
    forall|i: int| 0 <= i < s.len() ==> (#[trigger] s[i]).dist <= LSInfinity
}

/// Every candidate lies at least as far from the root as every settled
/// vertex: the frontier never undercuts the tree.
pub open spec fn frontier_no_closer(spt: Seq<SptNode>, cands: Seq<SptNode>) -> bool {
    forall|i: int, j: int|
        0 <= i < spt.len() && 0 <= j < cands.len() ==> (#[trigger] spt[i]).dist
            <= (#[trigger] cands[j]).dist
}

/// Distances non-decreasing in order of settlement.
pub open spec fn sorted_dists(s: Seq<SptNode>) -> bool {
    forall|i: int, j: int| 0 <= i <= j < s.len() ==> (#[trigger] s[i]).dist <= (#[trigger] s[j]).dist
}

/// The link-state type of the LSA a vertex kind stands for.
pub open spec fn lsa_type_of(vtype: VertexType) -> u8 {
    if vtype == VertexType::Router {
        ROUTER_LSA
    } else {
        NETWORK_LSA
    }
}

/// Whether `db` holds the LSA the vertex `(vtype, id)` stands for.
pub open spec fn vertex_backed(db: LsaDb, vtype: VertexType, id: u32) -> bool {
    exists|li: int|
        0 <= li < db.entries@.len() && (#[trigger] db.entries@[li]).0.header.ls_type == lsa_type_of(
            vtype,
        ) && db.entries@[li].0.header.link_state_id == id
}

/// No two entries stand for the same vertex.
pub open spec fn distinct_vertices(s: Seq<SptNode>) -> bool {
    forall|i: int, j: int|
        0 <= i < s.len() && 0 <= j < s.len() && i != j ==> !((#[trigger] s[i]).vtype == (
        #[trigger] s[j]).vtype && s[i].id == s[j].id)
}

/// No vertex stands in both lists.
pub open spec fn disjoint_vertices(a: Seq<SptNode>, b: Seq<SptNode>) -> bool {
    forall|i: int, j: int|
        0 <= i < a.len() && 0 <= j < b.len() ==> !((#[trigger] a[i]).vtype == (#[trigger] b[j]).vtype
            && a[i].id == b[j].id)
}

/// Position of the first LSA the vertex `(vtype, id)` stands for
/// (meaningful when the vertex is backed).
pub open spec fn first_vertex_lsa_idx(db: LsaDb, vtype: VertexType, id: u32) -> int {
    choose|li: int|
        0 <= li < db.entries@.len() && (#[trigger] db.entries@[li]).0.header.ls_type == lsa_type_of(
            vtype,
        ) && db.entries@[li].0.header.link_state_id == id && (forall|j: int|
            0 <= j < li ==> !((#[trigger] db.entries@[j]).0.header.ls_type == lsa_type_of(vtype)
                && db.entries@[j].0.header.link_state_id == id))
}

/// Whether the LSA of a settled vertex `v` offers a link to `(tv, tid)`
/// that Dijkstra follows: a point-to-point or transit link whose total cost
/// stays within `LSInfinity`, or one of a network's attached routers (at
/// cost zero).
pub open spec fn follows_link(db: LsaDb, v: SptNode, tv: VertexType, tid: u32) -> bool {
    vertex_backed(db, v.vtype, v.id) && {
        let e = db.entries@[first_vertex_lsa_idx(db, v.vtype, v.id)].0;
        match e.body@ {
            crate::lsa::LsaBodyV::Router { links } => exists|k: int|
                0 <= k < links.len() && (((#[trigger] links[k]).link_type == LINK_TRANSIT && tv
                    == VertexType::Network) || (links[k].link_type == LINK_P2P && tv
                    == VertexType::Router)) && links[k].link_id == tid && v.dist + links[k].metric
                    <= LSInfinity,
            crate::lsa::LsaBodyV::Network { attached_routers, .. } => tv == VertexType::Router
                && attached_routers.contains(tid),
            _ => false,
        }
    }
}

/// Whether one of the first `upto` links offers a followed edge to
/// `(tv, tid)` from distance `d`.
pub open spec fn router_link_match(
    links: Seq<crate::lsa::RouterLink>,
    upto: int,
    d: u32,
    tv: VertexType,
    tid: u32,
) -> bool {
    exists|k: int|
        0 <= k < upto && (((#[trigger] links[k]).link_type == LINK_TRANSIT && tv
            == VertexType::Network) || (links[k].link_type == LINK_P2P && tv == VertexType::Router))
            && links[k].link_id == tid && d + links[k].metric <= LSInfinity
}

/// Whether one of the first `upto` attached routers is `(tv, tid)`.
pub open spec fn attached_match(att: Seq<u32>, upto: int, tv: VertexType, tid: u32) -> bool {
    tv == VertexType::Router && exists|k: int| 0 <= k < upto && att[k] == tid
}

/// Whether some entry of the list stands for the vertex `(tv, tid)`.
pub open spec fn settled(s: Seq<SptNode>, tv: VertexType, tid: u32) -> bool {
    exists|j: int| 0 <= j < s.len() && (#[trigger] s[j]).vtype == tv && s[j].id == tid
}

/// The tree is closed under the links it follows: every backed target of a
/// link Dijkstra follows from a settled vertex is itself settled. Together
/// with the root standing first, every vertex reachable from the root over
/// such links is settled.
pub open spec fn closed_under_links(db: LsaDb, s: Seq<SptNode>) -> bool {
    forall|i: int, tv: VertexType, tid: u32|
        0 <= i < s.len() && #[trigger] follows_link(db, s[i], tv, tid) && vertex_backed(db, tv, tid)
            ==> settled(s, tv, tid)
}

impl ShortPathTree {
    /// Distances are non-decreasing in settlement order: a vertex settled
    /// earlier is never farther from the root than one settled later.
    pub open spec fn sorted_by_dist(self) -> bool {
        sorted_dists(self.nodes@)
    }

    /// An empty tree.
    pub fn new() -> (r: ShortPathTree)
        ensures
            r.nodes@.len() == 0,
            r.sorted_by_dist(),
    {
        ShortPathTree { nodes: Vec::new() }
    }

    /// Position of the settled vertex `(vtype, id)`, if any.
    pub fn find(&self, vtype: VertexType, id: u32) -> (r: Option<usize>)
        ensures
            match r {
                Some(i) => i < self.nodes@.len() && self.nodes@[i as int].vtype == vtype
                    && self.nodes@[i as int].id == id,
                None => forall|i: int|
                    0 <= i < self.nodes@.len() ==> !((#[trigger] self.nodes@[i]).vtype == vtype
                        && self.nodes@[i].id == id),
            },
    {
        find_in(&self.nodes, vtype, id)
    }

    /// Dijkstra over `db` with the router `root` as root (RFC 2328 section
    /// 16.1). Vertices are settled closest first — the returned tree is
    /// sorted by distance — networks before routers at equal distance (the
    /// tie-break is the contract of `extract_best`), and every equal-cost
    /// parallel path contributes a next hop (the merge is the contract of
    /// `relax`). Each vertex is settled at most once, and every settled
    /// vertex but the root stands for a Router- or Network-LSA of `db`. One
    /// vertex is settled per round; a round per database entry, and one for
    /// the root, suffice for every reachable vertex.
    #[verifier::rlimit(100)]
    #[verifier::spinoff_prover]
    pub fn build(db: &LsaDb, root: u32) -> (r: ShortPathTree)
        ensures
            r.sorted_by_dist(),
            r.nodes@.len() > 0,
            r.nodes@[0].vtype == VertexType::Router && r.nodes@[0].id == root && r.nodes@[0].dist
                == 0,
            distinct_vertices(r.nodes@),
            forall|i: int|
                1 <= i < r.nodes@.len() ==> vertex_backed(
                    *db,
                    (#[trigger] r.nodes@[i]).vtype,
                    r.nodes@[i].id,
                ),
            closed_under_links(*db, r.nodes@),
    {
        let mut spt: Vec<SptNode> = Vec::new();
        let mut cands: Vec<SptNode> = Vec::new();
        cands.push(SptNode { vtype: VertexType::Router, id: root, dist: 0, nexthops: Vec::new() });
        let mut fuel: usize = db.entries.len();
        let mut more: bool = true;
        while cands.len() > 0 && more
            invariant
                !more ==> spt@.len() > 0,
                !more ==> cands@.len() == 0,
                more ==> fuel as int == db.entries@.len() - spt@.len(),
                forall|a: int, tv: VertexType, tid: u32|
                    0 <= a < spt@.len() && #[trigger] follows_link(*db, spt@[a], tv, tid)
                        && vertex_backed(*db, tv, tid) ==> settled(spt@, tv, tid) || settled(
                        cands@,
                        tv,
                        tid,
                    ),
                dists_bounded(spt@),
                dists_bounded(cands@),
                frontier_no_closer(spt@, cands@),
                sorted_dists(spt@),
                distinct_vertices(spt@),
                distinct_vertices(cands@),
                disjoint_vertices(spt@, cands@),
                spt@.len() == 0 ==> cands@.len() == 1 && cands@[0].vtype == VertexType::Router
                    && cands@[0].id == root && cands@[0].dist == 0,
                spt@.len() > 0 ==> spt@[0].vtype == VertexType::Router && spt@[0].id == root
                    && spt@[0].dist == 0,
                forall|i: int|
                    1 <= i < spt@.len() ==> vertex_backed(
                        *db,
                        (#[trigger] spt@[i]).vtype,
                        spt@[i].id,
                    ),
                spt@.len() > 0 ==> forall|j: int|
                    0 <= j < cands@.len() ==> vertex_backed(
                        *db,
                        (#[trigger] cands@[j]).vtype,
                        cands@[j].id,
                    ),
            decreases fuel, (if more { 1int } else { 0int }),
        {
            // extract the closest candidate, networks first at equal distance
            let best = extract_best(&cands);
            let ghost vmin = cands@[best as int];
            let ghost cands_pre = cands@;
            let v = cands.remove(best);
            let ghost spt_pre = spt@;
            let is_root = spt.len() == 0;
            spt.push(v);
            let vi = spt.len() - 1;
            proof {
                assert(spt@ == spt_pre.push(vmin));
                assert(spt@[vi as int] == vmin);
                assert forall|a: int, b: int| 0 <= a <= b < spt@.len() implies (
                #[trigger] spt@[a]).dist <= (#[trigger] spt@[b]).dist by {
                    if b < spt@.len() - 1 {
                        assert(spt@[a] == spt_pre[a] && spt@[b] == spt_pre[b]);
                    } else if a < spt@.len() - 1 {
                        assert(spt@[a] == spt_pre[a]);
                        assert(spt_pre[a].dist <= vmin.dist);
                    }
                }
                assert forall|a: int, j: int|
                    0 <= a < spt@.len() && 0 <= j < cands@.len() implies (#[trigger] spt@[a]).dist
                    <= (#[trigger] cands@[j]).dist by {
                    assert(vmin.dist <= cands@[j].dist);
                    if a < spt@.len() - 1 {
                        assert(spt@[a] == spt_pre[a]);
                    }
                }
                assert(forall|j: int|
                    0 <= j < cands@.len() ==> cands@[j] == cands_pre[if j < best as int {
                        j
                    } else {
                        j + 1
                    }]);
                assert(distinct_vertices(cands@));
                assert forall|a: int, b: int|
                    0 <= a < spt@.len() && 0 <= b < spt@.len() && a != b implies !((
                #[trigger] spt@[a]).vtype == (#[trigger] spt@[b]).vtype && spt@[a].id
                    == spt@[b].id) by {
                    if a < spt@.len() - 1 && b < spt@.len() - 1 {
                        assert(spt@[a] == spt_pre[a] && spt@[b] == spt_pre[b]);
                    } else if a < spt@.len() - 1 {
                        assert(spt@[a] == spt_pre[a] && spt@[b] == vmin);
                    } else if b < spt@.len() - 1 {
                        assert(spt@[a] == vmin && spt@[b] == spt_pre[b]);
                    }
                }
                assert(disjoint_vertices(spt@, cands@));
                assert forall|a: int| 1 <= a < spt@.len() implies vertex_backed(
                    *db,
                    (#[trigger] spt@[a]).vtype,
                    spt@[a].id,
                ) by {
                    if a < spt@.len() - 1 {
                        assert(spt@[a] == spt_pre[a]);
                    } else {
                        assert(spt@[a] == vmin);
                        assert(spt_pre.len() > 0);
                    }
                }
                assert forall|a: int, tv: VertexType, tid: u32|
                    0 <= a < spt@.len() - 1 && #[trigger] follows_link(*db, spt@[a], tv, tid)
                        && vertex_backed(*db, tv, tid) implies settled(spt@, tv, tid) || settled(
                    cands@,
                    tv,
                    tid,
                ) by {
                    assert(spt@[a] == spt_pre[a]);
                    assert(follows_link(*db, spt_pre[a], tv, tid));
                    if settled(spt_pre, tv, tid) {
                        let j = choose|j: int|
                            0 <= j < spt_pre.len() && (#[trigger] spt_pre[j]).vtype == tv
                                && spt_pre[j].id == tid;
                        assert(spt@[j] == spt_pre[j]);
                        assert(settled(spt@, tv, tid));
                    } else {
                        let j = choose|j: int|
                            0 <= j < cands_pre.len() && (#[trigger] cands_pre[j]).vtype == tv
                                && cands_pre[j].id == tid;
                        if j == best as int {
                            assert(spt@[spt@.len() - 1] == vmin && vmin == cands_pre[j]);
                            assert(settled(spt@, tv, tid));
                        } else {
                            let jp = if j < best as int {
                                j
                            } else {
                                j - 1
                            };
                            assert(cands@[jp] == cands_pre[j]);
                            assert(settled(cands@, tv, tid));
                        }
                    }
                }
            }
            // relax the settled vertex's outgoing links
            // relax the settled vertex's outgoing links
            let vlsa = find_vertex_lsa(db, spt[vi].vtype, spt[vi].id);
            match vlsa {
                Some(li) => {
                    let ghost lks: Seq<crate::lsa::RouterLink> = match db.entries@[li as int].0.body@ {
                        crate::lsa::LsaBodyV::Router { links } => links,
                        _ => Seq::empty(),
                    };
                    let ghost att: Seq<u32> = match db.entries@[li as int].0.body@ {
                        crate::lsa::LsaBodyV::Network { attached_routers, .. } => attached_routers,
                        _ => Seq::empty(),
                    };
                    match &db.entries[li].0.body {
                        LsaBody::Router { links } => {
                            let mut k: usize = 0;
                            while k < links.len()
                                invariant
                                    dists_bounded(spt@),
                                    dists_bounded(cands@),
                                    frontier_no_closer(spt@, cands@),
                                    sorted_dists(spt@),
                                    distinct_vertices(spt@),
                                    distinct_vertices(cands@),
                                    disjoint_vertices(spt@, cands@),
                                    vi == spt@.len() - 1,
                                    spt@.len() > 0 ==> spt@[0].vtype == VertexType::Router
                                        && spt@[0].id == root && spt@[0].dist == 0,
                                    spt@.len() > 0,
                                    forall|a: int|
                                        1 <= a < spt@.len() ==> vertex_backed(
                                            *db,
                                            (#[trigger] spt@[a]).vtype,
                                            spt@[a].id,
                                        ),
                                    forall|j: int|
                                        0 <= j < cands@.len() ==> vertex_backed(
                                            *db,
                                            (#[trigger] cands@[j]).vtype,
                                            cands@[j].id,
                                        ),
                                    k <= links@.len(),
                                    links@ == lks,
                                    spt@[vi as int] == vmin,
                                    forall|a: int, tv: VertexType, tid: u32|
                                        0 <= a < spt@.len() - 1 && #[trigger] follows_link(
                                            *db,
                                            spt@[a],
                                            tv,
                                            tid,
                                        ) && vertex_backed(*db, tv, tid) ==> settled(spt@, tv, tid)
                                            || settled(cands@, tv, tid),
                                    forall|tv: VertexType, tid: u32|
                                        #[trigger] router_link_match(
                                            lks,
                                            k as int,
                                            vmin.dist,
                                            tv,
                                            tid,
                                        ) && vertex_backed(*db, tv, tid) ==> settled(spt@, tv, tid)
                                            || settled(cands@, tv, tid),
                                decreases links@.len() - k,
                            {
                                let l = links[k];
                                let ghost cov_pre = cands@;
                                if l.link_type == LINK_TRANSIT || l.link_type == LINK_P2P {
                                    let tt = if l.link_type == LINK_TRANSIT {
                                        VertexType::Network
                                    } else {
                                        VertexType::Router
                                    };
                                    let base = spt[vi].dist;
                                    if (base as u64) + (l.metric as u64) <= (LSInfinity as u64) {
                                        let nd = base + (l.metric as u32);
                                        proof {
                                            assert forall|a: int|
                                                0 <= a < spt@.len() implies (
                                            #[trigger] spt@[a]).dist <= nd by {
                                                assert(spt@[a].dist <= spt@[vi as int].dist);
                                            }
                                        }
                                        let already = find_in(&spt, tt, l.link_id);
                                        let backed = find_vertex_lsa(db, tt, l.link_id);
                                        if already.is_none() && backed.is_some() {
                                            let hops: Vec<u32> = if is_root {
                                                let mut h: Vec<u32> = Vec::new();
                                                h.push(l.link_data);
                                                h
                                            } else {
                                                copy_vec(&spt[vi].nexthops)
                                            };
                                            relax(&spt, &mut cands, tt, l.link_id, nd, hops);
                                        }
                                    }
                                }
                                proof {
                                    assert forall|j0: int| 0 <= j0 < cov_pre.len() implies settled(
                                        cands@,
                                        (#[trigger] cov_pre[j0]).vtype,
                                        cov_pre[j0].id,
                                    ) by {
                                        if cands@ == cov_pre {
                                            assert(cands@[j0] == cov_pre[j0]);
                                        }
                                    }
                                    assert forall|tv: VertexType, tid: u32|
                                        #[trigger] router_link_match(
                                            lks,
                                            k + 1,
                                            vmin.dist,
                                            tv,
                                            tid,
                                        ) && vertex_backed(*db, tv, tid) implies settled(
                                        spt@,
                                        tv,
                                        tid,
                                    ) || settled(cands@, tv, tid) by {
                                        let kk = choose|kk: int|
                                            0 <= kk < k + 1 && (((#[trigger] lks[kk]).link_type
                                                == LINK_TRANSIT && tv == VertexType::Network) || (
                                            lks[kk].link_type == LINK_P2P && tv
                                                == VertexType::Router)) && lks[kk].link_id == tid
                                                && vmin.dist + lks[kk].metric <= LSInfinity;
                                        if kk < k as int {
                                            assert(router_link_match(
                                                lks,
                                                k as int,
                                                vmin.dist,
                                                tv,
                                                tid,
                                            ));
                                            if settled(cov_pre, tv, tid) {
                                                let j0 = choose|j0: int|
                                                    0 <= j0 < cov_pre.len() && (
                                                    #[trigger] cov_pre[j0]).vtype == tv
                                                        && cov_pre[j0].id == tid;
                                                assert(settled(cands@, tv, tid));
                                            }
                                        } else {
                                            assert(lks[k as int] == l);
                                        }
                                    }
                                }
                                k = k + 1;
                            }
                            proof {
                                assert forall|a: int, tv: VertexType, tid: u32|
                                    0 <= a < spt@.len() && #[trigger] follows_link(
                                        *db,
                                        spt@[a],
                                        tv,
                                        tid,
                                    ) && vertex_backed(*db, tv, tid) implies settled(
                                    spt@,
                                    tv,
                                    tid,
                                ) || settled(cands@, tv, tid) by {
                                    if a == spt@.len() - 1 {
                                        assert(spt@[a] == vmin);
                                        assert(li as int == first_vertex_lsa_idx(
                                            *db,
                                            vmin.vtype,
                                            vmin.id,
                                        ));
                                        assert(router_link_match(
                                            lks,
                                            lks.len() as int,
                                            vmin.dist,
                                            tv,
                                            tid,
                                        ));
                                    }
                                }
                            }
                        },
                        LsaBody::Network { network_mask: _, attached_routers } => {
                            let mut k: usize = 0;
                            while k < attached_routers.len()
                                invariant
                                    dists_bounded(spt@),
                                    dists_bounded(cands@),
                                    frontier_no_closer(spt@, cands@),
                                    sorted_dists(spt@),
                                    distinct_vertices(spt@),
                                    distinct_vertices(cands@),
                                    disjoint_vertices(spt@, cands@),
                                    vi == spt@.len() - 1,
                                    spt@.len() > 0 ==> spt@[0].vtype == VertexType::Router
                                        && spt@[0].id == root && spt@[0].dist == 0,
                                    spt@.len() > 0,
                                    forall|a: int|
                                        1 <= a < spt@.len() ==> vertex_backed(
                                            *db,
                                            (#[trigger] spt@[a]).vtype,
                                            spt@[a].id,
                                        ),
                                    forall|j: int|
                                        0 <= j < cands@.len() ==> vertex_backed(
                                            *db,
                                            (#[trigger] cands@[j]).vtype,
                                            cands@[j].id,
                                        ),
                                    k <= attached_routers@.len(),
                                    attached_routers@ == att,
                                    spt@[vi as int] == vmin,
                                    forall|a: int, tv: VertexType, tid: u32|
                                        0 <= a < spt@.len() - 1 && #[trigger] follows_link(
                                            *db,
                                            spt@[a],
                                            tv,
                                            tid,
                                        ) && vertex_backed(*db, tv, tid) ==> settled(spt@, tv, tid)
                                            || settled(cands@, tv, tid),
                                    forall|tv: VertexType, tid: u32|
                                        #[trigger] attached_match(att, k as int, tv, tid)
                                            && vertex_backed(*db, tv, tid) ==> settled(
                                            spt@,
                                            tv,
                                            tid,
                                        ) || settled(cands@, tv, tid),
                                decreases attached_routers@.len() - k,
                            {
                                let rid = attached_routers[k];
                                let ghost cov_pre = cands@;
                                let nd = spt[vi].dist;
                                proof {
                                    assert forall|a: int| 0 <= a < spt@.len() implies (
                                    #[trigger] spt@[a]).dist <= nd by {
                                        assert(spt@[a].dist <= spt@[vi as int].dist);
                                    }
                                }
                                let already = find_in(&spt, VertexType::Router, rid);
                                let backed = find_vertex_lsa(db, VertexType::Router, rid);
                                if already.is_none() && backed.is_some() {
                                    let hops = copy_vec(&spt[vi].nexthops);
                                    relax(&spt, &mut cands, VertexType::Router, rid, nd, hops);
                                }
                                proof {
                                    assert forall|j0: int| 0 <= j0 < cov_pre.len() implies settled(
                                        cands@,
                                        (#[trigger] cov_pre[j0]).vtype,
                                        cov_pre[j0].id,
                                    ) by {
                                        if cands@ == cov_pre {
                                            assert(cands@[j0] == cov_pre[j0]);
                                        }
                                    }
                                    assert forall|tv: VertexType, tid: u32|
                                        #[trigger] attached_match(att, k + 1, tv, tid)
                                            && vertex_backed(*db, tv, tid) implies settled(
                                        spt@,
                                        tv,
                                        tid,
                                    ) || settled(cands@, tv, tid) by {
                                        let kk = choose|kk: int|
                                            0 <= kk < k + 1 && att[kk] == tid;
                                        if kk < k as int {
                                            assert(attached_match(att, k as int, tv, tid));
                                            if settled(cov_pre, tv, tid) {
                                                let j0 = choose|j0: int|
                                                    0 <= j0 < cov_pre.len() && (
                                                    #[trigger] cov_pre[j0]).vtype == tv
                                                        && cov_pre[j0].id == tid;
                                                assert(settled(cands@, tv, tid));
                                            }
                                        } else {
                                            assert(att[k as int] == rid);
                                        }
                                    }
                                }
                                k = k + 1;
                            }
                            proof {
                                assert forall|a: int, tv: VertexType, tid: u32|
                                    0 <= a < spt@.len() && #[trigger] follows_link(
                                        *db,
                                        spt@[a],
                                        tv,
                                        tid,
                                    ) && vertex_backed(*db, tv, tid) implies settled(
                                    spt@,
                                    tv,
                                    tid,
                                ) || settled(cands@, tv, tid) by {
                                    if a == spt@.len() - 1 {
                                        assert(spt@[a] == vmin);
                                        assert(li as int == first_vertex_lsa_idx(
                                            *db,
                                            vmin.vtype,
                                            vmin.id,
                                        ));
                                        assert(attached_match(att, att.len() as int, tv, tid));
                                    }
                                }
                            }
                        },
                        _ => {
                            proof {
                                assert forall|a: int, tv: VertexType, tid: u32|
                                    0 <= a < spt@.len() && #[trigger] follows_link(
                                        *db,
                                        spt@[a],
                                        tv,
                                        tid,
                                    ) && vertex_backed(*db, tv, tid) implies settled(
                                    spt@,
                                    tv,
                                    tid,
                                ) || settled(cands@, tv, tid) by {
                                    if a == spt@.len() - 1 {
                                        assert(spt@[a] == vmin);
                                        assert(li as int == first_vertex_lsa_idx(
                                            *db,
                                            vmin.vtype,
                                            vmin.id,
                                        ));
                                    }
                                }
                            }
                        },
                    }
                },
                None => {
                    proof {
                        assert forall|a: int, tv: VertexType, tid: u32|
                            0 <= a < spt@.len() && #[trigger] follows_link(*db, spt@[a], tv, tid)
                                && vertex_backed(*db, tv, tid) implies settled(spt@, tv, tid)
                            || settled(cands@, tv, tid) by {
                            if a == spt@.len() - 1 {
                                assert(spt@[a] == vmin);
                                assert(!vertex_backed(*db, vmin.vtype, vmin.id));
                            }
                        }
                    }
                },
            }
            if fuel == 0 {
                proof {
                    lemma_vertex_count(*db, spt@, cands@);
                }
                more = false;
            } else {
                fuel = fuel - 1;
            }
        }
        proof {
            assert(cands@.len() == 0);
        }
        ShortPathTree { nodes: spt }
    }
}

/// One backing entry of a backed vertex.
pub open spec fn backing_idx(db: LsaDb, vtype: VertexType, id: u32) -> int {
    choose|li: int|
        0 <= li < db.entries@.len() && (#[trigger] db.entries@[li]).0.header.ls_type == lsa_type_of(
            vtype,
        ) && db.entries@[li].0.header.link_state_id == id
}

/// Distinct vertices, all backed except possibly one root, are no more
/// numerous than the database's entries plus one: each backed vertex names
/// a distinct entry through its link-state type and id.
proof fn lemma_vertex_count(db: LsaDb, spt: Seq<SptNode>, cands: Seq<SptNode>)
    requires
        distinct_vertices(spt),
        distinct_vertices(cands),
        disjoint_vertices(spt, cands),
        forall|i: int|
            1 <= i < spt.len() ==> vertex_backed(db, (#[trigger] spt[i]).vtype, spt[i].id),
        spt.len() > 0 ==> forall|j: int|
            0 <= j < cands.len() ==> vertex_backed(db, (#[trigger] cands[j]).vtype, cands[j].id),
        spt.len() == 0 ==> cands.len() <= 1,
    ensures
        spt.len() + cands.len() <= db.entries@.len() + 1,
{
    if spt.len() == 0 {
    } else {
        let all = spt.skip(1) + cands;
        let n = db.entries@.len() as int;
        assert(all.len() == spt.len() - 1 + cands.len());
        assert forall|i: int| 0 <= i < all.len() implies vertex_backed(
            db,
            (#[trigger] all[i]).vtype,
            all[i].id,
        ) by {
            if i < spt.len() - 1 {
                assert(all[i] == spt[i + 1]);
            } else {
                assert(all[i] == cands[i - (spt.len() - 1)]);
            }
        }
        assert forall|i: int, j: int|
            0 <= i < all.len() && 0 <= j < all.len() && i != j implies !((#[trigger] all[i]).vtype
                == (#[trigger] all[j]).vtype && all[i].id == all[j].id) by {
            let a = if i < spt.len() - 1 {
                spt[i + 1]
            } else {
                cands[i - (spt.len() - 1)]
            };
            let b = if j < spt.len() - 1 {
                spt[j + 1]
            } else {
                cands[j - (spt.len() - 1)]
            };
            assert(all[i] == a && all[j] == b);
        }
        let f = |v: SptNode| backing_idx(db, v.vtype, v.id);
        let ws = all.map_values(f);
        assert forall|i: int| 0 <= i < ws.len() implies 0 <= #[trigger] ws[i] < n
            && db.entries@[ws[i]].0.header.ls_type == lsa_type_of(all[i].vtype)
            && db.entries@[ws[i]].0.header.link_state_id == all[i].id by {
            assert(vertex_backed(db, all[i].vtype, all[i].id));
            let c = backing_idx(db, all[i].vtype, all[i].id);
            assert(0 <= c < n && db.entries@[c].0.header.ls_type == lsa_type_of(all[i].vtype)
                && db.entries@[c].0.header.link_state_id == all[i].id);
            assert(ws[i] == f(all[i]));
        }
        assert(ws.no_duplicates()) by {
            assert forall|i: int, j: int|
                0 <= i < ws.len() && 0 <= j < ws.len() && i != j implies ws[i] != ws[j] by {
                if ws[i] == ws[j] {
                    assert(lsa_type_of(all[i].vtype) == lsa_type_of(all[j].vtype));
                    assert(all[i].id == all[j].id);
                    assert(all[i].vtype == all[j].vtype);
                }
            }
        }
        ws.unique_seq_to_set();
        vstd::set_lib::lemma_int_range(0, n);
        assert(ws.to_set().subset_of(vstd::set_lib::set_int_range(0, n))) by {
            assert forall|x: int| ws.to_set().contains(x) implies vstd::set_lib::set_int_range(
                0,
                n,
            ).contains(x) by {
                let i = choose|i: int| 0 <= i < ws.len() && ws[i] == x;
                assert(0 <= ws[i] < n);
            }
        }
        vstd::set_lib::lemma_len_subset(ws.to_set(), vstd::set_lib::set_int_range(0, n));
        assert(ws.len() <= n);
    }
}

/// Whether two vertex kinds are the same.
fn vertex_type_eq(a: VertexType, b: VertexType) -> (r: bool)
    ensures
        r == (a == b),
{
    match (a, b) {
        (VertexType::Router, VertexType::Router) => true,
        (VertexType::Network, VertexType::Network) => true,
        _ => false,
    }
}

/// Position of the vertex `(vtype, id)` in a vertex list, if any.
fn find_in(nodes: &Vec<SptNode>, vtype: VertexType, id: u32) -> (r: Option<usize>)
    ensures
        match r {
            Some(i) => i < nodes@.len() && nodes@[i as int].vtype == vtype && nodes@[i as int].id
                == id,
            None => forall|i: int|
                0 <= i < nodes@.len() ==> !((#[trigger] nodes@[i]).vtype == vtype && nodes@[i].id
                    == id),
        },
{
    let mut i: usize = 0;
    while i < nodes.len()
        invariant
            i <= nodes@.len(),
            forall|j: int|
                0 <= j < i ==> !((#[trigger] nodes@[j]).vtype == vtype && nodes@[j].id == id),
        decreases nodes@.len() - i,
    {
        if nodes[i].id == id && vertex_type_eq(nodes[i].vtype, vtype) {
            return Some(i);
        }
        i = i + 1;
    }
    None
}

/// Position of the first LSA the vertex stands for: a Router-LSA or
/// Network-LSA, as the vertex kind says, whose link-state id is the vertex
/// id.
pub(crate) fn find_vertex_lsa(db: &LsaDb, vtype: VertexType, id: u32) -> (r: Option<usize>)
    ensures
        match r {
            Some(i) => i < db.entries@.len() && db.entries@[i as int].0.header.ls_type
                == lsa_type_of(vtype) && db.entries@[i as int].0.header.link_state_id == id
                && vertex_backed(*db, vtype, id) && i as int == first_vertex_lsa_idx(
                *db,
                vtype,
                id,
            ) && forall|j: int|
                0 <= j < i ==> !((#[trigger] db.entries@[j]).0.header.ls_type == lsa_type_of(vtype)
                    && db.entries@[j].0.header.link_state_id == id),
            None => !vertex_backed(*db, vtype, id),
        },
{
    let want: u8 = match vtype {
        VertexType::Router => ROUTER_LSA,
        VertexType::Network => NETWORK_LSA,
    };
    proof {
        assert(want == lsa_type_of(vtype));
    }
    let mut i: usize = 0;
    while i < db.entries.len()
        invariant
            i <= db.entries@.len(),
            want == lsa_type_of(vtype),
            forall|j: int|
                0 <= j < i ==> !((#[trigger] db.entries@[j]).0.header.ls_type == lsa_type_of(vtype)
                    && db.entries@[j].0.header.link_state_id == id),
        decreases db.entries@.len() - i,
    {
        let h = &db.entries[i].0.header;
        if h.ls_type == want && h.link_state_id == id {
            return Some(i);
        }
        i = i + 1;
    }
    None
}

/// Position of the candidate Dijkstra settles next: one of minimal
/// distance, a network vertex preferred over a router vertex when both sit
/// at that minimal distance.
pub fn extract_best(cands: &Vec<SptNode>) -> (r: usize)
    requires
        cands@.len() > 0,
    ensures
        r < cands@.len(),
        forall|j: int| 0 <= j < cands@.len() ==> cands@[r as int].dist <= (#[trigger] cands@[j]).dist,
        cands@[r as int].vtype == VertexType::Router ==> forall|j: int|
            0 <= j < cands@.len() && (#[trigger] cands@[j]).dist == cands@[r as int].dist
                ==> cands@[j].vtype == VertexType::Router,
{
    let mut best: usize = 0;
    let mut i: usize = 1;
    while i < cands.len()
        invariant
            best < i <= cands@.len(),
            cands@.len() > 0,
            forall|j: int| 0 <= j < i ==> cands@[best as int].dist <= (#[trigger] cands@[j]).dist,
            cands@[best as int].vtype == VertexType::Router ==> forall|j: int|
                0 <= j < i && (#[trigger] cands@[j]).dist == cands@[best as int].dist
                    ==> cands@[j].vtype == VertexType::Router,
        decreases cands@.len() - i,
    {
        let better = cands[i].dist < cands[best].dist || (cands[i].dist == cands[best].dist
            && matches!(cands[i].vtype, VertexType::Network) && matches!(
            cands[best].vtype,
            VertexType::Router,
        ));
        if better {
            best = i;
        }
        i = i + 1;
    }
    best
}

/// Offers the frontier a path to `(vtype, id)` at distance `nd` through
/// `hops`: a new candidate where none stood, a replacement where the offer
/// is closer, extra next hops where it ties (ECMP — the tying candidate
/// keeps its next hops and gains every one of `hops`), nothing where it is
/// farther. The frontier never undercuts the settled tree, no vertex enters
/// it twice, and no vertex enters it but `(vtype, id)`.
#[verifier::spinoff_prover]
pub fn relax(
    spt: &Vec<SptNode>,
    cands: &mut Vec<SptNode>,
    vtype: VertexType,
    id: u32,
    nd: u32,
    hops: Vec<u32>,
)
    requires
        dists_bounded(old(cands)@),
        frontier_no_closer(spt@, old(cands)@),
        nd <= LSInfinity,
        forall|i: int| 0 <= i < spt@.len() ==> (#[trigger] spt@[i]).dist <= nd,
        distinct_vertices(old(cands)@),
        forall|i: int|
            0 <= i < spt@.len() ==> !((#[trigger] spt@[i]).vtype == vtype && spt@[i].id == id),
    ensures
        dists_bounded(final (cands)@),
        frontier_no_closer(spt@, final (cands)@),
        distinct_vertices(final (cands)@),
        disjoint_vertices(spt@, old(cands)@) ==> disjoint_vertices(spt@, final (cands)@),
        forall|j: int|
            0 <= j < final (cands)@.len() ==> (((#[trigger] final (cands)@[j]).vtype == vtype
                && final (cands)@[j].id == id) || exists|j0: int|
                0 <= j0 < old(cands)@.len() && (#[trigger] old(cands)@[j0]).vtype == final (
                cands)@[j].vtype && old(cands)@[j0].id == final (cands)@[j].id),
        settled(final (cands)@, vtype, id),
        forall|j0: int|
            0 <= j0 < old(cands)@.len() ==> settled(
                final (cands)@,
                (#[trigger] old(cands)@[j0]).vtype,
                old(cands)@[j0].id,
            ),
        ({
            // what the offer does: enter, displace, merge, or nothing
            if !exists|i: int|
                0 <= i < old(cands)@.len() && (#[trigger] old(cands)@[i]).vtype == vtype && old(
                    cands,
                )@[i].id == id {
                final (cands)@ == old(cands)@.push(
                    SptNode { vtype, id, dist: nd, nexthops: final (cands)@.last().nexthops },
                ) && final (cands)@.last().nexthops@ == hops@
            } else {
                {
                    let i = choose|i: int|
                        0 <= i < old(cands)@.len() && (#[trigger] old(cands)@[i]).vtype == vtype
                            && old(cands)@[i].id == id;
                    &&& final (cands)@.len() == old(cands)@.len()
                    &&& forall|j: int|
                        0 <= j < old(cands)@.len() && j != i ==> final (cands)@[j] == old(
                            cands,
                        )@[j]
                    &&& (nd < old(cands)@[i].dist ==> final (cands)@[i].dist == nd && final (
                    cands)@[i].nexthops@ == hops@ && final (cands)@[i].vtype == vtype && final (
                    cands)@[i].id == id)
                    &&& (nd == old(cands)@[i].dist ==> final (cands)@[i].dist == nd && final (
                    cands)@[i].nexthops@ == old(cands)@[i].nexthops@ + hops@ && final (
                    cands)@[i].vtype == vtype && final (cands)@[i].id == id)
                    &&& (nd > old(cands)@[i].dist ==> final (cands)@ == old(cands)@)
                }
            }
        }),
{
    let ghost target = choose|i: int|
        0 <= i < old(cands)@.len() && (#[trigger] old(cands)@[i]).vtype == vtype && old(
            cands,
        )@[i].id == id;
    let mut i: usize = 0;
    while i < cands.len()
        invariant
            i <= cands@.len(),
            cands@ == old(cands)@,
            forall|j: int|
                0 <= j < i ==> !((#[trigger] cands@[j]).vtype == vtype && cands@[j].id == id),
            dists_bounded(old(cands)@),
            frontier_no_closer(spt@, old(cands)@),
            nd <= LSInfinity,
            forall|a: int| 0 <= a < spt@.len() ==> (#[trigger] spt@[a]).dist <= nd,
            distinct_vertices(old(cands)@),
            target == (choose|i: int|
                0 <= i < old(cands)@.len() && (#[trigger] old(cands)@[i]).vtype == vtype && old(
                    cands,
                )@[i].id == id),
        decreases cands@.len() - i,
    {
        if cands[i].id == id && vertex_type_eq(cands[i].vtype, vtype) {
            proof {
                assert(0 <= target < old(cands)@.len() && old(cands)@[target].vtype == vtype
                    && old(cands)@[target].id == id);
                assert(target == i as int);
            }
            if nd < cands[i].dist {
                let n = SptNode { vtype, id, dist: nd, nexthops: hops };
                let ghost nn = n;
                let _dropped = cands.remove(i);
                cands.insert(i, n);
                proof {
                    assert(cands@ =~= old(cands)@.update(i as int, nn));
                    lemma_frontier_update(spt@, old(cands)@, cands@, i as int, nn, nd, vtype, id);
                }
            } else if nd == cands[i].dist {
                let mut node = cands.remove(i);
                let ghost dropped = node;
                let mut k: usize = 0;
                while k < hops.len()
                    invariant
                        k <= hops@.len(),
                        node.dist == dropped.dist,
                        node.vtype == dropped.vtype && node.id == dropped.id,
                        node.nexthops@ == dropped.nexthops@ + hops@.take(k as int),
                    decreases hops@.len() - k,
                {
                    node.nexthops.push(hops[k]);
                    proof {
                        assert(hops@.take(k + 1) =~= hops@.take(k as int).push(hops@[k as int]));
                        assert(dropped.nexthops@ + hops@.take(k + 1) =~= (dropped.nexthops@
                            + hops@.take(k as int)).push(hops@[k as int]));
                    }
                    k = k + 1;
                }
                proof {
                    assert(hops@.take(hops@.len() as int) =~= hops@);
                }
                let ghost nn = node;
                cands.insert(i, node);
                proof {
                    assert(cands@ =~= old(cands)@.update(i as int, nn));
                    assert(nn.dist == old(cands)@[i as int].dist);
                    lemma_frontier_update(spt@, old(cands)@, cands@, i as int, nn, nd, vtype, id);
                }
            }
            proof {
                assert(cands@[i as int].vtype == vtype && cands@[i as int].id == id);
                assert(settled(cands@, vtype, id));
                assert forall|j0: int| 0 <= j0 < old(cands)@.len() implies settled(
                    cands@,
                    (#[trigger] old(cands)@[j0]).vtype,
                    old(cands)@[j0].id,
                ) by {
                    if j0 == i as int {
                        assert(cands@[i as int].vtype == old(cands)@[j0].vtype && cands@[i as int].id
                            == old(cands)@[j0].id);
                    } else {
                        assert(cands@[j0] == old(cands)@[j0]);
                    }
                }
            }
            return ;
        }
        i = i + 1;
    }
    proof {
        assert(!exists|j: int|
            0 <= j < old(cands)@.len() && (#[trigger] old(cands)@[j]).vtype == vtype && old(
                cands,
            )@[j].id == id);
    }
    cands.push(SptNode { vtype, id, dist: nd, nexthops: hops });
    proof {
        let n = cands@.len() - 1;
        assert(cands@[n].vtype == vtype && cands@[n].id == id);
        assert(settled(cands@, vtype, id));
        assert forall|j0: int| 0 <= j0 < old(cands)@.len() implies settled(
            cands@,
            (#[trigger] old(cands)@[j0]).vtype,
            old(cands)@[j0].id,
        ) by {
            assert(cands@[j0] == old(cands)@[j0]);
        }
    }
}

/// After one frontier entry is replaced by a node for the same vertex, at a
/// distance no closer than the settled tree allows, every frontier property
/// is kept.
proof fn lemma_frontier_update(
    spt: Seq<SptNode>,
    pre: Seq<SptNode>,
    post: Seq<SptNode>,
    i: int,
    nn: SptNode,
    nd: u32,
    vtype: VertexType,
    id: u32,
)
    requires
        dists_bounded(pre),
        frontier_no_closer(spt, pre),
        distinct_vertices(pre),
        nd <= LSInfinity,
        forall|a: int| 0 <= a < spt.len() ==> (#[trigger] spt[a]).dist <= nd,
        0 <= i < pre.len(),
        pre[i].vtype == vtype && pre[i].id == id,
        nn.vtype == vtype && nn.id == id,
        nn.dist == nd || nn.dist == pre[i].dist,
        post == pre.update(i, nn),
    ensures
        dists_bounded(post),
        frontier_no_closer(spt, post),
        distinct_vertices(post),
        disjoint_vertices(spt, pre) ==> disjoint_vertices(spt, post),
        forall|j: int|
            0 <= j < post.len() ==> (((#[trigger] post[j]).vtype == vtype && post[j].id == id)
                || exists|j0: int|
                0 <= j0 < pre.len() && (#[trigger] pre[j0]).vtype == post[j].vtype && pre[j0].id
                    == post[j].id),
{
    assert(forall|j: int| 0 <= j < post.len() && j != i ==> post[j] == pre[j]);
    assert forall|j: int| 0 <= j < post.len() implies (#[trigger] post[j]).dist <= LSInfinity by {
        if j != i {
            assert(post[j] == pre[j]);
        }
    }
    assert forall|a: int, j: int|
        0 <= a < spt.len() && 0 <= j < post.len() implies (#[trigger] spt[a]).dist <= (
    #[trigger] post[j]).dist by {
        if j != i {
            assert(post[j] == pre[j]);
        } else {
            assert(spt[a].dist <= nd && spt[a].dist <= pre[i].dist);
        }
    }
    assert forall|a: int, b: int|
        0 <= a < post.len() && 0 <= b < post.len() && a != b implies !((#[trigger] post[a]).vtype
            == (#[trigger] post[b]).vtype && post[a].id == post[b].id) by {
        assert(post[a].vtype == pre[a].vtype && post[a].id == pre[a].id);
        assert(post[b].vtype == pre[b].vtype && post[b].id == pre[b].id);
    }
    if disjoint_vertices(spt, pre) {
        assert forall|a: int, j: int|
            0 <= a < spt.len() && 0 <= j < post.len() implies !((#[trigger] spt[a]).vtype == (
        #[trigger] post[j]).vtype && spt[a].id == post[j].id) by {
            assert(post[j].vtype == pre[j].vtype && post[j].id == pre[j].id);
        }
    }
    assert forall|j: int|
        0 <= j < post.len() implies (((#[trigger] post[j]).vtype == vtype && post[j].id == id)
            || exists|j0: int|
            0 <= j0 < pre.len() && (#[trigger] pre[j0]).vtype == post[j].vtype && pre[j0].id
                == post[j].id) by {
        if j != i {
            assert(pre[j].vtype == post[j].vtype && pre[j].id == post[j].id);
        }
    }
}

} // verus!
