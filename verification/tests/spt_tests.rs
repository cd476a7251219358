use ospfd::area::Area;
use ospfd::constant::{LsaMaxAge, MaxAgeDiff};
use ospfd::lsa::{
    cmp_header, Lsa, LsaBody, LsaHeader, RouterLink, AS_EXTERNAL_LSA, LINK_P2P, LINK_TRANSIT,
    NETWORK_LSA, ROUTER_LSA,
};
use ospfd::lsdb::LsaDb;
use ospfd::routing::{
    find_interface_by_name, find_interface_for, route_better, Ipv4AddrMask, RoutingTable,
    RoutingTableItem, RoutingTableItemType, RoutingTablePathType,
};
use ospfd::spt::{ShortPathTree, VertexType};
use ospfd::timer::LsaTimer;

fn ip(a: u8, b: u8, c: u8, d: u8) -> u32 {
    u32::from_be_bytes([a, b, c, d])
}

fn header(ls_type: u8, lsid: u32, adv: u32, seq: i32, age: u16, ck: u16) -> LsaHeader {
    LsaHeader {
        ls_age: age,
        options: 0,
        ls_type,
        link_state_id: lsid,
        advertising_router: adv,
        ls_sequence_number: seq,
        ls_checksum: ck,
        length: 24,
    }
}

fn router_lsa(rid: u32, links: Vec<RouterLink>) -> Lsa {
    Lsa { header: header(ROUTER_LSA, rid, rid, 1, 0, 1), body: LsaBody::Router { links } }
}

fn p2p_link(to: u32, via: u32, metric: u16) -> RouterLink {
    RouterLink { link_id: to, link_data: via, link_type: LINK_P2P, metric }
}

fn transit_link(net: u32, via: u32, metric: u16) -> RouterLink {
    RouterLink { link_id: net, link_data: via, link_type: LINK_TRANSIT, metric }
}

#[test]
fn header_ordering_trichotomy_cases() {
    // higher sequence number wins
    let a = header(1, 1, 1, 10, 0, 5);
    let b = header(1, 1, 1, 9, 0, 9);
    assert_eq!(cmp_header(&a, &b), 1);
    assert_eq!(cmp_header(&b, &a), -1);
    // equal sequence: higher checksum wins
    let c = header(1, 1, 1, 10, 0, 9);
    assert_eq!(cmp_header(&c, &a), 1);
    // equal sequence and checksum: the instance at LsaMaxAge wins
    let worn = header(1, 1, 1, 10, LsaMaxAge, 5);
    assert_eq!(cmp_header(&worn, &a), 1);
    // otherwise the younger wins only past the MaxAgeDiff window
    let young = header(1, 1, 1, 10, 0, 5);
    let older = header(1, 1, 1, 10, MaxAgeDiff + 1, 5);
    assert_eq!(cmp_header(&young, &older), 1);
    let near = header(1, 1, 1, 10, MaxAgeDiff, 5);
    assert_eq!(cmp_header(&young, &near), 0);
    assert_eq!(cmp_header(&a, &a), 0);
}

#[test]
fn timer_age_derivation() {
    let t = LsaTimer::new(100, 1000);
    let h = header(1, 1, 1, 1, 100, 1);
    // at creation the stored age stands
    assert_eq!(t.update_lsa_age_header(h, 1000).ls_age, 100);
    // it grows with the wall clock
    assert_eq!(t.update_lsa_age_header(h, 1007).ls_age, 107);
    // and equals LsaMaxAge exactly from created_at + (LsaMaxAge - stored age)
    assert_eq!(t.fire_at, 1000 + (LsaMaxAge as u64 - 100));
    assert_eq!(t.update_lsa_age_header(h, t.fire_at - 1).ls_age, LsaMaxAge - 1);
    assert_eq!(t.update_lsa_age_header(h, t.fire_at).ls_age, LsaMaxAge);
    assert_eq!(t.update_lsa_age_header(h, t.fire_at + 50).ls_age, LsaMaxAge);
}

fn tie_break_db() -> LsaDb {
    // root 10.0.0.1 reaches routers 1.1.1.1 and 2.2.2.2 at cost 2 each;
    // both reach network 192.168.1.1 at cost 3: two cost-5 paths.
    let root = ip(10, 0, 0, 1);
    let ra = ip(1, 1, 1, 1);
    let rb = ip(2, 2, 2, 2);
    let net = ip(192, 168, 1, 1);
    let mut db = LsaDb::new();
    db.insert(
        router_lsa(
            root,
            vec![p2p_link(ra, ip(10, 0, 1, 2), 2), p2p_link(rb, ip(10, 0, 2, 2), 2)],
        ),
        LsaTimer::new(0, 0),
    );
    db.insert(router_lsa(ra, vec![transit_link(net, ip(192, 168, 1, 2), 3)]), LsaTimer::new(0, 0));
    db.insert(router_lsa(rb, vec![transit_link(net, ip(192, 168, 1, 3), 3)]), LsaTimer::new(0, 0));
    db.insert(
        Lsa {
            header: header(NETWORK_LSA, net, ra, 1, 0, 1),
            body: LsaBody::Network {
                network_mask: ip(255, 255, 255, 0),
                attached_routers: vec![ra, rb],
            },
        },
        LsaTimer::new(0, 0),
    );
    db
}

#[test]
fn spt_tie_break_ecmp() {
    // two Router-LSAs offering cost-5 paths to the same Network-LSA: one
    // routing item, path AreaInternal, cost 5, with two next-hop candidates
    let root = ip(10, 0, 0, 1);
    let net = ip(192, 168, 1, 1);
    let db = tie_break_db();
    let tree = ShortPathTree::build(&db, root);
    let ni = tree.find(VertexType::Network, net).expect("network settled");
    assert_eq!(tree.nodes[ni].dist, 5);
    let hops = &tree.nodes[ni].nexthops;
    assert_eq!(hops.len(), 2);
    assert!(hops.contains(&ip(10, 0, 1, 2)));
    assert!(hops.contains(&ip(10, 0, 2, 2)));

    let mut area = Area::new(0);
    area.lsa_database = tie_break_db();
    area.recalc_routing(root);
    let items = area.get_routing();
    assert_eq!(items.len(), 1);
    assert_eq!(items[0].path_type, RoutingTablePathType::AreaInternal);
    assert_eq!(items[0].cost, 5);
    assert_eq!(items[0].dest_type, RoutingTableItemType::Network);
    assert_eq!(items[0].dest_id, ip(192, 168, 1, 0));
    assert_eq!(items[0].addr_mask, ip(255, 255, 255, 0));
}

#[test]
fn spt_settles_in_distance_order() {
    let root = ip(10, 0, 0, 1);
    let db = tie_break_db();
    let tree = ShortPathTree::build(&db, root);
    assert_eq!(tree.nodes[0].id, root);
    assert_eq!(tree.nodes[0].dist, 0);
    for w in tree.nodes.windows(2) {
        assert!(w[0].dist <= w[1].dist);
    }
    assert_eq!(tree.nodes.len(), 4);
}

#[test]
fn external_routes_enter_the_table() {
    let root = ip(10, 0, 0, 1);
    let asbr = ip(1, 1, 1, 1);
    let mut area = Area::new(0);
    area.lsa_database = tie_break_db();
    let mut ext = LsaDb::new();
    ext.insert(
        Lsa {
            header: header(AS_EXTERNAL_LSA, ip(198, 51, 100, 0), asbr, 1, 0, 1),
            body: LsaBody::AsExternal {
                network_mask: ip(255, 255, 255, 0),
                e2: true,
                metric: 20,
                forwarding_address: 0,
            },
        },
        LsaTimer::new(0, 0),
    );
    let mut table = RoutingTable::new();
    let mut areas = vec![area];
    table.recalculate(&mut areas, &ext, root);
    let ext_item = table
        .table
        .iter()
        .find(|i| i.dest_id == ip(198, 51, 100, 0))
        .expect("external destination present");
    assert_eq!(ext_item.path_type, RoutingTablePathType::AsExternalT2);
    assert_eq!(ext_item.cost, 2); // cost to the ASBR
    assert_eq!(ext_item.cost_t2, 20);
    assert_eq!(ext_item.ad_router, asbr);
    // the intra-area network is in the table too
    assert!(table.table.iter().any(|i| i.dest_id == ip(192, 168, 1, 0) && i.cost == 5));
}

#[test]
fn stub_links_yield_network_leaves() {
    // a stub link on a settled router becomes a network leaf at the
    // router's distance plus the link metric
    let root = ip(10, 0, 0, 1);
    let stub_net = ip(10, 7, 0, 0);
    let stub_mask = ip(255, 255, 0, 0);
    let mut area = Area::new(0);
    area.lsa_database = tie_break_db();
    // give router 1.1.1.1 (settled at cost 2) a stub link of metric 4
    let ra = ip(1, 1, 1, 1);
    area.lsa_database.remove(&ospfd::lsa::LsaKey {
        ls_type: ROUTER_LSA,
        link_state_id: ra,
        advertising_router: ra,
    });
    area.lsa_database.insert(
        router_lsa(
            ra,
            vec![
                transit_link(ip(192, 168, 1, 1), ip(192, 168, 1, 2), 3),
                RouterLink {
                    link_id: stub_net,
                    link_data: stub_mask,
                    link_type: ospfd::lsa::LINK_STUB,
                    metric: 4,
                },
            ],
        ),
        LsaTimer::new(0, 0),
    );
    let mut table = RoutingTable::new();
    let mut areas = vec![area];
    table.recalculate(&mut areas, &LsaDb::new(), root);
    let leaf = table
        .table
        .iter()
        .find(|i| i.dest_id == stub_net)
        .expect("stub network present");
    assert_eq!(leaf.addr_mask, stub_mask);
    assert_eq!(leaf.path_type, RoutingTablePathType::AreaInternal);
    assert_eq!(leaf.cost, 6); // 2 to the router, plus the stub metric 4
    assert_eq!(leaf.ad_router, ra);
}

#[test]
fn interface_lookup_by_name() {
    let names: Vec<Vec<u8>> = vec![b"eth0".to_vec(), b"eth1".to_vec(), b"eth1".to_vec()];
    assert_eq!(find_interface_by_name(&names, &b"eth1".to_vec()), Some(1));
    assert_eq!(find_interface_by_name(&names, &b"wlan0".to_vec()), None);
}

#[test]
fn route_preference_order() {
    let base = RoutingTableItem {
        dest_type: RoutingTableItemType::Network,
        dest_id: 1,
        addr_mask: 0xffffff00,
        external_cap: true,
        area_id: 0,
        path_type: RoutingTablePathType::AreaInternal,
        cost: 10,
        cost_t2: 0,
        lsa_origin: ospfd::lsa::LsaKey { ls_type: 1, link_state_id: 1, advertising_router: 1 },
        next_hop: 0,
        ad_router: 1,
    };
    let external1 = RoutingTableItem { path_type: RoutingTablePathType::AsExternalT1, cost: 1, ..base };
    let external2 = RoutingTableItem { path_type: RoutingTablePathType::AsExternalT2, cost: 1, ..base };
    assert!(route_better(&base, &external1));
    assert!(route_better(&external1, &external2));
    let cheap = RoutingTableItem { cost: 3, ..base };
    assert!(route_better(&cheap, &base));
    let t2_near = RoutingTableItem { cost_t2: 5, ..external2 };
    let t2_far = RoutingTableItem { cost_t2: 9, ..external2 };
    assert!(route_better(&t2_near, &t2_far));
    assert!(!route_better(&t2_far, &t2_near));
}

#[test]
fn prefix_mask_and_network() {
    let p = Ipv4AddrMask::from(ip(192, 168, 1, 77), ip(255, 255, 255, 0));
    assert_eq!(p.0, ip(192, 168, 1, 0));
    assert_eq!(p.1, 24);
    assert_eq!(p.mask(), ip(255, 255, 255, 0));
    assert_eq!(p.network(), ip(192, 168, 1, 0));
    let all = Ipv4AddrMask::from(ip(10, 1, 2, 3), 0xffffffff);
    assert_eq!(all.1, 32);
    assert_eq!(all.mask(), 0xffffffff);
    let none = Ipv4AddrMask::from(ip(10, 1, 2, 3), 0);
    assert_eq!(none.1, 0);
    assert_eq!(none.mask(), 0);
}

#[test]
fn next_hop_interface_lookup() {
    let ifaces = vec![
        (ip(10, 0, 0, 1), ip(255, 255, 255, 252)),
        (ip(192, 168, 1, 1), ip(255, 255, 255, 0)),
    ];
    assert_eq!(find_interface_for(&ifaces, ip(192, 168, 1, 200)), Some(1));
    assert_eq!(find_interface_for(&ifaces, ip(10, 0, 0, 2)), Some(0));
    // no interface's subnet contains the next hop: the route is skipped
    assert_eq!(find_interface_for(&ifaces, ip(172, 16, 0, 1)), None);
}

#[test]
fn dd_header_diff_fills_request_list() {
    let mut area = Area::new(0);
    let mut ext = LsaDb::new();
    let rid = ip(1, 1, 1, 1);
    let held = Lsa { header: header(ROUTER_LSA, rid, rid, 5, 0, 1), body: LsaBody::Router { links: Vec::new() } };
    assert!(area.insert_lsa(&mut ext, held, 0));
    let mut nbr = ospfd::neighbor::Neighbor::new(ip(2, 2, 2, 2), ip(2, 2, 2, 2), 1);
    let newer = header(ROUTER_LSA, rid, rid, 6, 0, 1);
    let same = header(ROUTER_LSA, rid, rid, 5, 0, 1);
    let unknown = header(ROUTER_LSA, ip(3, 3, 3, 3), ip(3, 3, 3, 3), 1, 0, 1);
    let older = header(ROUTER_LSA, rid, rid, 4, 0, 1);
    nbr.note_dd_headers(&area, &ext, &vec![newer, same, unknown, older], 0);
    assert_eq!(nbr.ls_request_list.len(), 2);
    assert_eq!(nbr.ls_request_list[0].ls_sequence_number, 6);
    assert_eq!(nbr.ls_request_list[1].link_state_id, ip(3, 3, 3, 3));
    // the local instance is more recent than the last described header: its
    // live copy joins the summary list to be described back
    assert_eq!(nbr.db_summary_list.len(), 1);
    assert_eq!(nbr.db_summary_list[0].ls_sequence_number, 5);
    assert_eq!(nbr.db_summary_list[0].link_state_id, rid);
}

#[test]
fn inter_area_routes_from_backbone_summaries() {
    let root = ip(10, 0, 0, 1);
    let abr = ip(1, 1, 1, 1);
    let mut backbone = Area::new(0);
    backbone.lsa_database = tie_break_db();
    // the border router 1.1.1.1 summarises a network of another area
    let summary = Lsa {
        header: header(ospfd::lsa::SUMMARY_NET_LSA, ip(172, 16, 0, 0), abr, 1, 0, 1),
        body: LsaBody::SummaryNetwork { network_mask: ip(255, 255, 0, 0), metric: 7 },
    };
    let mut ext = LsaDb::new();
    assert!(backbone.insert_lsa(&mut ext, summary, 0));
    let mut table = RoutingTable::new();
    let mut areas = vec![backbone];
    table.recalculate(&mut areas, &ext, root);
    let item = table
        .table
        .iter()
        .find(|i| i.dest_id == ip(172, 16, 0, 0))
        .expect("inter-area destination present");
    assert_eq!(item.path_type, RoutingTablePathType::AreaExternal);
    // cost to the border router (2) plus the summary metric (7)
    assert_eq!(item.cost, 9);
    assert_eq!(item.ad_router, abr);
}
