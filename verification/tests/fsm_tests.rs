use ospfd::interface::{
    elect, Candidate, HelloPacket, Interface, InterfaceEvent, InterfaceState, NetType,
};
use ospfd::constant::AllSPFRouters;
use ospfd::neighbor::{DdSummary, Neighbor, NeighborEvent, NeighborState, INITIAL_DD_SEQ};

fn ip(a: u8, b: u8, c: u8, d: u8) -> u32 {
    u32::from_be_bytes([a, b, c, d])
}

#[test]
fn hello_adjacency_p2p() {
    // Interface A (10.0.0.1/30) sends a Hello with an empty neighbor list;
    // B (10.0.0.2/30) receives it: Neighbor(A) enters Init. B replies with
    // a Hello listing A: A's Neighbor(B) enters 2-Way and, the link being
    // point-to-point, goes on to ExStart.
    let rid_a = ip(1, 1, 1, 1);
    let rid_b = ip(2, 2, 2, 2);
    let mut iface_b = Interface::new(0, String::from("eth1"), ip(10, 0, 0, 2), ip(255, 255, 255, 252));
    iface_b.net_type = NetType::P2P;
    iface_b.handle_event(InterfaceEvent::InterfaceUp, rid_b);
    assert_eq!(iface_b.state, InterfaceState::PointToPoint);
    let hello_from_a = HelloPacket {
        router_id: rid_a,
        priority: 1,
        dr: 0,
        bdr: 0,
        neighbors: Vec::new(),
    };
    iface_b.handle_hello(rid_a, &hello_from_a, rid_b);
    assert_eq!(iface_b.neighbors[0].state, NeighborState::Init);
    assert!(iface_b.neighbors[0].inactivity_timer);

    let mut iface_a = Interface::new(0, String::from("eth0"), ip(10, 0, 0, 1), ip(255, 255, 255, 252));
    iface_a.net_type = NetType::P2P;
    iface_a.handle_event(InterfaceEvent::InterfaceUp, rid_a);
    // B's reply is built from its own neighbor list, which now names A
    let hello_from_b = iface_b.build_hello(rid_b);
    assert_eq!(hello_from_b.neighbors, vec![rid_a]);
    iface_a.handle_hello(rid_b, &hello_from_b, rid_a);
    assert_eq!(iface_a.neighbors[0].state, NeighborState::ExStart);
}

#[test]
fn hello_goes_to_all_spf_routers_on_broadcast() {
    let mut iface = Interface::new(0, String::from("eth0"), ip(10, 0, 0, 1), ip(255, 255, 255, 0));
    assert_eq!(iface.hello_destination(), Some(AllSPFRouters));
    iface.net_type = NetType::NBMA;
    assert_eq!(iface.hello_destination(), None);
    iface.net_type = NetType::P2P;
    assert_eq!(iface.hello_destination(), Some(AllSPFRouters));
}

#[test]
fn dd_negotiation() {
    // Router-ids 1.1.1.1 and 2.2.2.2 in ExStart: after the empty-DD
    // exchange 2.2.2.2 (the higher id) is master, its dd_seq stands at
    // 0x1000, and its next packet carries I=0, M=1, MS=1.
    let rid_a = ip(1, 1, 1, 1);
    let rid_b = ip(2, 2, 2, 2);
    let mut nbr_of_b_at_a = Neighbor::new(rid_b, rid_b, 1);
    nbr_of_b_at_a.handle_event(NeighborEvent::HelloReceived, false);
    nbr_of_b_at_a.handle_event(NeighborEvent::TwoWayReceived, true);
    assert_eq!(nbr_of_b_at_a.state, NeighborState::ExStart);
    assert_eq!(nbr_of_b_at_a.dd_seq, INITIAL_DD_SEQ);
    let mut nbr_of_a_at_b = Neighbor::new(rid_a, rid_a, 1);
    nbr_of_a_at_b.handle_event(NeighborEvent::HelloReceived, false);
    nbr_of_a_at_b.handle_event(NeighborEvent::TwoWayReceived, true);
    assert_eq!(nbr_of_a_at_b.state, NeighborState::ExStart);

    // A opens; B sees a lower router-id proposing mastership: unresolved
    let dd_a = nbr_of_b_at_a.build_dd();
    assert!(dd_a.init && dd_a.more && dd_a.master);
    assert!(!nbr_of_a_at_b.handle_dd_exstart(rid_b, dd_a, 0));
    assert_eq!(nbr_of_a_at_b.state, NeighborState::ExStart);

    // B opens; A sees a higher router-id proposing mastership: A is slave
    let dd_b = nbr_of_a_at_b.build_dd();
    assert!(nbr_of_b_at_a.handle_dd_exstart(rid_a, dd_b, 0));
    assert_eq!(nbr_of_b_at_a.state, NeighborState::Exchange);
    assert!(!nbr_of_b_at_a.master);
    assert_eq!(nbr_of_b_at_a.dd_seq, 0x1000);

    // A acknowledges as slave; B's mastership is confirmed
    let dd_a2 = nbr_of_b_at_a.build_dd();
    assert!(!dd_a2.init && !dd_a2.master);
    assert!(nbr_of_a_at_b.handle_dd_exstart(rid_b, dd_a2, 0));
    assert_eq!(nbr_of_a_at_b.state, NeighborState::Exchange);
    assert!(nbr_of_a_at_b.master);
    assert_eq!(nbr_of_a_at_b.dd_seq, 0x1000);
    let dd_b2 = nbr_of_a_at_b.build_dd();
    assert!(!dd_b2.init);
    assert!(dd_b2.more);
    assert!(dd_b2.master);
    assert_eq!(dd_b2.dd_seq, 0x1000);
}

#[test]
fn election_deterministic_and_idempotent() {
    let candidates = vec![
        Candidate { ip: ip(10, 0, 0, 1), router_id: ip(1, 1, 1, 1), priority: 1, dr: ip(10, 0, 0, 1), bdr: 0 },
        Candidate { ip: ip(10, 0, 0, 2), router_id: ip(2, 2, 2, 2), priority: 1, dr: 0, bdr: ip(10, 0, 0, 2) },
        Candidate { ip: ip(10, 0, 0, 3), router_id: ip(3, 3, 3, 3), priority: 1, dr: 0, bdr: 0 },
    ];
    let first = elect(&candidates);
    let second = elect(&candidates);
    assert_eq!(first, second);
    assert_eq!(first, (ip(10, 0, 0, 1), ip(10, 0, 0, 2)));
}

#[test]
fn election_prefers_priority_then_router_id() {
    // nobody declares: the best candidate becomes BDR and is promoted to DR
    let candidates = vec![
        Candidate { ip: 11, router_id: 5, priority: 1, dr: 0, bdr: 0 },
        Candidate { ip: 12, router_id: 9, priority: 2, dr: 0, bdr: 0 },
        Candidate { ip: 13, router_id: 7, priority: 2, dr: 0, bdr: 0 },
    ];
    let (dr, bdr) = elect(&candidates);
    assert_eq!(bdr, 12);
    assert_eq!(dr, 12);
}

#[test]
fn sequence_mismatch_rewinds_to_exstart() {
    let mut nbr = Neighbor::new(ip(5, 5, 5, 5), ip(10, 0, 0, 5), 1);
    nbr.handle_event(NeighborEvent::HelloReceived, false);
    nbr.handle_event(NeighborEvent::TwoWayReceived, true);
    nbr.handle_event(NeighborEvent::NegotiationDone, false);
    assert_eq!(nbr.state, NeighborState::Exchange);
    nbr.ls_request_list.push(ospfd::lsa::LsaHeader {
        ls_age: 0,
        options: 0,
        ls_type: 1,
        link_state_id: 1,
        advertising_router: 1,
        ls_sequence_number: 1,
        ls_checksum: 1,
        length: 20,
    });
    nbr.handle_event(NeighborEvent::SeqNumberMismatch, false);
    assert_eq!(nbr.state, NeighborState::ExStart);
    assert_eq!(nbr.ls_request_list.len(), 0);
    assert_eq!(nbr.db_summary_list.len(), 0);
    assert_eq!(nbr.ls_retransmission_list.len(), 0);
}

#[test]
fn one_way_rewinds_to_two_way() {
    let mut nbr = Neighbor::new(ip(5, 5, 5, 5), ip(10, 0, 0, 5), 1);
    nbr.handle_event(NeighborEvent::HelloReceived, false);
    nbr.handle_event(NeighborEvent::TwoWayReceived, true);
    nbr.handle_event(NeighborEvent::NegotiationDone, false);
    nbr.handle_event(NeighborEvent::ExchangeDone, false);
    assert_eq!(nbr.state, NeighborState::Full);
    nbr.handle_event(NeighborEvent::OneWayReceived, false);
    assert_eq!(nbr.state, NeighborState::TwoWay);
}

#[test]
fn inactivity_timer_kills_neighbor() {
    let mut nbr = Neighbor::new(ip(5, 5, 5, 5), ip(10, 0, 0, 5), 1);
    nbr.handle_event(NeighborEvent::HelloReceived, false);
    assert_eq!(nbr.state, NeighborState::Init);
    nbr.handle_event(NeighborEvent::InactivityTimer, false);
    assert_eq!(nbr.state, NeighborState::Down);
}

#[test]
fn exchange_done_goes_to_loading_until_requests_drain() {
    let mut nbr = Neighbor::new(ip(5, 5, 5, 5), ip(10, 0, 0, 5), 1);
    nbr.handle_event(NeighborEvent::HelloReceived, false);
    nbr.handle_event(NeighborEvent::TwoWayReceived, true);
    nbr.handle_event(NeighborEvent::NegotiationDone, false);
    let h = ospfd::lsa::LsaHeader {
        ls_age: 0,
        options: 0,
        ls_type: 1,
        link_state_id: 42,
        advertising_router: 42,
        ls_sequence_number: 1,
        ls_checksum: 1,
        length: 20,
    };
    nbr.ls_request_list.push(h);
    nbr.handle_event(NeighborEvent::ExchangeDone, false);
    assert_eq!(nbr.state, NeighborState::Loading);
    nbr.satisfy_lsa(ospfd::lsa::LsaKey {
        ls_type: 1,
        link_state_id: 42,
        advertising_router: 42,
    });
    assert_eq!(nbr.ls_request_list.len(), 0);
    nbr.handle_event(NeighborEvent::LoadingDone, false);
    assert_eq!(nbr.state, NeighborState::Full);
}

#[test]
fn interface_up_and_down() {
    let rid = ip(1, 1, 1, 1);
    let mut iface = Interface::new(0, String::from("eth0"), ip(10, 0, 0, 1), ip(255, 255, 255, 0));
    assert_eq!(iface.state, InterfaceState::Down);
    assert_eq!(iface.hello_interval, 10);
    assert_eq!(iface.dead_interval, 40);
    assert_eq!(iface.router_priority, 1);
    assert_eq!(iface.cost, 1);
    iface.handle_event(InterfaceEvent::InterfaceUp, rid);
    assert_eq!(iface.state, InterfaceState::Waiting);
    assert!(iface.hello_timer && iface.wait_timer);
    iface.handle_event(InterfaceEvent::WaitTimer, rid);
    // alone on the wire, this router elects itself DR
    assert_eq!(iface.state, InterfaceState::DR);
    assert!(iface.is_dr());
    assert!(!iface.is_drother());
    iface.handle_event(InterfaceEvent::InterfaceDown, rid);
    assert_eq!(iface.state, InterfaceState::Down);
    assert_eq!(iface.dr, 0);
    assert_eq!(iface.bdr, 0);
    assert_eq!(iface.cost, 0);
    assert_eq!(iface.neighbors.len(), 0);
    assert!(!iface.hello_timer && !iface.wait_timer);
}

#[test]
fn priority_zero_interface_never_waits() {
    let mut iface = Interface::new(0, String::from("eth0"), ip(10, 0, 0, 1), ip(255, 255, 255, 0));
    iface.router_priority = 0;
    iface.handle_event(InterfaceEvent::InterfaceUp, ip(1, 1, 1, 1));
    assert_eq!(iface.state, InterfaceState::DROther);
}

#[test]
fn shrink_neighbors_drops_down_conversations() {
    let mut iface = Interface::new(0, String::from("eth0"), ip(10, 0, 0, 1), ip(255, 255, 255, 0));
    let mut up = Neighbor::new(1, 101, 1);
    up.handle_event(NeighborEvent::HelloReceived, false);
    let down = Neighbor::new(2, 102, 1);
    iface.neighbors.push(up);
    iface.neighbors.push(down);
    iface.shrink_neighbors();
    assert_eq!(iface.neighbors.len(), 1);
    assert_eq!(iface.neighbors[0].ip, 101);
}

#[test]
fn dd_summary_default_is_clear() {
    let d = DdSummary::default();
    assert!(!d.init && !d.more && !d.master);
    assert_eq!(d.dd_seq, 0);
}
