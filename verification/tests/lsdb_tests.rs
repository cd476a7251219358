use ospfd::area::Area;
use ospfd::constant::LsaMaxAge;
use ospfd::lsa::{Lsa, LsaBody, LsaHeader, LsaKey, AS_EXTERNAL_LSA, ROUTER_LSA};
use ospfd::lsdb::LsaDb;

fn ip(a: u8, b: u8, c: u8, d: u8) -> u32 {
    u32::from_be_bytes([a, b, c, d])
}

fn router_lsa(lsid: u32, adv: u32, seq: i32, age: u16, checksum: u16) -> Lsa {
    Lsa {
        header: LsaHeader {
            ls_age: age,
            options: 0,
            ls_type: ROUTER_LSA,
            link_state_id: lsid,
            advertising_router: adv,
            ls_sequence_number: seq,
            ls_checksum: checksum,
            length: 24,
        },
        body: LsaBody::Router { links: Vec::new() },
    }
}

fn external_lsa(lsid: u32, adv: u32, seq: i32) -> Lsa {
    Lsa {
        header: LsaHeader {
            ls_age: 0,
            options: 0,
            ls_type: AS_EXTERNAL_LSA,
            link_state_id: lsid,
            advertising_router: adv,
            ls_sequence_number: seq,
            ls_checksum: 1,
            length: 36,
        },
        body: LsaBody::AsExternal {
            network_mask: 0xffffff00,
            e2: true,
            metric: 20,
            forwarding_address: 0,
        },
    }
}

fn key_of(lsa: &Lsa) -> LsaKey {
    LsaKey {
        ls_type: lsa.header.ls_type,
        link_state_id: lsa.header.link_state_id,
        advertising_router: lsa.header.advertising_router,
    }
}

#[test]
fn min_ls_arrival_guard() {
    // Router-LSA (type=1, lsid=1.1.1.1, adv=1.1.1.1, seq=0x80000001) at t=0:
    // accepted; an instance with the next sequence number within
    // MinLSArrival: rejected; the same instance once the guard has passed:
    // accepted.
    let mut area = Area::new(ip(0, 0, 0, 0));
    let mut ext = LsaDb::new();
    let rid = ip(1, 1, 1, 1);
    let first = router_lsa(rid, rid, -0x7fffffffi32 + 2, 0, 1);
    assert!(area.insert_lsa(&mut ext, first, 0));
    let second = router_lsa(rid, rid, -0x7fffffffi32 + 3, 0, 1);
    assert!(!area.insert_lsa(&mut ext, second, 0));
    let third = router_lsa(rid, rid, -0x7fffffffi32 + 3, 0, 1);
    assert!(area.insert_lsa(&mut ext, third, 2));
}

#[test]
fn stale_instance_rejected() {
    let mut area = Area::new(0);
    let mut ext = LsaDb::new();
    let rid = ip(1, 1, 1, 1);
    let newer = router_lsa(rid, rid, 100, 0, 1);
    assert!(area.insert_lsa(&mut ext, newer, 0));
    let stale = router_lsa(rid, rid, 99, 0, 1);
    assert!(!area.insert_lsa(&mut ext, stale, 5));
}

#[test]
fn insert_then_get_is_at_least_as_recent() {
    let mut area = Area::new(0);
    let mut ext = LsaDb::new();
    let rid = ip(9, 9, 9, 9);
    let lsa = router_lsa(rid, rid, 7, 100, 3);
    let key = key_of(&lsa);
    let header = lsa.header;
    assert!(area.insert_lsa(&mut ext, lsa, 50));
    let got = area.get_lsa(&ext, key, 50).expect("stored instance observable");
    // read back at the instant of insertion: the identical instance
    assert_eq!(got.header, header);
    // later reads only age it, which never makes it less recent
    let later = area.get_lsa(&ext, key, 60).expect("still observable");
    assert_eq!(later.header.ls_age, 110);
    assert_eq!(later.header.ls_sequence_number, 7);
}

#[test]
fn as_external_partitioning() {
    // Area 0 routes externally, Area 1 does not: an AS-external LSA entered
    // through Area 0 is observable there and never through Area 1.
    let mut area0 = Area::new(ip(0, 0, 0, 0));
    let mut area1 = Area::new(ip(0, 0, 0, 1));
    area1.external_routing_capability = false;
    let mut ext = LsaDb::new();
    let lsa = external_lsa(ip(198, 51, 100, 0), ip(1, 1, 1, 1), 5);
    let key = key_of(&lsa);
    assert!(area0.insert_lsa(&mut ext, lsa, 0));
    assert!(area0.get_lsa(&ext, key, 0).is_some());
    assert!(area0.contains_lsa(&ext, key));
    assert!(area1.get_lsa(&ext, key, 0).is_none());
    assert!(!area1.contains_lsa(&ext, key));
    let headers1 = area1.get_all_lsa(&ext, 0);
    assert!(headers1.iter().all(|h| h.ls_type != AS_EXTERNAL_LSA));
    assert_eq!(headers1.len(), 0);
    let headers0 = area0.get_all_lsa(&ext, 0);
    assert_eq!(headers0.len(), 1);
    // the local database of either area never holds the AS-external LSA
    assert_eq!(area0.lsa_database.entries.len(), 0);
    assert_eq!(area1.lsa_database.entries.len(), 0);
}

#[test]
fn max_age_expiry() {
    // An LSA entered with ls_age = LsaMaxAge - 2 at t=0 is due for its
    // refresh by t=3; the refresh action removes it, and it is observable
    // no more.
    let mut area = Area::new(0);
    let mut ext = LsaDb::new();
    let rid = ip(1, 1, 1, 1);
    let lsa = router_lsa(rid, rid, 9, LsaMaxAge - 2, 1);
    let key = key_of(&lsa);
    assert!(area.insert_lsa(&mut ext, lsa, 0));
    let timer = area.lsa_database.entries[0].1;
    assert_eq!(timer.fire_at, 2);
    assert!(!timer.is_due(1));
    assert!(timer.is_due(3));
    // the refresh action, run by the scheduler at t=3, on a foreign LSA
    let other_router = ip(7, 7, 7, 7);
    area.refresh_lsa(&mut ext, key, other_router, 3);
    assert!(!area.contains_lsa(&ext, key));
    assert!(area.get_lsa(&ext, key, 3).is_none());
}

#[test]
fn self_originated_refresh_reoriginates() {
    let mut area = Area::new(0);
    let mut ext = LsaDb::new();
    let rid = ip(1, 1, 1, 1);
    let lsa = router_lsa(rid, rid, 41, LsaMaxAge - 2, 1);
    let key = key_of(&lsa);
    assert!(area.insert_lsa(&mut ext, lsa, 0));
    area.refresh_lsa(&mut ext, key, rid, 3);
    let fresh = area.get_lsa(&ext, key, 3).expect("re-originated");
    assert_eq!(fresh.header.ls_sequence_number, 42);
    assert_eq!(fresh.header.ls_age, 0);
    // the re-originated copy refreshes at LsRefreshTime, not at LsaMaxAge
    let timer = area.lsa_database.entries[0].1;
    assert_eq!(timer.fire_at, 3 + ospfd::constant::LsRefreshTime as u64);
}

#[test]
fn get_all_filters_max_age() {
    let mut area = Area::new(0);
    let mut ext = LsaDb::new();
    let young = router_lsa(ip(1, 1, 1, 1), ip(1, 1, 1, 1), 1, 0, 1);
    let old = router_lsa(ip(2, 2, 2, 2), ip(2, 2, 2, 2), 1, LsaMaxAge - 1, 1);
    assert!(area.insert_lsa(&mut ext, young, 0));
    assert!(area.insert_lsa(&mut ext, old, 0));
    let headers = area.get_all_lsa(&ext, 0);
    assert_eq!(headers.len(), 2);
    // one second on, the older entry reads LsaMaxAge and is filtered out
    let headers = area.get_all_lsa(&ext, 1);
    assert_eq!(headers.len(), 1);
    assert_eq!(headers[0].link_state_id, ip(1, 1, 1, 1));
}

#[test]
fn remove_falls_through_to_external() {
    let mut area = Area::new(0);
    let mut ext = LsaDb::new();
    let lsa = external_lsa(ip(203, 0, 113, 0), ip(1, 1, 1, 1), 2);
    let key = key_of(&lsa);
    assert!(area.insert_lsa(&mut ext, lsa, 0));
    assert!(ext.contains_key(&key));
    area.remove_lsa(&mut ext, key);
    assert!(!ext.contains_key(&key));
    assert!(!area.contains_lsa(&ext, key));
}
