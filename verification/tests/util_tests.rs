use ospfd::constant::AllSPFRouters;
use ospfd::util::{hex2ip, ip2hex};

#[test]
fn test() {
    assert_eq!(ip2hex([224, 0, 0, 5]), 0xe0000005u32);
    assert_eq!(hex2ip(0xe0000005u32), [224, 0, 0, 5]);
}

#[test]
fn well_known_addresses_round_trip() {
    assert_eq!(ip2hex(hex2ip(AllSPFRouters)), AllSPFRouters);
    assert_eq!(hex2ip(ip2hex([10, 0, 0, 1])), [10, 0, 0, 1]);
    assert_eq!(ip2hex([0, 0, 0, 0]), 0);
    assert_eq!(ip2hex([255, 255, 255, 255]), 0xffffffffu32);
}
