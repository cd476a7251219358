//! Conversions between the dotted-octet form of an IPv4 address and the
//! 32-bit big-endian integer form that the rest of the core works with.

use vstd::prelude::*;

verus! {

/// The integer an address reads as when its four octets are taken
/// big-endian, most significant first.
pub open spec fn spec_ip2hex(octets: [u8; 4]) -> int {
    (octets[0] as int) * 0x1000000 + (octets[1] as int) * 0x10000 + (octets[2] as int) * 0x100
        + (octets[3] as int)
}

/// Big-endian integer form of an address given as four octets.
pub fn ip2hex(ip: [u8; 4]) -> (r: u32)
    ensures
        r == spec_ip2hex(ip),
{
    (ip[0] as u32) * 0x1000000 + (ip[1] as u32) * 0x10000 + (ip[2] as u32) * 0x100 + (ip[3] as u32)
}

/// Four-octet form of an address given as a big-endian integer.
pub fn hex2ip(hex: u32) -> (r: [u8; 4])
    ensures
        spec_ip2hex(r) == hex,
{
    let b0: u8 = (hex / 0x1000000) as u8;
    let b1: u8 = ((hex / 0x10000) % 0x100) as u8;
    let b2: u8 = ((hex / 0x100) % 0x100) as u8;
    let b3: u8 = (hex % 0x100) as u8;
    let r: [u8; 4] = [b0, b1, b2, b3];
    proof {
        lemma_octet_decomposition(hex as int);
    }
    r
}

/// Any value below 2^32 is the big-endian reading of its four octets.
proof fn lemma_octet_decomposition(h: int)
    requires
        0 <= h < 0x100000000,
    ensures
        (h / 0x1000000) * 0x1000000 + ((h / 0x10000) % 0x100) * 0x10000 + ((h / 0x100) % 0x100)
            * 0x100 + h % 0x100 == h,
        h / 0x1000000 < 0x100,
{
    vstd::arithmetic::div_mod::lemma_fundamental_div_mod(h, 0x100);
    vstd::arithmetic::div_mod::lemma_fundamental_div_mod(h / 0x100, 0x100);
    vstd::arithmetic::div_mod::lemma_fundamental_div_mod(h / 0x100 / 0x100, 0x100);
    vstd::arithmetic::div_mod::lemma_div_denominator(h, 0x100, 0x100);
    vstd::arithmetic::div_mod::lemma_div_denominator(h, 0x10000, 0x100);
    assert(h / 0x100 / 0x100 == h / 0x10000);
    assert(h / 0x10000 / 0x100 == h / 0x1000000);
}

/// Round trip: two octet arrays that read as the same integer are equal.
pub proof fn lemma_hex_ip_round_trip(a: [u8; 4], b: [u8; 4])
    requires
        spec_ip2hex(a) == spec_ip2hex(b),
    ensures
        a == b,
{
    let x = spec_ip2hex(a);
    assert(a[3] == x % 0x100 && b[3] == x % 0x100) by (nonlinear_arith)
        requires
            (a[0] as int) * 0x1000000 + (a[1] as int) * 0x10000 + (a[2] as int) * 0x100 + (
            a[3] as int) == x,
            (b[0] as int) * 0x1000000 + (b[1] as int) * 0x10000 + (b[2] as int) * 0x100 + (
            b[3] as int) == x,
            0 <= a[0] < 256 && 0 <= a[1] < 256 && 0 <= a[2] < 256 && 0 <= a[3] < 256,
            0 <= b[0] < 256 && 0 <= b[1] < 256 && 0 <= b[2] < 256 && 0 <= b[3] < 256,
    ;
    assert(a[2] == (x / 0x100) % 0x100 && b[2] == (x / 0x100) % 0x100) by (nonlinear_arith)
        requires
            (a[0] as int) * 0x1000000 + (a[1] as int) * 0x10000 + (a[2] as int) * 0x100 + (
            a[3] as int) == x,
            (b[0] as int) * 0x1000000 + (b[1] as int) * 0x10000 + (b[2] as int) * 0x100 + (
            b[3] as int) == x,
            0 <= a[0] < 256 && 0 <= a[1] < 256 && 0 <= a[2] < 256 && 0 <= a[3] < 256,
            0 <= b[0] < 256 && 0 <= b[1] < 256 && 0 <= b[2] < 256 && 0 <= b[3] < 256,
    ;
    assert(a[1] == (x / 0x10000) % 0x100 && b[1] == (x / 0x10000) % 0x100) by (nonlinear_arith)
        requires
            (a[0] as int) * 0x1000000 + (a[1] as int) * 0x10000 + (a[2] as int) * 0x100 + (
            a[3] as int) == x,
            (b[0] as int) * 0x1000000 + (b[1] as int) * 0x10000 + (b[2] as int) * 0x100 + (
            b[3] as int) == x,
            0 <= a[0] < 256 && 0 <= a[1] < 256 && 0 <= a[2] < 256 && 0 <= a[3] < 256,
            0 <= b[0] < 256 && 0 <= b[1] < 256 && 0 <= b[2] < 256 && 0 <= b[3] < 256,
    ;
    assert(a[0] == b[0]) by (nonlinear_arith)
        requires
            (a[0] as int) * 0x1000000 + (a[1] as int) * 0x10000 + (a[2] as int) * 0x100 + (
            a[3] as int) == x,
            (b[0] as int) * 0x1000000 + (b[1] as int) * 0x10000 + (b[2] as int) * 0x100 + (
            b[3] as int) == x,
            a[1] == b[1] && a[2] == b[2] && a[3] == b[3],
    ;
    assert(a =~= b);
}

} // verus!
