//! Link-State Advertisements: keys, headers, bodies, and the ordering of two
//! header instances of the same LSA (RFC 2328, section 13.1).

use vstd::prelude::*;

use crate::constant::{LsaMaxAge, MaxAgeDiff};

verus! {

/// Router-LSA link-state type.
pub const ROUTER_LSA: u8 = 1;

/// Network-LSA link-state type.
pub const NETWORK_LSA: u8 = 2;

/// Summary-LSA (network) link-state type.
pub const SUMMARY_NET_LSA: u8 = 3;

/// Summary-LSA (ASBR) link-state type.
pub const SUMMARY_ASBR_LSA: u8 = 4;

/// AS-external-LSA link-state type.
pub const AS_EXTERNAL_LSA: u8 = 5;

/// The triple that uniquely identifies an LSA within a database.
#[derive(Clone, Copy, PartialEq, Eq, Structural, Debug, Hash)]
pub struct LsaKey {
    pub ls_type: u8,
    pub link_state_id: u32,
    pub advertising_router: u32,
}

/// The twenty-byte header every LSA starts with. Addresses are 32-bit
/// big-endian integers.
#[derive(Clone, Copy, PartialEq, Eq, Structural, Debug)]
pub struct LsaHeader {
    pub ls_age: u16,
    pub options: u8,
    pub ls_type: u8,
    pub link_state_id: u32,
    pub advertising_router: u32,
    pub ls_sequence_number: i32,
    pub ls_checksum: u16,
    pub length: u16,
}

impl LsaHeader {
    /// The database key this header identifies.
    pub open spec fn spec_key(self) -> LsaKey {
        LsaKey {
            ls_type: self.ls_type,
            link_state_id: self.link_state_id,
            advertising_router: self.advertising_router,
        }
    }

    /// The database key this header identifies.
    pub fn key(&self) -> (r: LsaKey)
        ensures
            r == self.spec_key(),
    {
        LsaKey {
            ls_type: self.ls_type,
            link_state_id: self.link_state_id,
            advertising_router: self.advertising_router,
        }
    }
}

/// One link reported by a Router-LSA.
#[derive(Clone, Copy, PartialEq, Eq, Structural, Debug)]
pub struct RouterLink {
    /// Identifies the object this link connects to: another Router-LSA's id
    /// for point-to-point links, the Network-LSA's id for transit links, the
    /// network number for stub links.
    pub link_id: u32,
    /// Interface address, or the network mask for stub links.
    pub link_data: u32,
    pub link_type: u8,
    pub metric: u16,
}

/// Router-LSA link type: point-to-point connection to another router.
pub const LINK_P2P: u8 = 1;

/// Router-LSA link type: connection to a transit network.
pub const LINK_TRANSIT: u8 = 2;

/// Router-LSA link type: connection to a stub network.
pub const LINK_STUB: u8 = 3;

/// Router-LSA link type: virtual link.
pub const LINK_VIRTUAL: u8 = 4;

/// The body of an LSA; its shape depends on the header's `ls_type`.
#[derive(Clone, Debug)]
pub enum LsaBody {
    Router { links: Vec<RouterLink> },
    Network { network_mask: u32, attached_routers: Vec<u32> },
    SummaryNetwork { network_mask: u32, metric: u32 },
    SummaryAsbr { network_mask: u32, metric: u32 },
    AsExternal { network_mask: u32, e2: bool, metric: u32, forwarding_address: u32 },
}

/// Mathematical value of an `LsaBody`: vectors become sequences.
pub enum LsaBodyV {
    Router { links: Seq<RouterLink> },
    Network { network_mask: u32, attached_routers: Seq<u32> },
    SummaryNetwork { network_mask: u32, metric: u32 },
    SummaryAsbr { network_mask: u32, metric: u32 },
    AsExternal { network_mask: u32, e2: bool, metric: u32, forwarding_address: u32 },
}

impl View for LsaBody {
    type V = LsaBodyV;

    open spec fn view(&self) -> LsaBodyV {
        match *self {
            LsaBody::Router { links } => LsaBodyV::Router { links: links@ },
            LsaBody::Network { network_mask, attached_routers } => LsaBodyV::Network {
                network_mask,
                attached_routers: attached_routers@,
            },
            LsaBody::SummaryNetwork { network_mask, metric } => LsaBodyV::SummaryNetwork {
                network_mask,
                metric,
            },
            LsaBody::SummaryAsbr { network_mask, metric } => LsaBodyV::SummaryAsbr {
                network_mask,
                metric,
            },
            LsaBody::AsExternal { network_mask, e2, metric, forwarding_address } =>
                LsaBodyV::AsExternal { network_mask, e2, metric, forwarding_address },
        }
    }
}

/// A complete LSA: header plus type-dependent body.
#[derive(Clone, Debug)]
pub struct Lsa {
    pub header: LsaHeader,
    pub body: LsaBody,
}

/// Mathematical value of an `Lsa`.
pub struct LsaV {
    pub header: LsaHeader,
    pub body: LsaBodyV,
}

impl View for Lsa {
    type V = LsaV;

    open spec fn view(&self) -> LsaV {
        LsaV { header: self.header, body: self.body@ }
    }
}

impl Lsa {
    /// The database key of this LSA.
    pub open spec fn spec_key(self) -> LsaKey {
        self.header.spec_key()
    }

    /// An exact copy of this LSA.
    pub fn duplicate(&self) -> (r: Lsa)
        ensures
            r@ == self@,
    {
        let body = match &self.body {
            LsaBody::Router { links } => LsaBody::Router { links: copy_vec(links) },
            LsaBody::Network { network_mask, attached_routers } => LsaBody::Network {
                network_mask: *network_mask,
                attached_routers: copy_vec(attached_routers),
            },
            LsaBody::SummaryNetwork { network_mask, metric } => LsaBody::SummaryNetwork {
                network_mask: *network_mask,
                metric: *metric,
            },
            LsaBody::SummaryAsbr { network_mask, metric } => LsaBody::SummaryAsbr {
                network_mask: *network_mask,
                metric: *metric,
            },
            LsaBody::AsExternal { network_mask, e2, metric, forwarding_address } =>
                LsaBody::AsExternal {
                network_mask: *network_mask,
                e2: *e2,
                metric: *metric,
                forwarding_address: *forwarding_address,
            },
        };
        let r = Lsa { header: self.header, body };
        proof {
            assert(r@.body =~= self@.body);
        }
        r
    }
}

/// Element-for-element copy of a vector of plain values.
pub(crate) fn copy_vec<T: Copy>(v: &Vec<T>) -> (r: Vec<T>)
    ensures
        r@ == v@,
{
    let mut r: Vec<T> = Vec::new();
    let mut i: usize = 0;
    while i < v.len()
        invariant
            i <= v.len(),
            r@ == v@.take(i as int),
        decreases v.len() - i,
    {
        r.push(v[i]);
        proof {
            assert(v@.take(i + 1 as int) =~= v@.take(i as int).push(v@[i as int]));
        }
        i = i + 1;
    }
    proof {
        assert(v@.take(v@.len() as int) =~= v@);
    }
    r
}

/// Ordering of two header instances with the same key (RFC 2328 section
/// 13.1): a positive result means `a` is the more recent instance, zero means
/// the two are considered identical, negative means `b` is more recent.
/// Higher sequence number wins; on a tie, higher checksum; on a tie, an
/// instance of age `LsaMaxAge` wins; otherwise the younger instance wins when
/// the ages differ by more than `MaxAgeDiff`.
pub open spec fn spec_cmp_header(a: LsaHeader, b: LsaHeader) -> int {
    if a.ls_sequence_number != b.ls_sequence_number {
        if a.ls_sequence_number > b.ls_sequence_number {
            1int
        } else {
            -1int
        }
    } else if a.ls_checksum != b.ls_checksum {
        if a.ls_checksum > b.ls_checksum {
            1int
        } else {
            -1int
        }
    } else if a.ls_age == LsaMaxAge && b.ls_age != LsaMaxAge {
        1int
    } else if b.ls_age == LsaMaxAge && a.ls_age != LsaMaxAge {
        -1int
    } else if a.ls_age + MaxAgeDiff < b.ls_age {
        1int
    } else if b.ls_age + MaxAgeDiff < a.ls_age {
        -1int
    } else {
        0int
    }
}

/// Whether `a` is a strictly more recent instance than `b`.
pub open spec fn spec_header_newer(a: LsaHeader, b: LsaHeader) -> bool {
    spec_cmp_header(a, b) == 1
}

/// Compares two header instances of the same LSA; positive means `self` is
/// more recent, zero identical, negative means `other` is more recent.
pub fn cmp_header(a: &LsaHeader, b: &LsaHeader) -> (r: i8)
    ensures
        r as int == spec_cmp_header(*a, *b),
{
    if a.ls_sequence_number != b.ls_sequence_number {
        if a.ls_sequence_number > b.ls_sequence_number {
            1
        } else {
            -1
        }
    } else if a.ls_checksum != b.ls_checksum {
        if a.ls_checksum > b.ls_checksum {
            1
        } else {
            -1
        }
    } else if a.ls_age == LsaMaxAge && b.ls_age != LsaMaxAge {
        1
    } else if b.ls_age == LsaMaxAge && a.ls_age != LsaMaxAge {
        -1
    } else if (a.ls_age as u32) + (MaxAgeDiff as u32) < (b.ls_age as u32) {
        1
    } else if (b.ls_age as u32) + (MaxAgeDiff as u32) < (a.ls_age as u32) {
        -1
    } else {
        0
    }
}

/// Trichotomy of the instance ordering: for any two header instances exactly
/// one of "`a` more recent", "identical", "`b` more recent" holds, and the
/// relation is antisymmetric.
pub proof fn lemma_cmp_header_trichotomy(a: LsaHeader, b: LsaHeader)
    ensures
        spec_cmp_header(a, b) == 1 || spec_cmp_header(a, b) == 0 || spec_cmp_header(a, b) == -1,
        spec_cmp_header(a, b) == -spec_cmp_header(b, a),
        spec_cmp_header(a, a) == 0,
{
}

/// Transitivity of "strictly more recent": if `a` is more recent than `b`
/// and `b` more recent than `c`, then `a` is more recent than `c`. (The
/// "identical" relation is not transitive: with equal sequence numbers and
/// checksums, ages may chain inside the `MaxAgeDiff` window while the two
/// ends differ by more than it.)
pub proof fn lemma_header_newer_transitive(a: LsaHeader, b: LsaHeader, c: LsaHeader)
    requires
        spec_header_newer(a, b),
        spec_header_newer(b, c),
    ensures
        spec_header_newer(a, c),
{
}

} // verus!
