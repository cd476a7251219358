//! Protocol-wide timing constants, sequence-number bounds and well-known
//! addresses (RFC 2328, appendix B and C). Addresses are held as 32-bit
//! host-order integers; `util` converts between dotted octets and this form.

#![allow(non_upper_case_globals)]

use vstd::prelude::*;

verus! {

/// Age (seconds) at which an LSA is considered expired and must be flushed.
pub const LsaMaxAge: u16 = 3600;

/// Self-originated LSAs are re-originated this many seconds after creation.
pub const LsRefreshTime: u16 = 1800;

/// Minimum interval (seconds) between originations of one LSA.
pub const MinLSInterval: u32 = 5;

/// Minimum interval (seconds) between acceptances of one LSA instance.
pub const MinLSArrival: u32 = 1;

/// Interval (seconds) between checksum verifications of the database.
pub const CheckAge: u32 = 300;

/// Age difference below which two otherwise equal instances are identical.
pub const MaxAgeDiff: u16 = 900;

/// Metric standing for an unreachable destination.
pub const LSInfinity: u32 = 0xffffff;

/// The default destination (0.0.0.0).
pub const DefaultDestination: u32 = 0;

/// First sequence number an LSA is originated with.
pub const InitialSequenceNumber: i32 = -0x7fffffff;

/// Largest sequence number an LSA can carry.
pub const MaxSequenceNumber: i32 = 0x7fffffff;

/// 224.0.0.5, the AllSPFRouters multicast group.
pub const AllSPFRouters: u32 = 0xe0000005;

/// 224.0.0.6, the AllDRouters multicast group.
pub const AllDRouters: u32 = 0xe0000006;

/// 0.0.0.0, the id of the backbone area.
pub const BackboneArea: u32 = 0;

} // verus!
