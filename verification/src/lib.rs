//! Link-state core of an OSPFv2 routing daemon: the in-memory link-state
//! database, the interface and neighbor state machines that drive adjacency
//! formation, the LSA aging engine, and the shortest-path-tree computation
//! that feeds an installable routing table.

pub mod area;
pub mod constant;
pub mod interface;
pub mod lsa;
pub mod lsdb;
pub mod neighbor;
pub mod routing;
pub mod spt;
pub mod timer;
pub mod util;
