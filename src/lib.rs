//! A virtual Ethernet/IPv4 interface for a software capture device: its address and route
//! tables in bounded or growable storage, a neighbor cache, and the classification of inbound
//! frames and outbound sends.
use vstd::prelude::*;

pub mod device;
pub mod iface;
pub mod neighbor;
pub mod table;
pub mod wire;

verus! {

} // verus!
