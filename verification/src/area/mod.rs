//! Areas and their link-state databases.
use vstd::prelude::*;

pub mod lsdb;

verus! {

/// An address range of an area. Addresses are host-order integers.
#[derive(Clone, Copy, PartialEq, Eq, Debug, Structural)]
pub struct AddrRange {
    pub addr: u32,
    pub mask: u32,
}

/// An OSPF area.
pub struct Area {
    pub id: u32,
    pub addr_range_list: Vec<AddrRange>,
    pub advertise_or_not: bool,
    pub external_routing_capability: bool,
}

impl Area {
    /// A newly added area: no address ranges, advertised, with external routing capability.
    pub fn new(id: u32) -> (r: Self)
        ensures
            r.id == id,
            r.addr_range_list@ == Seq::<AddrRange>::empty(),
            r.advertise_or_not,
            r.external_routing_capability,
    {
        Area {
            id,
            addr_range_list: Vec::new(),
            advertise_or_not: true,
            external_routing_capability: true,
        }
    }
}

} // verus!
