//! The routing table and the graph that routes are computed on.
use vstd::prelude::*;

pub mod graph;

verus! {

/// What a route leads to.
#[derive(Clone, Copy, PartialEq, Eq, PartialOrd, Ord, Debug, Structural)]
pub enum DestionationType {
    Network,
    Router,
}

/// How a route was learned.
#[derive(Clone, Copy, PartialEq, Eq, PartialOrd, Ord, Debug, Structural)]
pub enum PathType {
    IntraArea,
    InterArea,
    ExternalType1,
    ExternalType2,
}

/// One route. Addresses are host-order integers.
#[derive(Clone, Copy, PartialEq, Eq, PartialOrd, Ord, Debug, Structural)]
pub struct RouteTableEntry {
    pub destination_type: DestionationType,
    pub destination_id: u32,
    pub mask: u32,
    pub options: u8,
    pub area_id: u32,
    pub path_type: PathType,
    pub cost: u32,
    pub type2_cost: u32,
    pub ls_origin: u32,
    pub next_hop: u32,
    pub advertising_router: u32,
}

/// The routes, in the order they were added.
pub struct RouteTable {
    pub entries: Vec<RouteTableEntry>,
}

impl RouteTable {
    pub fn new() -> (r: Self)
        ensures
            r.entries@ == Seq::<RouteTableEntry>::empty(),
    {
        Self { entries: Vec::new() }
    }

    /// Adds a route after the others.
    pub fn add_entry(&mut self, entry: RouteTableEntry)
        ensures
            final(self).entries@ == old(self).entries@.push(entry),
    {
        self.entries.push(entry);
    }

    /// Removes every route equal to `entry`, keeping the others in order.
    pub fn remove_entry(&mut self, entry: RouteTableEntry)
        ensures
            final(self).entries@ == old(self).entries@.filter(|e: RouteTableEntry| e != entry),
            !final(self).entries@.contains(entry),
    {
        let ghost old_s = self.entries@;
        let mut kept: Vec<RouteTableEntry> = Vec::new();
        let mut i: usize = 0;
        while i < self.entries.len()
            invariant
                i <= self.entries.len(),
                self.entries@ == old_s,
                kept@ == old_s.take(i as int).filter(|e: RouteTableEntry| e != entry),
            decreases self.entries.len() - i,
        {
            let e = self.entries[i];
            proof {
                reveal(Seq::filter);
                assert(old_s.take(i as int + 1).drop_last() =~= old_s.take(i as int));
                assert(old_s.take(i as int + 1).last() == e);
            }
            if e != entry {
                kept.push(e);
            }
            i = i + 1;
        }
        assert(old_s.take(i as int) =~= old_s);
        proof {
            if kept@.contains(entry) {
                let j = choose|j: int| 0 <= j < kept@.len() && kept@[j] == entry;
                old_s.lemma_filter_pred(|e: RouteTableEntry| e != entry, j);
            }
        }
        self.entries = kept;
    }
}

} // verus!
