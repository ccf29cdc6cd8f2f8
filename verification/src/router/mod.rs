//! The router: its id, its routing tables and its named interfaces.
use vstd::prelude::*;

use crate::interface::Interface;
use crate::rtable::RouteTable;

verus! {

/// The position of the first interface of `interfaces` named `name`.
pub open spec fn position_of(interfaces: Seq<(String, Interface)>, name: Seq<char>) -> Option<int> {
    if exists|i: int| 0 <= i < interfaces.len() && interfaces[i].0@ == name {
        Some(
            choose|i: int|
                0 <= i < interfaces.len() && interfaces[i].0@ == name && forall|j: int|
                    0 <= j < i ==> interfaces[j].0@ != name,
        )
    } else {
        None
    }
}

/// A router. The router id is a host-order integer.
pub struct Router {
    router_table: Vec<RouteTable>,
    router_id: u32,
    interfaces: Vec<(String, Interface)>,
}

impl Router {
    pub const MAX_INNER_PACKET_QUEUE_SIZE: usize = 100;

    /// The routing tables.
    pub closed spec fn router_tables(self) -> Seq<RouteTable> {
        self.router_table@
    }

    /// The router id.
    pub closed spec fn id(self) -> u32 {
        self.router_id
    }

    /// The interfaces, each with its name, in the order they were added.
    pub closed spec fn named_interfaces(self) -> Seq<(String, Interface)> {
        self.interfaces@
    }

    pub fn get_router_id(&self) -> (r: u32)
        ensures
            r == self.id(),
    {
        self.router_id
    }

    /// A router with this id, no routing table and no interface.
    pub fn new(router_id: u32) -> (r: Self)
        ensures
            r.id() == router_id,
            r.router_tables() == Seq::<RouteTable>::empty(),
            r.named_interfaces() == Seq::<(String, Interface)>::empty(),
    {
        Self { router_table: Vec::new(), interfaces: Vec::new(), router_id }
    }

    /// Files `interface` under `name`, in place of the interface filed under that name, or
    /// after the others where there is none.
    pub fn add_interface(&mut self, name: String, interface: Interface)
        ensures
            final(self).id() == old(self).id(),
            final(self).router_tables() == old(self).router_tables(),
            match position_of(old(self).named_interfaces(), name@) {
                Some(i) => {
                    &&& final(self).named_interfaces().len() == old(self).named_interfaces().len()
                    &&& forall|j: int|
                        0 <= j < old(self).named_interfaces().len() && j != i
                            ==> final(self).named_interfaces()[j] == old(self).named_interfaces()[j]
                    &&& final(self).named_interfaces()[i].0@ == name@
                    &&& final(self).named_interfaces()[i].1 == interface
                },
                None => {
                    &&& final(self).named_interfaces().len() == old(self).named_interfaces().len() + 1
                    &&& forall|j: int|
                        0 <= j < old(self).named_interfaces().len()
                            ==> final(self).named_interfaces()[j] == old(self).named_interfaces()[j]
                    &&& final(self).named_interfaces().last().0@ == name@
                    &&& final(self).named_interfaces().last().1 == interface
                },
            },
    {
        let mut i: usize = 0;
        while i < self.interfaces.len()
            invariant
                i <= self.interfaces@.len(),
                self.interfaces@ == old(self).interfaces@,
                self.router_id == old(self).router_id,
                self.router_table@ == old(self).router_table@,
                forall|j: int| 0 <= j < i ==> self.interfaces@[j].0@ != name@,
            decreases self.interfaces@.len() - i,
        {
            if self.interfaces[i].0 == name {
                assert(position_of(old(self).interfaces@, name@) == Some(i as int));
                self.interfaces.set(i, (name, interface));
                return;
            }
            i = i + 1;
        }
        assert(position_of(old(self).interfaces@, name@) is None);
        self.interfaces.push((name, interface));
    }

    /// Replaces all the interfaces by `interfaces`.
    pub fn add_interfaces(&mut self, interfaces: Vec<(String, Interface)>)
        ensures
            final(self).id() == old(self).id(),
            final(self).router_tables() == old(self).router_tables(),
            final(self).named_interfaces() == interfaces@,
    {
        self.interfaces = interfaces;
    }
}

} // verus!
