//! Neighbors: what is known of each router heard on an interface.
use vstd::prelude::*;

use crate::area::lsdb::{identifier_of, LsaDb, LsaIdentifer};
use crate::interface::event::Event as InterfaceEvent;
use crate::interface::status::Status as InterfaceStatus;
use crate::interface::NetworkType;
use crate::lsa::Header;
use crate::neighbor::event::{spec_transition, Action, Context, Event};
use crate::neighbor::status::Status;
use crate::packet::dd::DD;
use crate::packet::hello::{Hello, HelloView};

pub mod event;
pub mod status;

verus! {

/// What is known of one neighbor. Addresses and ids are host-order integers.
#[derive(Clone, Copy, PartialEq, Eq, Debug, Structural)]
pub struct Neighbor {
    pub master: bool,
    pub dd_seq: u32,
    pub id: u32,
    pub priority: u8,
    pub ipv4_addr: u32,
    pub options: u8,
    pub dr: u32,
    pub bdr: u32,
}

impl Neighbor {
    /// The record of a neighbor first heard through `hello`, sent from `naddr` by router `nid`.
    pub fn from_hello_packet(hello: &Hello, naddr: u32, nid: u32) -> (r: Self)
        ensures
            r == (Neighbor {
                master: false,
                dd_seq: 0,
                id: nid,
                priority: hello.router_priority,
                ipv4_addr: naddr,
                options: hello.options,
                dr: hello.designated_router,
                bdr: hello.backup_designated_router,
            }),
    {
        Self {
            master: false,
            dd_seq: 0,
            id: nid,
            priority: hello.router_priority,
            ipv4_addr: naddr,
            options: hello.options,
            dr: hello.designated_router,
            bdr: hello.backup_designated_router,
        }
    }
}


/// The interface events that a hello from neighbor `n`, filed under `naddr`, raises on an
/// interface in state `istatus`: a neighbor change where its priority changed; a backup seen
/// where it declares itself designated router with no backup while the interface waits; and,
/// for the backup it declares, a backup seen where that is the neighbor's own address while
/// the interface waits, else a neighbor change where it newly declares or stops declaring
/// itself backup.
pub open spec fn spec_hello_events(n: Neighbor, v: HelloView, istatus: InterfaceStatus, naddr: u32) -> Seq<
    InterfaceEvent,
> {
    let priority_changed = if v.router_priority != n.priority {
        seq![InterfaceEvent::NeighborChange(naddr)]
    } else {
        Seq::empty()
    };
    let dr_seen = if v.designated_router == n.id && v.backup_designated_router == 0 && istatus
        == InterfaceStatus::Waiting {
        seq![InterfaceEvent::BackupSeen]
    } else {
        Seq::empty()
    };
    let bdr_seen = if v.backup_designated_router == n.ipv4_addr && istatus
        == InterfaceStatus::Waiting {
        seq![InterfaceEvent::BackupSeen]
    } else if v.backup_designated_router == n.ipv4_addr && n.bdr != n.ipv4_addr {
        seq![InterfaceEvent::NeighborChange(naddr)]
    } else if v.backup_designated_router != n.ipv4_addr && n.bdr == n.ipv4_addr {
        seq![InterfaceEvent::NeighborChange(naddr)]
    } else {
        Seq::empty()
    };
    priority_changed + dr_seen + bdr_seen
}

/// The record of neighbor `n` once its hello `v` was read: its priority, id, options and
/// designated and backup designated routers are those the hello gives.
pub open spec fn spec_updated_neighbor(n: Neighbor, v: HelloView) -> Neighbor {
    Neighbor {
        priority: v.router_priority,
        id: v.header.router_id,
        options: v.options,
        dr: v.designated_router,
        bdr: v.backup_designated_router,
        ..n
    }
}

/// Brings the record of a known neighbor up to date with its hello `packet`, and returns the
/// interface events that the hello raises, in order.
pub fn update_neighbor(
    neighbor: &mut Neighbor,
    naddr: u32,
    packet: &Hello,
    interface_status: InterfaceStatus,
) -> (events: Vec<InterfaceEvent>)
    ensures
        *final(neighbor) == spec_updated_neighbor(*old(neighbor), packet@),
        events@ == spec_hello_events(*old(neighbor), packet@, interface_status, naddr),
{
    let n = *neighbor;
    let mut events: Vec<InterfaceEvent> = Vec::new();
    if packet.router_priority != n.priority {
        events.push(InterfaceEvent::NeighborChange(naddr));
    }
    if packet.designated_router == n.id && packet.backup_designated_router == 0
        && interface_status == InterfaceStatus::Waiting {
        events.push(InterfaceEvent::BackupSeen);
    }
    if packet.backup_designated_router == n.ipv4_addr && interface_status
        == InterfaceStatus::Waiting {
        events.push(InterfaceEvent::BackupSeen);
    } else if packet.backup_designated_router == n.ipv4_addr && n.bdr != n.ipv4_addr {
        events.push(InterfaceEvent::NeighborChange(naddr));
    } else if packet.backup_designated_router != n.ipv4_addr && n.bdr == n.ipv4_addr {
        events.push(InterfaceEvent::NeighborChange(naddr));
    }
    assert(events@ =~= spec_hello_events(n, packet@, interface_status, naddr));
    neighbor.priority = packet.router_priority;
    neighbor.id = packet.header.router_id;
    neighbor.options = packet.options;
    neighbor.dr = packet.designated_router;
    neighbor.bdr = packet.backup_designated_router;
    events
}

/// Whether an adjacency is to be formed with neighbor `neighbor_id`: always on
/// point-to-point, point-to-multipoint and virtual links; on broadcast and NBMA networks where
/// this router or the neighbor is the designated or backup designated router.
pub open spec fn spec_is_adjacent(
    network_type: NetworkType,
    dr: u32,
    bdr: u32,
    router_id: u32,
    neighbor_id: u32,
) -> bool {
    if network_type == NetworkType::PointToPoint || network_type == NetworkType::PointToMultipoint
        || network_type == NetworkType::VirtualLink {
        true
    } else {
        dr == router_id || bdr == router_id || neighbor_id == dr || neighbor_id == bdr
    }
}

/// Whether an adjacency is to be formed with neighbor `neighbor_id`.
pub fn is_adjacent(network_type: NetworkType, dr: u32, bdr: u32, router_id: u32, neighbor_id: u32) -> (r:
    bool)
    ensures
        r == spec_is_adjacent(network_type, dr, bdr, router_id, neighbor_id),
{
    match network_type {
        NetworkType::PointToPoint | NetworkType::PointToMultipoint | NetworkType::VirtualLink => true,
        _ => dr == router_id || bdr == router_id || neighbor_id == dr || neighbor_id == bdr,
    }
}

/// Everything kept of one neighbor on an interface: its record, the state of the
/// conversation, the LSAs to retransmit to it, to describe to it and to request from it, and
/// the last database description packet it was sent.
pub struct NeighborState {
    pub naddr: u32,
    pub neighbor: Neighbor,
    pub status: Status,
    pub retrans_list: Vec<LsaIdentifer>,
    pub summary_list: Vec<LsaIdentifer>,
    pub lsr_list: Vec<LsaIdentifer>,
    pub last_dd: Option<DD>,
}

/// The identifiers of the LSAs that `headers` head and that `lsdb` does not hold, in order.
pub open spec fn missing_lsas(headers: Seq<Header>, lsdb: crate::area::lsdb::LsaDbView) -> Seq<LsaIdentifer>
    decreases headers.len(),
{
    if headers.len() == 0 {
        Seq::empty()
    } else {
        let id = identifier_of(headers.last());
        let pre = missing_lsas(headers.drop_last(), lsdb);
        if lsdb.contains(id) {
            pre
        } else {
            pre.push(id)
        }
    }
}

impl NeighborState {
    /// A neighbor first filed under `naddr`: down, with nothing to retransmit, describe or
    /// request, and no packet sent yet.
    pub fn new(naddr: u32, neighbor: Neighbor) -> (r: Self)
        ensures
            r.naddr == naddr,
            r.neighbor == neighbor,
            r.status == Status::Down,
            r.retrans_list@ == Seq::<LsaIdentifer>::empty(),
            r.summary_list@ == Seq::<LsaIdentifer>::empty(),
            r.lsr_list@ == Seq::<LsaIdentifer>::empty(),
            r.last_dd is None,
    {
        NeighborState {
            naddr,
            neighbor,
            status: Status::Down,
            retrans_list: Vec::new(),
            summary_list: Vec::new(),
            lsr_list: Vec::new(),
            last_dd: None,
        }
    }

    /// Removes every occurrence of `lsa_identifer` from the retransmission list, as when the
    /// neighbor acknowledged that LSA.
    pub fn ack_lsa(&mut self, lsa_identifer: LsaIdentifer)
        ensures
            final(self).last_dd == old(self).last_dd,
            final(self).retrans_list@ == old(self).retrans_list@.filter(
                |x: LsaIdentifer| x != lsa_identifer,
            ),
            final(self).naddr == old(self).naddr,
            final(self).neighbor == old(self).neighbor,
            final(self).status == old(self).status,
            final(self).summary_list@ == old(self).summary_list@,
            final(self).lsr_list@ == old(self).lsr_list@,
    {
        let ghost old_s = self.retrans_list@;
        let mut kept: Vec<LsaIdentifer> = Vec::new();
        let mut i: usize = 0;
        while i < self.retrans_list.len()
            invariant
                i <= self.retrans_list.len(),
                self.retrans_list@ == old_s,
                kept@ == old_s.take(i as int).filter(|x: LsaIdentifer| x != lsa_identifer),
            decreases self.retrans_list.len() - i,
        {
            let x = self.retrans_list[i];
            proof {
                reveal(Seq::filter);
                assert(old_s.take(i as int + 1).drop_last() =~= old_s.take(i as int));
                assert(old_s.take(i as int + 1).last() == x);
            }
            if x != lsa_identifer {
                kept.push(x);
            }
            i = i + 1;
        }
        assert(old_s.take(i as int) =~= old_s);
        self.retrans_list = kept;
    }

    /// Appends `lsa_identifers` to the retransmission list.
    pub fn fill_retrans_list(&mut self, lsa_identifers: Vec<LsaIdentifer>)
        ensures
            final(self).last_dd == old(self).last_dd,
            final(self).retrans_list@ == old(self).retrans_list@ + lsa_identifers@,
            final(self).naddr == old(self).naddr,
            final(self).neighbor == old(self).neighbor,
            final(self).status == old(self).status,
            final(self).summary_list@ == old(self).summary_list@,
            final(self).lsr_list@ == old(self).lsr_list@,
    {
        let mut ids = lsa_identifers;
        self.retrans_list.append(&mut ids);
    }

    pub fn is_lsr_list_empty(&self) -> (r: bool)
        ensures
            r == (self.lsr_list@.len() == 0),
    {
        self.lsr_list.len() == 0
    }

    pub fn clear_lsr_list(&mut self)
        ensures
            final(self).last_dd == old(self).last_dd,
            final(self).lsr_list@ == Seq::<LsaIdentifer>::empty(),
            final(self).retrans_list@ == old(self).retrans_list@,
            final(self).summary_list@ == old(self).summary_list@,
            final(self).naddr == old(self).naddr,
            final(self).neighbor == old(self).neighbor,
            final(self).status == old(self).status,
    {
        self.lsr_list.clear();
    }

    pub fn clear_summary_list(&mut self)
        ensures
            final(self).last_dd == old(self).last_dd,
            final(self).summary_list@ == Seq::<LsaIdentifer>::empty(),
            final(self).retrans_list@ == old(self).retrans_list@,
            final(self).lsr_list@ == old(self).lsr_list@,
            final(self).naddr == old(self).naddr,
            final(self).neighbor == old(self).neighbor,
            final(self).status == old(self).status,
    {
        self.summary_list.clear();
    }

    pub fn clear_lsa_retrans_list(&mut self)
        ensures
            final(self).last_dd == old(self).last_dd,
            final(self).retrans_list@ == Seq::<LsaIdentifer>::empty(),
            final(self).summary_list@ == old(self).summary_list@,
            final(self).lsr_list@ == old(self).lsr_list@,
            final(self).naddr == old(self).naddr,
            final(self).neighbor == old(self).neighbor,
            final(self).status == old(self).status,
    {
        self.retrans_list.clear();
    }

    /// Whether `dd` repeats the last database description packet: it carries the same
    /// sequence number. Before any packet nothing is a repeat.
    pub fn is_duplicated_dd(&self, dd: &DD) -> (r: bool)
        ensures
            r == match self.last_dd {
                Some(last) => last.dd_sequence_number == dd.dd_sequence_number,
                None => false,
            },
    {
        match &self.last_dd {
            Some(last) => last.dd_sequence_number == dd.dd_sequence_number,
            None => false,
        }
    }

    /// Keeps `dd` as the last database description packet.
    pub fn save_last_dd(&mut self, dd: DD)
        ensures
            final(self).last_dd == Some(dd),
            final(self).naddr == old(self).naddr,
            final(self).neighbor == old(self).neighbor,
            final(self).status == old(self).status,
            final(self).retrans_list@ == old(self).retrans_list@,
            final(self).summary_list@ == old(self).summary_list@,
            final(self).lsr_list@ == old(self).lsr_list@,
    {
        self.last_dd = Some(dd);
    }

    /// Appends to the request list the identifier of each LSA that `dd` describes and that
    /// the area's database `lsdb` does not hold, in the order of the packet.
    pub fn update_lsr_list(&mut self, lsdb: &LsaDb, dd: &DD)
        requires
            lsdb.wf(),
        ensures
            final(self).last_dd == old(self).last_dd,
            final(self).lsr_list@ == old(self).lsr_list@ + missing_lsas(dd.lsa_headers@, lsdb@),
            final(self).naddr == old(self).naddr,
            final(self).neighbor == old(self).neighbor,
            final(self).status == old(self).status,
            final(self).retrans_list@ == old(self).retrans_list@,
            final(self).summary_list@ == old(self).summary_list@,
    {
        let ghost start = self.lsr_list@;
        let mut i: usize = 0;
        while i < dd.lsa_headers.len()
            invariant
                i <= dd.lsa_headers@.len(),
                lsdb.wf(),
                self.naddr == old(self).naddr,
                self.neighbor == old(self).neighbor,
                self.status == old(self).status,
                self.retrans_list@ == old(self).retrans_list@,
                self.summary_list@ == old(self).summary_list@,
                self.last_dd == old(self).last_dd,
                start == old(self).lsr_list@,
                self.lsr_list@ == start + missing_lsas(dd.lsa_headers@.take(i as int), lsdb@),
            decreases dd.lsa_headers@.len() - i,
        {
            let id = LsaIdentifer::from_header(&dd.lsa_headers[i]);
            assert(dd.lsa_headers@.take(i as int + 1).drop_last() =~= dd.lsa_headers@.take(i as int));
            if !lsdb.contains_lsa(id) {
                self.lsr_list.push(id);
                assert(self.lsr_list@ =~= start + missing_lsas(
                    dd.lsa_headers@.take(i as int + 1),
                    lsdb@,
                ));
            }
            i = i + 1;
        }
        assert(dd.lsa_headers@.take(i as int) =~= dd.lsa_headers@);
    }
}

/// The address of the first neighbor whose router id is `nid`.
pub fn get_naddr_by_id(neighbors: &Vec<NeighborState>, nid: u32) -> (r: Option<u32>)
    ensures
        match r {
            Some(a) => exists|i: int|
                0 <= i < neighbors@.len() && neighbors@[i].neighbor.id == nid && neighbors@[i].naddr
                    == a && forall|j: int| 0 <= j < i ==> neighbors@[j].neighbor.id != nid,
            None => forall|i: int| 0 <= i < neighbors@.len() ==> neighbors@[i].neighbor.id != nid,
        },
{
    let mut i: usize = 0;
    while i < neighbors.len()
        invariant
            i <= neighbors@.len(),
            forall|j: int| 0 <= j < i ==> neighbors@[j].neighbor.id != nid,
        decreases neighbors@.len() - i,
    {
        if neighbors[i].neighbor.id == nid {
            return Some(neighbors[i].naddr);
        }
        i = i + 1;
    }
    None
}

/// The state of the first neighbor whose router id is `nid`.
pub fn get_status_by_id(neighbors: &Vec<NeighborState>, nid: u32) -> (r: Option<Status>)
    ensures
        match r {
            Some(s) => exists|i: int|
                0 <= i < neighbors@.len() && neighbors@[i].neighbor.id == nid && neighbors@[i].status
                    == s && forall|j: int| 0 <= j < i ==> neighbors@[j].neighbor.id != nid,
            None => forall|i: int| 0 <= i < neighbors@.len() ==> neighbors@[i].neighbor.id != nid,
        },
{
    let mut i: usize = 0;
    while i < neighbors.len()
        invariant
            i <= neighbors@.len(),
            forall|j: int| 0 <= j < i ==> neighbors@[j].neighbor.id != nid,
        decreases neighbors@.len() - i,
    {
        if neighbors[i].neighbor.id == nid {
            return Some(neighbors[i].status);
        }
        i = i + 1;
    }
    None
}

/// Where the neighbor filed under `naddr` is kept.
pub fn find_neighbor(neighbors: &Vec<NeighborState>, naddr: u32) -> (r: Option<usize>)
    ensures
        match r {
            Some(i) => i < neighbors@.len() && neighbors@[i as int].naddr == naddr && forall|j: int|
                0 <= j < i ==> neighbors@[j].naddr != naddr,
            None => forall|i: int| 0 <= i < neighbors@.len() ==> neighbors@[i].naddr != naddr,
        },
{
    let mut i: usize = 0;
    while i < neighbors.len()
        invariant
            i <= neighbors@.len(),
            forall|j: int| 0 <= j < i ==> neighbors@[j].naddr != naddr,
        decreases neighbors@.len() - i,
    {
        if neighbors[i].naddr == naddr {
            return Some(i);
        }
        i = i + 1;
    }
    None
}

/// Whether a neighbor is filed under `naddr`.
pub fn contains_neighbor(neighbors: &Vec<NeighborState>, naddr: u32) -> (r: bool)
    ensures
        r == exists|i: int| 0 <= i < neighbors@.len() && neighbors@[i].naddr == naddr,
{
    match find_neighbor(neighbors, naddr) {
        Some(_) => true,
        None => false,
    }
}

/// Files `neighbor` under `naddr` as a neighbor that is down, with empty lists, in place of
/// the first neighbor filed there (whose last database description packet is kept), or
/// after the others where none was.
pub fn add(neighbors: &mut Vec<NeighborState>, naddr: u32, neighbor: Neighbor)
    ensures
        match find_first(old(neighbors)@, naddr) {
            Some(i) => {
                &&& final(neighbors)@.len() == old(neighbors)@.len()
                &&& forall|j: int| 0 <= j < old(neighbors)@.len() && j != i ==> final(neighbors)@[j] == old(neighbors)@[j]
                &&& fresh(final(neighbors)@[i], naddr, neighbor)
                &&& final(neighbors)@[i].last_dd == old(neighbors)@[i].last_dd
            },
            None => {
                &&& final(neighbors)@.len() == old(neighbors)@.len() + 1
                &&& forall|j: int| 0 <= j < old(neighbors)@.len() ==> final(neighbors)@[j] == old(neighbors)@[j]
                &&& fresh(final(neighbors)@.last(), naddr, neighbor)
                &&& final(neighbors)@.last().last_dd is None
            },
        },
        exists|i: int| 0 <= i < final(neighbors)@.len() && final(neighbors)@[i].naddr == naddr,
        addrs_unique(old(neighbors)@) ==> addrs_unique(final(neighbors)@),
{
    let mut entry = NeighborState::new(naddr, neighbor);
    match find_neighbor(neighbors, naddr) {
        Some(i) => {
            let mut old_entry = neighbors.remove(i);
            let last_dd = old_entry.last_dd.take();
            entry.last_dd = last_dd;
            neighbors.insert(i, entry);
            assert(find_first(old(neighbors)@, naddr) == Some(i as int));
            assert(neighbors@[i as int].naddr == naddr);
            assert(neighbors@ =~= old(neighbors)@.update(i as int, neighbors@[i as int]));
        },
        None => {
            neighbors.push(entry);
            assert(find_first(old(neighbors)@, naddr) is None);
            assert(neighbors@[neighbors@.len() - 1].naddr == naddr);
            assert(neighbors@ =~= old(neighbors)@.push(neighbors@[neighbors@.len() - 1]));
        },
    }
}

/// No two neighbors are filed under the same address.
pub open spec fn addrs_unique(ns: Seq<NeighborState>) -> bool {
    forall|i: int, j: int| 0 <= i < j < ns.len() ==> ns[i].naddr != ns[j].naddr
}

/// The position of the first neighbor filed under `naddr`.
pub open spec fn find_first(ns: Seq<NeighborState>, naddr: u32) -> Option<int> {
    if exists|i: int| 0 <= i < ns.len() && ns[i].naddr == naddr {
        Some(
            choose|i: int|
                0 <= i < ns.len() && ns[i].naddr == naddr && forall|j: int|
                    0 <= j < i ==> ns[j].naddr != naddr,
        )
    } else {
        None
    }
}

/// `s` is neighbor `neighbor` freshly filed under `naddr`: down, with empty lists.
pub open spec fn fresh(s: NeighborState, naddr: u32, neighbor: Neighbor) -> bool {
    &&& s.naddr == naddr
    &&& s.neighbor == neighbor
    &&& s.status == Status::Down
    &&& s.retrans_list@ == Seq::<LsaIdentifer>::empty()
    &&& s.summary_list@ == Seq::<LsaIdentifer>::empty()
    &&& s.lsr_list@ == Seq::<LsaIdentifer>::empty()
}


impl NeighborState {
    /// Handles `event` on a network of this type, where `adjacent` says whether an adjacency
    /// is to be formed: enters the state the event leads to, empties the retransmission,
    /// request and summary lists where it asks so, and returns what it asks to be done.
    pub fn handle_event(&mut self, event: Event, network_type: NetworkType, adjacent: bool) -> (r:
        Vec<Action>)
        ensures
            ({
                let ctx = Context {
                    network_type,
                    adjacent,
                    lsr_list_empty: old(self).lsr_list@.len() == 0,
                };
                let (s, actions) = spec_transition(old(self).status, event, ctx);
                &&& final(self).status == s
                &&& r@ == actions
                &&& actions.contains(Action::ClearLists) ==> {
                    &&& final(self).retrans_list@ == Seq::<LsaIdentifer>::empty()
                    &&& final(self).summary_list@ == Seq::<LsaIdentifer>::empty()
                    &&& final(self).lsr_list@ == Seq::<LsaIdentifer>::empty()
                }
                &&& !actions.contains(Action::ClearLists) ==> {
                    &&& final(self).retrans_list@ == old(self).retrans_list@
                    &&& final(self).summary_list@ == old(self).summary_list@
                    &&& final(self).lsr_list@ == old(self).lsr_list@
                }
            }),
            final(self).naddr == old(self).naddr,
            final(self).neighbor == old(self).neighbor,
            final(self).last_dd == old(self).last_dd,
    {
        let ctx = Context { network_type, adjacent, lsr_list_empty: self.is_lsr_list_empty() };
        let (status, actions) = event.transition(self.status, ctx);
        let mut clear = false;
        let mut i: usize = 0;
        while i < actions.len()
            invariant
                i <= actions@.len(),
                clear == actions@.take(i as int).contains(Action::ClearLists),
            decreases actions@.len() - i,
        {
            let is_clear = actions[i] == Action::ClearLists;
            proof {
                let pre = actions@.take(i as int);
                let next = actions@.take(i as int + 1);
                assert(next =~= pre.push(actions@[i as int]));
                if is_clear {
                    assert(next[i as int] == Action::ClearLists);
                } else if next.contains(Action::ClearLists) {
                    let j = choose|j: int| 0 <= j < next.len() && next[j] == Action::ClearLists;
                    assert(j != i);
                    assert(pre[j] == next[j]);
                }
                if pre.contains(Action::ClearLists) {
                    let j = choose|j: int| 0 <= j < pre.len() && pre[j] == Action::ClearLists;
                    assert(next[j] == pre[j]);
                }
            }
            if is_clear {
                clear = true;
            }
            i = i + 1;
        }
        assert(actions@.take(i as int) =~= actions@);
        if clear {
            self.clear_lsa_retrans_list();
            self.clear_lsr_list();
            self.clear_summary_list();
        }
        self.status = status;
        actions
    }
}

} // verus!
