//! The router-LSA that this router originates from the states of its interfaces.
use vstd::prelude::*;

use crate::area::lsdb::LsaDb;
use crate::interface::status::Status;
use crate::interface::NetworkType;
use crate::lsa::router::{
    lemma_parse_router_bytes, links_size, originated_router_lsa, parse_router, router_bytes, LinkState, LinkStateView, RouterLSA,
    RouterLSAView, LS_ID_STUB, LS_ID_TRANSIT,
};
use crate::lsa::{fletcher16, Lsa, LsaView};
use crate::interface::Interface;
use crate::neighbor::status::Status as NeighborStatus;
use crate::neighbor::{get_naddr_by_id, get_status_by_id, NeighborState};
use crate::OPTION_E;

verus! {

/// What the router-LSA reads of one interface.
#[derive(Clone, Copy)]
pub struct InterfaceState {
    pub ip: u32,
    pub mask: u32,
    pub area_id: u32,
    pub output_cost: u32,
    pub network_type: NetworkType,
    pub status: Status,
    /// The designated router of the interface's network, 0 where there is none.
    pub dr: u32,
    /// Whether some neighbor on the interface is in `ExStart` or a later state.
    pub adjacency_forming: bool,
    /// The state and address of the neighbor whose router id is `dr`, where it is known.
    pub dr_neighbor: Option<(NeighborStatus, u32)>,
}

/// Whether some neighbor of the list is in `ExStart` or a later state (in the order the
/// states are declared, where `Attempt` comes last).
pub open spec fn some_forming(neighbors: Seq<NeighborState>) -> bool {
    exists|i: int| 0 <= i < neighbors.len() && neighbors[i].status.rank() >= NeighborStatus::ExStart.rank()
}

/// The first neighbor of the list whose router id is `id`.
pub open spec fn first_with_id(neighbors: Seq<NeighborState>, id: u32) -> Option<int> {
    if exists|i: int| 0 <= i < neighbors.len() && neighbors[i].neighbor.id == id {
        Some(
            choose|i: int|
                0 <= i < neighbors.len() && neighbors[i].neighbor.id == id && forall|j: int|
                    0 <= j < i ==> neighbors[j].neighbor.id != id,
        )
    } else {
        None
    }
}

/// What the router-LSA reads of an interface with this configuration, state, designated
/// router and neighbors.
pub fn interface_state(config: &Interface, status: Status, dr: u32, neighbors: &Vec<NeighborState>) -> (r:
    InterfaceState)
    ensures
        r.ip == config.ip,
        r.mask == config.mask,
        r.area_id == config.area_id,
        r.output_cost == config.output_cost,
        r.network_type == config.network_type,
        r.status == status,
        r.dr == dr,
        r.adjacency_forming == some_forming(neighbors@),
        r.dr_neighbor == match first_with_id(neighbors@, dr) {
            Some(i) => Some((neighbors@[i].status, neighbors@[i].naddr)),
            None => None::<(NeighborStatus, u32)>,
        },
{
    let mut forming = false;
    let mut i: usize = 0;
    while i < neighbors.len()
        invariant
            i <= neighbors@.len(),
            forming == exists|j: int| 0 <= j < i && neighbors@[j].status.rank() >= NeighborStatus::ExStart.rank(),
        decreases neighbors@.len() - i,
    {
        if neighbors[i].status.position() >= 3 {
            forming = true;
        }
        i = i + 1;
    }
    let dr_neighbor = match (get_status_by_id(neighbors, dr), get_naddr_by_id(neighbors, dr)) {
        (Some(s), Some(a)) => Some((s, a)),
        _ => None,
    };
    proof {
        if first_with_id(neighbors@, dr) is Some {
            let k = first_with_id(neighbors@, dr)->0;
            assert(neighbors@[k].neighbor.id == dr);
        }
    }
    InterfaceState {
        ip: config.ip,
        mask: config.mask,
        area_id: config.area_id,
        output_cost: config.output_cost,
        network_type: config.network_type,
        status,
        dr,
        adjacency_forming: forming,
        dr_neighbor,
    }
}

/// A stub link to the network `ip` lies on.
pub open spec fn stub_network(i: InterfaceState) -> LinkStateView {
    LinkStateView {
        link_id: i.ip & i.mask,
        link_data: i.mask,
        ls_type: LS_ID_STUB,
        tos_count: 0,
        metric: i.output_cost as u16,
        tos: Seq::empty(),
    }
}

/// A transit link with this link id and link data.
pub open spec fn transit(link_id: u32, i: InterfaceState) -> LinkStateView {
    LinkStateView {
        link_id,
        link_data: i.ip,
        ls_type: LS_ID_TRANSIT,
        tos_count: 0,
        metric: i.output_cost as u16,
        tos: Seq::empty(),
    }
}

/// Whether the links of an interface can be described: an interface of the area that is
/// neither down nor looped back is not on a point-to-point or point-to-multipoint network.
pub open spec fn describable(area_id: u32, i: InterfaceState) -> bool {
    (i.area_id == area_id && i.status != Status::Down && i.status != Status::Loopback) ==> (
    i.network_type != NetworkType::PointToPoint && i.network_type
        != NetworkType::PointToMultipoint)
}

/// Whether the links of an interface can be described; see `describable`.
pub fn is_describable(area_id: u32, i: &InterfaceState) -> (r: bool)
    ensures
        r == describable(area_id, *i),
{
    if i.area_id == area_id && i.status != Status::Down && i.status != Status::Loopback {
        match i.network_type {
            NetworkType::PointToPoint | NetworkType::PointToMultipoint => false,
            _ => true,
        }
    } else {
        true
    }
}

/// The links that interface `i` contributes to the router-LSA of area `area_id` of router
/// `router_id`: none where it is in another area or down; a host link to its own address
/// where it is looped back (but for point-to-point networks); on broadcast and NBMA networks
/// a stub link while waiting or without a designated router, a transit link to its own
/// address where this router is the designated router and some neighbor is forming an
/// adjacency (else a stub link), and a transit link to the designated router's address
/// where that neighbor is fully adjacent (else a stub link; none where the neighbor is not
/// known); none on virtual links.
pub open spec fn interface_links(area_id: u32, router_id: u32, i: InterfaceState) -> Seq<
    LinkStateView,
> {
    if i.area_id != area_id || i.status == Status::Down {
        Seq::empty()
    } else if i.status == Status::Loopback {
        if i.network_type == NetworkType::PointToPoint {
            Seq::empty()
        } else {
            seq![
                LinkStateView {
                    link_id: i.ip,
                    link_data: 0xffff_ffff,
                    ls_type: LS_ID_STUB,
                    tos_count: 0,
                    metric: 0,
                    tos: Seq::empty(),
                },
            ]
        }
    } else if i.network_type == NetworkType::Broadcast || i.network_type == NetworkType::NBMA {
        if i.status == Status::Waiting || i.dr == 0 {
            seq![stub_network(i)]
        } else if i.dr == router_id {
            if i.adjacency_forming {
                seq![transit(i.ip, i)]
            } else {
                seq![stub_network(i)]
            }
        } else {
            match i.dr_neighbor {
                Some((s, naddr)) => if s == NeighborStatus::Full {
                    seq![transit(naddr, i)]
                } else {
                    seq![stub_network(i)]
                },
                None => Seq::empty(),
            }
        }
    } else {
        Seq::empty()
    }
}

/// The links of all the interfaces, in order.
pub open spec fn router_links_of(area_id: u32, router_id: u32, is: Seq<InterfaceState>) -> Seq<
    LinkStateView,
>
    decreases is.len(),
{
    if is.len() == 0 {
        Seq::empty()
    } else {
        router_links_of(area_id, router_id, is.drop_last()) + interface_links(
            area_id,
            router_id,
            is.last(),
        )
    }
}

/// The router-LSA this router originates with these links and sequence number.
pub open spec fn own_router_lsa(links: Seq<LinkStateView>, router_id: u32, seqno: u32) -> RouterLSAView {
    originated_router_lsa(
        links,
        OPTION_E,
        router_id,
        seqno,
        fletcher16(router_bytes(originated_router_lsa(links, OPTION_E, router_id, seqno, 0))),
    )
}

proof fn lemma_router_links_bounded(area_id: u32, router_id: u32, is: Seq<InterfaceState>)
    ensures
        router_links_of(area_id, router_id, is).len() <= is.len(),
        links_size(router_links_of(area_id, router_id, is)) == 12 * router_links_of(
            area_id,
            router_id,
            is,
        ).len(),
        forall|k: int|
            0 <= k < router_links_of(area_id, router_id, is).len() ==> (#[trigger] router_links_of(
                area_id,
                router_id,
                is,
            )[k]).tos.len() == 0 && router_links_of(area_id, router_id, is)[k].tos_count == 0,
    decreases is.len(),
{
    if is.len() > 0 {
        lemma_router_links_bounded(area_id, router_id, is.drop_last());
        let pre = router_links_of(area_id, router_id, is.drop_last());
        let one = interface_links(area_id, router_id, is.last());
        let all = pre + one;
        assert(all == router_links_of(area_id, router_id, is));
        if one.len() == 1 {
            assert(all.drop_last() =~= pre);
            assert(all.last() == one[0]);
        } else {
            assert(all =~= pre);
        }
    }
}

/// The single link an interface contributes is this one.
pub open spec fn contributes_one(
    area_id: u32,
    router_id: u32,
    i: InterfaceState,
    link_id: u32,
    link_data: u32,
    ls_type: u8,
    metric: u16,
) -> bool {
    let links = interface_links(area_id, router_id, i);
    &&& links.len() == 1
    &&& links[0].link_id == link_id
    &&& links[0].link_data == link_data
    &&& links[0].ls_type == ls_type
    &&& links[0].metric == metric
    &&& links[0].tos_count == 0
    &&& links[0].tos.len() == 0
}

/// What an interface of a broadcast or NBMA network, up in the area, adds to the router-LSA:
/// a stub link (type 3) to its network while it is waiting or there is no designated router;
/// where this router is the designated router, a transit link (type 2) whose link id and link
/// data are both the interface's address once some neighbor forms an adjacency, else the
/// stub link; where another router is designated and fully adjacent, a transit link to that
/// router's address with the interface's address as link data, else the stub link; and
/// nothing where the designated router is not among the neighbors. The metric is the
/// interface's output cost.
pub proof fn lemma_broadcast_interface_links(area_id: u32, router_id: u32, i: InterfaceState)
    requires
        i.area_id == area_id,
        i.status != Status::Down,
        i.status != Status::Loopback,
        i.network_type == NetworkType::Broadcast || i.network_type == NetworkType::NBMA,
    ensures
        ({
            let metric = i.output_cost as u16;
            let stub = contributes_one(area_id, router_id, i, i.ip & i.mask, i.mask, 3, metric);
            &&& (i.status == Status::Waiting || i.dr == 0) ==> stub
            &&& (i.status != Status::Waiting && i.dr != 0 && i.dr == router_id) ==> if i.adjacency_forming {
                contributes_one(area_id, router_id, i, i.ip, i.ip, 2, metric)
            } else {
                stub
            }
            &&& (i.status != Status::Waiting && i.dr != 0 && i.dr != router_id) ==> match i.dr_neighbor {
                Some((s, naddr)) => if s == NeighborStatus::Full {
                    contributes_one(area_id, router_id, i, naddr, i.ip, 2, metric)
                } else {
                    stub
                },
                None => interface_links(area_id, router_id, i).len() == 0,
            }
        }),
{
}

/// An interface of another area, or one that is down, adds nothing; a looped-back interface
/// not on a point-to-point network adds a host link (type 3, mask all ones, metric 0) to its
/// own address.
pub proof fn lemma_idle_interface_links(area_id: u32, router_id: u32, i: InterfaceState)
    ensures
        (i.area_id != area_id || i.status == Status::Down) ==> interface_links(
            area_id,
            router_id,
            i,
        ).len() == 0,
        (i.area_id == area_id && i.status == Status::Loopback && i.network_type
            != NetworkType::PointToPoint) ==> contributes_one(
            area_id,
            router_id,
            i,
            i.ip,
            0xffff_ffff,
            3,
            0,
        ),
        (i.area_id == area_id && i.status != Status::Down && i.status != Status::Loopback && (
        i.network_type == NetworkType::VirtualLink || i.network_type == NetworkType::PointToPoint
            || i.network_type == NetworkType::PointToMultipoint)) ==> interface_links(
            area_id,
            router_id,
            i,
        ).len() == 0,
{
}

/// The links that interface `i` contributes to the router-LSA.
pub fn interface_link(area_id: u32, router_id: u32, i: &InterfaceState) -> (r: Option<LinkState>)
    requires
        describable(area_id, *i),
    ensures
        match r {
            Some(l) => seq![l@] == interface_links(area_id, router_id, *i),
            None => interface_links(area_id, router_id, *i) == Seq::<LinkStateView>::empty(),
        },
        (i.area_id == area_id && i.status != Status::Down && i.status != Status::Loopback
            && i.status != Status::Waiting && (i.network_type == NetworkType::Broadcast
            || i.network_type == NetworkType::NBMA) && i.dr != 0 && i.dr == router_id
            && i.adjacency_forming) ==> (r matches Some(l) && l@.link_id == i.ip && l@.link_data
            == i.ip && l@.ls_type == 2 && l@.metric == i.output_cost as u16),
{
    if i.area_id != area_id {
        return None;
    }
    let metric = i.output_cost as u16;
    let stub = (i.ip & i.mask, i.mask, LS_ID_STUB);
    let chosen: Option<(u32, u32, u8)> = match i.status {
        Status::Down => None,
        Status::Loopback => match i.network_type {
            NetworkType::PointToPoint => None,
            _ => {
                return Some(LinkState::new(i.ip, 0xffff_ffff, LS_ID_STUB, 0, None, 0));
            },
        },
        _ => match i.network_type {
            NetworkType::Broadcast | NetworkType::NBMA => {
                if i.status == Status::Waiting || i.dr == 0 {
                    Some(stub)
                } else if i.dr == router_id {
                    if i.adjacency_forming {
                        Some((i.ip, i.ip, LS_ID_TRANSIT))
                    } else {
                        Some(stub)
                    }
                } else {
                    match i.dr_neighbor {
                        Some((s, naddr)) => if s == NeighborStatus::Full {
                            Some((naddr, i.ip, LS_ID_TRANSIT))
                        } else {
                            Some(stub)
                        },
                        None => None,
                    }
                }
            },
            _ => None,
        },
    };
    match chosen {
        Some((link_id, link_data, ls_type)) => Some(
            LinkState::new(link_id, link_data, ls_type, 0, None, metric),
        ),
        None => None,
    }
}

/// The links of the router-LSA: those of each interface, in order.
pub fn router_links(area_id: u32, router_id: u32, interfaces: &Vec<InterfaceState>) -> (r: Vec<
    LinkState,
>)
    requires
        forall|k: int| 0 <= k < interfaces@.len() ==> describable(area_id, #[trigger] interfaces@[k]),
    ensures
        r@.map_values(|l: LinkState| l@) == router_links_of(area_id, router_id, interfaces@),
{
    let mut links: Vec<LinkState> = Vec::new();
    let mut k: usize = 0;
    while k < interfaces.len()
        invariant
            k <= interfaces@.len(),
            forall|j: int| 0 <= j < interfaces@.len() ==> describable(area_id, #[trigger] interfaces@[j]),
            links@.map_values(|l: LinkState| l@) == router_links_of(
                area_id,
                router_id,
                interfaces@.take(k as int),
            ),
        decreases interfaces@.len() - k,
    {
        let ghost pre = links@.map_values(|l: LinkState| l@);
        let link = interface_link(area_id, router_id, &interfaces[k]);
        assert(interfaces@.take(k as int + 1).drop_last() =~= interfaces@.take(k as int));
        match link {
            Some(l) => {
                links.push(l);
                assert(links@.map_values(|l: LinkState| l@) =~= pre + interface_links(
                    area_id,
                    router_id,
                    interfaces@[k as int],
                ));
            },
            None => {
                assert(pre + interface_links(area_id, router_id, interfaces@[k as int]) =~= pre);
            },
        }
        k = k + 1;
    }
    assert(interfaces@.take(k as int) =~= interfaces@);
    links
}

/// Builds the router-LSA of area `area_id` from the states of the interfaces, with the next
/// sequence number, and files it in the area's database.
pub fn create_router_lsa(
    lsdb: &mut LsaDb,
    area_id: u32,
    router_id: u32,
    interfaces: &Vec<InterfaceState>,
    seqno: &mut u32,
)
    requires
        old(lsdb).wf(),
        *old(seqno) < u32::MAX,
        24 + 12 * interfaces@.len() <= usize::MAX,
        forall|k: int| 0 <= k < interfaces@.len() ==> describable(area_id, #[trigger] interfaces@[k]),
    ensures
        final(lsdb).wf(),
        *final(seqno) == *old(seqno) + 1,
        final(lsdb)@ == old(lsdb)@.insert(
            LsaView::Router(
                own_router_lsa(router_links_of(area_id, router_id, interfaces@), router_id, *old(seqno)),
            ),
        ),
{
    let links = router_links(area_id, router_id, interfaces);
    proof {
        lemma_router_links_bounded(area_id, router_id, interfaces@);
    }
    let lsa = RouterLSA::new(links, OPTION_E, router_id, seqno);
    let ghost v = LsaView::Router(lsa@);
    let lsas = vec![Lsa::Router(lsa)];
    let ghost vs = lsas@.map_values(|l: Lsa| l@);
    assert(vs.drop_last() =~= Seq::<LsaView>::empty());
    assert(vs.last() == v);
    assert(old(lsdb)@.insert_all(vs) == old(lsdb)@.insert_all(Seq::<LsaView>::empty()).insert(v));
    lsdb.update_lsdb(lsas);
}

/// The router-LSA this router originates is read back from its wire form, and its length
/// field gives the length of that form, as long as the length fits in the field's 16 bits.
pub proof fn lemma_own_router_lsa_reads_back(
    area_id: u32,
    router_id: u32,
    interfaces: Seq<InterfaceState>,
    seqno: u32,
)
    requires
        24 + 12 * router_links_of(area_id, router_id, interfaces).len() <= 0xffff,
    ensures
        ({
            let v = own_router_lsa(router_links_of(area_id, router_id, interfaces), router_id, seqno);
            &&& parse_router(router_bytes(v)) == Some(v)
            &&& router_bytes(v).len() == v.header.length
        }),
{
    let links = router_links_of(area_id, router_id, interfaces);
    lemma_router_links_bounded(area_id, router_id, interfaces);
    let v = own_router_lsa(links, router_id, seqno);
    assert(v.counted());
    lemma_parse_router_bytes(v, Seq::empty());
    assert(router_bytes(v) + Seq::<u8>::empty() =~= router_bytes(v));
}

} // verus!
