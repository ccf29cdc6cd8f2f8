use ospf::area::lsdb::{fetch_lsas, LsaDb, LsaIdentifer};
use ospf::area::Area;
use ospf::err::OspfError;
use ospf::error::RouterNotSetError;
use ospf::interface::event::{select_dr_bdr, status_after, status_when_up, Event as IEvent, Step};
use ospf::interface::handle::{create_router_lsa, router_links, InterfaceState};
use ospf::interface::status::Status as IStatus;
use ospf::interface::{network_type_named, Interface, NetworkType};
use ospf::lsa::network::NetworkLSA;
use ospf::lsa::router::RouterLSA;
use ospf::lsa::{Header, Lsa};
use ospf::neighbor::event::{Action, Context, Event as NEvent};
use ospf::neighbor::status::Status as NStatus;
use ospf::neighbor::{
    add, contains_neighbor, find_neighbor, get_naddr_by_id, get_status_by_id, is_adjacent,
    update_neighbor, Neighbor, NeighborState,
};
use ospf::packet::dd::DD;
use ospf::packet::hello::Hello;
use ospf::packet::lsack::Lsack;
use ospf::packet::lsr::{Lsr, LsrOutcome};
use ospf::packet::lsu::Lsu;
use ospf::packet::{ospf_packet_checksum, OspfHeader};
use ospf::router::Router;
use ospf::rtable::graph::{build_graph, Edge, Graph, Node, NodeType};
use ospf::rtable::{DestionationType, PathType, RouteTable, RouteTableEntry};

fn interface(network_type: NetworkType) -> Interface {
    Interface {
        ip: 0x0a00_0001,
        mask: 0xffff_ff00,
        area_id: 0,
        output_cost: 10,
        rxmt_interval: 5,
        inf_trans_delay: 1,
        hello_interval: 10,
        router_dead_interval: 40,
        network_type,
        auth_type: 0,
        auth_key: 0,
        options: 0x02,
        router_priority: 1,
    }
}

fn neighbor(id: u32, priority: u8, dr: u32, bdr: u32) -> Neighbor {
    Neighbor { master: false, dd_seq: 0, id, priority, ipv4_addr: id, options: 0, dr, bdr }
}

fn lsa_header(lsa_type: u8, id: u32, age: u16, length: u16) -> Header {
    Header {
        age,
        options: 0,
        lsa_type,
        link_state_id: id,
        advertising_router: 0x0505_0505,
        sequence_number: 1,
        checksum: 0,
        length,
    }
}

fn network_lsa(id: u32, age: u16) -> Lsa {
    Lsa::Network(NetworkLSA { header: lsa_header(2, id, age, 28), mask: 0, attached_rtrs: vec![1] })
}

fn router_lsa(id: u32) -> Lsa {
    Lsa::Router(RouterLSA { header: lsa_header(1, id, 0, 24), veb: 0, link_count: 0, link_states: vec![] })
}

fn ident(lsa_type: u32, id: u32) -> LsaIdentifer {
    LsaIdentifer { lsa_type, link_state_id: id, advertising_router: 0x0505_0505 }
}

#[test]
fn interface_steps() {
    assert_eq!(IEvent::InterfaceUp.step(IStatus::Down), Step::BringUp);
    assert_eq!(IEvent::InterfaceUp.step(IStatus::Waiting), Step::Ignore);
    assert_eq!(IEvent::WaitTimer.step(IStatus::Waiting), Step::Elect);
    assert_eq!(IEvent::BackupSeen.step(IStatus::DR), Step::Ignore);
    assert_eq!(IEvent::NeighborChange(7).step(IStatus::DRother), Step::ElectAndStartDd(7));
    assert_eq!(IEvent::NeighborChange(7).step(IStatus::Waiting), Step::Ignore);
    assert_eq!(IEvent::UnloopInd.step(IStatus::Down), Step::Ignore);
    assert_eq!(IEvent::InterfaceDown.step(IStatus::DR), Step::TearDown(IStatus::Down));
}

#[test]
fn loop_then_unloop_is_down() {
    let looped = status_after(
        IStatus::Backup,
        IEvent::LoopInd("eth0".to_string()).step(IStatus::Backup),
        IStatus::Waiting,
        IStatus::DR,
    );
    assert_eq!(looped, IStatus::Loopback);
    let after = status_after(looped, IEvent::UnloopInd.step(looped), IStatus::Waiting, IStatus::DR);
    assert_eq!(after, IStatus::Down);
}

#[test]
fn up_states() {
    assert_eq!(status_when_up(NetworkType::Broadcast, true), IStatus::Waiting);
    assert_eq!(status_when_up(NetworkType::NBMA, true), IStatus::Waiting);
    assert_eq!(status_when_up(NetworkType::PointToPoint, true), IStatus::PointToPoint);
    assert_eq!(status_when_up(NetworkType::Broadcast, false), IStatus::Down);
}

#[test]
fn election_picks_declared_backup_and_highest_priority() {
    let ns = vec![
        (NStatus::Full, neighbor(5, 1, 0, 5)),
        (NStatus::Full, neighbor(6, 2, 0, 0)),
        (NStatus::TwoWay, neighbor(9, 9, 0, 9)),
        (NStatus::Full, neighbor(8, 0, 0, 8)),
    ];
    let (dr, bdr, status) = select_dr_bdr(0, 0, &ns, 1);
    assert_eq!(bdr, 5);
    assert_eq!(dr, 6);
    assert_eq!(status, IStatus::DRother);
}

#[test]
fn election_with_no_candidates() {
    let (dr, bdr, status) = select_dr_bdr(0, 0, &vec![], 0);
    assert_eq!((dr, bdr), (0, 0));
    assert_eq!(status, IStatus::DR);
    // Without candidates both roles go to no router, whatever they were.
    let (dr, bdr, status) = select_dr_bdr(3, 4, &vec![], 4);
    assert_eq!((dr, bdr), (0, 0));
    assert_eq!(status, IStatus::DRother);
}

#[test]
fn neighbor_transitions() {
    let ctx = Context { network_type: NetworkType::Broadcast, adjacent: true, lsr_list_empty: true };
    assert_eq!(NEvent::HelloReceived.transition(NStatus::Down, ctx), (NStatus::Init, vec![Action::StartInactivityTimer]));
    let (s, a) = NEvent::TwoWayReceived.transition(NStatus::Init, ctx);
    assert_eq!(s, NStatus::ExStart);
    assert_eq!(a, vec![Action::StartDdSend { n_master: false, init: true, more: true, with_headers: false }]);
    let apart = Context { adjacent: false, ..ctx };
    assert_eq!(NEvent::TwoWayReceived.transition(NStatus::Init, apart), (NStatus::TwoWay, vec![]));
    assert_eq!(NEvent::ExchangeDone.transition(NStatus::Exchange, ctx), (NStatus::Full, vec![]));
    let pending = Context { lsr_list_empty: false, ..ctx };
    assert_eq!(NEvent::ExchangeDone.transition(NStatus::Exchange, pending), (NStatus::Loading, vec![Action::StartSendLsr]));
    assert_eq!(NEvent::KillNbr.transition(NStatus::Full, ctx).0, NStatus::Down);
    assert_eq!(NEvent::OneWayReceived.transition(NStatus::Full, ctx), (NStatus::Full, vec![]));
    // NegotiationDone enters Exchange even outside ExStart.
    assert_eq!(NEvent::NegotiationDone(true).transition(NStatus::Init, ctx), (NStatus::Exchange, vec![]));
    assert_eq!(NEvent::Start.transition(NStatus::Down, Context { network_type: NetworkType::NBMA, ..ctx }).0, NStatus::Attempt);
    assert_eq!(NEvent::Start.transition(NStatus::Down, ctx).0, NStatus::Down);
}

#[test]
fn neighbor_state_handles_events() {
    let mut st = NeighborState::new(7, neighbor(7, 1, 0, 0));
    st.status = NStatus::Exchange;
    st.fill_retrans_list(vec![ident(1, 1)]);
    st.lsr_list.push(ident(1, 2));
    let actions = st.handle_event(NEvent::BadLSReq, NetworkType::Broadcast, true);
    assert_eq!(st.status, NStatus::ExStart);
    assert_eq!(actions, vec![Action::AbortInactivityTimer, Action::ClearLists]);
    assert!(st.retrans_list.is_empty() && st.lsr_list.is_empty() && st.summary_list.is_empty());
    let actions = st.handle_event(NEvent::HelloReceived, NetworkType::Broadcast, true);
    assert_eq!(st.status, NStatus::ExStart);
    assert_eq!(actions, vec![Action::StartInactivityTimer]);
}

#[test]
fn hello_from_known_neighbor_updates_it() {
    let mut n = neighbor(7, 1, 0, 0);
    let mut hello = Hello::empty();
    hello.router_priority = 3;
    hello.header.router_id = 7;
    hello.designated_router = 7;
    hello.backup_designated_router = 7;
    let events = update_neighbor(&mut n, 7, &hello, IStatus::Waiting);
    assert_eq!(events, vec![IEvent::NeighborChange(7), IEvent::BackupSeen]);
    assert_eq!(n.priority, 3);
    assert_eq!((n.dr, n.bdr), (7, 7));
    let events = update_neighbor(&mut n, 7, &hello, IStatus::DR);
    assert_eq!(events, vec![]);
    hello.backup_designated_router = 0;
    let events = update_neighbor(&mut n, 7, &hello, IStatus::DR);
    assert_eq!(events, vec![IEvent::NeighborChange(7)]);
}

#[test]
fn adjacency_rules() {
    assert!(is_adjacent(NetworkType::PointToPoint, 0, 0, 1, 2));
    assert!(is_adjacent(NetworkType::Broadcast, 1, 0, 1, 2));
    assert!(is_adjacent(NetworkType::Broadcast, 3, 2, 1, 2));
    assert!(!is_adjacent(NetworkType::Broadcast, 3, 4, 1, 2));
}

#[test]
fn neighbor_lists() {
    let mut st = NeighborState::new(7, neighbor(7, 1, 0, 0));
    st.fill_retrans_list(vec![ident(1, 1), ident(1, 2), ident(1, 1)]);
    st.ack_lsa(ident(1, 1));
    assert_eq!(st.retrans_list, vec![ident(1, 2)]);
    assert!(st.is_lsr_list_empty());
    let mut dd = DD::empty();
    dd.dd_sequence_number = 5;
    assert!(!st.is_duplicated_dd(&dd));
    st.save_last_dd(DD::empty());
    assert!(!st.is_duplicated_dd(&dd));
    dd.dd_sequence_number = 0;
    assert!(st.is_duplicated_dd(&dd));
    st.clear_lsa_retrans_list();
    assert!(st.retrans_list.is_empty());
}

#[test]
fn request_list_takes_missing_lsas() {
    let mut db = LsaDb::empty();
    db.update_lsdb(vec![network_lsa(1, 0)]);
    let mut dd = DD::empty();
    dd.lsa_headers = vec![lsa_header(2, 1, 0, 28), lsa_header(2, 2, 0, 28), lsa_header(1, 3, 0, 24)];
    let mut st = NeighborState::new(7, neighbor(7, 1, 0, 0));
    st.update_lsr_list(&db, &dd);
    assert_eq!(st.lsr_list, vec![ident(2, 2), ident(1, 3)]);
    assert!(!st.is_lsr_list_empty());
    st.clear_lsr_list();
    assert!(st.is_lsr_list_empty());
}

#[test]
fn neighbor_table() {
    let mut ns: Vec<NeighborState> = Vec::new();
    add(&mut ns, 10, neighbor(1, 1, 0, 0));
    add(&mut ns, 11, neighbor(2, 1, 0, 0));
    ns[0].status = NStatus::Full;
    ns[0].save_last_dd(DD::empty());
    assert!(contains_neighbor(&ns, 11));
    assert!(!contains_neighbor(&ns, 12));
    assert_eq!(find_neighbor(&ns, 11), Some(1));
    assert_eq!(get_naddr_by_id(&ns, 2), Some(11));
    assert_eq!(get_naddr_by_id(&ns, 3), None);
    assert_eq!(get_status_by_id(&ns, 1), Some(NStatus::Full));
    add(&mut ns, 10, neighbor(5, 1, 0, 0));
    assert_eq!(ns.len(), 2);
    assert_eq!(ns[0].neighbor.id, 5);
    assert_eq!(ns[0].status, NStatus::Down);
    assert!(ns[0].last_dd.is_some());
}

#[test]
fn link_state_requests() {
    let mut db = LsaDb::empty();
    db.update_lsdb(vec![network_lsa(1, 0)]);
    let mut st = NeighborState::new(7, neighbor(7, 1, 0, 0));
    let lsr = Lsr { header: OspfHeader::empty(), lsr_entries: vec![ident(2, 1)] };
    assert_eq!(lsr.received(&mut st, &db), LsrOutcome::Discarded);
    assert!(st.retrans_list.is_empty());
    st.status = NStatus::Loading;
    assert_eq!(lsr.received(&mut st, &db), LsrOutcome::SendLsu);
    assert_eq!(st.retrans_list, vec![ident(2, 1)]);
    let bad = Lsr { header: OspfHeader::empty(), lsr_entries: vec![ident(2, 1), ident(2, 9)] };
    assert_eq!(bad.received(&mut st, &db), LsrOutcome::BadLSReq);
    assert_eq!(st.retrans_list.len(), 3);
}

#[test]
fn link_state_updates_file_and_acknowledge() {
    let mut db = LsaDb::empty();
    let lsu = Lsu { header: OspfHeader::empty(), lsa_count: 2, lsa_list: vec![network_lsa(1, 3), router_lsa(2)] };
    let acks = lsu.received(&mut db);
    assert_eq!(acks.len(), 2);
    assert_eq!(acks[0], lsa_header(2, 1, 3, 28));
    assert!(db.contains_lsa(ident(2, 1)));
    assert!(db.contains_lsa(ident(1, 2)));
}

#[test]
fn database_insert_lookup_remove() {
    let mut db = LsaDb::empty();
    db.update_lsdb(vec![network_lsa(1, 0), network_lsa(1, 9), router_lsa(4)]);
    assert_eq!(db.fetch_lsa(ident(2, 1)).unwrap().copy_header().age, 9);
    assert!(db.fetch_lsa(ident(2, 2)).is_none());
    let headers = db.fetch_lsa_headers(2);
    assert_eq!(headers.len(), 2);
    assert_eq!(headers[0].lsa_type, 1);
    assert_eq!(headers[1].age, 11);
    db.age_by(1);
    assert_eq!(db.fetch_lsa(ident(2, 1)).unwrap().copy_header().age, 12);
    db.remove_lsa(ident(2, 1));
    assert!(!db.contains_lsa(ident(2, 1)));
    assert!(db.contains_lsa(ident(1, 4)));
    assert!(fetch_lsas(&db, vec![ident(1, 4), ident(2, 1)]).is_none());
    let found = fetch_lsas(&db, vec![ident(1, 4)]).unwrap();
    assert_eq!(found[0].copy_header().link_state_id, 4);
}

#[test]
fn router_lsa_from_interfaces() {
    let base = InterfaceState {
        ip: 0x0a00_0001,
        mask: 0xffff_ff00,
        area_id: 0,
        output_cost: 0x1_0005,
        network_type: NetworkType::Broadcast,
        status: IStatus::Waiting,
        dr: 0,
        adjacency_forming: false,
        dr_neighbor: None,
    };
    let looped = InterfaceState { status: IStatus::Loopback, ip: 0x0a00_0101, ..base };
    let other_area = InterfaceState { area_id: 1, ..base };
    let transit = InterfaceState {
        status: IStatus::DRother,
        dr: 9,
        dr_neighbor: Some((NStatus::Full, 0x0a00_0009)),
        ..base
    };
    let links = router_links(0, 1, &vec![base, looped, other_area, transit]);
    assert_eq!(links.len(), 3);
    assert_eq!((links[0].link_id, links[0].link_data, links[0].ls_type, links[0].metric), (0x0a00_0000, 0xffff_ff00, 3, 5));
    assert_eq!((links[1].link_id, links[1].link_data, links[1].metric), (0x0a00_0101, 0xffff_ffff, 0));
    assert_eq!((links[2].link_id, links[2].link_data, links[2].ls_type), (0x0a00_0009, 0x0a00_0001, 2));

    let mut db = LsaDb::empty();
    let mut seqno: u32 = 0x8000_0001;
    create_router_lsa(&mut db, 0, 1, &vec![base], &mut seqno);
    assert_eq!(seqno, 0x8000_0002);
    let own = LsaIdentifer { lsa_type: 1, link_state_id: 1, advertising_router: 1 };
    let lsa = db.fetch_lsa(own).unwrap();
    let h = lsa.copy_header();
    assert_eq!((h.advertising_router, h.sequence_number, h.length, h.options), (1, 0x8000_0001, 36, 0x02));
}

#[test]
fn hello_packets() {
    let i = interface(NetworkType::Broadcast);
    let hello = Hello::new(&i, 0x0101_0101, 0, 0, vec![0x0a00_0002]);
    assert_eq!(hello.header.packet_length, 48);
    assert_eq!(hello.header.packet_type, 1);
    let bytes = hello.to_be_bytes();
    assert_eq!(ospf_packet_checksum(&bytes), hello.header.checksum);
    assert!(hello.checked(&i, true));
    assert!(!hello.checked(&i, false));
    let receipt = hello.received(0x0a00_0003, 0x0a00_0002, &i, true, false).unwrap();
    assert_eq!(receipt.naddr, 0x0a00_0003);
    assert_eq!(receipt.neighbor_id, 0x0101_0101);
    assert!(receipt.two_way);
    assert!(receipt.new_neighbor.is_some());
    let p2p = hello
        .received(0x0a00_0003, 0x0a00_0002, &interface(NetworkType::PointToPoint), true, true)
        .unwrap();
    assert_eq!(p2p.naddr, 0x0101_0101);
    assert_eq!(p2p.neighbor_id, 0x0a00_0003);
    assert!(p2p.new_neighbor.is_none());
    let mut other_area = interface(NetworkType::Broadcast);
    other_area.area_id = 5;
    assert!(hello.received(0x0a00_0003, 0x0a00_0002, &other_area, true, false).is_none());
    let mut h2 = Hello::empty();
    h2.add_neighbors(&vec![NeighborState::new(4, neighbor(4, 1, 0, 0)), NeighborState::new(5, neighbor(5, 1, 0, 0))]);
    assert_eq!(h2.neighbors, vec![4, 5]);
    let d = hello.build_ipv4_packet(0x0a00_0001);
    assert_eq!(d.len(), 68);
    assert_eq!(&d[16..20], &[224, 0, 0, 5]);
}

#[test]
fn configured_interface() {
    let i = Interface::configured(1, 2, 0x0100_0000, 3, 4, 5, 6, 7, &"NBMA".to_string(), 0, 0, 1);
    assert_eq!(i.area_id, 1);
    assert_eq!(i.network_type, NetworkType::NBMA);
    assert_eq!(network_type_named(&"bogus".to_string()), NetworkType::Broadcast);
    assert_eq!(network_type_named(&"VirtualLink".to_string()), NetworkType::VirtualLink);
}

#[test]
fn graph_operations() {
    let a = Node { node_type: NodeType::Router, id: 1 };
    let b = Node { node_type: NodeType::Transit, id: 2 };
    let mut g = Graph::new();
    g.add_node(a);
    g.add_node(a);
    assert!(g.contains_node(a));
    assert!(!g.contains_node(b));
    g.add_edge(a, b, Edge { cost: 3 });
    g.add_edge(a, b, Edge { cost: 4 });
    assert_eq!(g.get_edge(a, b), Some(Edge { cost: 4 }));
    assert_eq!(g.get_edge(b, a), None);
    g.clear();
    assert!(!g.contains_node(a));
    assert_eq!(g.get_edge(a, b), None);
}

#[test]
fn graph_from_databases() {
    let mut db1 = LsaDb::empty();
    db1.update_lsdb(vec![router_lsa(1), network_lsa(2, 0)]);
    let mut db2 = LsaDb::empty();
    db2.update_lsdb(vec![router_lsa(3)]);
    let mut g = Graph::new();
    g.add_edge(Node { node_type: NodeType::Stub, id: 8 }, Node { node_type: NodeType::Stub, id: 9 }, Edge { cost: 1 });
    build_graph(&mut g, &vec![db1, db2]);
    assert!(g.contains_node(Node { node_type: NodeType::Router, id: 1 }));
    assert!(g.contains_node(Node { node_type: NodeType::Router, id: 3 }));
    assert!(!g.contains_node(Node { node_type: NodeType::Router, id: 2 }));
    assert_eq!(g.get_edge(Node { node_type: NodeType::Stub, id: 8 }, Node { node_type: NodeType::Stub, id: 9 }), None);
}

#[test]
fn route_table() {
    let e = RouteTableEntry {
        destination_type: DestionationType::Network,
        destination_id: 1,
        mask: 2,
        options: 0,
        area_id: 0,
        path_type: PathType::IntraArea,
        cost: 3,
        type2_cost: 0,
        ls_origin: 0,
        next_hop: 4,
        advertising_router: 5,
    };
    let f = RouteTableEntry { cost: 9, ..e };
    let mut t = RouteTable::new();
    t.add_entry(e);
    t.add_entry(f);
    t.add_entry(e);
    t.remove_entry(e);
    assert_eq!(t.entries, vec![f]);
}

#[test]
fn router_interfaces() {
    let mut r = Router::new(7);
    assert_eq!(r.get_router_id(), 7);
    r.add_interface("eth0".to_string(), interface(NetworkType::Broadcast));
    r.add_interface("eth0".to_string(), interface(NetworkType::NBMA));
    r.add_interfaces(vec![("eth1".to_string(), interface(NetworkType::Broadcast))]);
    assert_eq!(r.get_router_id(), 7);
}

#[test]
fn areas_and_errors() {
    let a = Area::new(3);
    assert_eq!(a.id, 3);
    assert!(a.advertise_or_not && a.external_routing_capability && a.addr_range_list.is_empty());
    assert_eq!(OspfError::new("boom".to_string()).to_string(), "boom");
    assert_eq!(RouterNotSetError.to_string(), "Router not set");
}

#[test]
fn sent_packets_carry_their_checksum() {
    let i = interface(NetworkType::Broadcast);
    let dd = DD::new(&i, 9, 0x42, 7, 100, vec![lsa_header(1, 1, 0, 24)]);
    assert_eq!((dd.header.version, dd.header.packet_type, dd.header.packet_length), (2, 2, 52));
    assert_eq!((dd.options, dd.flags, dd.dd_sequence_number, dd.interface_mtu), (0x42, 7, 100, 0));
    assert_eq!(ospf_packet_checksum(&dd.to_be_bytes()), dd.header.checksum);
    let ack = Lsack::new(&i, 9, None);
    assert_eq!((ack.header.packet_type, ack.header.packet_length), (5, 24));
    assert_eq!(ospf_packet_checksum(&ack.to_be_bytes()), ack.header.checksum);
    let ack = Lsack::new(&i, 9, Some(vec![lsa_header(1, 1, 0, 24)]));
    assert_eq!((ack.lsa_headers.len(), ack.header.packet_length), (1, 44));
    let lsr = Lsr::new(&i, 9, vec![ident(1, 1)]);
    // The request's version field is left unset.
    assert_eq!((lsr.header.version, lsr.header.packet_length), (0, 36));
    assert_eq!(ospf_packet_checksum(&lsr.to_be_bytes()), lsr.header.checksum);
    let lsu = Lsu::new(&i, 9, vec![network_lsa(1, 0)]);
    assert_eq!((lsu.lsa_count, lsu.header.packet_length, lsu.header.checksum), (1, 0, 0));
}

#[test]
fn own_router_lsa_reads_back() {
    let base = InterfaceState {
        ip: 0x0a00_0001,
        mask: 0xffff_ff00,
        area_id: 0,
        output_cost: 7,
        network_type: NetworkType::Broadcast,
        status: IStatus::Waiting,
        dr: 0,
        adjacency_forming: false,
        dr_neighbor: None,
    };
    let mut db = LsaDb::empty();
    let mut seqno: u32 = 5;
    create_router_lsa(&mut db, 0, 1, &vec![base, base], &mut seqno);
    let own = LsaIdentifer { lsa_type: 1, link_state_id: 1, advertising_router: 1 };
    let lsa = db.fetch_lsa(own).unwrap();
    let bytes = lsa.to_be_bytes();
    assert_eq!(bytes.len(), lsa.copy_header().length as usize);
    match Lsa::try_from_be_bytes(&bytes) {
        Some(Lsa::Router(r)) => {
            assert_eq!(r.link_count, 2);
            assert_eq!(r.link_states[1].metric, 7);
            assert_eq!(r.header, lsa.copy_header());
        }
        _ => panic!("expected a router-LSA"),
    }
}

#[test]
fn interface_state_from_neighbors() {
    let i = interface(NetworkType::Broadcast);
    let mut a = NeighborState::new(20, neighbor(2, 1, 0, 0));
    a.status = NStatus::TwoWay;
    let mut b = NeighborState::new(30, neighbor(3, 1, 0, 0));
    b.status = NStatus::Attempt;
    let st = ospf::interface::handle::interface_state(&i, IStatus::DRother, 3, &vec![a, b]);
    // `Attempt` comes after `ExStart` in the order the states are declared.
    assert!(st.adjacency_forming);
    assert_eq!(st.dr_neighbor, Some((NStatus::Attempt, 30)));
    assert_eq!((st.ip, st.mask, st.output_cost, st.dr), (0x0a00_0001, 0xffff_ff00, 10, 3));
    let st = ospf::interface::handle::interface_state(&i, IStatus::Waiting, 9, &vec![]);
    assert!(!st.adjacency_forming);
    assert_eq!(st.dr_neighbor, None);
}

#[test]
fn aging_and_describability_checks() {
    let mut db = LsaDb::empty();
    db.update_lsdb(vec![network_lsa(1, 65530)]);
    assert!(db.can_age_by(5));
    assert!(!db.can_age_by(6));
    let base = InterfaceState {
        ip: 1,
        mask: 0,
        area_id: 0,
        output_cost: 1,
        network_type: NetworkType::PointToPoint,
        status: IStatus::PointToPoint,
        dr: 0,
        adjacency_forming: false,
        dr_neighbor: None,
    };
    assert!(!ospf::interface::handle::is_describable(0, &base));
    assert!(ospf::interface::handle::is_describable(1, &base));
    assert!(ospf::interface::handle::is_describable(0, &InterfaceState { status: IStatus::Down, ..base }));
    assert!(ospf::interface::handle::is_describable(0, &InterfaceState { network_type: NetworkType::NBMA, ..base }));
}
