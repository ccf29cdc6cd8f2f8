use ospf::area::lsdb::LsaIdentifer;
use ospf::lsa::as_external::{ASExternalLSA, TosDes};
use ospf::lsa::network::NetworkLSA;
use ospf::lsa::router::{LinkState, RouterLSA};
use ospf::lsa::summary::SummaryLSA;
use ospf::lsa::{calculate_fletcher16, calculate_lsa_checksum, Header, Lsa};
use ospf::packet::dd::{dd_flags, DD};
use ospf::packet::frame::{classify_frame, is_frame_classifiable, FrameOutcome};
use ospf::packet::hello::Hello;
use ospf::packet::ipv4::build_ipv4_datagram;
use ospf::packet::lsack::Lsack;
use ospf::packet::lsr::Lsr;
use ospf::packet::lsu::Lsu;
use ospf::packet::{
    is_ipv4_packet_valid_for_ospf, ospf_packet_checksum, Ipv4Datagram, OspfHeader, OspfPacket,
};
use ospf::{bits_to_ipv4_addr, ipv4_addr_to_bits};

fn ospf_header(packet_type: u8, packet_length: u16) -> OspfHeader {
    OspfHeader {
        version: 2,
        packet_type,
        packet_length,
        router_id: 0x0101_0101,
        area_id: 0,
        checksum: 0,
        auth_type: 0,
        authentication: 0,
    }
}

fn lsa_header(lsa_type: u8, id: u32, length: u16) -> Header {
    Header {
        age: 7,
        options: 0x02,
        lsa_type,
        link_state_id: id,
        advertising_router: 0x0a00_0001,
        sequence_number: 0x8000_0001,
        checksum: 0x1234,
        length,
    }
}

#[test]
fn ospf_header_round_trip() {
    let h = OspfHeader {
        version: 2,
        packet_type: 4,
        packet_length: 0x0102,
        router_id: 0x0a0b_0c0d,
        area_id: 0x0000_0001,
        checksum: 0xbeef,
        auth_type: 1,
        authentication: 0x1122_3344_5566_7788,
    };
    let bytes = h.to_be_bytes();
    assert_eq!(
        bytes,
        vec![
            2, 4, 1, 2, 0x0a, 0x0b, 0x0c, 0x0d, 0, 0, 0, 1, 0xbe, 0xef, 0, 1, 0x11, 0x22, 0x33,
            0x44, 0x55, 0x66, 0x77, 0x88
        ]
    );
    assert_eq!(OspfHeader::try_from_be_bytes(&bytes), Some(h));
    assert_eq!(OspfHeader::try_from_be_bytes(&bytes[..23]), None);
    assert_eq!(OspfHeader::length(), 24);
}

#[test]
fn ospf_header_le_bytes() {
    let h = ospf_header(1, 0x0102);
    let le = h.to_le_bytes();
    assert_eq!(&le[..8], &[2, 1, 2, 1, 1, 1, 1, 1]);
    assert_eq!(le.len(), 24);
}

#[test]
fn empty_ospf_header_is_zero() {
    let h = OspfHeader::empty();
    assert_eq!(h.to_be_bytes(), vec![0u8; 24]);
}

#[test]
fn lsa_header_round_trip() {
    let h = lsa_header(1, 0x0102_0304, 36);
    let bytes = h.to_be_bytes();
    assert_eq!(bytes.len(), 20);
    assert_eq!(&bytes[..4], &[0, 7, 0x02, 1]);
    assert_eq!(Header::try_from_be_bytes(&bytes), Some(h));
    assert_eq!(Header::try_from_be_bytes(&bytes[..19]), None);
}

#[test]
fn fletcher16_known_values() {
    assert_eq!(calculate_fletcher16(b"abcde"), 0xc8f0);
    assert_eq!(calculate_fletcher16(b"abcdef"), 0x2057);
    assert_eq!(calculate_fletcher16(&[]), 0);
}

#[test]
fn lsa_checksum_zeroes_its_field() {
    let mut bytes = lsa_header(1, 1, 20).to_be_bytes();
    let c = calculate_lsa_checksum(&mut bytes);
    assert_eq!(bytes[16], 0);
    assert_eq!(bytes[17], 0);
    assert_eq!(c, calculate_fletcher16(&bytes));
}

#[test]
fn ospf_checksum_known_value() {
    let bytes: Vec<u8> = vec![
        2, 3, 0, 36, 1, 1, 1, 1, 0, 0, 0, 0, 0, 0, 0, 0, 0, 0, 0, 0, 0, 0, 0, 0, 0, 0, 0, 1, 2,
        2, 2, 2, 3, 3, 3, 3,
    ];
    assert_eq!(ospf_packet_checksum(&bytes), 0xf1cb);
    let mut with_field = bytes.clone();
    with_field[12] = 0xf1;
    with_field[13] = 0xcb;
    assert_eq!(ospf_packet_checksum(&with_field), 0xf1cb);
}

#[test]
fn router_lsa_round_trip() {
    let link = LinkState::new(0x0a00_0000, 0xffff_ff00, 3, 1, Some(vec![0x0100_0005]), 10);
    assert_eq!(link.length(), 16);
    let lsa = RouterLSA {
        header: lsa_header(1, 0x0101_0101, 40),
        veb: 0,
        link_count: 1,
        link_states: vec![link],
    };
    assert_eq!(lsa.length(), 40);
    let bytes = lsa.to_be_bytes();
    assert_eq!(bytes.len(), 40);
    let back = RouterLSA::try_from_be_bytes(&bytes).unwrap();
    assert_eq!(back.header, lsa.header);
    assert_eq!(back.link_count, 1);
    assert_eq!(back.link_states[0].link_id, 0x0a00_0000);
    assert_eq!(back.link_states[0].tos, vec![0x0100_0005]);
    assert_eq!(LinkState::tos_type(0x0100_0005), 1);
    assert_eq!(LinkState::tos_metric(0x0100_0005), 5);
    let id = lsa.build_identifier();
    assert_eq!(
        id,
        LsaIdentifer { lsa_type: 1, link_state_id: 0x0101_0101, advertising_router: 0x0a00_0001 }
    );
}

#[test]
fn router_lsa_too_short_is_rejected() {
    assert!(RouterLSA::try_from_be_bytes(&[0u8; 23]).is_none());
}

#[test]
fn network_lsa_round_trip() {
    let lsa = NetworkLSA {
        header: lsa_header(2, 0x0a00_0001, 32),
        mask: 0xffff_ff00,
        attached_rtrs: vec![1, 2],
    };
    assert_eq!(lsa.length(), 32);
    let bytes = lsa.to_be_bytes();
    let back = NetworkLSA::try_from_be_bytes(&bytes).unwrap();
    assert_eq!(back.mask, 0xffff_ff00);
    assert_eq!(back.attached_rtrs, vec![1, 2]);
}

#[test]
fn summary_lsa_round_trip() {
    let lsa = SummaryLSA {
        header: lsa_header(3, 0x0a01_0000, 28),
        zero_padding: 0,
        metric: [0, 0, 9],
        tos: vec![0x0200_0003],
    };
    let bytes = lsa.to_be_bytes();
    assert_eq!(bytes.len(), 28);
    let back = SummaryLSA::try_from_be_bytes(&bytes).unwrap();
    assert_eq!(back.metric, [0, 0, 9]);
    assert_eq!(back.tos, vec![0x0200_0003]);
    assert_eq!(SummaryLSA::tos_type(0x0200_0003), 2);
    assert_eq!(SummaryLSA::tos_metric(0x0200_0003), 3);
}

#[test]
fn as_external_lsa_round_trip() {
    let tos = TosDes {
        tos_ebits: 0x81,
        tos_metric: [0, 1, 2],
        tos_forwarding_address: 5,
        tos_external_route_tag: 6,
    };
    let lsa = ASExternalLSA {
        header: lsa_header(5, 0x0b00_0000, 48),
        network_mask: 0xff00_0000,
        e_bits: 0x80,
        metric: [0, 0, 20],
        forwarding_address: 0,
        external_route_tag: 0,
        tos: vec![tos],
    };
    let bytes = lsa.to_be_bytes();
    assert_eq!(bytes.len(), 48);
    // `length` reports three bytes fewer than the wire form per LSA.
    assert_eq!(lsa.length(), 45);
    let back = ASExternalLSA::try_from_be_bytes(&bytes).unwrap();
    assert_eq!(back.network_mask, 0xff00_0000);
    assert_eq!(back.tos.len(), 1);
    assert_eq!(back.tos[0].tos_external_route_tag, 6);
}

#[test]
fn lsa_dispatch_by_type() {
    let lsa = NetworkLSA { header: lsa_header(2, 9, 28), mask: 0xffff_0000, attached_rtrs: vec![3] };
    let bytes = lsa.to_be_bytes();
    match Lsa::try_from_be_bytes(&bytes) {
        Some(Lsa::Network(n)) => assert_eq!(n.attached_rtrs, vec![3]),
        _ => panic!("expected a network-LSA"),
    }
    let mut unknown = bytes.clone();
    unknown[3] = 9;
    assert!(Lsa::try_from_be_bytes(&unknown).is_none());
    assert!(Lsa::try_from_be_bytes(&bytes[..10]).is_none());
}

#[test]
fn lsa_set_age_and_copy_header() {
    let mut lsa = Lsa::Network(NetworkLSA {
        header: lsa_header(2, 9, 28),
        mask: 0,
        attached_rtrs: vec![3],
    });
    lsa.set_age(100);
    assert_eq!(lsa.copy_header().age, 100);
    assert_eq!(lsa.length(), 28);
    assert_eq!(lsa.to_be_bytes()[..2], [0, 100]);
}

#[test]
fn identifier_round_trip() {
    let id = LsaIdentifer { lsa_type: 1, link_state_id: 2, advertising_router: 3 };
    let bytes = id.to_be_bytes();
    assert_eq!(bytes, [0, 0, 0, 1, 0, 0, 0, 2, 0, 0, 0, 3]);
    assert_eq!(LsaIdentifer::try_from_be_bytes(&bytes), Some(id));
    assert_eq!(LsaIdentifer::try_from_be_bytes(&bytes[..11]), None);
    assert_eq!(LsaIdentifer::length(), 12);
    let h = lsa_header(3, 2, 20);
    assert_eq!(
        LsaIdentifer::from_header(&h),
        LsaIdentifer { lsa_type: 3, link_state_id: 2, advertising_router: 0x0a00_0001 }
    );
}

#[test]
fn dd_flag_bits() {
    assert_eq!(dd_flags(true, false, false), 0);
    assert_eq!(dd_flags(false, false, false), 1);
    assert_eq!(dd_flags(false, true, true), 0b111);
    let mut dd = DD::empty();
    assert!(!dd.is_flag_i_set());
    dd.set_flag_i();
    dd.set_flag_m();
    assert!(dd.is_flag_i_set() && dd.is_flag_m_set() && !dd.is_flag_ms_set());
    dd.set_flag_ms();
    assert_eq!(dd.flags, 0b111);
    dd.options = 0x22;
    assert!(dd.has_option_e() && dd.has_option_dc() && !dd.has_option_mc() && !dd.has_option_np());
}

#[test]
fn dd_round_trip() {
    let mut dd = DD::empty();
    dd.header = ospf_header(2, 52);
    dd.interface_mtu = 1500;
    dd.options = 0x42;
    dd.flags = 7;
    dd.dd_sequence_number = 99;
    dd.lsa_headers = vec![lsa_header(1, 1, 24)];
    assert_eq!(dd.length(), 52);
    let bytes = dd.to_be_bytes();
    assert_eq!(bytes.len(), 52);
    let back = DD::try_from_be_bytes(&bytes).unwrap();
    assert_eq!(back.interface_mtu, 1500);
    assert_eq!(back.dd_sequence_number, 99);
    assert_eq!(back.lsa_headers.len(), 1);
    assert_eq!(back.lsa_headers[0], dd.lsa_headers[0]);
    assert!(DD::try_from_be_bytes(&bytes[..31]).is_none());
}

#[test]
fn lsr_round_trip_of_one_entry() {
    let id = LsaIdentifer { lsa_type: 1, link_state_id: 5, advertising_router: 6 };
    let lsr = Lsr { header: ospf_header(3, 36), lsr_entries: vec![id] };
    assert_eq!(lsr.length(), 36);
    let bytes = lsr.to_be_bytes();
    let back = Lsr::try_from_be_bytes(&bytes).unwrap();
    assert_eq!(back.lsr_entries, vec![id]);
}

#[test]
fn lsr_entries_are_read_every_twenty_bytes() {
    let a = LsaIdentifer { lsa_type: 1, link_state_id: 5, advertising_router: 6 };
    let b = LsaIdentifer { lsa_type: 2, link_state_id: 7, advertising_router: 8 };
    let c = LsaIdentifer { lsa_type: 3, link_state_id: 9, advertising_router: 10 };
    let two = Lsr { header: ospf_header(3, 48), lsr_entries: vec![a, b] };
    // The second entry is looked for 20 bytes after the first, where only 4 bytes remain.
    assert!(Lsr::try_from_be_bytes(&two.to_be_bytes()).is_none());
    let three = Lsr { header: ospf_header(3, 60), lsr_entries: vec![a, b, c] };
    let back = Lsr::try_from_be_bytes(&three.to_be_bytes()).unwrap();
    assert_eq!(back.lsr_entries.len(), 2);
    assert_eq!(back.lsr_entries[0], a);
    assert_ne!(back.lsr_entries[1], b);
}

#[test]
fn lsu_round_trip() {
    let lsa = Lsa::Network(NetworkLSA {
        header: lsa_header(2, 9, 28),
        mask: 0xffff_ff00,
        attached_rtrs: vec![3],
    });
    let lsu = Lsu { header: ospf_header(4, 56), lsa_count: 1, lsa_list: vec![lsa] };
    assert_eq!(lsu.length(), 56);
    let bytes = lsu.to_be_bytes();
    assert_eq!(bytes.len(), 56);
    let back = Lsu::try_from_be_bytes(&bytes).unwrap();
    assert_eq!(back.lsa_count, 1);
    assert_eq!(back.lsa_list.len(), 1);
    assert_eq!(back.lsa_list[0].copy_header(), lsa_header(2, 9, 28));
}

#[test]
fn lsack_reads_headers_from_the_start() {
    let lsack = Lsack { header: ospf_header(5, 44), lsa_headers: vec![lsa_header(1, 1, 20)] };
    assert_eq!(lsack.length(), 44);
    let bytes = lsack.to_be_bytes();
    assert_eq!(bytes.len(), 44);
    // Only lengths that are a multiple of an LSA header's are read.
    assert!(Lsack::try_from_be_bytes(&bytes).is_none());
    let mut forty = ospf_header(5, 40).to_be_bytes();
    forty.extend_from_slice(&[0u8; 16]);
    let back = Lsack::try_from_be_bytes(&forty).unwrap();
    // The reader takes LSA headers from byte 0, where the OSPF header lies.
    assert_eq!(back.lsa_headers.len(), 2);
    assert_eq!(back.lsa_headers[0].age, 0x0205);
    assert_eq!(back.header, ospf_header(5, 40));
}

#[test]
fn short_hello_is_not_read() {
    assert!(Hello::try_from_be_bytes(&[0u8; 10]).is_none());
}

#[test]
fn ipv4_datagram_bytes_and_checksum() {
    let d = build_ipv4_datagram(&vec![1, 2, 3, 4], 0x0a00_0001, 0xe000_0005);
    assert_eq!(
        d,
        vec![
            0x45, 0, 0, 24, 0, 0, 0, 0, 1, 89, 0xcf, 0x87, 10, 0, 0, 1, 224, 0, 0, 5, 1, 2, 3, 4
        ]
    );
}

#[test]
fn packet_datagram_destinations() {
    let lsr = Lsr { header: ospf_header(3, 24), lsr_entries: vec![] };
    let to_neighbor = lsr.build_ipv4_packet(0x0a00_0001, 0x0a00_0002, ospf::interface::NetworkType::PointToPoint);
    assert_eq!(&to_neighbor[16..20], &[10, 0, 0, 2]);
    let to_all = lsr.build_ipv4_packet(0x0a00_0001, 0x0a00_0002, ospf::interface::NetworkType::Broadcast);
    assert_eq!(&to_all[16..20], &[224, 0, 0, 5]);
    let lsack = Lsack { header: ospf_header(5, 24), lsa_headers: vec![] };
    let d = lsack.build_ipv4_packet(ospf::interface::NetworkType::PointToPoint, 0x0a00_0001, 0x0a00_0002);
    assert_eq!(&d[16..20], &[224, 0, 0, 5]);
    let dd = DD::empty();
    let d = dd.build_ipv4_packet(0x0a00_0001, 0x0a00_0002);
    assert_eq!(&d[16..20], &[10, 0, 0, 2]);
    assert_eq!(d.len(), 52);
}

#[test]
fn address_conversions() {
    assert_eq!(bits_to_ipv4_addr(0xe000_0005), [224, 0, 0, 5]);
    assert_eq!(ipv4_addr_to_bits([192, 168, 1, 2]), 0xc0a8_0102);
    assert_eq!(ipv4_addr_to_bits(bits_to_ipv4_addr(0x1234_5678)), 0x1234_5678);
}

fn datagram(protocol: u8, payload: Vec<u8>) -> Ipv4Datagram {
    Ipv4Datagram { source: 0x0a00_0002, destination: 0xe000_0005, next_level_protocol: protocol, payload }
}

#[test]
fn datagram_classification() {
    assert_eq!(
        OspfPacket::try_from_ipv4_packet(&datagram(6, vec![]), "eth0".to_string()).err(),
        Some("non-ospf packet received.")
    );
    assert_eq!(
        OspfPacket::try_from_ipv4_packet(&datagram(89, vec![0; 10]), "eth0".to_string()).err(),
        Some("invalid ospf packet,ignored.")
    );
    let mut unknown = ospf_header(9, 24).to_be_bytes();
    unknown[1] = 9;
    assert_eq!(
        OspfPacket::try_from_ipv4_packet(&datagram(89, unknown), "eth0".to_string()).err(),
        Some("invalid ospf packet type,ignored.")
    );
    let short_dd = ospf_header(2, 24).to_be_bytes();
    assert_eq!(
        OspfPacket::try_from_ipv4_packet(&datagram(89, short_dd), "eth0".to_string()).err(),
        Some("invalid dd packet,ignored.")
    );
    let dd = DD::empty();
    let mut bytes = dd.to_be_bytes();
    bytes[1] = 2;
    match OspfPacket::try_from_ipv4_packet(&datagram(89, bytes), "eth0".to_string()) {
        Ok(OspfPacket::DD(d)) => assert_eq!(d.lsa_headers.len(), 0),
        _ => panic!("expected a database description packet"),
    }
}

#[test]
fn datagram_validity_for_ospf() {
    let host = 0x0a00_0001;
    let mut d = datagram(89, vec![]);
    assert!(is_ipv4_packet_valid_for_ospf(&d, host));
    d.destination = host;
    assert!(is_ipv4_packet_valid_for_ospf(&d, host));
    d.destination = 0xe000_0006;
    assert!(is_ipv4_packet_valid_for_ospf(&d, host));
    d.destination = 0x0a00_0009;
    assert!(!is_ipv4_packet_valid_for_ospf(&d, host));
    d.destination = 0xe000_0005;
    d.source = host;
    assert!(!is_ipv4_packet_valid_for_ospf(&d, host));
}

fn frame_around(datagram: &[u8]) -> Vec<u8> {
    let mut frame = vec![0x01, 0x00, 0x5e, 0x00, 0x00, 0x05, 0xaa, 0xbb, 0xcc, 0xdd, 0xee, 0xff, 0x08, 0x00];
    frame.extend_from_slice(datagram);
    frame
}

#[test]
fn frames_are_taken_apart() {
    let mut dd = DD::empty();
    dd.header.packet_type = 2;
    let datagram = build_ipv4_datagram(&dd.to_be_bytes(), 0x0a00_0002, 0xe000_0005);
    let mut frame = frame_around(&datagram);
    // Link-layer padding after the datagram is not part of its payload.
    frame.extend_from_slice(&[9u8; 20]);
    assert!(is_frame_classifiable(&frame));
    match classify_frame(&frame) {
        FrameOutcome::Ospf { source, src_mac, packet: OspfPacket::DD(d) } => {
            assert_eq!(source, 0x0a00_0002);
            assert_eq!(src_mac, [0xaa, 0xbb, 0xcc, 0xdd, 0xee, 0xff]);
            assert_eq!(d.lsa_headers.len(), 0);
        }
        _ => panic!("expected a database description packet"),
    }
    assert!(matches!(classify_frame(&[0u8; 10]), FrameOutcome::NotEthernet));
    assert!(matches!(classify_frame(&frame[..19]), FrameOutcome::NotIpv4));
    let mut other = datagram.clone();
    other[9] = 6;
    match classify_frame(&frame_around(&other)) {
        FrameOutcome::NotOspf(d) => {
            assert_eq!((d.source, d.destination, d.next_level_protocol), (0x0a00_0002, 0xe000_0005, 6));
            assert_eq!(d.payload.len(), 32);
        }
        _ => panic!("expected a datagram of another protocol"),
    }
    let short = build_ipv4_datagram(&vec![2, 2, 0, 0], 1, 2);
    assert!(matches!(classify_frame(&frame_around(&short)), FrameOutcome::Dropped("invalid ospf packet,ignored.")));
    let mut hello_header = ospf_header(1, 44).to_be_bytes();
    hello_header.extend_from_slice(&[0u8; 20]);
    let hello = build_ipv4_datagram(&hello_header, 1, 2);
    assert!(!is_frame_classifiable(&frame_around(&hello)));
}

#[test]
fn ethernet_frames() {
    let frame = ospf::packet::frame::build_ether_packet(&vec![0x45, 1], [1, 2, 3, 4, 5, 6], [7, 8, 9, 10, 11, 12]);
    assert_eq!(frame, vec![7, 8, 9, 10, 11, 12, 1, 2, 3, 4, 5, 6, 0x08, 0x00, 0x45, 1]);
}

#[test]
fn lengths_match_wire_forms() {
    let hello = Hello { neighbors: vec![1, 2, 3], ..Hello::empty() };
    assert_eq!(hello.length(), hello.to_be_bytes().len());
    let net = NetworkLSA { header: lsa_header(2, 1, 32), mask: 0, attached_rtrs: vec![1, 2] };
    assert_eq!(net.length(), net.to_be_bytes().len());
    let mut dd = DD::empty();
    dd.lsa_headers = vec![lsa_header(1, 1, 24), lsa_header(1, 2, 24)];
    assert_eq!(dd.length(), dd.to_be_bytes().len());
    let lsu = Lsu { header: ospf_header(4, 0), lsa_count: 1, lsa_list: vec![Lsa::Network(net)] };
    assert_eq!(lsu.length(), lsu.to_be_bytes().len());
}

#[test]
fn checksummed_packet_verifies() {
    let mut bytes = ospf_header(3, 36).to_be_bytes();
    bytes.extend_from_slice(&[0, 0, 0, 1, 2, 2, 2, 2, 3, 3, 3, 7]);
    let c = ospf_packet_checksum(&bytes);
    bytes[12] = (c >> 8) as u8;
    bytes[13] = c as u8;
    assert_eq!(ospf_packet_checksum(&bytes), c);
    let mut sum: u32 = 0;
    for pair in bytes.chunks(2) {
        sum += ((pair[0] as u32) << 8) | pair[1] as u32;
    }
    while sum > 0xffff {
        sum = (sum & 0xffff) + (sum >> 16);
    }
    assert_eq!(sum, 0xffff);
}
