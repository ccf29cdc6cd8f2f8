//! Frames read off a link: the Ethernet and IPv4 headers around an OSPF packet, and what a
//! received frame is taken as.
use vstd::prelude::*;

use crate::codec::{get16, get32};
use crate::packet::{spec_classifiable, spec_classify, Ipv4Datagram, OspfPacket};
use crate::OSPF_IP_PROTOCOL;

verus! {

/// The source hardware address and the payload of an Ethernet frame: bytes 6 to 12, and
/// everything after the 14-byte header; `None` where the frame is shorter than that header.
pub open spec fn ether_parts(f: Seq<u8>) -> Option<(Seq<u8>, Seq<u8>)> {
    if f.len() < 14 {
        None
    } else {
        Some((f.subrange(6, 12), f.subrange(14, f.len() as int)))
    }
}

/// The payload of an IPv4 datagram `b` of at least 20 bytes: it starts after the header,
/// whose length (in 4-byte words) the low half of byte 0 gives (never less than 20 bytes),
/// and runs for the total length (bytes 2 and 3) less the header's, cut at the end of `b`;
/// nothing where `b` ends before it starts.
pub open spec fn ipv4_payload(b: Seq<u8>) -> Seq<u8> {
    let header_length = (b[0] % 16) * 4;
    let start = 20 + if header_length > 20 {
        header_length - 20
    } else {
        0
    };
    let total = get16(b, 2) as int;
    let payload_length = if total > header_length {
        total - header_length
    } else {
        0
    };
    let end = if start + payload_length < b.len() {
        start + payload_length
    } else {
        b.len() as int
    };
    if b.len() <= start {
        Seq::empty()
    } else {
        b.subrange(start, end)
    }
}

/// The source and destination addresses (bytes 12 to 16 and 16 to 20), the protocol (byte 9)
/// and the payload of an IPv4 datagram; `None` where it is shorter than 20 bytes.
pub open spec fn ipv4_parts(b: Seq<u8>) -> Option<(u32, u32, u8, Seq<u8>)> {
    if b.len() < 20 {
        None
    } else {
        Some((get32(b, 12), get32(b, 16), b[9], ipv4_payload(b)))
    }
}

/// The source hardware address and the payload of an Ethernet frame, as
/// `pnet::packet::ethernet::EthernetPacket` reads them (`new`, `get_source`, `payload`): the
/// contract claims that pnet reads them as `ether_parts` says.
#[verifier::external_body]
fn read_ethernet(frame: &[u8]) -> (r: Option<([u8; 6], Vec<u8>)>)
    ensures
        match r {
            Some((mac, payload)) => ether_parts(frame@) == Some((mac@, payload@)),
            None => ether_parts(frame@) is None,
        },
{
    match pnet::packet::ethernet::EthernetPacket::new(frame) {
        Some(p) => {
            let m = p.get_source();
            Some(([m.0, m.1, m.2, m.3, m.4, m.5], pnet::packet::Packet::payload(&p).to_vec()))
        },
        None => None,
    }
}

/// The addresses, protocol and payload of an IPv4 datagram, as
/// `pnet::packet::ipv4::Ipv4Packet` reads them (`new`, `get_source`, `get_destination`,
/// `get_next_level_protocol`, `payload`): the contract claims that pnet reads them as
/// `ipv4_parts` says, addresses taken most significant byte first.
#[verifier::external_body]
fn read_ipv4(bytes: &[u8]) -> (r: Option<Ipv4Datagram>)
    ensures
        match r {
            Some(d) => ipv4_parts(bytes@) == Some(
                (d.source, d.destination, d.next_level_protocol, d.payload@),
            ),
            None => ipv4_parts(bytes@) is None,
        },
{
    match pnet::packet::ipv4::Ipv4Packet::new(bytes) {
        Some(p) => Some(
            Ipv4Datagram {
                source: u32::from(p.get_source()),
                destination: u32::from(p.get_destination()),
                next_level_protocol: p.get_next_level_protocol().0,
                payload: pnet::packet::Packet::payload(&p).to_vec(),
            },
        ),
        None => None,
    }
}

/// What a frame read off a link is taken as.
pub enum FrameOutcome {
    /// Too short for an Ethernet header.
    NotEthernet,
    /// Its payload is too short for an IPv4 header.
    NotIpv4,
    /// A datagram of another protocol than OSPF, to be forwarded.
    NotOspf(Ipv4Datagram),
    /// An OSPF datagram whose packet is dropped, for this reason.
    Dropped(&'static str),
    /// An OSPF packet, with the address and hardware address it came from.
    Ospf { source: u32, src_mac: [u8; 6], packet: OspfPacket },
}

/// Whether taking the frame apart completes: it does unless it carries an OSPF hello of a
/// whole OSPF header or more.
pub open spec fn frame_classifiable(f: Seq<u8>) -> bool {
    match ether_parts(f) {
        Some((_, p)) => match ipv4_parts(p) {
            Some((_, _, protocol, payload)) => spec_classifiable(protocol, payload),
            None => true,
        },
        None => true,
    }
}

/// Takes a frame read off a link apart: its Ethernet header, its IPv4 header and, for OSPF
/// datagrams, the OSPF packet.
pub fn classify_frame(frame: &[u8]) -> (r: FrameOutcome)
    requires
        frame_classifiable(frame@),
    ensures
        match ether_parts(frame@) {
            None => r is NotEthernet,
            Some((mac, p)) => match ipv4_parts(p) {
                None => r is NotIpv4,
                Some((source, destination, protocol, payload)) => if protocol
                    != OSPF_IP_PROTOCOL {
                    r matches FrameOutcome::NotOspf(d) && d.source == source && d.destination
                        == destination && d.next_level_protocol == protocol && d.payload@
                        == payload
                } else {
                    match spec_classify(protocol, payload) {
                        Ok(v) => r matches FrameOutcome::Ospf { source: s, src_mac, packet }
                            && s == source && src_mac@ == mac && packet@ == v,
                        Err(e) => r matches FrameOutcome::Dropped(reason) && reason@ == e,
                    }
                },
            },
        },
{
    let (mac, payload) = match read_ethernet(frame) {
        Some(parts) => parts,
        None => return FrameOutcome::NotEthernet,
    };
    let datagram = match read_ipv4(payload.as_slice()) {
        Some(d) => d,
        None => return FrameOutcome::NotIpv4,
    };
    if datagram.next_level_protocol != OSPF_IP_PROTOCOL {
        return FrameOutcome::NotOspf(datagram);
    }
    match OspfPacket::try_from_ipv4_packet(&datagram, String::new()) {
        Ok(packet) => FrameOutcome::Ospf { source: datagram.source, src_mac: mac, packet },
        Err(reason) => FrameOutcome::Dropped(reason),
    }
}

/// Whether taking the frame apart completes; see `frame_classifiable`.
pub fn is_frame_classifiable(frame: &[u8]) -> (r: bool)
    ensures
        r == frame_classifiable(frame@),
{
    let (_, payload) = match read_ethernet(frame) {
        Some(parts) => parts,
        None => return true,
    };
    let datagram = match read_ipv4(payload.as_slice()) {
        Some(d) => d,
        None => return true,
    };
    !(datagram.next_level_protocol == OSPF_IP_PROTOCOL && datagram.payload.len() >= 24
        && datagram.payload[1] == crate::packet::hello::HELLO_TYPE)
}

/// The Ethernet frame that carries `ip_packet` from hardware address `source` to
/// `destination`: the destination, the source, the IPv4 EtherType, then the datagram.
pub open spec fn ether_frame(ip_packet: Seq<u8>, source: Seq<u8>, destination: Seq<u8>) -> Seq<u8> {
    destination + source + seq![0x08u8, 0x00u8] + ip_packet
}

/// Wraps a datagram in an Ethernet frame.
pub fn build_ether_packet(ip_packet: &Vec<u8>, source: [u8; 6], destination: [u8; 6]) -> (r: Vec<u8>)
    ensures
        r@ == ether_frame(ip_packet@, source@, destination@),
{
    let mut frame: Vec<u8> = Vec::new();
    let mut i: usize = 0;
    while i < 6
        invariant
            i <= 6,
            frame@ == destination@.take(i as int),
        decreases 6 - i,
    {
        frame.push(destination[i]);
        i = i + 1;
        assert(frame@ =~= destination@.take(i as int));
    }
    let mut j: usize = 0;
    while j < 6
        invariant
            j <= 6,
            frame@ == destination@ + source@.take(j as int),
        decreases 6 - j,
    {
        frame.push(source[j]);
        j = j + 1;
        assert(frame@ =~= destination@ + source@.take(j as int));
    }
    frame.push(0x08);
    frame.push(0x00);
    crate::codec::push_all(&mut frame, ip_packet);
    assert(frame@ =~= ether_frame(ip_packet@, source@, destination@));
    frame
}

/// A frame built around a datagram is taken apart into that datagram and the source's
/// hardware address.
pub proof fn lemma_ether_frame_parts(ip_packet: Seq<u8>, source: Seq<u8>, destination: Seq<u8>)
    requires
        source.len() == 6,
        destination.len() == 6,
    ensures
        ether_parts(ether_frame(ip_packet, source, destination)) == Some((source, ip_packet)),
{
    let f = ether_frame(ip_packet, source, destination);
    assert(f.subrange(6, 12) =~= source);
    assert(f.subrange(14, f.len() as int) =~= ip_packet);
}

/// A datagram built to carry an OSPF packet is read back as from its source to its
/// destination, of the OSPF protocol, carrying that packet.
pub proof fn lemma_datagram_parts(payload: Seq<u8>, source: u32, destination: u32)
    requires
        20 + payload.len() <= 0xffff,
    ensures
        ipv4_parts(crate::packet::ipv4::ipv4_datagram(payload, source, destination)) == Some(
            (source, destination, OSPF_IP_PROTOCOL, payload),
        ),
{
    let b = crate::packet::ipv4::ipv4_datagram(payload, source, destination);
    let total = (20 + payload.len()) as u16;
    assert(b.subrange(2, 4) =~= crate::codec::be16(total));
    crate::codec::lemma_get16_be16(b, 2, total);
    assert(b.subrange(12, 16) =~= crate::codec::be32(source));
    assert(b.subrange(16, 20) =~= crate::codec::be32(destination));
    crate::codec::lemma_get32_be32(b, 12, source);
    crate::codec::lemma_get32_be32(b, 16, destination);
    assert(b[0] % 16 == 5);
    assert(ipv4_payload(b) =~= payload);
}

} // verus!
