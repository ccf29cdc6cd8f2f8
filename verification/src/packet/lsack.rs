//! Link state acknowledgment packets: the headers of the LSAs a router has received.
use vstd::prelude::*;

use crate::interface::NetworkType;
use crate::lsa::{headers_bytes, lemma_headers_bytes, push_headers, Header};
use crate::packet::dd::get_headers;
use crate::packet::hello::{spec_neighbor_addr, spec_neighbor_id};
use crate::packet::{
    empty_ospf_header, lemma_parse_ospf_header_bytes, ospf_header_bytes, parse_ospf_header,
    OspfHeader,
};

verus! {

pub const LSACK_TYPE: u8 = 5;

/// A link state acknowledgment packet.
#[derive(Debug)]
pub struct Lsack {
    pub header: OspfHeader,
    pub lsa_headers: Vec<Header>,
}

/// A link state acknowledgment packet as a mathematical value.
pub struct LsackView {
    pub header: OspfHeader,
    pub lsa_headers: Seq<Header>,
}

impl View for Lsack {
    type V = LsackView;

    open spec fn view(&self) -> LsackView {
        LsackView { header: self.header, lsa_headers: self.lsa_headers@ }
    }
}

impl LsackView {
    /// How many bytes the packet takes on the wire.
    pub open spec fn size(self) -> int {
        24 + 20 * self.lsa_headers.len() as int
    }
}

/// The wire form of a link state acknowledgment packet.
pub open spec fn lsack_bytes(v: LsackView) -> Seq<u8> {
    ospf_header_bytes(v.header) + headers_bytes(v.lsa_headers)
}

/// Whether reading an acknowledgment from `s` completes: inputs of 0 and 20 bytes pass the
/// length test and are then cut to a 24-byte header they do not have.
pub open spec fn lsack_readable(s: Seq<u8>) -> bool {
    s.len() % 20 != 0 || s.len() >= 24
}

/// The acknowledgment that `s` holds: `None` unless its length is a multiple of 20; else its
/// first 24 bytes as the packet header and, from the very first byte on, one LSA header for
/// each 20 bytes.
pub open spec fn parse_lsack(s: Seq<u8>) -> Option<LsackView> {
    if s.len() % 20 != 0 {
        None
    } else {
        Some(
            LsackView {
                header: parse_ospf_header(s).unwrap(),
                lsa_headers: get_headers(s, 0, (s.len() / 20) as nat),
            },
        )
    }
}

/// No acknowledgment is read back from its own wire form: that is 24 bytes and a multiple of
/// 20 more long, never a multiple of 20.
pub proof fn lemma_lsack_bytes_unread(v: LsackView)
    ensures
        lsack_bytes(v).len() == v.size(),
        lsack_readable(lsack_bytes(v)),
        parse_lsack(lsack_bytes(v)) is None,
{
    lemma_headers_bytes(v.lsa_headers);
    lemma_parse_ospf_header_bytes(v.header, headers_bytes(v.lsa_headers));
}

impl Lsack {
    pub fn to_be_bytes(&self) -> (r: Vec<u8>)
        ensures
            r@ == lsack_bytes(self@),
    {
        let mut bytes = self.header.to_be_bytes();
        push_headers(&mut bytes, &self.lsa_headers);
        bytes
    }

    pub fn length(&self) -> (r: usize)
        requires
            self@.size() <= usize::MAX,
        ensures
            r == self@.size(),
    {
        OspfHeader::length() + self.lsa_headers.len() * Header::length()
    }

    pub fn empty() -> (r: Self)
        ensures
            r@ == (LsackView { header: empty_ospf_header(), lsa_headers: Seq::empty() }),
    {
        Self { header: OspfHeader::empty(), lsa_headers: Vec::new() }
    }

    pub fn get_neighbor_addr(&self, network_type: NetworkType, paddr: u32) -> (r: u32)
        ensures
            r == spec_neighbor_addr(network_type, self.header.router_id, paddr),
    {
        match network_type {
            NetworkType::Broadcast | NetworkType::NBMA | NetworkType::PointToMultipoint => paddr,
            _ => self.header.router_id,
        }
    }

    pub fn get_neighbor_id(&self, network_type: NetworkType, paddr: u32) -> (r: u32)
        ensures
            r == spec_neighbor_id(network_type, self.header.router_id, paddr),
    {
        match network_type {
            NetworkType::Broadcast | NetworkType::NBMA | NetworkType::PointToMultipoint => {
                self.header.router_id
            },
            _ => paddr,
        }
    }

    pub fn try_from_be_bytes(payload: &[u8]) -> (r: Option<Self>)
        requires
            lsack_readable(payload@),
        ensures
            match r {
                Some(v) => parse_lsack(payload@) == Some(v@),
                None => parse_lsack(payload@) is None,
            },
    {
        if payload.len() % Header::length() != 0 {
            return None;
        }
        let header = match OspfHeader::try_from_be_bytes(&payload[0..24]) {
            Some(h) => h,
            None => return None,
        };
        proof {
            assert(payload@.subrange(0, 24).subrange(0, 24) == payload@.subrange(0, 24));
            crate::packet::lemma_parse_ospf_header_prefix(payload@.subrange(0, 24), payload@);
        }
        let len = payload.len();
        let mut lsa_headers: Vec<Header> = Vec::new();
        let mut offset: usize = 0;
        let mut k: usize = 0;
        while offset < len
            invariant
                len == payload@.len(),
                len % 20 == 0,
                offset == 20 * k,
                offset <= len,
                lsa_headers@ == get_headers(payload@, 0, k as nat),
            decreases len - offset,
        {
            let lsa_header = match Header::try_from_be_bytes(&payload[offset..len]) {
                Some(h) => h,
                None => return None,
            };
            assert(offset + 20 <= len) by (nonlinear_arith)
                requires
                    offset == 20 * k,
                    offset < len,
                    len % 20 == 0,
            ;
            proof {
                assert(payload@.subrange(offset as int, len as int).subrange(0, 20)
                    == payload@.subrange(offset as int, offset + 20));
                assert(payload@.subrange(offset as int, offset + 20).subrange(0, 20)
                    == payload@.subrange(offset as int, offset + 20));
                crate::lsa::lemma_parse_header_prefix(
                    payload@.subrange(offset as int, len as int),
                    payload@.subrange(offset as int, offset + 20),
                );
            }
            lsa_headers.push(lsa_header);
            offset = offset + 20;
            k = k + 1;
            assert(lsa_headers@ =~= get_headers(payload@, 0, k as nat));
        }
        assert(k == len / 20) by (nonlinear_arith)
            requires
                offset == 20 * k,
                offset == len,
        ;
        Some(Lsack { header, lsa_headers })
    }
}


impl Lsack {
    /// The datagram that carries this acknowledgment from `int_ipv4_addr`: it goes to
    /// AllSPFRouters whatever the network type and the neighbor it answers.
    pub fn build_ipv4_packet(
        &self,
        network_type: NetworkType,
        int_ipv4_addr: u32,
        destination_addr: u32,
    ) -> (r: Vec<u8>)
        requires
            20 + lsack_bytes(self@).len() <= crate::IPV4_PACKET_MTU,
        ensures
            r@ == crate::packet::ipv4::ipv4_datagram(
                lsack_bytes(self@),
                int_ipv4_addr,
                crate::ALL_SPF_ROUTERS,
            ),
    {
        let payload = self.to_be_bytes();
        crate::packet::ipv4::build_ipv4_datagram(&payload, int_ipv4_addr, crate::ALL_SPF_ROUTERS)
    }
}


/// The acknowledgment that an interface sends for these LSA headers: version 2, the
/// interface's area and authentication, this router's id, the length, and the checksum of
/// the wire form taken with a zero checksum field.
pub open spec fn spec_lsack_to_send(
    interface: crate::interface::Interface,
    router_id: u32,
    headers: Seq<Header>,
) -> LsackView {
    let unsummed = LsackView {
        header: OspfHeader {
            version: crate::OSPF_VERSION,
            packet_type: LSACK_TYPE,
            packet_length: (24 + 20 * headers.len()) as u16,
            router_id,
            area_id: interface.area_id,
            checksum: 0,
            auth_type: interface.auth_type,
            authentication: interface.auth_key,
        },
        lsa_headers: headers,
    };
    LsackView {
        header: OspfHeader {
            checksum: crate::packet::ospf_checksum(lsack_bytes(unsummed)),
            ..unsummed.header
        },
        ..unsummed
    }
}

impl Lsack {
    /// Builds the acknowledgment that `interface` sends for `lsa_headers`; none are listed
    /// where there are none to acknowledge.
    pub fn new(interface: &crate::interface::Interface, router_id: u32, lsa_headers: Option<Vec<Header>>) -> (r: Self)
        requires
            ({
                let hs = match lsa_headers {
                    Some(v) => v@,
                    None => Seq::<Header>::empty(),
                };
                &&& 24 + 20 * hs.len() <= usize::MAX
                &&& crate::packet::checksum_sum(
                    lsack_bytes(spec_lsack_to_send(*interface, router_id, hs)),
                    24 + 20 * hs.len() as int,
                ) <= u32::MAX
            }),
        ensures
            r@ == spec_lsack_to_send(
                *interface,
                router_id,
                match lsa_headers {
                    Some(v) => v@,
                    None => Seq::<Header>::empty(),
                },
            ),
    {
        let mut packet = Self::empty();
        packet.header.version = crate::OSPF_VERSION;
        packet.header.packet_type = LSACK_TYPE;
        packet.header.router_id = router_id;
        packet.header.area_id = interface.area_id;
        packet.header.auth_type = interface.auth_type;
        packet.header.authentication = interface.auth_key;
        packet.lsa_headers = match lsa_headers {
            Some(v) => v,
            None => Vec::new(),
        };
        packet.header.packet_length = packet.length() as u16;
        let bytes = packet.to_be_bytes();
        proof {
            lemma_headers_bytes(packet.lsa_headers@);
            let p = lsack_bytes(spec_lsack_to_send(*interface, router_id, packet.lsa_headers@));
            assert forall|i: int| 0 <= i < p.len() && i != 12 && i != 13 implies p[i] == bytes@[i] by {}
            crate::packet::lemma_checksum_sum_same(p, bytes@, p.len() as int);
        }
        packet.header.checksum = crate::packet::ospf_packet_checksum(bytes.as_slice());
        packet
    }
}

} // verus!
