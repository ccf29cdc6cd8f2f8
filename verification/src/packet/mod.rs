//! OSPF packets: the common header, the packet checksum, and the five packet types.
use vstd::prelude::*;

use crate::codec::{
    be16, be32, be64, get16, get32, get64, le16, le32, le64, lemma_get16_be16, lemma_get32_be32,
    lemma_get64_be64, push_be16, push_be32, push_be64, push_le16, push_le32, push_le64, read_be16,
    read_be32, read_be64,
};

pub mod dd;
pub mod frame;
pub mod hello;
pub mod ipv4;
pub mod lsack;
pub mod lsr;
pub mod lsu;

use crate::packet::dd::{parse_dd, DDView, DD, DD_TYPE};
use crate::packet::hello::{Hello, HelloView, HELLO_TYPE};
use crate::packet::lsack::{lsack_readable, parse_lsack, Lsack, LsackView, LSACK_TYPE};
use crate::packet::lsr::{parse_lsr, Lsr, LsrView, LSR_TYPE};
use crate::packet::lsu::{parse_lsu, Lsu, LsuView, LSU_TYPE};

verus! {

/// The 24-byte header that every OSPF packet starts with. Addresses are held as host-order
/// integers.
#[derive(Clone, Copy, PartialEq, Eq, Debug, Structural)]
pub struct OspfHeader {
    pub version: u8,
    pub packet_type: u8,
    pub packet_length: u16,
    pub router_id: u32,
    pub area_id: u32,
    pub checksum: u16,
    pub auth_type: u16,
    pub authentication: u64,
}

/// The wire form of an OSPF header.
pub open spec fn ospf_header_bytes(h: OspfHeader) -> Seq<u8> {
    seq![h.version, h.packet_type] + be16(h.packet_length) + be32(h.router_id) + be32(h.area_id)
        + be16(h.checksum) + be16(h.auth_type) + be64(h.authentication)
}

/// The header fields laid out as `ospf_header_bytes` does, each multi-byte field least
/// significant byte first.
pub open spec fn ospf_header_le_bytes(h: OspfHeader) -> Seq<u8> {
    seq![h.version, h.packet_type] + le16(h.packet_length) + le32(h.router_id) + le32(h.area_id)
        + le16(h.checksum) + le16(h.auth_type) + le64(h.authentication)
}

/// The header that the first 24 bytes of `s` hold, if `s` is that long.
pub open spec fn parse_ospf_header(s: Seq<u8>) -> Option<OspfHeader> {
    if s.len() < 24 {
        None
    } else {
        Some(
            OspfHeader {
                version: s[0],
                packet_type: s[1],
                packet_length: get16(s, 2),
                router_id: get32(s, 4),
                area_id: get32(s, 8),
                checksum: get16(s, 12),
                auth_type: get16(s, 14),
                authentication: get64(s, 16),
            },
        )
    }
}

/// The all-zero header.
pub open spec fn empty_ospf_header() -> OspfHeader {
    OspfHeader {
        version: 0,
        packet_type: 0,
        packet_length: 0,
        router_id: 0,
        area_id: 0,
        checksum: 0,
        auth_type: 0,
        authentication: 0,
    }
}

/// Reading a header back from its wire form, followed by anything, gives the header.
pub proof fn lemma_parse_ospf_header_bytes(h: OspfHeader, rest: Seq<u8>)
    ensures
        ospf_header_bytes(h).len() == 24,
        parse_ospf_header(ospf_header_bytes(h) + rest) == Some(h),
{
    let s = ospf_header_bytes(h) + rest;
    assert(s.subrange(2, 4) == be16(h.packet_length));
    assert(s.subrange(4, 8) == be32(h.router_id));
    assert(s.subrange(8, 12) == be32(h.area_id));
    assert(s.subrange(12, 14) == be16(h.checksum));
    assert(s.subrange(14, 16) == be16(h.auth_type));
    assert(s.subrange(16, 24) == be64(h.authentication));
    lemma_get16_be16(s, 2, h.packet_length);
    lemma_get32_be32(s, 4, h.router_id);
    lemma_get32_be32(s, 8, h.area_id);
    lemma_get16_be16(s, 12, h.checksum);
    lemma_get16_be16(s, 14, h.auth_type);
    lemma_get64_be64(s, 16, h.authentication);
}

/// A header depends only on the first 24 bytes it is read from.
pub proof fn lemma_parse_ospf_header_prefix(s: Seq<u8>, t: Seq<u8>)
    requires
        s.len() >= 24,
        t.len() >= 24,
        s.subrange(0, 24) == t.subrange(0, 24),
    ensures
        parse_ospf_header(s) == parse_ospf_header(t),
{
    assert forall|i: int| 0 <= i < 24 implies s[i] == t[i] by {
        assert(s[i] == s.subrange(0, 24)[i]);
        assert(t[i] == t.subrange(0, 24)[i]);
    }
}

impl OspfHeader {
    pub fn empty() -> (r: OspfHeader)
        ensures
            r == empty_ospf_header(),
    {
        OspfHeader {
            version: 0,
            packet_type: 0,
            packet_length: 0,
            router_id: 0,
            area_id: 0,
            checksum: 0,
            auth_type: 0,
            authentication: 0,
        }
    }

    pub fn try_from_be_bytes(payload: &[u8]) -> (r: Option<Self>)
        ensures
            r == parse_ospf_header(payload@),
    {
        if payload.len() < Self::length() {
            return None;
        }
        Some(
            Self {
                version: payload[0],
                packet_type: payload[1],
                packet_length: read_be16(payload, 2),
                router_id: read_be32(payload, 4),
                area_id: read_be32(payload, 8),
                checksum: read_be16(payload, 12),
                auth_type: read_be16(payload, 14),
                authentication: read_be64(payload, 16),
            },
        )
    }

    pub fn to_le_bytes(&self) -> (r: Vec<u8>)
        ensures
            r@ == ospf_header_le_bytes(*self),
    {
        let mut bytes = Vec::new();
        bytes.push(self.version);
        bytes.push(self.packet_type);
        push_le16(&mut bytes, self.packet_length);
        push_le32(&mut bytes, self.router_id);
        push_le32(&mut bytes, self.area_id);
        push_le16(&mut bytes, self.checksum);
        push_le16(&mut bytes, self.auth_type);
        push_le64(&mut bytes, self.authentication);
        assert(bytes@ == ospf_header_le_bytes(*self));
        bytes
    }

    pub fn to_be_bytes(&self) -> (r: Vec<u8>)
        ensures
            r@ == ospf_header_bytes(*self),
    {
        let mut bytes = Vec::new();
        bytes.push(self.version);
        bytes.push(self.packet_type);
        push_be16(&mut bytes, self.packet_length);
        push_be32(&mut bytes, self.router_id);
        push_be32(&mut bytes, self.area_id);
        push_be16(&mut bytes, self.checksum);
        push_be16(&mut bytes, self.auth_type);
        push_be64(&mut bytes, self.authentication);
        assert(bytes@ == ospf_header_bytes(*self));
        bytes
    }

    pub fn length() -> (r: usize)
        ensures
            r == 24,
    {
        24
    }
}

/// What byte `i` of a packet adds to the checksum sum: bytes 12 and 13 (the checksum field)
/// add nothing, bytes at even offsets are high halves of 16-bit words, the others low halves.
pub open spec fn checksum_term(packet: Seq<u8>, i: int) -> int {
    if i == 12 || i == 13 {
        0
    } else if i % 2 == 0 {
        packet[i] * 256
    } else {
        packet[i] as int
    }
}

/// The sum of the terms of the first `n` bytes.
pub open spec fn checksum_sum(packet: Seq<u8>, n: int) -> int
    decreases n,
{
    if n <= 0 {
        0
    } else {
        checksum_sum(packet, n - 1) + checksum_term(packet, n - 1)
    }
}

/// Folds the carries above 16 bits back into the low 16 bits until none is left.
pub open spec fn fold_carries(x: int) -> int
    decreases x,
{
    if x > 0xffff {
        fold_carries(x % 0x1_0000 + x / 0x1_0000)
    } else {
        x
    }
}

/// The OSPF packet checksum: the one's complement of the folded sum of the packet's 16-bit
/// words, leaving out the checksum field.
pub open spec fn ospf_checksum(packet: Seq<u8>) -> u16 {
    (0xffff - fold_carries(checksum_sum(packet, packet.len() as int))) as u16
}

pub proof fn lemma_checksum_sum_mono(packet: Seq<u8>, i: int, j: int)
    requires
        0 <= i <= j,
    ensures
        0 <= checksum_sum(packet, i) <= checksum_sum(packet, j),
    decreases j - i,
{
    if i < j {
        lemma_checksum_sum_mono(packet, i, j - 1);
        if i == 0 {
        }
    } else {
        lemma_checksum_sum_nonneg(packet, i);
    }
}

pub proof fn lemma_checksum_sum_nonneg(packet: Seq<u8>, n: int)
    ensures
        0 <= checksum_sum(packet, n),
    decreases n,
{
    if n > 0 {
        lemma_checksum_sum_nonneg(packet, n - 1);
    }
}

pub proof fn lemma_fold_carries(x: int)
    requires
        0 <= x,
    ensures
        0 <= fold_carries(x) <= 0xffff,
    decreases x,
{
    if x > 0xffff {
        lemma_fold_carries(x % 0x1_0000 + x / 0x1_0000);
    }
}

/// What byte `i` adds to the one's-complement sum of all of a packet's 16-bit words,
/// checksum field included.
pub open spec fn word_term(packet: Seq<u8>, i: int) -> int {
    if i % 2 == 0 {
        packet[i] * 256
    } else {
        packet[i] as int
    }
}

/// The sum of the word terms of the first `n` bytes, checksum field included.
pub open spec fn word_sum(packet: Seq<u8>, n: int) -> int
    decreases n,
{
    if n <= 0 {
        0
    } else {
        word_sum(packet, n - 1) + word_term(packet, n - 1)
    }
}

/// Whether a received packet verifies: the folded one's-complement sum of all its 16-bit
/// words, checksum field included, is 0xffff.
pub open spec fn ospf_verifies(packet: Seq<u8>) -> bool {
    fold_carries(word_sum(packet, packet.len() as int)) == 0xffff
}

proof fn lemma_word_sum_before_field(p: Seq<u8>, n: int)
    requires
        0 <= n <= 12,
        n <= p.len(),
    ensures
        word_sum(p, n) == checksum_sum(p, n),
    decreases n,
{
    if n > 0 {
        lemma_word_sum_before_field(p, n - 1);
    }
}

proof fn lemma_word_sum_split(p: Seq<u8>, n: int)
    requires
        14 <= n <= p.len(),
    ensures
        word_sum(p, n) == checksum_sum(p, n) + p[12] * 256 + p[13],
    decreases n,
{
    if n > 14 {
        lemma_word_sum_split(p, n - 1);
    } else {
        lemma_word_sum_before_field(p, 12);
        assert(word_sum(p, 13) == word_sum(p, 12) + p[12] * 256);
        assert(checksum_sum(p, 13) == checksum_sum(p, 12));
    }
}

/// Folding the carries keeps a sum's remainder modulo 0xffff, and keeps a positive sum
/// positive.
proof fn lemma_fold_mod(x: int)
    requires
        x >= 0,
    ensures
        fold_carries(x) % 0xffff == x % 0xffff,
        x > 0 ==> fold_carries(x) > 0,
    decreases x,
{
    if x > 0xffff {
        let q = x / 0x1_0000;
        let r = x % 0x1_0000;
        assert(x == 0x1_0000 * q + r && 0 <= r < 0x1_0000);
        assert(q >= 1) by (nonlinear_arith)
            requires
                x == 0x1_0000 * q + r,
                r < 0x1_0000,
                x > 0xffff,
        ;
        assert(r + q < x) by (nonlinear_arith)
            requires
                x == 0x1_0000 * q + r,
                q >= 1,
                r >= 0,
        ;
        assert((r + q) % 0xffff == x % 0xffff) by (nonlinear_arith)
            requires
                x == 0x1_0000 * q + r,
                q >= 1,
                r >= 0,
        {
            assert(x == 0xffff * q + (r + q));
            vstd::arithmetic::div_mod::lemma_mod_multiples_vanish(q, r + q, 0xffff);
        }
        lemma_fold_mod(r + q);
    }
}

/// A packet that carries, in bytes 12 and 13, the checksum computed over it verifies, and
/// its checksum is still that value.
pub proof fn lemma_checksummed_packet_verifies(p: Seq<u8>)
    requires
        p.len() >= 14,
    ensures
        ({
            let c = ospf_checksum(p);
            let q = p.update(12, (c / 0x100) as u8).update(13, (c % 0x100) as u8);
            &&& ospf_checksum(q) == c
            &&& ospf_verifies(q)
        }),
{
    let c = ospf_checksum(p);
    let q = p.update(12, (c / 0x100) as u8).update(13, (c % 0x100) as u8);
    lemma_checksum_ignores_checksum_field(p, (c / 0x100) as u8, (c % 0x100) as u8);
    lemma_checksum_sum_same(p, q, p.len() as int);
    let sum = checksum_sum(p, p.len() as int);
    lemma_checksum_sum_nonneg(p, p.len() as int);
    lemma_fold_carries(sum);
    let f = fold_carries(sum);
    assert(c == 0xffff - f);
    lemma_word_sum_split(q, q.len() as int);
    assert(q[12] * 256 + q[13] == c) by (nonlinear_arith)
        requires
            q[12] == (c / 0x100) as u8,
            q[13] == (c % 0x100) as u8,
            0 <= c <= 0xffff,
    ;
    let total = word_sum(q, q.len() as int);
    assert(total == sum + c);
    lemma_fold_mod(sum);
    if sum == 0 {
        assert(f == 0);
    }
    assert(total > 0);
    assert(total % 0xffff == 0) by (nonlinear_arith)
        requires
            total == sum + 0xffff - f,
            f % 0xffff == sum % 0xffff,
            sum >= 0,
            0 <= f <= 0xffff,
    ;
    lemma_fold_mod(total);
    lemma_fold_carries(total);
}

proof fn lemma_checksum_sum_bound(p: Seq<u8>, n: int)
    requires
        0 <= n <= p.len(),
    ensures
        checksum_sum(p, n) <= 0xff00 * n,
    decreases n,
{
    if n > 0 {
        lemma_checksum_sum_bound(p, n - 1);
    }
}

/// The checksum of any packet of up to 65535 bytes is computed without overflowing the
/// 32-bit sum.
pub proof fn lemma_checksum_sum_fits(p: Seq<u8>)
    requires
        p.len() <= 0xffff,
    ensures
        checksum_sum(p, p.len() as int) <= u32::MAX,
{
    lemma_checksum_sum_bound(p, p.len() as int);
    assert(0xff00 * p.len() <= 0xff00 * 0xffff) by (nonlinear_arith)
        requires
            p.len() <= 0xffff,
    ;
}

/// # ospf_packet_checksum
/// Computes the checksum of an OSPF packet given as its bytes.
pub fn ospf_packet_checksum(packet: &[u8]) -> (r: u16)
    requires
        checksum_sum(packet@, packet@.len() as int) <= u32::MAX,
    ensures
        r == ospf_checksum(packet@),
{
    let mut sum = 0u32;
    let mut i: usize = 0;
    let len = packet.len();
    while i < len
        invariant
            len == packet@.len(),
            i <= len,
            sum == checksum_sum(packet@, i as int),
            checksum_sum(packet@, len as int) <= u32::MAX,
        decreases len - i,
    {
        proof {
            lemma_checksum_sum_mono(packet@, i + 1, len as int);
        }
        if i == 12 || i == 13 {
            i = i + 1;
            continue;
        }
        let b = packet[i];
        if i % 2 == 0 {
            assert((b as u32) << 8 == (b as u32) * 256) by (bit_vector);
            sum += (b as u32) << 8;
        } else {
            sum += b as u32;
        }
        i = i + 1;
    }
    proof {
        lemma_checksum_sum_nonneg(packet@, len as int);
    }
    while sum > 0xffff
        invariant
            fold_carries(sum as int) == fold_carries(checksum_sum(packet@, len as int)),
        decreases sum,
    {
        let ghost old_sum = sum;
        assert(sum & 0xffff == sum % 0x1_0000) by (bit_vector);
        assert(sum >> 16 == sum / 0x1_0000) by (bit_vector);
        sum = (sum & 0xffff) + (sum >> 16);
        assert(sum == old_sum % 0x1_0000 + old_sum / 0x1_0000);
    }
    assert(!(sum as u16) == 0xffff - sum) by (bit_vector)
        requires
            sum <= 0xffff,
    ;
    !(sum as u16)
}

/// Changing the checksum field (bytes 12 and 13) of a packet leaves its checksum unchanged.
pub proof fn lemma_checksum_ignores_checksum_field(packet: Seq<u8>, a: u8, b: u8)
    requires
        packet.len() >= 14,
    ensures
        ospf_checksum(packet.update(12, a).update(13, b)) == ospf_checksum(packet),
{
    let q = packet.update(12, a).update(13, b);
    assert forall|n: int| 0 <= n <= packet.len() implies checksum_sum(q, n) == checksum_sum(
        packet,
        n,
    ) by {
        lemma_checksum_sum_same(packet, q, n);
    }
}

pub proof fn lemma_checksum_sum_same(p: Seq<u8>, q: Seq<u8>, n: int)
    requires
        0 <= n <= p.len(),
        p.len() == q.len(),
        forall|i: int| 0 <= i < p.len() && i != 12 && i != 13 ==> p[i] == q[i],
    ensures
        checksum_sum(q, n) == checksum_sum(p, n),
    decreases n,
{
    if n > 0 {
        lemma_checksum_sum_same(p, q, n - 1);
    }
}

/// An OSPF packet of one of the five types.
pub enum OspfPacket {
    Hello(Hello),
    DD(DD),
    LSU(Lsu),
    LSR(Lsr),
    LSACK(Lsack),
}

/// An OSPF packet as a mathematical value.
pub enum OspfPacketView {
    Hello(HelloView),
    DD(DDView),
    LSU(LsuView),
    LSR(LsrView),
    LSACK(LsackView),
}

impl View for OspfPacket {
    type V = OspfPacketView;

    open spec fn view(&self) -> OspfPacketView {
        match self {
            OspfPacket::Hello(p) => OspfPacketView::Hello(p@),
            OspfPacket::DD(p) => OspfPacketView::DD(p@),
            OspfPacket::LSU(p) => OspfPacketView::LSU(p@),
            OspfPacket::LSR(p) => OspfPacketView::LSR(p@),
            OspfPacket::LSACK(p) => OspfPacketView::LSACK(p@),
        }
    }
}

/// The parts of a received IPv4 datagram that OSPF looks at. Addresses are host-order
/// integers.
pub struct Ipv4Datagram {
    pub source: u32,
    pub destination: u32,
    pub next_level_protocol: u8,
    pub payload: Vec<u8>,
}

/// Whether a datagram received on the interface with address `host_addr` is one that OSPF
/// takes: not sent by the interface itself, and sent to AllDRouters, to the interface, or to
/// AllSPFRouters.
pub open spec fn spec_valid_for_ospf(source: u32, destination: u32, host_addr: u32) -> bool {
    &&& source != host_addr
    &&& (destination == crate::ALL_DROTHERS || destination == host_addr || destination
        == crate::ALL_SPF_ROUTERS)
}

pub fn is_ipv4_packet_valid_for_ospf(ipv4_packet: &Ipv4Datagram, host_addr: u32) -> (r: bool)
    ensures
        r == spec_valid_for_ospf(ipv4_packet.source, ipv4_packet.destination, host_addr),
{
    if ipv4_packet.source == host_addr {
        return false;
    }
    let destination = ipv4_packet.destination;
    if destination != crate::ALL_DROTHERS && destination != host_addr && destination
        != crate::ALL_SPF_ROUTERS {
        return false;
    }
    true
}

/// Whether classifying a datagram completes: the reader of hello packets indexes beyond the
/// end of every payload that holds a whole OSPF header.
pub open spec fn spec_classifiable(protocol: u8, payload: Seq<u8>) -> bool {
    !(protocol == crate::OSPF_IP_PROTOCOL && payload.len() >= 24 && payload[1] == HELLO_TYPE)
}

/// What a datagram with the given protocol and payload is taken as: the packet that its OSPF
/// header's type names, read from the payload, or the reason it is dropped.
pub open spec fn spec_classify(protocol: u8, payload: Seq<u8>) -> Result<OspfPacketView, Seq<char>> {
    if protocol != crate::OSPF_IP_PROTOCOL {
        Err("non-ospf packet received."@)
    } else if payload.len() < 24 {
        Err("invalid ospf packet,ignored."@)
    } else if payload[1] == HELLO_TYPE {
        Err("invalid hello packet,ignored."@)
    } else if payload[1] == DD_TYPE {
        match parse_dd(payload) {
            Some(p) => Ok(OspfPacketView::DD(p)),
            None => Err("invalid dd packet,ignored."@),
        }
    } else if payload[1] == LSR_TYPE {
        match parse_lsr(payload) {
            Some(p) => Ok(OspfPacketView::LSR(p)),
            None => Err("invalid lsr packet,ignored."@),
        }
    } else if payload[1] == LSU_TYPE {
        match parse_lsu(payload) {
            Some(p) => Ok(OspfPacketView::LSU(p)),
            None => Err("invalid lsu packet,ignored."@),
        }
    } else if payload[1] == LSACK_TYPE {
        match parse_lsack(payload) {
            Some(p) => Ok(OspfPacketView::LSACK(p)),
            None => Err("invalid lsack packet,ignored."@),
        }
    } else {
        Err("invalid ospf packet type,ignored."@)
    }
}

impl OspfPacket {
    /// Takes a received datagram apart as an OSPF packet, or says why it is dropped.
    pub fn try_from_ipv4_packet(ipv4_packet: &Ipv4Datagram, interface_name: String) -> (r: Result<
        OspfPacket,
        &'static str,
    >)
        requires
            spec_classifiable(ipv4_packet.next_level_protocol, ipv4_packet.payload@),
        ensures
            match r {
                Ok(p) => spec_classify(ipv4_packet.next_level_protocol, ipv4_packet.payload@)
                    == Ok::<OspfPacketView, Seq<char>>(p@),
                Err(e) => spec_classify(ipv4_packet.next_level_protocol, ipv4_packet.payload@)
                    == Err::<OspfPacketView, Seq<char>>(e@),
            },
    {
        if ipv4_packet.next_level_protocol != crate::OSPF_IP_PROTOCOL {
            return Err("non-ospf packet received.");
        }
        let payload = ipv4_packet.payload.as_slice();
        match OspfHeader::try_from_be_bytes(payload) {
            Some(ospf_header) => {
                if ospf_header.packet_type == HELLO_TYPE {
                    match Hello::try_from_be_bytes(payload) {
                        Some(hello_packet) => Ok(OspfPacket::Hello(hello_packet)),
                        None => Err("invalid hello packet,ignored."),
                    }
                } else if ospf_header.packet_type == DD_TYPE {
                    match DD::try_from_be_bytes(payload) {
                        Some(dd_packet) => Ok(OspfPacket::DD(dd_packet)),
                        None => Err("invalid dd packet,ignored."),
                    }
                } else if ospf_header.packet_type == LSR_TYPE {
                    match Lsr::try_from_be_bytes(payload) {
                        Some(lsr_packet) => Ok(OspfPacket::LSR(lsr_packet)),
                        None => Err("invalid lsr packet,ignored."),
                    }
                } else if ospf_header.packet_type == LSU_TYPE {
                    match Lsu::try_from_be_bytes(payload) {
                        Some(lsu_packet) => Ok(OspfPacket::LSU(lsu_packet)),
                        None => Err("invalid lsu packet,ignored."),
                    }
                } else if ospf_header.packet_type == LSACK_TYPE {
                    match Lsack::try_from_be_bytes(payload) {
                        Some(lsack_packet) => Ok(OspfPacket::LSACK(lsack_packet)),
                        None => Err("invalid lsack packet,ignored."),
                    }
                } else {
                    Err("invalid ospf packet type,ignored.")
                }
            },
            None => Err("invalid ospf packet,ignored."),
        }
    }
}

} // verus!
