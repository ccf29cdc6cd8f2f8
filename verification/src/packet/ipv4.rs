//! The IPv4 datagrams that carry OSPF packets.
use vstd::prelude::*;

use crate::codec::{be16, be32, push_all, push_be16, push_be32};
use crate::packet::fold_carries;
use crate::{IPV4_PACKET_MTU, OSPF_IP_PROTOCOL};

verus! {

/// What byte `i` of an IPv4 header adds to the header checksum sum: bytes 10 and 11 (the
/// checksum field) add nothing, bytes at even offsets are high halves of 16-bit words, the
/// others low halves.
pub open spec fn ipv4_term(h: Seq<u8>, i: int) -> int {
    if i == 10 || i == 11 {
        0
    } else if i % 2 == 0 {
        h[i] * 256
    } else {
        h[i] as int
    }
}

/// The sum of the terms of the first `n` bytes of an IPv4 header.
pub open spec fn ipv4_sum(h: Seq<u8>, n: int) -> int
    decreases n,
{
    if n <= 0 {
        0
    } else {
        ipv4_sum(h, n - 1) + ipv4_term(h, n - 1)
    }
}

/// The checksum of a 20-byte IPv4 header: the one's complement of the folded sum of its
/// 16-bit words, leaving out the checksum field.
pub open spec fn ipv4_header_checksum(h: Seq<u8>) -> u16 {
    (0xffff - fold_carries(ipv4_sum(h, 20))) as u16
}

/// The 20-byte header of a datagram that carries an OSPF packet: version 4, header length 5
/// words, no type of service, identification, flags or fragment offset, time to live 1,
/// protocol 89.
pub open spec fn ipv4_header(total_length: u16, source: u32, destination: u32, checksum: u16) -> Seq<
    u8,
> {
    seq![0x45u8, 0u8] + be16(total_length) + seq![0u8, 0u8, 0u8, 0u8, 1u8, OSPF_IP_PROTOCOL] + be16(
        checksum,
    ) + be32(source) + be32(destination)
}

/// The datagram from `source` to `destination` that carries `payload`: the header, with its
/// total length and checksum filled in, then the payload.
pub open spec fn ipv4_datagram(payload: Seq<u8>, source: u32, destination: u32) -> Seq<u8> {
    let total = (20 + payload.len()) as u16;
    ipv4_header(
        total,
        source,
        destination,
        ipv4_header_checksum(ipv4_header(total, source, destination, 0)),
    ) + payload
}

/// The header checksum of a 20-byte IPv4 header, as `pnet::packet::ipv4::checksum` computes
/// it: the one's complement of the folded sum of the header's 16-bit words, the checksum
/// field left out.
#[verifier::external_body]
fn ipv4_checksum(header: &[u8]) -> (r: u16)
    requires
        header@.len() == 20,
    ensures
        r == ipv4_header_checksum(header@),
{
    match pnet::packet::ipv4::Ipv4Packet::new(header) {
        Some(packet) => pnet::packet::ipv4::checksum(&packet),
        None => 0,
    }
}

fn ipv4_header_vec(total_length: u16, source: u32, destination: u32, checksum: u16) -> (r: Vec<u8>)
    ensures
        r@ == ipv4_header(total_length, source, destination, checksum),
        r@.len() == 20,
{
    let mut h: Vec<u8> = Vec::new();
    h.push(0x45);
    h.push(0);
    push_be16(&mut h, total_length);
    h.push(0);
    h.push(0);
    h.push(0);
    h.push(0);
    h.push(1);
    h.push(OSPF_IP_PROTOCOL);
    push_be16(&mut h, checksum);
    push_be32(&mut h, source);
    push_be32(&mut h, destination);
    assert(h@ =~= ipv4_header(total_length, source, destination, checksum));
    h
}

/// Wraps `payload` in a datagram from `source` to `destination`. The packet buffer holds
/// `IPV4_PACKET_MTU` bytes, so the datagram may not be longer.
pub fn build_ipv4_datagram(payload: &Vec<u8>, source: u32, destination: u32) -> (r: Vec<u8>)
    requires
        20 + payload@.len() <= IPV4_PACKET_MTU,
    ensures
        r@ == ipv4_datagram(payload@, source, destination),
{
    let total = (20 + payload.len()) as u16;
    let unsummed = ipv4_header_vec(total, source, destination, 0);
    let checksum = ipv4_checksum(unsummed.as_slice());
    let mut r = ipv4_header_vec(total, source, destination, checksum);
    push_all(&mut r, payload);
    r
}


proof fn lemma_ipv4_sum_same(p: Seq<u8>, q: Seq<u8>, n: int)
    requires
        0 <= n <= p.len(),
        p.len() == q.len(),
        forall|i: int| 0 <= i < p.len() && i != 10 && i != 11 ==> p[i] == q[i],
    ensures
        ipv4_sum(q, n) == ipv4_sum(p, n),
    decreases n,
{
    if n > 0 {
        lemma_ipv4_sum_same(p, q, n - 1);
    }
}

/// The header of a datagram built to carry an OSPF packet holds, in its checksum field, the
/// checksum that its receiver computes over the header.
pub proof fn lemma_datagram_checksum_verifies(payload: Seq<u8>, source: u32, destination: u32)
    ensures
        ({
            let d = ipv4_datagram(payload, source, destination);
            ipv4_header_checksum(d.subrange(0, 20)) == (d[10] as int) * 256 + (d[11] as int)
        }),
{
    let total = (20 + payload.len()) as u16;
    let p = ipv4_header(total, source, destination, 0);
    let c = ipv4_header_checksum(p);
    let q = ipv4_header(total, source, destination, c);
    let d = ipv4_datagram(payload, source, destination);
    assert(d.subrange(0, 20) =~= q);
    assert forall|i: int| 0 <= i < p.len() && i != 10 && i != 11 implies p[i] == q[i] by {}
    lemma_ipv4_sum_same(p, q, 20);
    assert(d[10] == q[10] && d[11] == q[11]);
    assert((c / 0x100) as u8 * 256 + (c % 0x100) as u8 == c) by (nonlinear_arith)
        requires
            0 <= c <= 0xffff,
    ;
}

} // verus!
