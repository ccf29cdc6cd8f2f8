//! An OSPFv2 router: wire formats, link-state database, neighbor and interface state machines.
use vstd::prelude::*;

pub mod area;
pub mod codec;
pub mod err;
pub mod error;
pub mod interface;
pub mod lsa;
pub mod neighbor;
pub mod packet;
pub mod router;
pub mod rtable;

verus! {

pub const OPTION_E: u8 = 0x02;
pub const OPTION_MC: u8 = 0x04;
pub const OPTION_NP: u8 = 0x08;
pub const OPTION_EA: u8 = 0x10;
pub const OPTION_DC: u8 = 0x20;

/// 224.0.0.5, as a host-order address.
pub const ALL_SPF_ROUTERS: u32 = 0xe000_0005;
/// 224.0.0.6, as a host-order address.
pub const ALL_DROTHERS: u32 = 0xe000_0006;

pub const OSPF_IP_PROTOCOL: u8 = 89;
pub const OSPF_VERSION: u8 = 2;

pub const IPV4_PACKET_MTU: usize = 1400;

/// The four octets of the address that `bits` holds, most significant first.
pub open spec fn octets_of(bits: u32) -> [u8; 4] {
    [(bits / 0x100_0000) as u8, (bits / 0x1_0000 % 0x100) as u8, (bits / 0x100 % 0x100) as u8, (
    bits % 0x100) as u8]
}

/// The address whose octets are `ip`, as a host-order integer.
pub open spec fn bits_of(ip: [u8; 4]) -> u32 {
    (ip[0] * 0x100_0000 + ip[1] * 0x1_0000 + ip[2] * 0x100 + ip[3]) as u32
}

/// The octets of the address that `bits` holds, most significant first.
pub fn bits_to_ipv4_addr(bits: u32) -> (r: [u8; 4])
    ensures
        r == octets_of(bits),
{
    let a = ((bits >> 24) & 0xff) as u8;
    let b = ((bits >> 16) & 0xff) as u8;
    let c = ((bits >> 8) & 0xff) as u8;
    let d = (bits & 0xff) as u8;
    assert(((bits >> 24) & 0xff) == bits / 0x100_0000) by (bit_vector);
    assert(((bits >> 16) & 0xff) == bits / 0x1_0000 % 0x100) by (bit_vector);
    assert(((bits >> 8) & 0xff) == bits / 0x100 % 0x100) by (bit_vector);
    assert((bits & 0xff) == bits % 0x100) by (bit_vector);
    [a, b, c, d]
}

/// The host-order integer that holds the address with octets `ip`.
pub fn ipv4_addr_to_bits(ip: [u8; 4]) -> (r: u32)
    ensures
        r == bits_of(ip),
{
    let (a, b, c, d) = (ip[0] as u32, ip[1] as u32, ip[2] as u32, ip[3] as u32);
    assert((a << 24) | (b << 16) | (c << 8) | d == a * 0x100_0000 + b * 0x1_0000 + c * 0x100 + d)
        by (bit_vector)
        requires
            a < 0x100,
            b < 0x100,
            c < 0x100,
            d < 0x100,
    ;
    (a << 24) | (b << 16) | (c << 8) | d
}

/// Reading an address's octets back into an integer gives the integer, and the other way
/// round.
pub proof fn lemma_ipv4_addr_round_trip(bits: u32, ip: [u8; 4])
    ensures
        bits_of(octets_of(bits)) == bits,
        octets_of(bits_of(ip)) =~= ip,
{
    let o = octets_of(bits);
    assert(o[0] * 0x100_0000 + o[1] * 0x1_0000 + o[2] * 0x100 + o[3] == bits) by (nonlinear_arith)
        requires
            o[0] == bits / 0x100_0000,
            o[1] == bits / 0x1_0000 % 0x100,
            o[2] == bits / 0x100 % 0x100,
            o[3] == bits % 0x100,
            bits <= 0xffff_ffff,
    ;
    let n = ip[0] * 0x100_0000 + ip[1] * 0x1_0000 + ip[2] * 0x100 + ip[3];
    assert(n / 0x100_0000 == ip[0] && n / 0x1_0000 % 0x100 == ip[1] && n / 0x100 % 0x100 == ip[2]
        && n % 0x100 == ip[3]) by (nonlinear_arith)
        requires
            n == ip[0] * 0x100_0000 + ip[1] * 0x1_0000 + ip[2] * 0x100 + ip[3],
            ip[0] < 0x100,
            ip[1] < 0x100,
            ip[2] < 0x100,
            ip[3] < 0x100,
    ;
}

} // verus!
