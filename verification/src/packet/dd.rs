//! Database description packets: how two neighbors summarize their databases to each other.
use vstd::prelude::*;

use crate::codec::{
    be16, be32, get16, get32, lemma_get16_be16, lemma_get32_be32, push_be16, push_be32,
    read_be16, read_be32,
};
use crate::lsa::{
    header_bytes, headers_bytes, lemma_headers_bytes, lemma_parse_header_bytes, parse_header,
    push_headers, Header,
};
use crate::packet::{
    empty_ospf_header, lemma_parse_ospf_header_bytes, ospf_header_bytes, parse_ospf_header,
    OspfHeader,
};

verus! {

pub const DD_TYPE: u8 = 2;

pub const FLAG_R_BIT: u8 = 0b0000_1000;
pub const FLAG_I_BIT: u8 = 0b0000_0100;
pub const FLAG_M_BIT: u8 = 0b0000_0010;
pub const FLAG_MS_BIT: u8 = 0b0000_0001;

/// A database description packet.
#[derive(Debug)]
pub struct DD {
    pub header: OspfHeader,
    pub interface_mtu: u16,
    pub options: u8,
    pub flags: u8,
    pub dd_sequence_number: u32,
    pub lsa_headers: Vec<Header>,
}

/// A database description packet as a mathematical value.
pub struct DDView {
    pub header: OspfHeader,
    pub interface_mtu: u16,
    pub options: u8,
    pub flags: u8,
    pub dd_sequence_number: u32,
    pub lsa_headers: Seq<Header>,
}

impl View for DD {
    type V = DDView;

    open spec fn view(&self) -> DDView {
        DDView {
            header: self.header,
            interface_mtu: self.interface_mtu,
            options: self.options,
            flags: self.flags,
            dd_sequence_number: self.dd_sequence_number,
            lsa_headers: self.lsa_headers@,
        }
    }
}

impl DDView {
    /// How many bytes the packet takes on the wire.
    pub open spec fn size(self) -> int {
        32 + 20 * self.lsa_headers.len() as int
    }
}

/// The wire form of a database description packet.
pub open spec fn dd_bytes(v: DDView) -> Seq<u8> {
    ospf_header_bytes(v.header) + be16(v.interface_mtu) + seq![v.options, v.flags] + be32(
        v.dd_sequence_number,
    ) + headers_bytes(v.lsa_headers)
}

/// The `n` LSA headers that start at `i` in `s`, one every 20 bytes.
pub open spec fn get_headers(s: Seq<u8>, i: int, n: nat) -> Seq<Header> {
    Seq::new(n, |k: int| parse_header(s.subrange(i + 20 * k, i + 20 * k + 20)).unwrap())
}

/// The database description packet that `s` holds: the header, the interface MTU, the
/// options, the flags, the sequence number, and one LSA header for each whole 20 bytes after
/// them (a shorter tail is left unread); `None` where `s` is shorter than 32 bytes.
pub open spec fn parse_dd(s: Seq<u8>) -> Option<DDView> {
    if s.len() < 32 {
        None
    } else {
        Some(
            DDView {
                header: parse_ospf_header(s).unwrap(),
                interface_mtu: get16(s, 24),
                options: s[26],
                flags: s[27],
                dd_sequence_number: get32(s, 28),
                lsa_headers: get_headers(s, 32, ((s.len() - 32) / 20) as nat),
            },
        )
    }
}

/// LSA headers written one after another at `i` are read back at `i`.
pub proof fn lemma_get_headers(s: Seq<u8>, i: int, hs: Seq<Header>)
    requires
        0 <= i,
        i + 20 * hs.len() <= s.len(),
        s.subrange(i, i + 20 * hs.len()) == headers_bytes(hs),
    ensures
        get_headers(s, i, hs.len()) == hs,
{
    lemma_headers_bytes(hs);
    assert forall|k: int| 0 <= k < hs.len() implies #[trigger] get_headers(s, i, hs.len())[k]
        == hs[k] by {
        assert(s.subrange(i + 20 * k, i + 20 * k + 20) == headers_bytes(hs).subrange(
            20 * k,
            20 * k + 20,
        ));
        lemma_parse_header_bytes(hs[k], Seq::empty());
        assert(header_bytes(hs[k]) + Seq::<u8>::empty() == header_bytes(hs[k]));
    }
    assert(get_headers(s, i, hs.len()) =~= hs);
}

/// A database description packet is read back from its wire form.
pub proof fn lemma_parse_dd_bytes(v: DDView)
    ensures
        dd_bytes(v).len() == v.size(),
        parse_dd(dd_bytes(v)) == Some(v),
{
    lemma_headers_bytes(v.lsa_headers);
    let s = dd_bytes(v);
    lemma_parse_ospf_header_bytes(v.header, s.subrange(24, s.len() as int));
    assert(s == ospf_header_bytes(v.header) + s.subrange(24, s.len() as int));
    assert(s.subrange(24, 26) == be16(v.interface_mtu));
    assert(s.subrange(28, 32) == be32(v.dd_sequence_number));
    lemma_get16_be16(s, 24, v.interface_mtu);
    lemma_get32_be32(s, 28, v.dd_sequence_number);
    assert(s.subrange(32, s.len() as int) == headers_bytes(v.lsa_headers));
    assert((s.len() - 32) / 20 == v.lsa_headers.len());
    lemma_get_headers(s, 32, v.lsa_headers);
}

/// Whether all the bits of `bit` are set in `byte`.
pub open spec fn has_bit(byte: u8, bit: u8) -> bool {
    byte & bit == bit
}

/// The flags that a database description packet is sent with: MS where this router is the
/// master (the neighbor is not), I on the first packet, M where more follow.
pub open spec fn spec_dd_flags(n_master: bool, init: bool, more: bool) -> u8 {
    (if n_master {
        0u8
    } else {
        FLAG_MS_BIT
    }) | (if init {
        FLAG_I_BIT
    } else {
        0u8
    }) | (if more {
        FLAG_M_BIT
    } else {
        0u8
    })
}

/// The flags that a database description packet is sent with.
pub fn dd_flags(n_master: bool, init: bool, more: bool) -> (r: u8)
    ensures
        r == spec_dd_flags(n_master, init, more),
        has_bit(r, FLAG_MS_BIT) == !n_master,
        has_bit(r, FLAG_I_BIT) == init,
        has_bit(r, FLAG_M_BIT) == more,
{
    let mut flags = if n_master {
        0
    } else {
        FLAG_MS_BIT
    };
    let ghost f0 = flags;
    if init {
        flags |= FLAG_I_BIT;
    }
    let ghost f1 = flags;
    if more {
        flags |= FLAG_M_BIT;
    }
    let a: u8 = if n_master {
        0u8
    } else {
        1u8
    };
    let b: u8 = if init {
        4u8
    } else {
        0u8
    };
    let c: u8 = if more {
        2u8
    } else {
        0u8
    };
    assert(f0 == a);
    assert(f1 == a | b) by {
        assert(a | 0 == a) by (bit_vector);
    }
    assert(flags == a | b | c) by {
        assert((a | b) | 0 == (a | b)) by (bit_vector);
        assert((a | b) | 2 == a | b | 2) by (bit_vector);
    }
    assert((a == 0 || a == 1) && (b == 0 || b == 4) && (c == 0 || c == 2) ==> {
        &&& ((a | b | c) & 1 == 1) == (a == 1)
        &&& ((a | b | c) & 4 == 4) == (b == 4)
        &&& ((a | b | c) & 2 == 2) == (c == 2)
    }) by (bit_vector);
    flags
}

impl DD {
    pub fn empty() -> (r: Self)
        ensures
            r@ == (DDView {
                header: empty_ospf_header(),
                interface_mtu: 0,
                options: 0,
                flags: 0,
                dd_sequence_number: 0,
                lsa_headers: Seq::empty(),
            }),
    {
        Self {
            header: OspfHeader::empty(),
            interface_mtu: 0,
            options: 0,
            flags: 0,
            dd_sequence_number: 0,
            lsa_headers: Vec::new(),
        }
    }

    pub fn has_option_e(&self) -> (r: bool)
        ensures
            r == has_bit(self.options, crate::OPTION_E),
    {
        self.options & crate::OPTION_E == crate::OPTION_E
    }

    pub fn has_option_mc(&self) -> (r: bool)
        ensures
            r == has_bit(self.options, crate::OPTION_MC),
    {
        self.options & crate::OPTION_MC == crate::OPTION_MC
    }

    pub fn has_option_np(&self) -> (r: bool)
        ensures
            r == has_bit(self.options, crate::OPTION_NP),
    {
        self.options & crate::OPTION_NP == crate::OPTION_NP
    }

    pub fn has_option_dc(&self) -> (r: bool)
        ensures
            r == has_bit(self.options, crate::OPTION_DC),
    {
        self.options & crate::OPTION_DC == crate::OPTION_DC
    }

    pub fn is_flag_i_set(&self) -> (r: bool)
        ensures
            r == has_bit(self.flags, FLAG_I_BIT),
    {
        self.flags & FLAG_I_BIT == FLAG_I_BIT
    }

    pub fn is_flag_m_set(&self) -> (r: bool)
        ensures
            r == has_bit(self.flags, FLAG_M_BIT),
    {
        self.flags & FLAG_M_BIT == FLAG_M_BIT
    }

    pub fn is_flag_ms_set(&self) -> (r: bool)
        ensures
            r == has_bit(self.flags, FLAG_MS_BIT),
    {
        self.flags & FLAG_MS_BIT == FLAG_MS_BIT
    }

    pub fn set_flag_i(&mut self)
        ensures
            final(self)@ == (DDView { flags: old(self).flags | FLAG_I_BIT, ..old(self)@ }),
    {
        self.flags |= FLAG_I_BIT;
    }

    pub fn set_flag_m(&mut self)
        ensures
            final(self)@ == (DDView { flags: old(self).flags | FLAG_M_BIT, ..old(self)@ }),
    {
        self.flags |= FLAG_M_BIT;
    }

    pub fn set_flag_ms(&mut self)
        ensures
            final(self)@ == (DDView { flags: old(self).flags | FLAG_MS_BIT, ..old(self)@ }),
    {
        self.flags |= FLAG_MS_BIT;
    }

    /// Reads a database description packet laid out as `to_be_bytes` writes it.
    pub fn try_from_be_bytes(payload: &[u8]) -> (r: Option<Self>)
        ensures
            match r {
                Some(v) => parse_dd(payload@) == Some(v@),
                None => parse_dd(payload@) is None,
            },
    {
        if payload.len() < OspfHeader::length() + 8 {
            return None;
        }
        let header = match OspfHeader::try_from_be_bytes(&payload[0..24]) {
            Some(h) => h,
            None => return None,
        };
        proof {
            assert(payload@.subrange(0, 24).subrange(0, 24) == payload@.subrange(0, 24));
            crate::packet::lemma_parse_ospf_header_prefix(payload@.subrange(0, 24), payload@);
        }
        let interface_mtu = read_be16(payload, 24);
        let options = payload[26];
        let flags = payload[27];
        let dd_sequence_number = read_be32(payload, 28);
        let len = payload.len();
        let count = (len - 32) / 20;
        let mut lsa_headers: Vec<Header> = Vec::new();
        let mut k: usize = 0;
        while k < count
            invariant
                len == payload@.len(),
                len >= 32,
                count == (len - 32) / 20,
                k <= count,
                lsa_headers@ == get_headers(payload@, 32, k as nat),
            decreases count - k,
        {
            let start = 32 + 20 * k;
            let h = match Header::try_from_be_bytes(&payload[start..start + 20]) {
                Some(h) => h,
                None => return None,
            };
            lsa_headers.push(h);
            k = k + 1;
            assert(lsa_headers@ =~= get_headers(payload@, 32, k as nat));
        }
        Some(Self { header, interface_mtu, options, flags, dd_sequence_number, lsa_headers })
    }

    pub fn length(&self) -> (r: usize)
        requires
            self@.size() <= usize::MAX,
        ensures
            r == self@.size(),
            r == dd_bytes(self@).len(),
    {
        proof {
            lemma_dd_bytes_len(self@);
        }
        OspfHeader::length() + 8 + self.lsa_headers.len() * Header::length()
    }

    pub fn to_be_bytes(&self) -> (r: Vec<u8>)
        ensures
            r@ == dd_bytes(self@),
    {
        let mut bytes = self.header.to_be_bytes();
        push_be16(&mut bytes, self.interface_mtu);
        bytes.push(self.options);
        bytes.push(self.flags);
        push_be32(&mut bytes, self.dd_sequence_number);
        push_headers(&mut bytes, &self.lsa_headers);
        assert(bytes@ == dd_bytes(self@));
        bytes
    }
}

/// Setting a flag bit makes it read as set, and leaves the other flag bits as they were.
pub proof fn lemma_set_flag_reads_back(flags: u8, bit: u8, other: u8)
    requires
        bit == FLAG_I_BIT || bit == FLAG_M_BIT || bit == FLAG_MS_BIT,
        other == FLAG_I_BIT || other == FLAG_M_BIT || other == FLAG_MS_BIT,
        other != bit,
    ensures
        has_bit(flags | bit, bit),
        has_bit(flags | bit, other) == has_bit(flags, other),
{
    assert(((flags | 4) & 4 == 4) && ((flags | 2) & 2 == 2) && ((flags | 1) & 1 == 1))
        by (bit_vector);
    assert(((flags | 4) & 2 == 2) == (flags & 2 == 2)) by (bit_vector);
    assert(((flags | 4) & 1 == 1) == (flags & 1 == 1)) by (bit_vector);
    assert(((flags | 2) & 4 == 4) == (flags & 4 == 4)) by (bit_vector);
    assert(((flags | 2) & 1 == 1) == (flags & 1 == 1)) by (bit_vector);
    assert(((flags | 1) & 4 == 4) == (flags & 4 == 4)) by (bit_vector);
    assert(((flags | 1) & 2 == 2) == (flags & 2 == 2)) by (bit_vector);
}


impl DD {
    /// The datagram that carries this packet from `source_addr` to `destination_addr`.
    pub fn build_ipv4_packet(&self, source_addr: u32, destination_addr: u32) -> (r: Vec<u8>)
        requires
            20 + dd_bytes(self@).len() <= crate::IPV4_PACKET_MTU,
        ensures
            r@ == crate::packet::ipv4::ipv4_datagram(dd_bytes(self@), source_addr, destination_addr),
    {
        let payload = self.to_be_bytes();
        crate::packet::ipv4::build_ipv4_datagram(&payload, source_addr, destination_addr)
    }
}


/// The database description packet that an interface sends: version 2, the interface's area
/// and authentication, this router's id, the given options, flags, sequence number and LSA
/// headers, an interface MTU of 0 (the field is left unset), the length, and the checksum of
/// the wire form taken with a zero checksum field.
pub open spec fn spec_dd_to_send(
    interface: crate::interface::Interface,
    router_id: u32,
    options: u8,
    flags: u8,
    seqno: u32,
    headers: Seq<Header>,
) -> DDView {
    let unsummed = DDView {
        header: OspfHeader {
            version: crate::OSPF_VERSION,
            packet_type: DD_TYPE,
            packet_length: (32 + 20 * headers.len()) as u16,
            router_id,
            area_id: interface.area_id,
            checksum: 0,
            auth_type: interface.auth_type,
            authentication: interface.auth_key,
        },
        interface_mtu: 0,
        options,
        flags,
        dd_sequence_number: seqno,
        lsa_headers: headers,
    };
    DDView {
        header: OspfHeader {
            checksum: crate::packet::ospf_checksum(dd_bytes(unsummed)),
            ..unsummed.header
        },
        ..unsummed
    }
}

impl DD {
    /// Builds the database description packet that `interface` sends with these options,
    /// flags, sequence number and LSA headers.
    pub fn new(
        interface: &crate::interface::Interface,
        router_id: u32,
        options: u8,
        flags: u8,
        seqno: u32,
        lsa_headers: Vec<Header>,
    ) -> (r: Self)
        requires
            32 + 20 * lsa_headers@.len() <= usize::MAX,
            crate::packet::checksum_sum(
                dd_bytes(spec_dd_to_send(*interface, router_id, options, flags, seqno, lsa_headers@)),
                32 + 20 * lsa_headers@.len() as int,
            ) <= u32::MAX,
        ensures
            r@ == spec_dd_to_send(*interface, router_id, options, flags, seqno, lsa_headers@),
    {
        let mut packet = Self::empty();
        packet.header.version = crate::OSPF_VERSION;
        packet.header.packet_type = DD_TYPE;
        packet.header.router_id = router_id;
        packet.header.area_id = interface.area_id;
        packet.header.auth_type = interface.auth_type;
        packet.header.authentication = interface.auth_key;
        packet.options = options;
        packet.flags = flags;
        packet.dd_sequence_number = seqno;
        packet.lsa_headers = lsa_headers;
        packet.header.packet_length = packet.length() as u16;
        let bytes = packet.to_be_bytes();
        proof {
            lemma_headers_bytes(packet.lsa_headers@);
            let p = dd_bytes(spec_dd_to_send(*interface, router_id, options, flags, seqno, packet.lsa_headers@));
            assert forall|i: int| 0 <= i < p.len() && i != 12 && i != 13 implies p[i] == bytes@[i] by {}
            crate::packet::lemma_checksum_sum_same(p, bytes@, p.len() as int);
        }
        packet.header.checksum = crate::packet::ospf_packet_checksum(bytes.as_slice());
        packet
    }
}


/// The wire form of a database description packet is as long as `length` reports: 32 bytes
/// and 20 for each LSA header.
pub proof fn lemma_dd_bytes_len(v: DDView)
    ensures
        dd_bytes(v).len() == v.size(),
{
    lemma_headers_bytes(v.lsa_headers);
}

} // verus!
