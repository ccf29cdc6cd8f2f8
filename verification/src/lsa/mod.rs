//! Link-state advertisements: the common header, the four kinds of body, and their checksum.
use vstd::prelude::*;

use crate::area::lsdb::{identifier_of, LsaIdentifer};
use crate::lsa::as_external::{
    as_external_bytes, as_external_readable, lemma_parse_as_external_bytes, parse_as_external,
    ASExternalLSA, ASExternalLSAView, AS_EXTERNAL_LSA_TYPE,
};
use crate::lsa::network::{
    lemma_parse_network_bytes, network_bytes, network_readable, parse_network, NetworkLSA,
    NetworkLSAView, NETWORK_LSA_TYPE,
};
use crate::lsa::router::{
    lemma_parse_router_bytes, parse_router, router_bytes, RouterLSA, RouterLSAView,
    ROUTER_LSA_TYPE,
};
use crate::lsa::summary::{
    lemma_parse_summary_bytes, parse_summary, summary_bytes, SummaryLSA, SummaryLSAView,
    SUMMARY_LSA_TYPE_3, SUMMARY_LSA_TYPE_4,
};
use crate::codec::{be16, be32, get16, get32, lemma_get16_be16, lemma_get32_be32, push_be16, push_be32, read_be16, read_be32};

pub mod as_external;
pub mod network;
pub mod router;
pub mod summary;

verus! {

pub const LS_REFRESH_TIME: u32 = 1800;
pub const LS_MIN_INTERVAL: u32 = 5;
pub const LS_MIN_ARRIVAL: u32 = 1;
pub const MAX_AGE: u32 = 3600;
pub const CHECK_AGE: u32 = 300;
pub const MAX_AGE_DIFF: u32 = 900;
pub const LS_INIFINITY: u32 = 0xffffff;
/// The default destination 0.0.0.0, as a host-order address.
pub const DEFAULT_DESTINATION: u32 = 0;
/// 0x80000001 read as a signed 32-bit number.
pub const INITIAL_SEQUENCE_NUMBER: i32 = -0x7fffffff;
pub const MAX_SEQUENCE_NUMBER: i32 = 0x7fffffff;

pub const OPTION_DN: u8 = 0b1000_0000;
pub const OPTION_OPAQUE: u8 = 0b0100_0000;
pub const OPTION_DEMAND_CIRCUIT: u8 = 0b0010_0000;
pub const OPTION_LLS_DATA_BLOCK: u8 = 0b0001_0000;
pub const OPTION_NSSA: u8 = 0b0000_1000;
pub const OPTION_MUTLICAST: u8 = 0b0000_0100;
pub const OPTION_EXTERNAL: u8 = 0b0000_0010;
pub const OPTION_MT: u8 = 0b0000_0001;

/// The 20-byte header that every LSA starts with.
#[derive(Clone, Copy, PartialEq, Eq, Debug, Structural)]
pub struct Header {
    pub age: u16,
    pub options: u8,
    pub lsa_type: u8,
    pub link_state_id: u32,
    pub advertising_router: u32,
    pub sequence_number: u32,
    pub checksum: u16,
    pub length: u16,
}

/// The wire form of an LSA header.
pub open spec fn header_bytes(h: Header) -> Seq<u8> {
    be16(h.age) + seq![h.options, h.lsa_type] + be32(h.link_state_id) + be32(
        h.advertising_router,
    ) + be32(h.sequence_number) + be16(h.checksum) + be16(h.length)
}

/// The header that the first 20 bytes of `s` hold, if `s` is that long.
pub open spec fn parse_header(s: Seq<u8>) -> Option<Header> {
    if s.len() < 20 {
        None
    } else {
        Some(
            Header {
                age: get16(s, 0),
                options: s[2],
                lsa_type: s[3],
                link_state_id: get32(s, 4),
                advertising_router: get32(s, 8),
                sequence_number: get32(s, 12),
                checksum: get16(s, 16),
                length: get16(s, 18),
            },
        )
    }
}

/// Reading a header back from its wire form, followed by anything, gives the header.
pub proof fn lemma_parse_header_bytes(h: Header, rest: Seq<u8>)
    ensures
        header_bytes(h).len() == 20,
        parse_header(header_bytes(h) + rest) == Some(h),
{
    let s = header_bytes(h) + rest;
    assert(s.subrange(0, 2) == be16(h.age));
    assert(s.subrange(4, 8) == be32(h.link_state_id));
    assert(s.subrange(8, 12) == be32(h.advertising_router));
    assert(s.subrange(12, 16) == be32(h.sequence_number));
    assert(s.subrange(16, 18) == be16(h.checksum));
    assert(s.subrange(18, 20) == be16(h.length));
    lemma_get16_be16(s, 0, h.age);
    lemma_get32_be32(s, 4, h.link_state_id);
    lemma_get32_be32(s, 8, h.advertising_router);
    lemma_get32_be32(s, 12, h.sequence_number);
    lemma_get16_be16(s, 16, h.checksum);
    lemma_get16_be16(s, 18, h.length);
}

/// A header depends only on the first 20 bytes it is read from.
pub proof fn lemma_parse_header_prefix(s: Seq<u8>, t: Seq<u8>)
    requires
        s.len() >= 20,
        t.len() >= 20,
        s.subrange(0, 20) == t.subrange(0, 20),
    ensures
        parse_header(s) == parse_header(t),
{
    assert forall|i: int| 0 <= i < 20 implies s[i] == t[i] by {
        assert(s[i] == s.subrange(0, 20)[i]);
        assert(t[i] == t.subrange(0, 20)[i]);
    }
}

/// The wire form of a list of LSA headers, one after another.
pub open spec fn headers_bytes(hs: Seq<Header>) -> Seq<u8>
    decreases hs.len(),
{
    if hs.len() == 0 {
        Seq::empty()
    } else {
        headers_bytes(hs.drop_last()) + header_bytes(hs.last())
    }
}

pub proof fn lemma_headers_bytes(hs: Seq<Header>)
    ensures
        headers_bytes(hs).len() == 20 * hs.len(),
        forall|k: int|
            0 <= k < hs.len() ==> headers_bytes(hs).subrange(20 * k, 20 * k + 20) == header_bytes(
                #[trigger] hs[k],
            ),
    decreases hs.len(),
{
    if hs.len() > 0 {
        let p = hs.drop_last();
        lemma_headers_bytes(p);
        lemma_parse_header_bytes(hs.last(), Seq::empty());
        assert forall|k: int| 0 <= k < hs.len() implies headers_bytes(hs).subrange(
            20 * k,
            20 * k + 20,
        ) == header_bytes(#[trigger] hs[k]) by {
            if k < p.len() {
                assert(p[k] == hs[k]);
                assert(headers_bytes(hs).subrange(20 * k, 20 * k + 20) == headers_bytes(
                    p,
                ).subrange(20 * k, 20 * k + 20));
            }
        }
    }
}

/// Appends the wire form of every header in `hs`.
pub fn push_headers(bytes: &mut Vec<u8>, hs: &Vec<Header>)
    ensures
        final(bytes)@ == old(bytes)@ + headers_bytes(hs@),
{
    let ghost start = bytes@;
    let mut i: usize = 0;
    while i < hs.len()
        invariant
            i <= hs.len(),
            bytes@ == start + headers_bytes(hs@.take(i as int)),
        decreases hs.len() - i,
    {
        let hb = hs[i].to_be_bytes();
        crate::codec::push_all(bytes, &hb);
        i = i + 1;
        assert(hs@.take(i as int).drop_last() == hs@.take(i - 1));
    }
    assert(hs@.take(i as int) == hs@);
}

impl Header {
    pub fn length() -> (r: usize)
        ensures
            r == 20,
    {
        20
    }

    pub fn try_from_be_bytes(bytes: &[u8]) -> (r: Option<Self>)
        ensures
            r == parse_header(bytes@),
    {
        if bytes.len() < Self::length() {
            return None;
        }
        Some(
            Self {
                age: read_be16(bytes, 0),
                options: bytes[2],
                lsa_type: bytes[3],
                link_state_id: read_be32(bytes, 4),
                advertising_router: read_be32(bytes, 8),
                sequence_number: read_be32(bytes, 12),
                checksum: read_be16(bytes, 16),
                length: read_be16(bytes, 18),
            },
        )
    }

    pub fn to_be_bytes(&self) -> (r: Vec<u8>)
        ensures
            r@ == header_bytes(*self),
    {
        let mut bytes = Vec::new();
        push_be16(&mut bytes, self.age);
        bytes.push(self.options);
        bytes.push(self.lsa_type);
        push_be32(&mut bytes, self.link_state_id);
        push_be32(&mut bytes, self.advertising_router);
        push_be32(&mut bytes, self.sequence_number);
        push_be16(&mut bytes, self.checksum);
        push_be16(&mut bytes, self.length);
        assert(bytes@ == header_bytes(*self));
        bytes
    }
}

/// An LSA of one of the four kinds.
#[derive(Debug)]
pub enum Lsa {
    Router(RouterLSA),
    Network(NetworkLSA),
    Summary(SummaryLSA),
    ASExternal(ASExternalLSA),
}

/// An LSA as a mathematical value.
pub enum LsaView {
    Router(RouterLSAView),
    Network(NetworkLSAView),
    Summary(SummaryLSAView),
    ASExternal(ASExternalLSAView),
}

impl View for Lsa {
    type V = LsaView;

    open spec fn view(&self) -> LsaView {
        match self {
            Lsa::Router(l) => LsaView::Router(l@),
            Lsa::Network(l) => LsaView::Network(l@),
            Lsa::Summary(l) => LsaView::Summary(l@),
            Lsa::ASExternal(l) => LsaView::ASExternal(l@),
        }
    }
}

impl LsaView {
    /// The header of the LSA.
    pub open spec fn header(self) -> Header {
        match self {
            LsaView::Router(l) => l.header,
            LsaView::Network(l) => l.header,
            LsaView::Summary(l) => l.header,
            LsaView::ASExternal(l) => l.header,
        }
    }

    /// What `length` reports for the LSA.
    pub open spec fn size(self) -> int {
        match self {
            LsaView::Router(l) => l.size(),
            LsaView::Network(l) => l.size(),
            LsaView::Summary(l) => l.size(),
            LsaView::ASExternal(l) => l.size(),
        }
    }

    /// The header's type names the kind of body, and the body is one that its wire form
    /// gives back.
    pub open spec fn well_formed(self) -> bool {
        match self {
            LsaView::Router(l) => l.header.lsa_type == ROUTER_LSA_TYPE && l.counted(),
            LsaView::Network(l) => l.header.lsa_type == NETWORK_LSA_TYPE,
            LsaView::Summary(l) => (l.header.lsa_type == SUMMARY_LSA_TYPE_3
                || l.header.lsa_type == SUMMARY_LSA_TYPE_4) && l.metric.len() == 3,
            LsaView::ASExternal(l) => l.header.lsa_type == AS_EXTERNAL_LSA_TYPE && l.well_formed(),
        }
    }
}

/// The wire form of an LSA.
pub open spec fn lsa_bytes(v: LsaView) -> Seq<u8> {
    match v {
        LsaView::Router(l) => router_bytes(l),
        LsaView::Network(l) => network_bytes(l),
        LsaView::Summary(l) => summary_bytes(l),
        LsaView::ASExternal(l) => as_external_bytes(l),
    }
}

/// Whether reading an LSA from `s` completes: the readers of network- and AS-external-LSAs
/// run past the end of some inputs.
pub open spec fn lsa_readable(s: Seq<u8>) -> bool {
    s.len() < 20 || (s[3] == NETWORK_LSA_TYPE ==> network_readable(s)) && (s[3]
        == AS_EXTERNAL_LSA_TYPE ==> as_external_readable(s))
}

/// The LSA that `s` holds, read by the kind that its header's type names; `None` where `s`
/// is shorter than a header, the type is unknown, or the body cannot be read.
pub open spec fn parse_lsa(s: Seq<u8>) -> Option<LsaView> {
    if s.len() < 20 {
        None
    } else if s[3] == ROUTER_LSA_TYPE {
        match parse_router(s) {
            Some(l) => Some(LsaView::Router(l)),
            None => None,
        }
    } else if s[3] == NETWORK_LSA_TYPE {
        match parse_network(s) {
            Some(l) => Some(LsaView::Network(l)),
            None => None,
        }
    } else if s[3] == SUMMARY_LSA_TYPE_3 || s[3] == SUMMARY_LSA_TYPE_4 {
        match parse_summary(s) {
            Some(l) => Some(LsaView::Summary(l)),
            None => None,
        }
    } else if s[3] == AS_EXTERNAL_LSA_TYPE {
        match parse_as_external(s) {
            Some(l) => Some(LsaView::ASExternal(l)),
            None => None,
        }
    } else {
        None
    }
}

/// A well-formed LSA is read back from its wire form.
pub proof fn lemma_parse_lsa_bytes(v: LsaView)
    requires
        v.well_formed(),
    ensures
        lsa_readable(lsa_bytes(v)),
        parse_lsa(lsa_bytes(v)) == Some(v),
{
    let s = lsa_bytes(v);
    match v {
        LsaView::Router(l) => {
            lemma_parse_router_bytes(l, Seq::empty());
            assert(s + Seq::<u8>::empty() == s);
        },
        LsaView::Network(l) => {
            lemma_parse_network_bytes(l);
        },
        LsaView::Summary(l) => {
            lemma_parse_summary_bytes(l);
        },
        LsaView::ASExternal(l) => {
            lemma_parse_as_external_bytes(l);
        },
    }
    lemma_parse_header_bytes(v.header(), s.subrange(20, s.len() as int));
    assert(s == header_bytes(v.header()) + s.subrange(20, s.len() as int));
    assert(s[3] == v.header().lsa_type);
}

impl Lsa {
    pub fn copy_header(&self) -> (r: Header)
        ensures
            r == self@.header(),
    {
        match self {
            Lsa::Router(lsa) => lsa.header,
            Lsa::Network(lsa) => lsa.header,
            Lsa::Summary(lsa) => lsa.header,
            Lsa::ASExternal(lsa) => lsa.header,
        }
    }

    pub fn build_identifier(&self) -> (r: LsaIdentifer)
        ensures
            r == (match self@ {
                LsaView::Router(l) => LsaIdentifer {
                    lsa_type: ROUTER_LSA_TYPE as u32,
                    link_state_id: l.header.link_state_id,
                    advertising_router: l.header.advertising_router,
                },
                LsaView::Network(l) => LsaIdentifer {
                    lsa_type: NETWORK_LSA_TYPE as u32,
                    link_state_id: l.header.link_state_id,
                    advertising_router: l.header.advertising_router,
                },
                _ => identifier_of(self@.header()),
            }),
    {
        match self {
            Lsa::Router(lsa) => lsa.build_identifier(),
            Lsa::Network(lsa) => lsa.build_identifier(),
            Lsa::Summary(lsa) => lsa.build_identifier(),
            Lsa::ASExternal(lsa) => lsa.build_identifier(),
        }
    }

    pub fn try_from_be_bytes(bytes: &[u8]) -> (r: Option<Self>)
        requires
            lsa_readable(bytes@),
        ensures
            match r {
                Some(l) => parse_lsa(bytes@) == Some(l@),
                None => parse_lsa(bytes@) is None,
            },
    {
        if bytes.len() < Header::length() {
            return None;
        }
        let header = match Header::try_from_be_bytes(&bytes[0..20]) {
            Some(h) => h,
            None => return None,
        };
        assert(bytes@.subrange(0, 20)[3] == bytes@[3]);
        if header.lsa_type == ROUTER_LSA_TYPE {
            match RouterLSA::try_from_be_bytes(bytes) {
                Some(l) => Some(Lsa::Router(l)),
                None => None,
            }
        } else if header.lsa_type == NETWORK_LSA_TYPE {
            match NetworkLSA::try_from_be_bytes(bytes) {
                Some(l) => Some(Lsa::Network(l)),
                None => None,
            }
        } else if header.lsa_type == SUMMARY_LSA_TYPE_3 || header.lsa_type == SUMMARY_LSA_TYPE_4 {
            match SummaryLSA::try_from_be_bytes(bytes) {
                Some(l) => Some(Lsa::Summary(l)),
                None => None,
            }
        } else if header.lsa_type == AS_EXTERNAL_LSA_TYPE {
            match ASExternalLSA::try_from_be_bytes(bytes) {
                Some(l) => Some(Lsa::ASExternal(l)),
                None => None,
            }
        } else {
            None
        }
    }

    pub fn to_be_bytes(&self) -> (r: Vec<u8>)
        ensures
            r@ == lsa_bytes(self@),
    {
        match self {
            Lsa::Router(lsa) => lsa.to_be_bytes(),
            Lsa::Network(lsa) => lsa.to_be_bytes(),
            Lsa::Summary(lsa) => lsa.to_be_bytes(),
            Lsa::ASExternal(lsa) => lsa.to_be_bytes(),
        }
    }

    pub fn length(&self) -> (r: usize)
        requires
            self@.size() <= usize::MAX,
        ensures
            r == self@.size(),
    {
        match self {
            Lsa::Router(lsa) => lsa.length(),
            Lsa::Network(lsa) => lsa.length(),
            Lsa::Summary(lsa) => lsa.length(),
            Lsa::ASExternal(lsa) => lsa.length(),
        }
    }
}

/// The two running sums of the Fletcher-16 checksum over `data`, both kept modulo 255.
pub open spec fn fletcher16_sums(data: Seq<u8>) -> (int, int)
    decreases data.len(),
{
    if data.len() == 0 {
        (0, 0)
    } else {
        let (s1, s2) = fletcher16_sums(data.drop_last());
        let t1 = (s1 + data.last()) % 255;
        (t1, (s2 + t1) % 255)
    }
}

/// The Fletcher-16 checksum of `data`: the second sum in the high byte, the first in the low.
pub open spec fn fletcher16(data: Seq<u8>) -> u16 {
    (fletcher16_sums(data).1 * 256 + fletcher16_sums(data).0) as u16
}

pub proof fn lemma_fletcher16_sums_range(data: Seq<u8>)
    ensures
        0 <= fletcher16_sums(data).0 < 255,
        0 <= fletcher16_sums(data).1 < 255,
    decreases data.len(),
{
    if data.len() > 0 {
        lemma_fletcher16_sums_range(data.drop_last());
    }
}

pub fn calculate_fletcher16(data: &[u8]) -> (r: u16)
    ensures
        r == fletcher16(data@),
{
    let mut sum1: u16 = 0;
    let mut sum2: u16 = 0;
    let mut i: usize = 0;
    while i < data.len()
        invariant
            i <= data@.len(),
            (sum1 as int, sum2 as int) == fletcher16_sums(data@.take(i as int)),
            sum1 < 255,
            sum2 < 255,
        decreases data@.len() - i,
    {
        let byte = data[i];
        sum1 = (sum1 + byte as u16) % 255;
        sum2 = (sum2 + sum1) % 255;
        i = i + 1;
        assert(data@.take(i as int).drop_last() == data@.take(i - 1));
    }
    assert(data@.take(i as int) == data@);
    assert((sum2 << 8) | sum1 == sum2 * 256 + sum1) by (bit_vector)
        requires
            sum1 < 255,
            sum2 < 255,
    ;
    (sum2 << 8) | sum1
}

/// Zeroes the checksum field (bytes 16 and 17) of an LSA's wire form and returns the
/// Fletcher-16 checksum of the result.
pub fn calculate_lsa_checksum(lsa: &mut [u8]) -> (r: u16)
    requires
        old(lsa)@.len() >= 18,
    ensures
        final(lsa)@ == old(lsa)@.update(16, 0).update(17, 0),
        r == fletcher16(final(lsa)@),
{
    let checksum_offset: usize = 16;
    lsa[checksum_offset] = 0;
    lsa[checksum_offset + 1] = 0;
    let checksum = calculate_fletcher16(lsa);
    checksum
}

impl LsaView {
    /// The same LSA with its age set to `age`.
    pub open spec fn with_age(self, age: u16) -> LsaView {
        match self {
            LsaView::Router(l) => LsaView::Router(
                RouterLSAView { header: Header { age, ..l.header }, ..l },
            ),
            LsaView::Network(l) => LsaView::Network(
                NetworkLSAView { header: Header { age, ..l.header }, ..l },
            ),
            LsaView::Summary(l) => LsaView::Summary(
                SummaryLSAView { header: Header { age, ..l.header }, ..l },
            ),
            LsaView::ASExternal(l) => LsaView::ASExternal(
                ASExternalLSAView { header: Header { age, ..l.header }, ..l },
            ),
        }
    }
}

impl Lsa {
    /// Sets the age in the LSA's header.
    pub fn set_age(&mut self, age: u16)
        ensures
            final(self)@ == old(self)@.with_age(age),
    {
        match self {
            Lsa::Router(l) => l.header.age = age,
            Lsa::Network(l) => l.header.age = age,
            Lsa::Summary(l) => l.header.age = age,
            Lsa::ASExternal(l) => l.header.age = age,
        }
    }
}

impl Clone for Lsa {
    fn clone(&self) -> (r: Self)
        ensures
            r@ == self@,
    {
        match self {
            Lsa::Router(l) => Lsa::Router(l.clone()),
            Lsa::Network(l) => Lsa::Network(l.clone()),
            Lsa::Summary(l) => Lsa::Summary(l.clone()),
            Lsa::ASExternal(l) => Lsa::ASExternal(l.clone()),
        }
    }
}

} // verus!
