//! Summary-LSAs (types 3 and 4): routes to networks and to AS boundary routers of other areas.
use vstd::prelude::*;

use crate::area::lsdb::LsaIdentifer;
use crate::codec::{
    get_words, lemma_get_words, lemma_words_bytes_len, push_words, read_words, words_bytes,
};
use crate::lsa::{header_bytes, lemma_parse_header_bytes, parse_header, Header};

verus! {

pub const SUMMARY_LSA_TYPE_3: u8 = 3;
pub const SUMMARY_LSA_TYPE_4: u8 = 4;

/// A summary-LSA: a header, a padding byte, a 24-bit metric and TOS entries.
#[derive(Debug)]
pub struct SummaryLSA {
    pub header: Header,
    pub zero_padding: u8,
    pub metric: [u8; 3],
    pub tos: Vec<u32>,
}

/// A summary-LSA as a mathematical value.
pub struct SummaryLSAView {
    pub header: Header,
    pub zero_padding: u8,
    pub metric: Seq<u8>,
    pub tos: Seq<u32>,
}

impl View for SummaryLSA {
    type V = SummaryLSAView;

    open spec fn view(&self) -> SummaryLSAView {
        SummaryLSAView {
            header: self.header,
            zero_padding: self.zero_padding,
            metric: self.metric@,
            tos: self.tos@,
        }
    }
}

impl SummaryLSAView {
    /// How many bytes the LSA takes on the wire.
    pub open spec fn size(self) -> int {
        24 + 4 * self.tos.len() as int
    }
}

/// The wire form of a summary-LSA.
pub open spec fn summary_bytes(v: SummaryLSAView) -> Seq<u8> {
    header_bytes(v.header) + seq![v.zero_padding] + v.metric + words_bytes(v.tos)
}

/// The summary-LSA that `s` holds: a header, the padding byte, the metric, and one TOS entry
/// for each whole four bytes after them (a shorter tail is left unread); `None` where `s` is
/// shorter than 24 bytes.
pub open spec fn parse_summary(s: Seq<u8>) -> Option<SummaryLSAView> {
    if s.len() < 24 {
        None
    } else {
        Some(
            SummaryLSAView {
                header: parse_header(s).unwrap(),
                zero_padding: s[20],
                metric: seq![s[21], s[22], s[23]],
                tos: get_words(s, 24, ((s.len() - 24) / 4) as nat),
            },
        )
    }
}

/// A summary-LSA with a three-byte metric is read back from its wire form.
pub proof fn lemma_parse_summary_bytes(v: SummaryLSAView)
    requires
        v.metric.len() == 3,
    ensures
        summary_bytes(v).len() == v.size(),
        parse_summary(summary_bytes(v)) == Some(v),
{
    lemma_words_bytes_len(v.tos);
    let s = summary_bytes(v);
    lemma_parse_header_bytes(v.header, s.subrange(20, s.len() as int));
    assert(s == header_bytes(v.header) + s.subrange(20, s.len() as int));
    assert(seq![s[21], s[22], s[23]] == v.metric);
    assert(s.subrange(24, s.len() as int) == words_bytes(v.tos));
    lemma_get_words(s, 24, v.tos);
    assert((s.len() - 24) / 4 == v.tos.len());
}

/// The TOS type of a TOS entry held in host order: its top byte.
pub open spec fn spec_tos_type(tos: u32) -> u8 {
    (tos / 0x100_0000) as u8
}

impl SummaryLSA {
    pub fn build_identifier(&self) -> (r: LsaIdentifer)
        ensures
            r == crate::area::lsdb::identifier_of(self.header),
    {
        LsaIdentifer {
            lsa_type: self.header.lsa_type as u32,
            link_state_id: self.header.link_state_id,
            advertising_router: self.header.advertising_router,
        }
    }

    /// The TOS type of a TOS entry held in host order.
    pub fn tos_type(tos: u32) -> (r: u8)
        ensures
            r == spec_tos_type(tos),
    {
        assert((tos >> 24) == tos / 0x100_0000) by (bit_vector);
        (tos >> 24) as u8
    }

    /// The metric of a TOS entry held in host order: its low 24 bits.
    pub fn tos_metric(tos: u32) -> (r: u32)
        ensures
            r == tos % 0x100_0000,
    {
        assert((tos & 0x00ffffff) == tos % 0x100_0000) by (bit_vector);
        (tos & 0x00ffffff) as u32
    }

    pub fn length(&self) -> (r: usize)
        requires
            self@.size() <= usize::MAX,
        ensures
            r == self@.size(),
    {
        Header::length() + 4 + self.tos.len() * 4
    }

    pub fn to_be_bytes(&self) -> (r: Vec<u8>)
        ensures
            r@ == summary_bytes(self@),
    {
        let mut bytes = self.header.to_be_bytes();
        bytes.push(self.zero_padding);
        bytes.push(self.metric[0]);
        bytes.push(self.metric[1]);
        bytes.push(self.metric[2]);
        push_words(&mut bytes, &self.tos);
        assert(self.metric@ == seq![self.metric@[0], self.metric@[1], self.metric@[2]]);
        bytes
    }

    pub fn try_from_be_bytes(payload: &[u8]) -> (r: Option<Self>)
        ensures
            match r {
                Some(v) => parse_summary(payload@) == Some(v@),
                None => parse_summary(payload@) is None,
            },
    {
        if payload.len() < Header::length() + 4 {
            return None;
        }
        let header = match Header::try_from_be_bytes(&payload[0..20]) {
            Some(h) => h,
            None => return None,
        };
        proof {
            assert(payload@.subrange(0, 20).subrange(0, 20) == payload@.subrange(0, 20));
            crate::lsa::lemma_parse_header_prefix(payload@.subrange(0, 20), payload@);
        }
        let zero_padding = payload[20];
        let metric = [payload[21], payload[22], payload[23]];
        let count = (payload.len() - 24) / 4;
        let tos = read_words(payload, 24, count);
        assert(metric@ == seq![payload@[21], payload@[22], payload@[23]]);
        Some(Self { header, zero_padding, metric, tos })
    }
}

impl Clone for SummaryLSA {
    fn clone(&self) -> (r: Self)
        ensures
            r@ == self@,
    {
        let tos = self.tos.clone();
        assert(tos@ =~= self.tos@);
        SummaryLSA {
            header: self.header,
            zero_padding: self.zero_padding,
            metric: self.metric,
            tos,
        }
    }
}

} // verus!
