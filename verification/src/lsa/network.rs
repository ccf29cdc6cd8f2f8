//! Network-LSAs (type 2): the routers attached to one transit network.
use vstd::prelude::*;

use crate::area::lsdb::LsaIdentifer;
use crate::codec::{
    be32, get32, get_words, lemma_get32_be32, lemma_get_words, lemma_words_bytes_len, push_be32,
    push_words, read_be32, read_words, words_bytes,
};
use crate::lsa::{header_bytes, lemma_parse_header_bytes, parse_header, Header};

verus! {

pub const NETWORK_LSA_TYPE: u8 = 2;

/// A network-LSA: a header, the network mask and the attached routers.
#[derive(Debug)]
pub struct NetworkLSA {
    pub header: Header,
    pub mask: u32,
    pub attached_rtrs: Vec<u32>,
}

/// A network-LSA as a mathematical value.
pub struct NetworkLSAView {
    pub header: Header,
    pub mask: u32,
    pub attached_rtrs: Seq<u32>,
}

impl View for NetworkLSA {
    type V = NetworkLSAView;

    open spec fn view(&self) -> NetworkLSAView {
        NetworkLSAView { header: self.header, mask: self.mask, attached_rtrs: self.attached_rtrs@ }
    }
}

impl NetworkLSAView {
    /// How many bytes the LSA takes on the wire.
    pub open spec fn size(self) -> int {
        24 + 4 * self.attached_rtrs.len() as int
    }
}

/// The wire form of a network-LSA.
pub open spec fn network_bytes(v: NetworkLSAView) -> Seq<u8> {
    header_bytes(v.header) + be32(v.mask) + words_bytes(v.attached_rtrs)
}

/// Whether reading a network-LSA from `s` completes: every byte after the mask belongs to a
/// whole attached-router word. On any other input of 24 bytes or more the read runs past the
/// end of `s`.
pub open spec fn network_readable(s: Seq<u8>) -> bool {
    s.len() < 24 || (s.len() - 24) % 4 == 0
}

/// The network-LSA that `s` holds: a header, the mask, and one attached router for each
/// further four bytes; `None` where `s` is shorter than 24 bytes.
pub open spec fn parse_network(s: Seq<u8>) -> Option<NetworkLSAView> {
    if s.len() < 24 {
        None
    } else {
        Some(
            NetworkLSAView {
                header: parse_header(s).unwrap(),
                mask: get32(s, 20),
                attached_rtrs: get_words(s, 24, ((s.len() - 24) / 4) as nat),
            },
        )
    }
}

/// A network-LSA is read back from its wire form.
pub proof fn lemma_parse_network_bytes(v: NetworkLSAView)
    ensures
        network_bytes(v).len() == v.size(),
        network_readable(network_bytes(v)),
        parse_network(network_bytes(v)) == Some(v),
{
    lemma_words_bytes_len(v.attached_rtrs);
    let s = network_bytes(v);
    lemma_parse_header_bytes(v.header, s.subrange(20, s.len() as int));
    assert(s == header_bytes(v.header) + s.subrange(20, s.len() as int));
    assert(s.subrange(20, 24) == be32(v.mask));
    lemma_get32_be32(s, 20, v.mask);
    assert(s.subrange(24, s.len() as int) == words_bytes(v.attached_rtrs));
    lemma_get_words(s, 24, v.attached_rtrs);
    assert((s.len() - 24) / 4 == v.attached_rtrs.len());
}

impl NetworkLSA {
    pub fn build_identifier(&self) -> (r: LsaIdentifer)
        ensures
            r == (LsaIdentifer {
                lsa_type: NETWORK_LSA_TYPE as u32,
                link_state_id: self.header.link_state_id,
                advertising_router: self.header.advertising_router,
            }),
    {
        LsaIdentifer {
            lsa_type: NETWORK_LSA_TYPE as u32,
            link_state_id: self.header.link_state_id,
            advertising_router: self.header.advertising_router,
        }
    }

    pub fn length(&self) -> (r: usize)
        requires
            self@.size() <= usize::MAX,
        ensures
            r == self@.size(),
            r == network_bytes(self@).len(),
    {
        proof {
            lemma_network_bytes_len(self@);
        }
        Header::length() + 4 + self.attached_rtrs.len() * 4
    }

    pub fn to_be_bytes(&self) -> (r: Vec<u8>)
        ensures
            r@ == network_bytes(self@),
    {
        let mut bytes = self.header.to_be_bytes();
        push_be32(&mut bytes, self.mask);
        push_words(&mut bytes, &self.attached_rtrs);
        bytes
    }

    pub fn try_from_be_bytes(payload: &[u8]) -> (r: Option<Self>)
        requires
            network_readable(payload@),
        ensures
            match r {
                Some(v) => parse_network(payload@) == Some(v@),
                None => parse_network(payload@) is None,
            },
    {
        if payload.len() < Header::length() + 4 {
            return None;
        }
        let header = match Header::try_from_be_bytes(&payload[0..20]) {
            Some(h) => h,
            None => return None,
        };
        proof {
            assert(payload@.subrange(0, 20).subrange(0, 20) == payload@.subrange(0, 20));
            crate::lsa::lemma_parse_header_prefix(payload@.subrange(0, 20), payload@);
        }
        let mask = read_be32(payload, 20);
        let count = (payload.len() - 24) / 4;
        let attached_rtrs = read_words(payload, 24, count);
        Some(Self { header, mask, attached_rtrs })
    }
}

impl Clone for NetworkLSA {
    fn clone(&self) -> (r: Self)
        ensures
            r@ == self@,
    {
        let attached_rtrs = self.attached_rtrs.clone();
        assert(attached_rtrs@ =~= self.attached_rtrs@);
        NetworkLSA { header: self.header, mask: self.mask, attached_rtrs }
    }
}


/// The wire form of a network-LSA is as long as `length` reports: 24 bytes and 4 for each
/// attached router.
pub proof fn lemma_network_bytes_len(v: NetworkLSAView)
    ensures
        network_bytes(v).len() == v.size(),
{
    lemma_words_bytes_len(v.attached_rtrs);
}

} // verus!
