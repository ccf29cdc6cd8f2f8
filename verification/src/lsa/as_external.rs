//! AS-external-LSAs (type 5): routes to destinations outside the autonomous system.
use vstd::prelude::*;

use crate::area::lsdb::LsaIdentifer;
use crate::codec::{be32, get32, lemma_get32_be32, push_be32, read_be32};
use crate::lsa::{header_bytes, lemma_parse_header_bytes, parse_header, Header};

verus! {

pub const AS_EXTERNAL_LSA_TYPE: u8 = 5;

/// One TOS entry of an AS-external-LSA.
#[derive(Clone, Copy, Debug)]
pub struct TosDes {
    pub tos_ebits: u8,
    pub tos_metric: [u8; 3],
    pub tos_forwarding_address: u32,
    pub tos_external_route_tag: u32,
}

/// A TOS entry as a mathematical value.
pub struct TosDesView {
    pub tos_ebits: u8,
    pub tos_metric: Seq<u8>,
    pub tos_forwarding_address: u32,
    pub tos_external_route_tag: u32,
}

impl View for TosDes {
    type V = TosDesView;

    open spec fn view(&self) -> TosDesView {
        TosDesView {
            tos_ebits: self.tos_ebits,
            tos_metric: self.tos_metric@,
            tos_forwarding_address: self.tos_forwarding_address,
            tos_external_route_tag: self.tos_external_route_tag,
        }
    }
}

/// The wire form of a TOS entry.
pub open spec fn tos_bytes(t: TosDesView) -> Seq<u8> {
    seq![t.tos_ebits] + t.tos_metric + be32(t.tos_forwarding_address) + be32(
        t.tos_external_route_tag,
    )
}

/// The TOS entry that the first 12 bytes of `s` hold, if `s` is that long.
pub open spec fn parse_tos(s: Seq<u8>) -> Option<TosDesView> {
    if s.len() < 12 {
        None
    } else {
        Some(
            TosDesView {
                tos_ebits: s[0],
                tos_metric: seq![s[1], s[2], s[3]],
                tos_forwarding_address: get32(s, 4),
                tos_external_route_tag: get32(s, 8),
            },
        )
    }
}

/// A TOS entry with a three-byte metric is read back from its wire form, whatever follows it.
pub proof fn lemma_parse_tos_bytes(t: TosDesView, rest: Seq<u8>)
    requires
        t.tos_metric.len() == 3,
    ensures
        tos_bytes(t).len() == 12,
        parse_tos(tos_bytes(t) + rest) == Some(t),
{
    let s = tos_bytes(t) + rest;
    assert(seq![s[1], s[2], s[3]] == t.tos_metric);
    assert(s.subrange(4, 8) == be32(t.tos_forwarding_address));
    assert(s.subrange(8, 12) == be32(t.tos_external_route_tag));
    lemma_get32_be32(s, 4, t.tos_forwarding_address);
    lemma_get32_be32(s, 8, t.tos_external_route_tag);
}

impl TosDes {
    pub fn to_be_bytes(&self) -> (r: Vec<u8>)
        ensures
            r@ == tos_bytes(self@),
    {
        let mut bytes = Vec::new();
        bytes.push(self.tos_ebits);
        bytes.push(self.tos_metric[0]);
        bytes.push(self.tos_metric[1]);
        bytes.push(self.tos_metric[2]);
        push_be32(&mut bytes, self.tos_forwarding_address);
        push_be32(&mut bytes, self.tos_external_route_tag);
        assert(self.tos_metric@ == seq![
            self.tos_metric@[0],
            self.tos_metric@[1],
            self.tos_metric@[2],
        ]);
        assert(bytes@ == tos_bytes(self@));
        bytes
    }

    pub fn length(&self) -> (r: usize)
        ensures
            r == 12,
    {
        12
    }

    pub fn try_from_be_bytes(payload: &[u8]) -> (r: Option<Self>)
        ensures
            match r {
                Some(t) => parse_tos(payload@) == Some(t@),
                None => parse_tos(payload@) is None,
            },
    {
        if payload.len() < 12 {
            return None;
        }
        let t = Self {
            tos_ebits: payload[0],
            tos_metric: [payload[1], payload[2], payload[3]],
            tos_forwarding_address: read_be32(payload, 4),
            tos_external_route_tag: read_be32(payload, 8),
        };
        assert(t.tos_metric@ == seq![payload@[1], payload@[2], payload@[3]]);
        Some(t)
    }
}

/// The wire form of a list of TOS entries, one after another.
pub open spec fn tos_list_bytes(ts: Seq<TosDesView>) -> Seq<u8>
    decreases ts.len(),
{
    if ts.len() == 0 {
        Seq::empty()
    } else {
        tos_list_bytes(ts.drop_last()) + tos_bytes(ts.last())
    }
}

/// The `n` TOS entries that start at `i` in `s`.
pub open spec fn get_tos_list(s: Seq<u8>, i: int, n: nat) -> Seq<TosDesView> {
    Seq::new(n, |k: int| parse_tos(s.subrange(i + 12 * k, i + 12 * k + 12)).unwrap())
}

pub proof fn lemma_tos_list_bytes(ts: Seq<TosDesView>)
    requires
        forall|k: int| 0 <= k < ts.len() ==> (#[trigger] ts[k]).tos_metric.len() == 3,
    ensures
        tos_list_bytes(ts).len() == 12 * ts.len(),
        forall|k: int|
            0 <= k < ts.len() ==> tos_list_bytes(ts).subrange(12 * k, 12 * k + 12) == tos_bytes(
                #[trigger] ts[k],
            ),
    decreases ts.len(),
{
    if ts.len() > 0 {
        let p = ts.drop_last();
        assert forall|k: int| 0 <= k < p.len() implies (#[trigger] p[k]).tos_metric.len() == 3 by {
            assert(p[k] == ts[k]);
        }
        lemma_tos_list_bytes(p);
        lemma_parse_tos_bytes(ts.last(), Seq::empty());
        assert forall|k: int| 0 <= k < ts.len() implies tos_list_bytes(ts).subrange(
            12 * k,
            12 * k + 12,
        ) == tos_bytes(#[trigger] ts[k]) by {
            if k < p.len() {
                assert(p[k] == ts[k]);
                assert(tos_list_bytes(ts).subrange(12 * k, 12 * k + 12) == tos_list_bytes(
                    p,
                ).subrange(12 * k, 12 * k + 12));
            }
        }
    }
}

/// An AS-external-LSA: a header, the network mask, the E bit, a metric, a forwarding address,
/// a route tag and TOS entries.
#[derive(Debug)]
pub struct ASExternalLSA {
    pub header: Header,
    pub network_mask: u32,
    pub e_bits: u8,
    pub metric: [u8; 3],
    pub forwarding_address: u32,
    pub external_route_tag: u32,
    pub tos: Vec<TosDes>,
}

/// An AS-external-LSA as a mathematical value.
pub struct ASExternalLSAView {
    pub header: Header,
    pub network_mask: u32,
    pub e_bits: u8,
    pub metric: Seq<u8>,
    pub forwarding_address: u32,
    pub external_route_tag: u32,
    pub tos: Seq<TosDesView>,
}

impl View for ASExternalLSA {
    type V = ASExternalLSAView;

    open spec fn view(&self) -> ASExternalLSAView {
        ASExternalLSAView {
            header: self.header,
            network_mask: self.network_mask,
            e_bits: self.e_bits,
            metric: self.metric@,
            forwarding_address: self.forwarding_address,
            external_route_tag: self.external_route_tag,
            tos: self.tos@.map_values(|t: TosDes| t@),
        }
    }
}

impl ASExternalLSAView {
    /// What `length` reports: 33 bytes and 12 for each TOS entry. The wire form is three
    /// bytes longer (see `lemma_parse_as_external_bytes`).
    pub open spec fn size(self) -> int {
        33 + 12 * self.tos.len() as int
    }

    /// Every metric holds three bytes.
    pub open spec fn well_formed(self) -> bool {
        &&& self.metric.len() == 3
        &&& forall|k: int| 0 <= k < self.tos.len() ==> (#[trigger] self.tos[k]).tos_metric.len() == 3
    }
}

/// The wire form of an AS-external-LSA.
pub open spec fn as_external_bytes(v: ASExternalLSAView) -> Seq<u8> {
    header_bytes(v.header) + be32(v.network_mask) + seq![v.e_bits] + v.metric + be32(
        v.forwarding_address,
    ) + be32(v.external_route_tag) + tos_list_bytes(v.tos)
}

/// Whether reading an AS-external-LSA from `s` completes. On inputs of 33 to 35 bytes the
/// read of the route tag runs past the end of `s`.
pub open spec fn as_external_readable(s: Seq<u8>) -> bool {
    s.len() < 33 || s.len() >= 36
}

/// The AS-external-LSA that `s` holds: the fixed 36 bytes, then one TOS entry for each whole
/// twelve bytes after them (a shorter tail is left unread); `None` where `s` is shorter than
/// 33 bytes.
pub open spec fn parse_as_external(s: Seq<u8>) -> Option<ASExternalLSAView> {
    if s.len() < 33 {
        None
    } else {
        Some(
            ASExternalLSAView {
                header: parse_header(s).unwrap(),
                network_mask: get32(s, 20),
                e_bits: s[24],
                metric: seq![s[25], s[26], s[27]],
                forwarding_address: get32(s, 28),
                external_route_tag: get32(s, 32),
                tos: get_tos_list(s, 36, ((s.len() - 36) / 12) as nat),
            },
        )
    }
}

/// TOS entries written at `i` are read back at `i`.
pub proof fn lemma_get_tos_list(s: Seq<u8>, i: int, ts: Seq<TosDesView>)
    requires
        0 <= i,
        forall|k: int| 0 <= k < ts.len() ==> (#[trigger] ts[k]).tos_metric.len() == 3,
        i + 12 * ts.len() <= s.len(),
        s.subrange(i, i + 12 * ts.len()) == tos_list_bytes(ts),
    ensures
        get_tos_list(s, i, ts.len()) == ts,
{
    lemma_tos_list_bytes(ts);
    let tb = tos_list_bytes(ts);
    assert forall|k: int| 0 <= k < ts.len() implies #[trigger] get_tos_list(s, i, ts.len())[k]
        == ts[k] by {
        assert(s.subrange(i + 12 * k, i + 12 * k + 12) == tb.subrange(12 * k, 12 * k + 12));
        lemma_parse_tos_bytes(ts[k], Seq::empty());
        assert(tos_bytes(ts[k]) + Seq::<u8>::empty() == tos_bytes(ts[k]));
    }
    assert(get_tos_list(s, i, ts.len()) =~= ts);
}

/// The fixed part of a well-formed AS-external-LSA is read back from its wire form.
proof fn lemma_as_external_fixed(v: ASExternalLSAView, s: Seq<u8>)
    requires
        v.well_formed(),
        s == as_external_bytes(v),
    ensures
        s.len() >= 36,
        parse_header(s) == Some(v.header),
        get32(s, 20) == v.network_mask,
        s[24] == v.e_bits,
        seq![s[25], s[26], s[27]] == v.metric,
        get32(s, 28) == v.forwarding_address,
        get32(s, 32) == v.external_route_tag,
        s.subrange(36, s.len() as int) == tos_list_bytes(v.tos),
{
    lemma_parse_header_bytes(v.header, s.subrange(20, s.len() as int));
    assert(s == header_bytes(v.header) + s.subrange(20, s.len() as int));
    assert(s.subrange(20, 24) == be32(v.network_mask));
    assert(s.subrange(28, 32) == be32(v.forwarding_address));
    assert(s.subrange(32, 36) == be32(v.external_route_tag));
    lemma_get32_be32(s, 20, v.network_mask);
    lemma_get32_be32(s, 28, v.forwarding_address);
    lemma_get32_be32(s, 32, v.external_route_tag);
}

/// A well-formed AS-external-LSA is read back from its wire form.
pub proof fn lemma_parse_as_external_bytes(v: ASExternalLSAView)
    requires
        v.well_formed(),
    ensures
        as_external_bytes(v).len() == v.size() + 3,
        as_external_readable(as_external_bytes(v)),
        parse_as_external(as_external_bytes(v)) == Some(v),
{
    lemma_tos_list_bytes(v.tos);
    let s = as_external_bytes(v);
    lemma_as_external_fixed(v, s);
    assert((s.len() - 36) / 12 == v.tos.len());
    lemma_get_tos_list(s, 36, v.tos);
}

impl ASExternalLSA {
    pub fn build_identifier(&self) -> (r: LsaIdentifer)
        ensures
            r == crate::area::lsdb::identifier_of(self.header),
    {
        LsaIdentifer {
            lsa_type: self.header.lsa_type as u32,
            link_state_id: self.header.link_state_id,
            advertising_router: self.header.advertising_router,
        }
    }

    pub fn try_from_be_bytes(payload: &[u8]) -> (r: Option<Self>)
        requires
            as_external_readable(payload@),
        ensures
            match r {
                Some(v) => parse_as_external(payload@) == Some(v@),
                None => parse_as_external(payload@) is None,
            },
    {
        if payload.len() < Header::length() + 13 {
            return None;
        }
        let header_length = Header::length();
        let header = match Header::try_from_be_bytes(&payload[0..header_length]) {
            Some(h) => h,
            None => return None,
        };
        proof {
            assert(payload@.subrange(0, 20).subrange(0, 20) == payload@.subrange(0, 20));
            crate::lsa::lemma_parse_header_prefix(payload@.subrange(0, 20), payload@);
        }
        let network_mask = read_be32(payload, 20);
        let e_bits = payload[24];
        let metric = [payload[25], payload[26], payload[27]];
        let forwarding_address = read_be32(payload, 28);
        let external_route_tag = read_be32(payload, 32);
        let len = payload.len();
        let count = (len - 36) / 12;
        let mut tos: Vec<TosDes> = Vec::new();
        let mut offset: usize = 36;
        let mut k: usize = 0;
        assert(tos@.map_values(|t: TosDes| t@) =~= get_tos_list(payload@, 36, 0));
        while len - offset >= 12
            invariant
                len == payload@.len(),
                len >= 36,
                count == (len - 36) / 12,
                offset == 36 + 12 * k,
                offset <= len,
                k <= count,
                tos@.map_values(|t: TosDes| t@) == get_tos_list(payload@, 36, k as nat),
            decreases len - offset,
        {
            let t = match TosDes::try_from_be_bytes(&payload[offset..offset + 12]) {
                Some(t) => t,
                None => return None,
            };
            let ghost old_views = tos@.map_values(|t: TosDes| t@);
            let ghost piece = payload@.subrange(offset as int, offset + 12);
            tos.push(t);
            offset = offset + 12;
            k = k + 1;
            assert(tos@.map_values(|t: TosDes| t@) == old_views.push(t@));
            assert(get_tos_list(payload@, 36, k as nat)[k - 1] == parse_tos(piece).unwrap());
            assert(tos@.map_values(|t: TosDes| t@) =~= get_tos_list(payload@, 36, k as nat));
        }
        assert(metric@ == seq![payload@[25], payload@[26], payload@[27]]);
        Some(
            Self {
                header,
                network_mask,
                e_bits,
                metric,
                forwarding_address,
                external_route_tag,
                tos,
            },
        )
    }

    pub fn to_be_bytes(&self) -> (r: Vec<u8>)
        ensures
            r@ == as_external_bytes(self@),
    {
        let mut bytes = self.header.to_be_bytes();
        push_be32(&mut bytes, self.network_mask);
        bytes.push(self.e_bits);
        bytes.push(self.metric[0]);
        bytes.push(self.metric[1]);
        bytes.push(self.metric[2]);
        push_be32(&mut bytes, self.forwarding_address);
        push_be32(&mut bytes, self.external_route_tag);
        assert(self.metric@ == seq![self.metric@[0], self.metric@[1], self.metric@[2]]);
        let ghost start = bytes@;
        let ghost views = self.tos@.map_values(|t: TosDes| t@);
        let mut i: usize = 0;
        while i < self.tos.len()
            invariant
                i <= self.tos.len(),
                views == self.tos@.map_values(|t: TosDes| t@),
                bytes@ == start + tos_list_bytes(views.take(i as int)),
            decreases self.tos.len() - i,
        {
            let tb = self.tos[i].to_be_bytes();
            crate::codec::push_all(&mut bytes, &tb);
            i = i + 1;
            assert(views.take(i as int).drop_last() == views.take(i - 1));
        }
        assert(views.take(i as int) == views);
        bytes
    }

    pub fn length(&self) -> (r: usize)
        requires
            self@.size() <= usize::MAX,
        ensures
            r == self@.size(),
    {
        let mut length: usize = Header::length() + 13;
        let mut i: usize = 0;
        while i < self.tos.len()
            invariant
                i <= self.tos.len(),
                33 + 12 * self.tos.len() <= usize::MAX,
                length == 33 + 12 * i,
            decreases self.tos.len() - i,
        {
            length = length + self.tos[i].length();
            i = i + 1;
        }
        length
    }
}

impl Clone for ASExternalLSA {
    fn clone(&self) -> (r: Self)
        ensures
            r@ == self@,
    {
        let mut tos: Vec<TosDes> = Vec::new();
        let mut i: usize = 0;
        while i < self.tos.len()
            invariant
                i <= self.tos.len(),
                tos@.map_values(|t: TosDes| t@) == self.tos@.map_values(|t: TosDes| t@).take(
                    i as int,
                ),
            decreases self.tos.len() - i,
        {
            let ghost before = tos@.map_values(|t: TosDes| t@);
            let t = self.tos[i];
            tos.push(t);
            assert(tos@.map_values(|t: TosDes| t@) == before.push(t@));
            i = i + 1;
            assert(tos@.map_values(|t: TosDes| t@) =~= self.tos@.map_values(|t: TosDes| t@).take(
                i as int,
            ));
        }
        assert(self.tos@.map_values(|t: TosDes| t@).take(i as int) =~= self.tos@.map_values(
            |t: TosDes| t@,
        ));
        ASExternalLSA {
            header: self.header,
            network_mask: self.network_mask,
            e_bits: self.e_bits,
            metric: self.metric,
            forwarding_address: self.forwarding_address,
            external_route_tag: self.external_route_tag,
            tos,
        }
    }
}

} // verus!
