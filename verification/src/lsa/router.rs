//! Router-LSAs (type 1): the links of one router in one area.
use vstd::prelude::*;

use crate::area::lsdb::LsaIdentifer;
use crate::codec::{
    be16, be32, get16, get32, get_words, lemma_get16_be16, lemma_get32_be32, lemma_get_words,
    lemma_words_bytes_len, push_be16, push_be32, push_words, read_be16, read_be32, read_words,
    words_bytes,
};
use crate::lsa::{header_bytes, lemma_parse_header_bytes, parse_header, Header};

verus! {

pub const LS_ID_POINT_TO_POINT: u8 = 1;
pub const LS_ID_TRANSIT: u8 = 2;
pub const LS_ID_STUB: u8 = 3;
pub const LS_ID_VIRTUAL_LINK: u8 = 4;

pub const ROUTER_LSA_TYPE: u8 = 1;

/// One link that a router-LSA describes.
#[derive(Debug)]
pub struct LinkState {
    pub link_id: u32,
    pub link_data: u32,
    pub ls_type: u8,
    pub tos_count: u8,
    pub metric: u16,
    pub tos: Vec<u32>,
}

/// A link as a mathematical value.
pub struct LinkStateView {
    pub link_id: u32,
    pub link_data: u32,
    pub ls_type: u8,
    pub tos_count: u8,
    pub metric: u16,
    pub tos: Seq<u32>,
}

impl View for LinkState {
    type V = LinkStateView;

    open spec fn view(&self) -> LinkStateView {
        LinkStateView {
            link_id: self.link_id,
            link_data: self.link_data,
            ls_type: self.ls_type,
            tos_count: self.tos_count,
            metric: self.metric,
            tos: self.tos@,
        }
    }
}

impl LinkStateView {
    /// How many bytes the link takes on the wire.
    pub open spec fn size(self) -> int {
        12 + 4 * self.tos.len() as int
    }

    /// The link's TOS count agrees with the TOS entries it carries.
    pub open spec fn counted(self) -> bool {
        self.tos_count as nat == self.tos.len()
    }
}

/// The wire form of a link.
pub open spec fn link_bytes(l: LinkStateView) -> Seq<u8> {
    be32(l.link_id) + be32(l.link_data) + seq![l.ls_type, l.tos_count] + be16(l.metric)
        + words_bytes(l.tos)
}

/// The link that `s` starts with: twelve fixed bytes, then as many TOS words as the TOS
/// count says; `None` where `s` is too short for them.
pub open spec fn parse_link(s: Seq<u8>) -> Option<LinkStateView> {
    if s.len() < 12 {
        None
    } else if 12 + 4 * s[9] > s.len() {
        None
    } else {
        Some(
            LinkStateView {
                link_id: get32(s, 0),
                link_data: get32(s, 4),
                ls_type: s[8],
                tos_count: s[9],
                metric: get16(s, 10),
                tos: get_words(s, 12, s[9] as nat),
            },
        )
    }
}

/// A counted link is read back from its wire form, whatever follows it.
pub proof fn lemma_parse_link_bytes(l: LinkStateView, rest: Seq<u8>)
    requires
        l.counted(),
    ensures
        link_bytes(l).len() == l.size(),
        parse_link(link_bytes(l) + rest) == Some(l),
{
    lemma_words_bytes_len(l.tos);
    let s = link_bytes(l) + rest;
    assert(s.subrange(0, 4) == be32(l.link_id));
    assert(s.subrange(4, 8) == be32(l.link_data));
    assert(s.subrange(10, 12) == be16(l.metric));
    assert(s.subrange(12, 12 + 4 * l.tos.len() as int) == words_bytes(l.tos));
    lemma_get32_be32(s, 0, l.link_id);
    lemma_get32_be32(s, 4, l.link_data);
    lemma_get16_be16(s, 10, l.metric);
    lemma_get_words(s, 12, l.tos);
    assert(s[9] == l.tos_count);
}

/// The TOS type of a TOS entry held in host order: its top byte.
pub open spec fn spec_tos_type(tos: u32) -> u8 {
    (tos / 0x100_0000) as u8
}

impl LinkState {
    pub fn new(
        link_id: u32,
        link_data: u32,
        ls_type: u8,
        tos_count: u8,
        tos: Option<Vec<u32>>,
        metric: u16,
    ) -> (r: Self)
        ensures
            r.link_id == link_id,
            r.link_data == link_data,
            r.ls_type == ls_type,
            r.tos_count == tos_count,
            r.metric == metric,
            r.tos@ == (match tos {
                Some(t) => t@,
                None => Seq::<u32>::empty(),
            }),
    {
        let tos = match tos {
            Some(t) => t,
            None => Vec::new(),
        };
        Self { link_id, link_data, ls_type, tos_count, metric, tos }
    }

    pub fn to_be_bytes(&self) -> (r: Vec<u8>)
        ensures
            r@ == link_bytes(self@),
    {
        let mut bytes = Vec::new();
        push_be32(&mut bytes, self.link_id);
        push_be32(&mut bytes, self.link_data);
        bytes.push(self.ls_type);
        bytes.push(self.tos_count);
        push_be16(&mut bytes, self.metric);
        push_words(&mut bytes, &self.tos);
        assert(bytes@ == link_bytes(self@));
        bytes
    }

    /// The TOS type of a TOS entry held in host order.
    pub fn tos_type(tos: u32) -> (r: u8)
        ensures
            r == spec_tos_type(tos),
    {
        assert((tos >> 24) == tos / 0x100_0000) by (bit_vector);
        (tos >> 24) as u8
    }

    /// The metric of a TOS entry held in host order: its low 24 bits, cut to 16.
    pub fn tos_metric(tos: u32) -> (r: u16)
        ensures
            r as int == tos % 0x1_0000,
    {
        let r = (tos & 0x00ffffff) as u16;
        assert(((tos & 0x00ffffff) as u16) as u32 == tos % 0x1_0000) by (bit_vector);
        r
    }

    pub fn length(&self) -> (r: usize)
        requires
            self@.size() <= usize::MAX,
        ensures
            r == self@.size(),
            r == link_bytes(self@).len(),
    {
        proof {
            lemma_words_bytes_len(self@.tos);
        }
        12 + self.tos.len() * 4
    }

    pub fn try_from_be_bytes(payload: &[u8]) -> (r: Option<Self>)
        ensures
            match r {
                Some(l) => parse_link(payload@) == Some(l@),
                None => parse_link(payload@) is None,
            },
    {
        if payload.len() < 12 {
            return None;
        }
        let link_id = read_be32(payload, 0);
        let link_data = read_be32(payload, 4);
        let ls_type = payload[8];
        let tos_count = payload[9];
        let metric = read_be16(payload, 10);
        if 12 + 4 * (tos_count as usize) > payload.len() {
            return None;
        }
        let tos = read_words(payload, 12, tos_count as usize);
        Some(Self { link_id, link_data, ls_type, tos_count, metric, tos })
    }
}

/// The wire form of a list of links, one after another.
pub open spec fn links_bytes(ls: Seq<LinkStateView>) -> Seq<u8>
    decreases ls.len(),
{
    if ls.len() == 0 {
        Seq::empty()
    } else {
        links_bytes(ls.drop_last()) + link_bytes(ls.last())
    }
}

/// How many bytes a list of links takes on the wire.
pub open spec fn links_size(ls: Seq<LinkStateView>) -> int
    decreases ls.len(),
{
    if ls.len() == 0 {
        0
    } else {
        links_size(ls.drop_last()) + ls.last().size()
    }
}

/// Reads `count` links one after another, starting at `offset`, after the links `acc`
/// already read; `None` as soon as one of them cannot be read.
pub open spec fn parse_links(s: Seq<u8>, offset: int, count: nat, acc: Seq<LinkStateView>) -> Option<
    Seq<LinkStateView>,
>
    decreases count,
{
    if count == 0 {
        Some(acc)
    } else if offset + 12 > s.len() {
        None
    } else {
        match parse_link(s.subrange(offset, s.len() as int)) {
            None => None,
            Some(l) => parse_links(s, offset + l.size(), (count - 1) as nat, acc.push(l)),
        }
    }
}

pub proof fn lemma_links_bytes_len(ls: Seq<LinkStateView>)
    ensures
        links_bytes(ls).len() == links_size(ls),
        links_size(ls) >= 0,
    decreases ls.len(),
{
    if ls.len() > 0 {
        lemma_links_bytes_len(ls.drop_last());
        lemma_words_bytes_len(ls.last().tos);
    }
}

pub proof fn lemma_links_bytes_cons(l: LinkStateView, r: Seq<LinkStateView>)
    ensures
        links_bytes(seq![l] + r) == link_bytes(l) + links_bytes(r),
    decreases r.len(),
{
    if r.len() == 0 {
        assert(seq![l] + r == seq![l]);
        assert(seq![l].drop_last() == Seq::<LinkStateView>::empty());
        assert(seq![l].last() == l);
        assert(links_bytes(Seq::<LinkStateView>::empty()) == Seq::<u8>::empty());
        assert(links_bytes(seq![l]) == Seq::<u8>::empty() + link_bytes(l));
        assert(Seq::<u8>::empty() + link_bytes(l) == link_bytes(l));
        assert(link_bytes(l) + Seq::<u8>::empty() == link_bytes(l));
    } else {
        lemma_links_bytes_cons(l, r.drop_last());
        assert((seq![l] + r).drop_last() == seq![l] + r.drop_last());
        assert((seq![l] + r).last() == r.last());
        assert(links_bytes(seq![l] + r) == links_bytes(seq![l] + r.drop_last()) + link_bytes(
            r.last(),
        ));
        assert(link_bytes(l) + links_bytes(r.drop_last()) + link_bytes(r.last()) == link_bytes(l)
            + (links_bytes(r.drop_last()) + link_bytes(r.last())));
    }
}

/// Counted links written one after another at `offset` are read back, whatever follows.
#[verifier::rlimit(50)]
pub proof fn lemma_parse_links(s: Seq<u8>, offset: int, ls: Seq<LinkStateView>, acc: Seq<
    LinkStateView,
>)
    requires
        0 <= offset,
        forall|i: int| 0 <= i < ls.len() ==> (#[trigger] ls[i]).counted(),
        offset + links_bytes(ls).len() <= s.len(),
        s.subrange(offset, offset + links_bytes(ls).len()) == links_bytes(ls),
    ensures
        parse_links(s, offset, ls.len(), acc) == Some(acc + ls),
    decreases ls.len(),
{
    if ls.len() == 0 {
        assert(acc + ls == acc);
    } else {
        let l = ls[0];
        let r = ls.drop_first();
        assert(ls == seq![l] + r);
        lemma_links_bytes_cons(l, r);
        lemma_links_bytes_len(r);
        lemma_words_bytes_len(l.tos);
        let lb = link_bytes(l);
        let tail = s.subrange(offset + lb.len(), s.len() as int);
        assert(s.subrange(offset, s.len() as int) == lb + tail) by {
            assert(s.subrange(offset, offset + lb.len()) == lb);
        }
        lemma_parse_link_bytes(l, tail);
        assert(ls[0].counted());
        assert forall|i: int| 0 <= i < r.len() implies (#[trigger] r[i]).counted() by {
            assert(r[i] == ls[i + 1]);
        }
        assert(s.subrange(offset + l.size(), offset + l.size() + links_bytes(r).len())
            == links_bytes(r)) by {
            assert(s.subrange(offset, offset + links_bytes(ls).len()).subrange(
                lb.len() as int,
                links_bytes(ls).len() as int,
            ) == links_bytes(r));
        }
        lemma_parse_links(s, offset + l.size(), r, acc.push(l));
        assert(acc.push(l) + r == acc + ls);
    }
}

/// A router-LSA: a header and the links of the advertising router.
#[derive(Debug)]
pub struct RouterLSA {
    pub header: Header,
    pub veb: u16,
    pub link_count: u16,
    pub link_states: Vec<LinkState>,
}

/// A router-LSA as a mathematical value.
pub struct RouterLSAView {
    pub header: Header,
    pub veb: u16,
    pub link_count: u16,
    pub link_states: Seq<LinkStateView>,
}

impl View for RouterLSA {
    type V = RouterLSAView;

    open spec fn view(&self) -> RouterLSAView {
        RouterLSAView {
            header: self.header,
            veb: self.veb,
            link_count: self.link_count,
            link_states: self.link_states@.map_values(|l: LinkState| l@),
        }
    }
}

impl RouterLSAView {
    /// How many bytes the LSA takes on the wire.
    pub open spec fn size(self) -> int {
        24 + links_size(self.link_states)
    }

    /// The link count agrees with the links, and each link's TOS count with its entries.
    pub open spec fn counted(self) -> bool {
        &&& self.link_count as nat == self.link_states.len()
        &&& forall|i: int| 0 <= i < self.link_states.len() ==> (#[trigger] self.link_states[i]).counted()
    }
}

/// The wire form of a router-LSA.
pub open spec fn router_bytes(v: RouterLSAView) -> Seq<u8> {
    header_bytes(v.header) + be16(v.veb) + be16(v.link_count) + links_bytes(v.link_states)
}

/// The router-LSA that `s` starts with: a header, the V/E/B bits, the link count and that
/// many links; `None` where `s` is shorter than 24 bytes or a link cannot be read.
pub open spec fn parse_router(s: Seq<u8>) -> Option<RouterLSAView> {
    if s.len() < 24 {
        None
    } else {
        match parse_links(s, 24, get16(s, 22) as nat, Seq::empty()) {
            None => None,
            Some(ls) => Some(
                RouterLSAView {
                    header: parse_header(s).unwrap(),
                    veb: get16(s, 20),
                    link_count: get16(s, 22),
                    link_states: ls,
                },
            ),
        }
    }
}

/// A counted router-LSA is read back from its wire form, whatever follows it.
pub proof fn lemma_parse_router_bytes(v: RouterLSAView, rest: Seq<u8>)
    requires
        v.counted(),
    ensures
        router_bytes(v).len() == v.size(),
        parse_router(router_bytes(v) + rest) == Some(v),
{
    lemma_links_bytes_len(v.link_states);
    let s = router_bytes(v) + rest;
    let hb = header_bytes(v.header);
    lemma_parse_header_bytes(v.header, s.subrange(20, s.len() as int));
    assert(s == hb + s.subrange(20, s.len() as int));
    assert(s.subrange(20, 22) == be16(v.veb));
    assert(s.subrange(22, 24) == be16(v.link_count));
    lemma_get16_be16(s, 20, v.veb);
    lemma_get16_be16(s, 22, v.link_count);
    assert(s.subrange(24, 24 + links_bytes(v.link_states).len() as int) == links_bytes(v.link_states));
    lemma_parse_links(s, 24, v.link_states, Seq::empty());
    assert(Seq::<LinkStateView>::empty() + v.link_states == v.link_states);
}

/// The router-LSA that a router with id `router_id` originates for `links`, with sequence
/// number `seqno` and the given checksum.
pub open spec fn originated_router_lsa(
    links: Seq<LinkStateView>,
    options: u8,
    router_id: u32,
    seqno: u32,
    checksum: u16,
) -> RouterLSAView {
    RouterLSAView {
        header: Header {
            age: 0,
            options,
            lsa_type: ROUTER_LSA_TYPE,
            link_state_id: router_id,
            advertising_router: router_id,
            sequence_number: seqno,
            checksum,
            length: (24 + links_size(links)) as u16,
        },
        veb: 0,
        link_count: links.len() as u16,
        link_states: links,
    }
}

impl RouterLSA {
    /// Originates this router's LSA for `links`: age 0, link-state id and advertising router
    /// both `router_id`, the current sequence number (which is then advanced), the length,
    /// and the Fletcher-16 checksum of the wire form taken with a zero checksum field.
    pub fn new(links: Vec<LinkState>, options: u8, router_id: u32, seqno: &mut u32) -> (r: Self)
        requires
            *old(seqno) < u32::MAX,
            24 + links_size(links@.map_values(|l: LinkState| l@)) <= usize::MAX,
        ensures
            *final(seqno) == *old(seqno) + 1,
            r@ == originated_router_lsa(
                links@.map_values(|l: LinkState| l@),
                options,
                router_id,
                *old(seqno),
                crate::lsa::fletcher16(
                    router_bytes(
                        originated_router_lsa(
                            links@.map_values(|l: LinkState| l@),
                            options,
                            router_id,
                            *old(seqno),
                            0,
                        ),
                    ),
                ),
            ),
    {
        let lsa_type = ROUTER_LSA_TYPE;
        let link_count = links.len() as u16;
        let mut lsa = Self {
            header: Header {
                age: 0,
                options,
                sequence_number: *seqno,
                lsa_type,
                link_state_id: router_id,
                advertising_router: router_id,
                checksum: 0,
                length: 0,
            },
            veb: 0,
            link_count,
            link_states: links,
        };
        lsa.header.length = lsa.length() as u16;
        let mut bytes = lsa.to_be_bytes();
        proof {
            lemma_parse_header_bytes(lsa.header, bytes@.subrange(20, bytes@.len() as int));
            assert(bytes@.subrange(0, 20) == header_bytes(lsa.header));
            assert(bytes@[16] == header_bytes(lsa.header)[16]);
            assert(bytes@[17] == header_bytes(lsa.header)[17]);
            assert(bytes@.update(16, 0).update(17, 0) == bytes@);
        }
        lsa.header.checksum = crate::lsa::calculate_lsa_checksum(bytes.as_mut_slice());
        *seqno += 1;
        lsa
    }

    pub fn build_identifier(&self) -> (r: LsaIdentifer)
        ensures
            r == (LsaIdentifer {
                lsa_type: ROUTER_LSA_TYPE as u32,
                link_state_id: self.header.link_state_id,
                advertising_router: self.header.advertising_router,
            }),
    {
        LsaIdentifer {
            lsa_type: ROUTER_LSA_TYPE as u32,
            link_state_id: self.header.link_state_id,
            advertising_router: self.header.advertising_router,
        }
    }

    pub fn try_from_be_bytes(payload: &[u8]) -> (r: Option<Self>)
        ensures
            match r {
                Some(v) => parse_router(payload@) == Some(v@),
                None => parse_router(payload@) is None,
            },
    {
        if payload.len() < Header::length() + 4 {
            return None;
        }
        let header = match Header::try_from_be_bytes(&payload[0..20]) {
            Some(h) => h,
            None => return None,
        };
        proof {
            lsa_header_prefix(payload@);
        }
        let veb = read_be16(payload, 20);
        let link_count = read_be16(payload, 22);
        let mut link_states: Vec<LinkState> = Vec::new();
        let mut offset: usize = 24;
        let mut k: u16 = 0;
        let len = payload.len();
        assert(link_states@.map_values(|l: LinkState| l@) == Seq::<LinkStateView>::empty());
        while k < link_count
            invariant
                len == payload@.len(),
                24 <= offset <= len,
                k <= link_count,
                link_count == get16(payload@, 22),
                parse_links(payload@, 24, link_count as nat, Seq::empty()) == parse_links(
                    payload@,
                    offset as int,
                    (link_count - k) as nat,
                    link_states@.map_values(|l: LinkState| l@),
                ),
            decreases link_count - k,
        {
            if len - offset < 12 {
                return None;
            }
            let link_state = match LinkState::try_from_be_bytes(&payload[offset..len]) {
                Some(l) => l,
                None => return None,
            };
            let ghost before = link_states@.map_values(|l: LinkState| l@);
            let size = link_state.length();
            offset = offset + size;
            link_states.push(link_state);
            k = k + 1;
            assert(link_states@.map_values(|l: LinkState| l@) == before.push(link_state@));
        }
        Some(Self { header, veb, link_count, link_states })
    }

    pub fn to_be_bytes(&self) -> (r: Vec<u8>)
        ensures
            r@ == router_bytes(self@),
    {
        let mut bytes = self.header.to_be_bytes();
        push_be16(&mut bytes, self.veb);
        push_be16(&mut bytes, self.link_count);
        let ghost start = bytes@;
        let ghost views = self.link_states@.map_values(|l: LinkState| l@);
        let mut i: usize = 0;
        while i < self.link_states.len()
            invariant
                i <= self.link_states.len(),
                views == self.link_states@.map_values(|l: LinkState| l@),
                bytes@ == start + links_bytes(views.take(i as int)),
            decreases self.link_states.len() - i,
        {
            let lb = self.link_states[i].to_be_bytes();
            crate::codec::push_all(&mut bytes, &lb);
            i = i + 1;
            assert(views.take(i as int).drop_last() == views.take(i - 1));
        }
        assert(views.take(i as int) == views);
        bytes
    }

    pub fn length(&self) -> (r: usize)
        requires
            self@.size() <= usize::MAX,
        ensures
            r == self@.size(),
            r == router_bytes(self@).len(),
    {
        proof {
            lemma_router_bytes_len(self@);
        }
        let ghost views = self.link_states@.map_values(|l: LinkState| l@);
        let mut length: usize = Header::length() + 4;
        let mut i: usize = 0;
        proof {
            lemma_links_size_take_mono(views, 0, views.len() as int);
        }
        while i < self.link_states.len()
            invariant
                i <= self.link_states.len(),
                views == self.link_states@.map_values(|l: LinkState| l@),
                24 + links_size(views) <= usize::MAX,
                length == 24 + links_size(views.take(i as int)),
            decreases self.link_states.len() - i,
        {
            proof {
                lemma_links_size_take_mono(views, i + 1, views.len() as int);
                lemma_links_size_take_mono(views, 0, i as int);
                assert(views.take(views.len() as int) == views);
                assert(views.take(i + 1).drop_last() == views.take(i as int));
                assert(views.take(i + 1).last() == views[i as int]);
                assert(self.link_states[i as int]@ == views[i as int]);
                assert(links_size(views.take(i + 1)) == links_size(views.take(i as int))
                    + views[i as int].size());
            }
            length = length + self.link_states[i].length();
            i = i + 1;
        }
        assert(views.take(i as int) == views);
        length
    }
}

/// A prefix of a list of links is no larger than the list.
pub proof fn lemma_links_size_take_mono(ls: Seq<LinkStateView>, i: int, j: int)
    requires
        0 <= i <= j <= ls.len(),
    ensures
        0 <= links_size(ls.take(i)) <= links_size(ls.take(j)),
    decreases j - i,
{
    lemma_links_bytes_len(ls.take(i));
    if i < j {
        lemma_links_size_take_mono(ls, i, j - 1);
        assert(ls.take(j).drop_last() == ls.take(j - 1));
    }
}

/// The header read from the first 20 bytes of a buffer is the header of the buffer.
proof fn lsa_header_prefix(s: Seq<u8>)
    requires
        s.len() >= 20,
    ensures
        parse_header(s.subrange(0, 20)) == parse_header(s),
{
    assert(s.subrange(0, 20).subrange(0, 20) == s.subrange(0, 20));
    crate::lsa::lemma_parse_header_prefix(s.subrange(0, 20), s);
}

impl Clone for LinkState {
    fn clone(&self) -> (r: Self)
        ensures
            r@ == self@,
    {
        let tos = self.tos.clone();
        assert(tos@ =~= self.tos@);
        LinkState {
            link_id: self.link_id,
            link_data: self.link_data,
            ls_type: self.ls_type,
            tos_count: self.tos_count,
            metric: self.metric,
            tos,
        }
    }
}

impl Clone for RouterLSA {
    fn clone(&self) -> (r: Self)
        ensures
            r@ == self@,
    {
        let mut link_states: Vec<LinkState> = Vec::new();
        let mut i: usize = 0;
        while i < self.link_states.len()
            invariant
                i <= self.link_states.len(),
                link_states@.map_values(|l: LinkState| l@) == self.link_states@.map_values(
                    |l: LinkState| l@,
                ).take(i as int),
            decreases self.link_states.len() - i,
        {
            let ghost before = link_states@.map_values(|l: LinkState| l@);
            let c = self.link_states[i].clone();
            link_states.push(c);
            assert(link_states@.map_values(|l: LinkState| l@) == before.push(c@));
            i = i + 1;
            assert(link_states@.map_values(|l: LinkState| l@) =~= self.link_states@.map_values(
                |l: LinkState| l@,
            ).take(i as int));
        }
        assert(self.link_states@.map_values(|l: LinkState| l@).take(i as int)
            =~= self.link_states@.map_values(|l: LinkState| l@));
        RouterLSA { header: self.header, veb: self.veb, link_count: self.link_count, link_states }
    }
}


/// The wire form of a router-LSA is as long as `length` reports: 24 bytes and, for each link,
/// 12 and 4 for each of its TOS entries.
pub proof fn lemma_router_bytes_len(v: RouterLSAView)
    ensures
        router_bytes(v).len() == v.size(),
{
    lemma_links_bytes_len(v.link_states);
}

} // verus!
