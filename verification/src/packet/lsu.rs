//! Link state update packets: LSAs flooded to a neighbor.
use vstd::prelude::*;

use crate::codec::{be32, get32, lemma_get32_be32, push_be32, read_be32};
use crate::area::lsdb::LsaDb;
use crate::interface::{Interface, NetworkType};
use crate::lsa::as_external::AS_EXTERNAL_LSA_TYPE;
use crate::lsa::network::NETWORK_LSA_TYPE;
use crate::lsa::{
    header_bytes, lemma_parse_header_bytes, lemma_parse_lsa_bytes, lsa_bytes, lsa_readable,
    parse_header, parse_lsa, Header, Lsa, LsaView,
};
use crate::packet::hello::{spec_neighbor_addr, spec_neighbor_id};
use crate::packet::{
    empty_ospf_header, lemma_parse_ospf_header_bytes, ospf_header_bytes, parse_ospf_header,
    OspfHeader,
};

verus! {

pub const LSU_TYPE: u8 = 4;

/// A link state update packet.
#[derive(Debug)]
pub struct Lsu {
    pub header: OspfHeader,
    pub lsa_count: u32,
    pub lsa_list: Vec<Lsa>,
}

/// A link state update packet as a mathematical value.
pub struct LsuView {
    pub header: OspfHeader,
    pub lsa_count: u32,
    pub lsa_list: Seq<LsaView>,
}

impl View for Lsu {
    type V = LsuView;

    open spec fn view(&self) -> LsuView {
        LsuView {
            header: self.header,
            lsa_count: self.lsa_count,
            lsa_list: self.lsa_list@.map_values(|l: Lsa| l@),
        }
    }
}

/// What `length` reports for a list of LSAs: the sum of what each reports.
pub open spec fn lsas_size(ls: Seq<LsaView>) -> int
    decreases ls.len(),
{
    if ls.len() == 0 {
        0
    } else {
        lsas_size(ls.drop_last()) + ls.last().size()
    }
}

impl LsuView {
    /// What `length` reports for the packet.
    pub open spec fn size(self) -> int {
        28 + lsas_size(self.lsa_list)
    }
}

/// The wire form of a list of LSAs, one after another.
pub open spec fn lsas_bytes(ls: Seq<LsaView>) -> Seq<u8>
    decreases ls.len(),
{
    if ls.len() == 0 {
        Seq::empty()
    } else {
        lsas_bytes(ls.drop_last()) + lsa_bytes(ls.last())
    }
}

/// The wire form of a link state update packet.
pub open spec fn lsu_bytes(v: LsuView) -> Seq<u8> {
    ospf_header_bytes(v.header) + be32(v.lsa_count) + lsas_bytes(v.lsa_list)
}

/// Reads `count` LSAs one after another from `offset` on, after the LSAs `acc` already read.
/// Each LSA spans as many bytes as the length field of its header says; `None` where a header
/// does not fit, a length is below 20 or runs past the end of `s`, or an LSA cannot be read.
pub open spec fn parse_lsas(s: Seq<u8>, offset: int, count: nat, acc: Seq<LsaView>) -> Option<
    Seq<LsaView>,
>
    decreases count,
{
    if count == 0 {
        Some(acc)
    } else if offset < 0 || offset + 20 > s.len() {
        None
    } else {
        let length = parse_header(s.subrange(offset, offset + 20)).unwrap().length as int;
        if length < 20 || offset + length > s.len() {
            None
        } else {
            let body = s.subrange(offset, offset + length);
            if !lsa_readable(body) {
                None
            } else {
                match parse_lsa(body) {
                    None => None,
                    Some(l) => parse_lsas(s, offset + length, (count - 1) as nat, acc.push(l)),
                }
            }
        }
    }
}

/// The link state update that `s` holds: the header, the LSA count and that many LSAs;
/// `None` where `s` is shorter than 28 bytes or an LSA cannot be read.
pub open spec fn parse_lsu(s: Seq<u8>) -> Option<LsuView> {
    if s.len() < 28 {
        None
    } else {
        match parse_lsas(s, 28, get32(s, 24) as nat, Seq::empty()) {
            None => None,
            Some(ls) => Some(
                LsuView {
                    header: parse_ospf_header(s).unwrap(),
                    lsa_count: get32(s, 24),
                    lsa_list: ls,
                },
            ),
        }
    }
}

/// An LSA whose wire form is read back, and whose header gives the length of that form.
pub open spec fn lsa_framed(v: LsaView) -> bool {
    &&& v.well_formed()
    &&& v.header().length as int == lsa_bytes(v).len()
}

pub proof fn lemma_lsas_bytes_cons(l: LsaView, r: Seq<LsaView>)
    ensures
        lsas_bytes(seq![l] + r) == lsa_bytes(l) + lsas_bytes(r),
    decreases r.len(),
{
    if r.len() == 0 {
        assert(seq![l] + r == seq![l]);
        assert(seq![l].drop_last() == Seq::<LsaView>::empty());
        assert(seq![l].last() == l);
        assert(lsas_bytes(Seq::<LsaView>::empty()) == Seq::<u8>::empty());
        assert(lsas_bytes(seq![l]) == Seq::<u8>::empty() + lsa_bytes(l));
        assert(Seq::<u8>::empty() + lsa_bytes(l) == lsa_bytes(l));
        assert(lsa_bytes(l) + Seq::<u8>::empty() == lsa_bytes(l));
    } else {
        lemma_lsas_bytes_cons(l, r.drop_last());
        assert((seq![l] + r).drop_last() == seq![l] + r.drop_last());
        assert((seq![l] + r).last() == r.last());
        assert(lsa_bytes(l) + lsas_bytes(r.drop_last()) + lsa_bytes(r.last()) == lsa_bytes(l) + (
        lsas_bytes(r.drop_last()) + lsa_bytes(r.last())));
    }
}

/// Framed LSAs written one after another at `offset` are read back, whatever follows.
#[verifier::rlimit(50)]
pub proof fn lemma_parse_lsas(s: Seq<u8>, offset: int, ls: Seq<LsaView>, acc: Seq<LsaView>)
    requires
        0 <= offset,
        forall|i: int| 0 <= i < ls.len() ==> lsa_framed(#[trigger] ls[i]),
        offset + lsas_bytes(ls).len() <= s.len(),
        s.subrange(offset, offset + lsas_bytes(ls).len()) == lsas_bytes(ls),
    ensures
        parse_lsas(s, offset, ls.len(), acc) == Some(acc + ls),
    decreases ls.len(),
{
    if ls.len() == 0 {
        assert(acc + ls == acc);
    } else {
        let l = ls[0];
        let r = ls.drop_first();
        assert(ls == seq![l] + r);
        lemma_lsas_bytes_cons(l, r);
        assert(lsa_framed(ls[0]));
        let lb = lsa_bytes(l);
        let n = lb.len() as int;
        lemma_parse_lsa_bytes(l);
        lemma_parse_header_bytes(l.header(), lb.subrange(20, n));
        assert(lb == header_bytes(l.header()) + lb.subrange(20, n));
        assert(s.subrange(offset, offset + n) == lb);
        assert(s.subrange(offset, offset + 20) == lb.subrange(0, 20));
        assert(lb.subrange(0, 20) == header_bytes(l.header()));
        lemma_parse_header_bytes(l.header(), Seq::empty());
        assert(header_bytes(l.header()) + Seq::<u8>::empty() == header_bytes(l.header()));
        assert forall|i: int| 0 <= i < r.len() implies lsa_framed(#[trigger] r[i]) by {
            assert(r[i] == ls[i + 1]);
        }
        assert(s.subrange(offset + n, offset + n + lsas_bytes(r).len()) == lsas_bytes(r)) by {
            assert(s.subrange(offset, offset + lsas_bytes(ls).len()).subrange(
                n,
                lsas_bytes(ls).len() as int,
            ) == lsas_bytes(r));
        }
        lemma_parse_lsas(s, offset + n, r, acc.push(l));
        assert(acc.push(l) + r == acc + ls);
    }
}

/// An update whose count matches its framed LSAs is read back from its wire form.
pub proof fn lemma_parse_lsu_bytes(v: LsuView)
    requires
        v.lsa_count as int == v.lsa_list.len(),
        forall|i: int| 0 <= i < v.lsa_list.len() ==> lsa_framed(#[trigger] v.lsa_list[i]),
    ensures
        parse_lsu(lsu_bytes(v)) == Some(v),
{
    let s = lsu_bytes(v);
    lemma_parse_ospf_header_bytes(v.header, s.subrange(24, s.len() as int));
    assert(s == ospf_header_bytes(v.header) + s.subrange(24, s.len() as int));
    assert(s.subrange(24, 28) == be32(v.lsa_count));
    lemma_get32_be32(s, 24, v.lsa_count);
    assert(s.subrange(28, s.len() as int) == lsas_bytes(v.lsa_list));
    lemma_parse_lsas(s, 28, v.lsa_list, Seq::empty());
    assert(Seq::<LsaView>::empty() + v.lsa_list == v.lsa_list);
}

/// The update that an interface sends with `lsas`: the interface's area and authentication,
/// this router's id, the OSPF version, a zero length and checksum, and the LSA count.
pub open spec fn spec_lsu_to_send(interface: Interface, router_id: u32, lsas: Seq<LsaView>) -> LsuView {
    LsuView {
        header: OspfHeader {
            version: crate::OSPF_VERSION,
            packet_type: LSU_TYPE,
            packet_length: 0,
            router_id,
            area_id: interface.area_id,
            checksum: 0,
            auth_type: interface.auth_type,
            authentication: interface.auth_key,
        },
        lsa_count: lsas.len() as u32,
        lsa_list: lsas,
    }
}

/// Whether the bytes from `offset` to `offset + length` can be read as an LSA without running
/// past their end.
fn lsa_body_readable(s: &[u8], offset: usize, length: usize) -> (r: bool)
    requires
        length >= 20,
        offset + length <= s@.len(),
    ensures
        r == lsa_readable(s@.subrange(offset as int, offset + length)),
{
    let n = s.len();
    let t = s[offset + 3];
    assert(s@.subrange(offset as int, offset + length)[3] == t);
    if t == NETWORK_LSA_TYPE {
        length < 24 || (length - 24) % 4 == 0
    } else if t == AS_EXTERNAL_LSA_TYPE {
        length < 33 || length >= 36
    } else {
        true
    }
}

impl Lsu {
    /// Reads a link state update laid out as `to_be_bytes` writes it, each LSA taking as many
    /// bytes as its header's length field says.
    pub fn try_from_be_bytes(payload: &[u8]) -> (r: Option<Self>)
        ensures
            match r {
                Some(v) => parse_lsu(payload@) == Some(v@),
                None => parse_lsu(payload@) is None,
            },
    {
        if payload.len() < OspfHeader::length() + 4 {
            return None;
        }
        let header = match OspfHeader::try_from_be_bytes(&payload[0..24]) {
            Some(h) => h,
            None => return None,
        };
        proof {
            assert(payload@.subrange(0, 24).subrange(0, 24) == payload@.subrange(0, 24));
            crate::packet::lemma_parse_ospf_header_prefix(payload@.subrange(0, 24), payload@);
        }
        let lsa_count = read_be32(payload, 24);
        let len = payload.len();
        let mut lsa_list: Vec<Lsa> = Vec::new();
        let mut offset: usize = 28;
        let mut k: u32 = 0;
        assert(lsa_list@.map_values(|l: Lsa| l@) == Seq::<LsaView>::empty());
        while k < lsa_count
            invariant
                len == payload@.len(),
                offset <= len,
                k <= lsa_count,
                lsa_count == get32(payload@, 24),
                parse_lsas(payload@, 28, lsa_count as nat, Seq::empty()) == parse_lsas(
                    payload@,
                    offset as int,
                    (lsa_count - k) as nat,
                    lsa_list@.map_values(|l: Lsa| l@),
                ),
            decreases lsa_count - k,
        {
            if len - offset < 20 {
                return None;
            }
            let h = match Header::try_from_be_bytes(&payload[offset..offset + 20]) {
                Some(h) => h,
                None => return None,
            };
            let length = h.length as usize;
            if length < 20 || len - offset < length {
                return None;
            }
            if !lsa_body_readable(payload, offset, length) {
                return None;
            }
            let lsa = match Lsa::try_from_be_bytes(&payload[offset..offset + length]) {
                Some(l) => l,
                None => return None,
            };
            let ghost before = lsa_list@.map_values(|l: Lsa| l@);
            lsa_list.push(lsa);
            assert(lsa_list@.map_values(|l: Lsa| l@) == before.push(lsa@));
            offset = offset + length;
            k = k + 1;
        }
        Some(Lsu { header, lsa_count, lsa_list })
    }

    /// Builds the update that interface `interface` sends with `lsas`.
    pub fn new(interface: &Interface, router_id: u32, lsas: Vec<Lsa>) -> (r: Self)
        ensures
            r@ == spec_lsu_to_send(*interface, router_id, lsas@.map_values(|l: Lsa| l@)),
    {
        let mut packet = Self::empty();
        packet.header.version = crate::OSPF_VERSION;
        packet.header.area_id = interface.area_id;
        packet.header.auth_type = interface.auth_type;
        packet.header.authentication = interface.auth_key;
        packet.header.packet_type = LSU_TYPE;
        packet.header.router_id = router_id;
        packet.header.packet_length = 0;
        packet.lsa_count = lsas.len() as u32;
        packet.lsa_list = lsas;
        packet
    }

    pub fn length(&self) -> (r: usize)
        requires
            self@.size() <= usize::MAX,
        ensures
            r == self@.size(),
            lsas_sized(self@.lsa_list) ==> r == lsu_bytes(self@).len(),
    {
        proof {
            if lsas_sized(self@.lsa_list) {
                lemma_lsu_bytes_len(self@);
            }
        }
        let ghost views = self.lsa_list@.map_values(|l: Lsa| l@);
        let mut acc: usize = 0;
        let mut i: usize = 0;
        proof {
            lemma_lsas_size_take_mono(views, 0, views.len() as int);
            assert(views.take(views.len() as int) == views);
        }
        while i < self.lsa_list.len()
            invariant
                i <= self.lsa_list.len(),
                views == self.lsa_list@.map_values(|l: Lsa| l@),
                28 + lsas_size(views) <= usize::MAX,
                acc == lsas_size(views.take(i as int)),
            decreases self.lsa_list.len() - i,
        {
            proof {
                lemma_lsas_size_take_mono(views, i + 1, views.len() as int);
                assert(views.take(views.len() as int) == views);
                assert(views.take(i + 1).drop_last() == views.take(i as int));
                assert(views.take(i + 1).last() == views[i as int]);
                assert(self.lsa_list[i as int]@ == views[i as int]);
            }
            acc = acc + self.lsa_list[i].length();
            i = i + 1;
        }
        assert(views.take(i as int) == views);
        OspfHeader::length() + 4 + acc
    }

    pub fn empty() -> (r: Self)
        ensures
            r@ == (LsuView { header: empty_ospf_header(), lsa_count: 0, lsa_list: Seq::empty() }),
    {
        let lsa_list: Vec<Lsa> = Vec::new();
        assert(lsa_list@.map_values(|l: Lsa| l@) =~= Seq::<LsaView>::empty());
        Self { header: OspfHeader::empty(), lsa_count: 0, lsa_list }
    }

    pub fn get_neighbor_addr(&self, network_type: NetworkType, paddr: u32) -> (r: u32)
        ensures
            r == spec_neighbor_addr(network_type, self.header.router_id, paddr),
    {
        match network_type {
            NetworkType::Broadcast | NetworkType::NBMA | NetworkType::PointToMultipoint => paddr,
            _ => self.header.router_id,
        }
    }

    pub fn get_neighbor_id(&self, network_type: NetworkType, paddr: u32) -> (r: u32)
        ensures
            r == spec_neighbor_id(network_type, self.header.router_id, paddr),
    {
        match network_type {
            NetworkType::Broadcast | NetworkType::NBMA | NetworkType::PointToMultipoint => {
                self.header.router_id
            },
            _ => paddr,
        }
    }

    pub fn to_be_bytes(&self) -> (r: Vec<u8>)
        ensures
            r@ == lsu_bytes(self@),
    {
        let mut bytes = self.header.to_be_bytes();
        push_be32(&mut bytes, self.lsa_count);
        let ghost start = bytes@;
        let ghost views = self.lsa_list@.map_values(|l: Lsa| l@);
        let mut i: usize = 0;
        while i < self.lsa_list.len()
            invariant
                i <= self.lsa_list.len(),
                views == self.lsa_list@.map_values(|l: Lsa| l@),
                bytes@ == start + lsas_bytes(views.take(i as int)),
            decreases self.lsa_list.len() - i,
        {
            let lb = self.lsa_list[i].to_be_bytes();
            crate::codec::push_all(&mut bytes, &lb);
            i = i + 1;
            assert(views.take(i as int).drop_last() == views.take(i - 1));
        }
        assert(views.take(i as int) == views);
        bytes
    }
}

/// A prefix of a list of LSAs reports no more than the list.
pub proof fn lemma_lsas_size_take_mono(ls: Seq<LsaView>, i: int, j: int)
    requires
        0 <= i <= j <= ls.len(),
    ensures
        0 <= lsas_size(ls.take(i)) <= lsas_size(ls.take(j)),
    decreases j - i,
{
    if i < j {
        lemma_lsas_size_take_mono(ls, i, j - 1);
        assert(ls.take(j).drop_last() == ls.take(j - 1));
        lemma_lsa_size_nonneg(ls[j - 1]);
    } else {
        lemma_lsas_size_nonneg(ls.take(i));
    }
}

pub proof fn lemma_lsas_size_nonneg(ls: Seq<LsaView>)
    ensures
        0 <= lsas_size(ls),
    decreases ls.len(),
{
    if ls.len() > 0 {
        lemma_lsas_size_nonneg(ls.drop_last());
        lemma_lsa_size_nonneg(ls.last());
    }
}

pub proof fn lemma_lsa_size_nonneg(l: LsaView)
    ensures
        0 <= l.size(),
{
    match l {
        LsaView::Router(r) => crate::lsa::router::lemma_links_bytes_len(r.link_states),
        _ => {},
    }
}


impl Lsu {
    /// Files the LSAs of this update in the area's database `lsdb`, in order, and returns
    /// their headers, which the neighbor is to be acknowledged with.
    pub fn received(&self, lsdb: &mut LsaDb) -> (r: Vec<Header>)
        requires
            old(lsdb).wf(),
        ensures
            final(lsdb).wf(),
            final(lsdb)@ == old(lsdb)@.insert_all(self.lsa_list@.map_values(|l: Lsa| l@)),
            r@ == self.lsa_list@.map_values(|l: Lsa| l@.header()),
    {
        let mut lsas: Vec<Lsa> = Vec::new();
        let mut headers: Vec<Header> = Vec::new();
        let mut i: usize = 0;
        while i < self.lsa_list.len()
            invariant
                i <= self.lsa_list@.len(),
                lsas@.map_values(|l: Lsa| l@) == self.lsa_list@.map_values(|l: Lsa| l@).take(i as int),
                headers@ == self.lsa_list@.map_values(|l: Lsa| l@.header()).take(i as int),
            decreases self.lsa_list@.len() - i,
        {
            let l = self.lsa_list[i].clone();
            assert(l@ == self.lsa_list@.map_values(|l: Lsa| l@)[i as int]);
            headers.push(l.copy_header());
            let ghost before = lsas@.map_values(|l: Lsa| l@);
            lsas.push(l);
            assert(lsas@.map_values(|l: Lsa| l@) == before.push(l@));
            i = i + 1;
            assert(lsas@.map_values(|l: Lsa| l@) =~= self.lsa_list@.map_values(|l: Lsa| l@).take(i as int));
            assert(headers@ =~= self.lsa_list@.map_values(|l: Lsa| l@.header()).take(i as int));
        }
        assert(self.lsa_list@.map_values(|l: Lsa| l@).take(i as int) =~= self.lsa_list@.map_values(|l: Lsa| l@));
        assert(self.lsa_list@.map_values(|l: Lsa| l@.header()).take(i as int) =~= self.lsa_list@.map_values(|l: Lsa| l@.header()));
        lsdb.update_lsdb(lsas);
        headers
    }
}


/// Where a link state update goes: to the neighbor itself on virtual links, to
/// AllSPFRouters on the others.
pub open spec fn lsu_destination(network_type: NetworkType, naddr: u32) -> u32 {
    if network_type == NetworkType::VirtualLink {
        naddr
    } else {
        crate::ALL_SPF_ROUTERS
    }
}

impl Lsu {
    /// The datagram that carries this update from interface `iaddr` towards neighbor `naddr`
    /// on a network of this type. The datagram's total length is taken from `length`, and
    /// the payload must fit in it; it does exactly where `length` agrees with the wire form,
    /// which an AS-external-LSA in the update breaks.
    pub fn build_ipv4_packet(&self, iaddr: u32, naddr: u32, network_type: NetworkType) -> (r: Vec<u8>)
        requires
            self@.size() == lsu_bytes(self@).len(),
            20 + lsu_bytes(self@).len() <= crate::IPV4_PACKET_MTU,
        ensures
            r@ == crate::packet::ipv4::ipv4_datagram(
                lsu_bytes(self@),
                iaddr,
                lsu_destination(network_type, naddr),
            ),
    {
        let destination = match network_type {
            NetworkType::VirtualLink => naddr,
            _ => crate::ALL_SPF_ROUTERS,
        };
        let payload = self.to_be_bytes();
        crate::packet::ipv4::build_ipv4_datagram(&payload, iaddr, destination)
    }
}


/// Whether each LSA of the list reports, through `length`, the length of its wire form. An
/// AS-external-LSA reports 3 bytes fewer.
pub open spec fn lsas_sized(ls: Seq<LsaView>) -> bool {
    forall|i: int| 0 <= i < ls.len() ==> (#[trigger] ls[i]).size() == lsa_bytes(ls[i]).len()
}

proof fn lemma_lsas_bytes_len(ls: Seq<LsaView>)
    requires
        lsas_sized(ls),
    ensures
        lsas_bytes(ls).len() == lsas_size(ls),
    decreases ls.len(),
{
    if ls.len() > 0 {
        let p = ls.drop_last();
        assert forall|i: int| 0 <= i < p.len() implies (#[trigger] p[i]).size() == lsa_bytes(p[i]).len() by {
            assert(p[i] == ls[i]);
        }
        lemma_lsas_bytes_len(p);
        assert(ls.last() == ls[ls.len() - 1]);
    }
}

/// Where every LSA of an update reports the length of its own wire form, the update's wire
/// form is as long as `length` reports: 28 bytes and the LSAs' lengths.
pub proof fn lemma_lsu_bytes_len(v: LsuView)
    requires
        lsas_sized(v.lsa_list),
    ensures
        lsu_bytes(v).len() == v.size(),
{
    lemma_lsas_bytes_len(v.lsa_list);
}

} // verus!
