//! Link state request packets: which LSAs a router asks its neighbor for.
use vstd::prelude::*;

use crate::area::lsdb::{identifier_bytes, lemma_parse_identifier_bytes, parse_identifier, LsaIdentifer};
use crate::area::lsdb::{fetch_lsas, LsaDb};
use crate::interface::{Interface, NetworkType};
use crate::neighbor::status::Status;
use crate::neighbor::NeighborState;
use crate::packet::hello::{spec_neighbor_addr, spec_neighbor_id};
use crate::packet::{
    checksum_sum, empty_ospf_header, lemma_parse_ospf_header_bytes, ospf_checksum,
    ospf_header_bytes, ospf_packet_checksum, parse_ospf_header, OspfHeader,
};

verus! {

pub const LSR_TYPE: u8 = 3;

/// A link state request packet.
#[derive(Debug)]
pub struct Lsr {
    pub header: OspfHeader,
    pub lsr_entries: Vec<LsaIdentifer>,
}

/// A link state request packet as a mathematical value.
pub struct LsrView {
    pub header: OspfHeader,
    pub lsr_entries: Seq<LsaIdentifer>,
}

impl View for Lsr {
    type V = LsrView;

    open spec fn view(&self) -> LsrView {
        LsrView { header: self.header, lsr_entries: self.lsr_entries@ }
    }
}

impl LsrView {
    /// How many bytes the packet takes on the wire.
    pub open spec fn size(self) -> int {
        24 + 12 * self.lsr_entries.len() as int
    }
}

/// The wire form of a list of identifiers, one after another.
pub open spec fn identifiers_bytes(ids: Seq<LsaIdentifer>) -> Seq<u8>
    decreases ids.len(),
{
    if ids.len() == 0 {
        Seq::empty()
    } else {
        identifiers_bytes(ids.drop_last()) + identifier_bytes(ids.last())
    }
}

/// The wire form of a link state request packet.
pub open spec fn lsr_bytes(v: LsrView) -> Seq<u8> {
    ospf_header_bytes(v.header) + identifiers_bytes(v.lsr_entries)
}

/// Reads the request entries of `s` from `offset` on, after the entries `acc` already read:
/// an entry is read at every 20th byte (the size of an LSA header, not of an entry) until
/// the end of `s`; `None` where fewer than 12 bytes remain at one of them.
pub open spec fn parse_lsr_entries(s: Seq<u8>, offset: int, acc: Seq<LsaIdentifer>) -> Option<
    Seq<LsaIdentifer>,
>
    decreases s.len() - offset,
{
    if offset >= s.len() {
        Some(acc)
    } else {
        match parse_identifier(s.subrange(offset, s.len() as int)) {
            None => None,
            Some(id) => if offset + 20 >= s.len() {
                Some(acc.push(id))
            } else {
                parse_lsr_entries(s, offset + 20, acc.push(id))
            },
        }
    }
}

/// The link state request packet that `s` holds; `None` where `s` is shorter than a header
/// or an entry cannot be read.
pub open spec fn parse_lsr(s: Seq<u8>) -> Option<LsrView> {
    if s.len() < 24 {
        None
    } else {
        match parse_lsr_entries(s, 24, Seq::empty()) {
            None => None,
            Some(entries) => Some(
                LsrView { header: parse_ospf_header(s).unwrap(), lsr_entries: entries },
            ),
        }
    }
}

/// The request that an interface sends for `entries`: the interface's area and
/// authentication, this router's id, version 0 (the field is left unset), the length, and
/// the checksum of the wire form taken with a zero checksum field.
pub open spec fn spec_lsr_to_send(interface: Interface, router_id: u32, entries: Seq<LsaIdentifer>) -> LsrView {
    let unsummed = LsrView {
        header: OspfHeader {
            version: 0,
            packet_type: LSR_TYPE,
            packet_length: (24 + 12 * entries.len()) as u16,
            router_id,
            area_id: interface.area_id,
            checksum: 0,
            auth_type: interface.auth_type,
            authentication: interface.auth_key,
        },
        lsr_entries: entries,
    };
    LsrView {
        header: OspfHeader { checksum: ospf_checksum(lsr_bytes(unsummed)), ..unsummed.header },
        ..unsummed
    }
}

pub proof fn lemma_identifiers_bytes_len(ids: Seq<LsaIdentifer>)
    ensures
        identifiers_bytes(ids).len() == 12 * ids.len(),
    decreases ids.len(),
{
    if ids.len() > 0 {
        lemma_identifiers_bytes_len(ids.drop_last());
        lemma_parse_identifier_bytes(ids.last(), Seq::empty());
    }
}

/// A request with at most one entry is read back from its wire form. With two entries or
/// more it is not: entries are written 12 bytes apart but read 20 bytes apart.
pub proof fn lemma_parse_lsr_bytes(v: LsrView)
    requires
        v.lsr_entries.len() <= 1,
    ensures
        parse_lsr(lsr_bytes(v)) == Some(v),
{
    let s = lsr_bytes(v);
    lemma_identifiers_bytes_len(v.lsr_entries);
    lemma_parse_ospf_header_bytes(v.header, identifiers_bytes(v.lsr_entries));
    if v.lsr_entries.len() == 0 {
        assert(parse_lsr_entries(s, 24, Seq::empty()) == Some(Seq::<LsaIdentifer>::empty()));
        assert(v.lsr_entries == Seq::<LsaIdentifer>::empty());
    } else {
        let id = v.lsr_entries[0];
        assert(v.lsr_entries.drop_last() == Seq::<LsaIdentifer>::empty());
        assert(identifiers_bytes(Seq::<LsaIdentifer>::empty()) == Seq::<u8>::empty());
        assert(identifiers_bytes(v.lsr_entries) == Seq::<u8>::empty() + identifier_bytes(id));
        lemma_parse_identifier_bytes(id, Seq::empty());
        assert(s.subrange(24, s.len() as int) == identifier_bytes(id) + Seq::<u8>::empty());
        assert(parse_lsr_entries(s, 44, seq![id]) == Some(seq![id]));
        assert(Seq::<LsaIdentifer>::empty().push(id) == seq![id]);
        assert(v.lsr_entries == seq![id]);
    }
}

/// The checksum sum of a wire form does not depend on its checksum field.
proof fn lemma_same_but_checksum(p: Seq<u8>, q: Seq<u8>)
    requires
        p.len() == q.len(),
        p.len() >= 14,
        forall|i: int| 0 <= i < p.len() && i != 12 && i != 13 ==> p[i] == q[i],
    ensures
        checksum_sum(p, p.len() as int) == checksum_sum(q, q.len() as int),
        ospf_checksum(p) == ospf_checksum(q),
{
    crate::packet::lemma_checksum_sum_same(p, q, p.len() as int);
}

impl Lsr {
    /// Builds the request that interface `interface` sends for `lsr_entries`.
    pub fn new(interface: &Interface, router_id: u32, lsr_entries: Vec<LsaIdentifer>) -> (r: Self)
        requires
            24 + 12 * lsr_entries@.len() <= usize::MAX,
            checksum_sum(
                lsr_bytes(spec_lsr_to_send(*interface, router_id, lsr_entries@)),
                24 + 12 * lsr_entries@.len() as int,
            ) <= u32::MAX,
        ensures
            r@ == spec_lsr_to_send(*interface, router_id, lsr_entries@),
    {
        let mut packet = Self::empty();
        packet.header.router_id = router_id;
        packet.header.area_id = interface.area_id;
        packet.header.auth_type = interface.auth_type;
        packet.header.authentication = interface.auth_key;
        packet.header.packet_length = 0;
        packet.header.packet_type = LSR_TYPE;
        packet.lsr_entries = lsr_entries;
        packet.header.packet_length = packet.length() as u16;
        let bytes = packet.to_be_bytes();
        proof {
            lemma_identifiers_bytes_len(packet.lsr_entries@);
            lemma_same_but_checksum(
                lsr_bytes(spec_lsr_to_send(*interface, router_id, packet.lsr_entries@)),
                bytes@,
            );
        }
        packet.header.checksum = ospf_packet_checksum(bytes.as_slice());
        packet
    }

    pub fn empty() -> (r: Self)
        ensures
            r@ == (LsrView { header: empty_ospf_header(), lsr_entries: Seq::empty() }),
    {
        Self { header: OspfHeader::empty(), lsr_entries: Vec::new() }
    }

    pub fn get_neighbor_addr(&self, network_type: NetworkType, paddr: u32) -> (r: u32)
        ensures
            r == spec_neighbor_addr(network_type, self.header.router_id, paddr),
    {
        match network_type {
            NetworkType::Broadcast | NetworkType::NBMA | NetworkType::PointToMultipoint => paddr,
            _ => self.header.router_id,
        }
    }

    pub fn get_neighbor_id(&self, network_type: NetworkType, paddr: u32) -> (r: u32)
        ensures
            r == spec_neighbor_id(network_type, self.header.router_id, paddr),
    {
        match network_type {
            NetworkType::Broadcast | NetworkType::NBMA | NetworkType::PointToMultipoint => {
                self.header.router_id
            },
            _ => paddr,
        }
    }

    pub fn try_from_be_bytes(payload: &[u8]) -> (r: Option<Self>)
        ensures
            match r {
                Some(v) => parse_lsr(payload@) == Some(v@),
                None => parse_lsr(payload@) is None,
            },
    {
        if payload.len() < OspfHeader::length() {
            return None;
        }
        let header = match OspfHeader::try_from_be_bytes(&payload[0..24]) {
            Some(h) => h,
            None => return None,
        };
        proof {
            assert(payload@.subrange(0, 24).subrange(0, 24) == payload@.subrange(0, 24));
            crate::packet::lemma_parse_ospf_header_prefix(payload@.subrange(0, 24), payload@);
        }
        let mut lsa_entries: Vec<LsaIdentifer> = Vec::new();
        let mut offset: usize = 24;
        let len = payload.len();
        while offset < len
            invariant
                len == payload@.len(),
                offset >= 24,
                parse_lsr_entries(payload@, 24, Seq::empty()) == parse_lsr_entries(
                    payload@,
                    offset as int,
                    lsa_entries@,
                ),
            decreases len - offset,
        {
            let lsr_entry = match LsaIdentifer::try_from_be_bytes(&payload[offset..len]) {
                Some(e) => e,
                None => return None,
            };
            lsa_entries.push(lsr_entry);
            if len - offset <= 20 {
                offset = len;
            } else {
                offset = offset + 20;
            }
        }
        Some(Self { header, lsr_entries: lsa_entries })
    }

    pub fn length(&self) -> (r: usize)
        requires
            self@.size() <= usize::MAX,
        ensures
            r == self@.size(),
    {
        OspfHeader::length() + LsaIdentifer::length() * self.lsr_entries.len()
    }

    pub fn to_be_bytes(&self) -> (r: Vec<u8>)
        ensures
            r@ == lsr_bytes(self@),
    {
        let mut bytes = self.header.to_be_bytes();
        let ghost start = bytes@;
        let mut i: usize = 0;
        while i < self.lsr_entries.len()
            invariant
                i <= self.lsr_entries.len(),
                bytes@ == start + identifiers_bytes(self.lsr_entries@.take(i as int)),
            decreases self.lsr_entries.len() - i,
        {
            let eb = self.lsr_entries[i].to_be_bytes();
            let ghost before = bytes@;
            let mut k: usize = 0;
            while k < 12
                invariant
                    k <= 12,
                    bytes@ == before + eb@.take(k as int),
                decreases 12 - k,
            {
                bytes.push(eb[k]);
                k = k + 1;
                assert(eb@.take(k as int) == eb@.take(k - 1).push(eb@[k - 1]));
            }
            assert(eb@.take(12) == eb@);
            i = i + 1;
            assert(self.lsr_entries@.take(i as int).drop_last() == self.lsr_entries@.take(i - 1));
        }
        assert(self.lsr_entries@.take(i as int) == self.lsr_entries@);
        bytes
    }
}


/// What receiving a link state request leads to.
#[derive(Clone, Copy, PartialEq, Eq, Debug, Structural)]
pub enum LsrOutcome {
    /// The neighbor is not exchanging databases with this router: the request is dropped.
    Discarded,
    /// Some requested LSA is not in the database: the neighbor gets a `BadLSReq` event.
    BadLSReq,
    /// Every requested LSA is in the database: updates carrying them are sent.
    SendLsu,
}

/// Whether a neighbor in this state may request LSAs.
pub open spec fn may_request(s: Status) -> bool {
    s == Status::Exchange || s == Status::Loading || s == Status::Full
}

/// Requests are answered by a neighbor exactly in the states from `Exchange` up to `Full`:
/// while the databases are exchanged, while loading, and once fully adjacent.
pub proof fn lemma_requests_answered_from_exchange_to_full(s: Status)
    ensures
        may_request(s) <==> (Status::Exchange.rank() <= s.rank() <= Status::Full.rank()),
        may_request(Status::Full),
{
}

impl Lsr {
    /// Handles this request from the neighbor `state`: where the neighbor is exchanging,
    /// loading or full, the requested LSAs join its retransmission list and the request is
    /// answered as the area's database `lsdb` allows.
    pub fn received(&self, state: &mut NeighborState, lsdb: &LsaDb) -> (r: LsrOutcome)
        requires
            lsdb.wf(),
        ensures
            !may_request(old(state).status) ==> r == LsrOutcome::Discarded
                && final(state).retrans_list@ == old(state).retrans_list@,
            may_request(old(state).status) ==> {
                &&& final(state).retrans_list@ == old(state).retrans_list@ + self.lsr_entries@
                &&& r == if forall|i: int|
                    0 <= i < self.lsr_entries@.len() ==> lsdb@.contains(
                        #[trigger] self.lsr_entries@[i],
                    ) {
                    LsrOutcome::SendLsu
                } else {
                    LsrOutcome::BadLSReq
                }
            },
            (old(state).status == Status::Exchange || old(state).status == Status::Loading
                || old(state).status == Status::Full) ==> {
                &&& final(state).retrans_list@ == old(state).retrans_list@ + self.lsr_entries@
                &&& (forall|i: int|
                    0 <= i < self.lsr_entries@.len() ==> lsdb@.contains(
                        #[trigger] self.lsr_entries@[i],
                    )) ==> r == LsrOutcome::SendLsu
                &&& (exists|i: int|
                    0 <= i < self.lsr_entries@.len() && !lsdb@.contains(
                        #[trigger] self.lsr_entries@[i],
                    )) ==> r == LsrOutcome::BadLSReq
            },
            old(state).status.rank() < Status::Exchange.rank() || old(state).status
                == Status::Attempt ==> r == LsrOutcome::Discarded,
            final(state).naddr == old(state).naddr,
            final(state).neighbor == old(state).neighbor,
            final(state).status == old(state).status,
            final(state).summary_list@ == old(state).summary_list@,
            final(state).lsr_list@ == old(state).lsr_list@,
    {
        match state.status {
            Status::Exchange | Status::Loading | Status::Full => {
                let ids = self.lsr_entries.clone();
                assert(ids@ == self.lsr_entries@);
                state.fill_retrans_list(ids);
                let ids = self.lsr_entries.clone();
                assert(ids@ == self.lsr_entries@);
                match fetch_lsas(lsdb, ids) {
                    None => LsrOutcome::BadLSReq,
                    Some(_) => LsrOutcome::SendLsu,
                }
            },
            _ => LsrOutcome::Discarded,
        }
    }
}


/// Where a link state request goes: to the neighbor itself on point-to-point networks and
/// virtual links, to AllSPFRouters on the others.
pub open spec fn lsr_destination(network_type: NetworkType, naddr: u32) -> u32 {
    if network_type == NetworkType::PointToPoint || network_type == NetworkType::VirtualLink {
        naddr
    } else {
        crate::ALL_SPF_ROUTERS
    }
}

impl Lsr {
    /// The datagram that carries this request from interface `iaddr` towards neighbor `naddr`
    /// on a network of this type.
    pub fn build_ipv4_packet(&self, iaddr: u32, naddr: u32, network_type: NetworkType) -> (r: Vec<u8>)
        requires
            20 + lsr_bytes(self@).len() <= crate::IPV4_PACKET_MTU,
        ensures
            r@ == crate::packet::ipv4::ipv4_datagram(
                lsr_bytes(self@),
                iaddr,
                lsr_destination(network_type, naddr),
            ),
    {
        let destination = match network_type {
            NetworkType::PointToPoint | NetworkType::VirtualLink => naddr,
            _ => crate::ALL_SPF_ROUTERS,
        };
        let payload = self.to_be_bytes();
        crate::packet::ipv4::build_ipv4_datagram(&payload, iaddr, destination)
    }
}

} // verus!
