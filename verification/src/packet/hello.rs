//! Hello packets: how neighbors are discovered and kept alive.
use vstd::prelude::*;

use crate::codec::{
    be16, be32, lemma_words_bytes_len, push_be16, push_be32, push_words, words_bytes,
};
use crate::interface::{Interface, NetworkType};
use crate::neighbor::{Neighbor, NeighborState};
use crate::packet::ipv4::{build_ipv4_datagram, ipv4_datagram};
use crate::{ALL_SPF_ROUTERS, IPV4_PACKET_MTU};
use crate::packet::{
    checksum_sum, empty_ospf_header, ospf_checksum, ospf_header_bytes, ospf_packet_checksum,
    OspfHeader,
};

verus! {

pub const HELLO_TYPE: u8 = 1;

/// A hello packet.
#[derive(Debug)]
pub struct Hello {
    pub header: OspfHeader,
    pub network_mask: u32,
    pub hello_interval: u16,
    pub options: u8,
    pub router_priority: u8,
    pub router_dead_interval: u32,
    pub designated_router: u32,
    pub backup_designated_router: u32,
    pub neighbors: Vec<u32>,
}

/// A hello packet as a mathematical value.
pub struct HelloView {
    pub header: OspfHeader,
    pub network_mask: u32,
    pub hello_interval: u16,
    pub options: u8,
    pub router_priority: u8,
    pub router_dead_interval: u32,
    pub designated_router: u32,
    pub backup_designated_router: u32,
    pub neighbors: Seq<u32>,
}

impl View for Hello {
    type V = HelloView;

    open spec fn view(&self) -> HelloView {
        HelloView {
            header: self.header,
            network_mask: self.network_mask,
            hello_interval: self.hello_interval,
            options: self.options,
            router_priority: self.router_priority,
            router_dead_interval: self.router_dead_interval,
            designated_router: self.designated_router,
            backup_designated_router: self.backup_designated_router,
            neighbors: self.neighbors@,
        }
    }
}

impl HelloView {
    /// How many bytes the packet takes on the wire.
    pub open spec fn size(self) -> int {
        44 + 4 * self.neighbors.len() as int
    }
}

/// The wire form of a hello packet.
pub open spec fn hello_bytes(v: HelloView) -> Seq<u8> {
    ospf_header_bytes(v.header) + be32(v.network_mask) + be16(v.hello_interval) + seq![
        v.options,
        v.router_priority,
    ] + be32(v.router_dead_interval) + be32(v.designated_router) + be32(
        v.backup_designated_router,
    ) + words_bytes(v.neighbors)
}

/// The hello packet with every field zero and no neighbors.
pub open spec fn empty_hello() -> HelloView {
    HelloView {
        header: empty_ospf_header(),
        network_mask: 0,
        hello_interval: 0,
        options: 0,
        router_priority: 0,
        router_dead_interval: 0,
        designated_router: 0,
        backup_designated_router: 0,
        neighbors: Seq::empty(),
    }
}

/// Which address a neighbor is filed under: on broadcast, NBMA and point-to-multipoint
/// networks the address the packet came from, elsewhere the sending router's id.
pub open spec fn spec_neighbor_addr(network_type: NetworkType, router_id: u32, paddr: u32) -> u32 {
    match network_type {
        NetworkType::Broadcast | NetworkType::NBMA | NetworkType::PointToMultipoint => paddr,
        _ => router_id,
    }
}

/// Which id a neighbor is known by: on broadcast, NBMA and point-to-multipoint networks the
/// sending router's id, elsewhere the address the packet came from.
pub open spec fn spec_neighbor_id(network_type: NetworkType, router_id: u32, paddr: u32) -> u32 {
    match network_type {
        NetworkType::Broadcast | NetworkType::NBMA | NetworkType::PointToMultipoint => router_id,
        _ => paddr,
    }
}

/// Whether a received hello agrees with the receiving interface: the OSPF version, the area,
/// the authentication, the network mask and both intervals must match, and the E option bit
/// must be set exactly when the area carries external routes.
pub open spec fn spec_hello_acceptable(
    v: HelloView,
    interface: Interface,
    external_routing_capability: bool,
) -> bool {
    &&& v.header.version == crate::OSPF_VERSION
    &&& v.header.area_id == interface.area_id
    &&& v.header.auth_type == interface.auth_type
    &&& v.header.authentication == interface.auth_key
    &&& v.network_mask == interface.mask
    &&& v.hello_interval == interface.hello_interval
    &&& v.router_dead_interval == interface.router_dead_interval
    &&& (v.options & crate::OPTION_E == crate::OPTION_E) == external_routing_capability
}

/// The hello that an interface sends: the interface's settings, this router's id, the
/// interface's designated and backup designated routers and its neighbors, the length, and
/// the checksum of the wire form taken with a zero checksum field.
pub open spec fn spec_hello_to_send(
    interface: Interface,
    router_id: u32,
    dr: u32,
    bdr: u32,
    neighbors: Seq<u32>,
) -> HelloView {
    let unsummed = HelloView {
        header: OspfHeader {
            version: crate::OSPF_VERSION,
            packet_type: HELLO_TYPE,
            packet_length: (44 + 4 * neighbors.len()) as u16,
            router_id,
            area_id: interface.area_id,
            checksum: 0,
            auth_type: interface.auth_type,
            authentication: interface.auth_key,
        },
        network_mask: interface.mask,
        hello_interval: interface.hello_interval,
        options: interface.options,
        router_priority: interface.router_priority,
        router_dead_interval: interface.router_dead_interval,
        designated_router: dr,
        backup_designated_router: bdr,
        neighbors,
    };
    HelloView {
        header: OspfHeader { checksum: ospf_checksum(hello_bytes(unsummed)), ..unsummed.header },
        ..unsummed
    }
}

/// What receiving an acceptable hello leads to.
pub struct HelloReceipt {
    /// The address the neighbor is filed under.
    pub naddr: u32,
    /// The id the neighbor is known by.
    pub neighbor_id: u32,
    /// The record to file, where the neighbor was not known yet.
    pub new_neighbor: Option<Neighbor>,
    /// Whether the hello lists the receiving interface (two-way), rather than not (one-way).
    pub two_way: bool,
}

/// What an acceptable hello from `paddr`, received on interface `iaddr` of the given network
/// type, leads to.
pub open spec fn spec_hello_receipt(
    v: HelloView,
    paddr: u32,
    iaddr: u32,
    network_type: NetworkType,
    neighbor_known: bool,
) -> HelloReceipt {
    let naddr = spec_neighbor_addr(network_type, v.header.router_id, paddr);
    let nid = spec_neighbor_id(network_type, v.header.router_id, paddr);
    HelloReceipt {
        naddr,
        neighbor_id: nid,
        new_neighbor: if neighbor_known {
            None
        } else {
            Some(
                Neighbor {
                    master: false,
                    dd_seq: 0,
                    id: nid,
                    priority: v.router_priority,
                    ipv4_addr: naddr,
                    options: v.options,
                    dr: v.designated_router,
                    bdr: v.backup_designated_router,
                },
            )
        },
        two_way: v.neighbors.contains(iaddr),
    }
}

impl Hello {
    pub fn empty() -> (r: Hello)
        ensures
            r@ == empty_hello(),
    {
        Hello {
            header: OspfHeader::empty(),
            network_mask: 0,
            hello_interval: 0,
            options: 0,
            router_priority: 0,
            router_dead_interval: 0,
            designated_router: 0,
            backup_designated_router: 0,
            neighbors: Vec::new(),
        }
    }

    pub fn to_be_bytes(&self) -> (r: Vec<u8>)
        ensures
            r@ == hello_bytes(self@),
    {
        let mut bytes = self.header.to_be_bytes();
        push_be32(&mut bytes, self.network_mask);
        push_be16(&mut bytes, self.hello_interval);
        bytes.push(self.options);
        bytes.push(self.router_priority);
        push_be32(&mut bytes, self.router_dead_interval);
        push_be32(&mut bytes, self.designated_router);
        push_be32(&mut bytes, self.backup_designated_router);
        push_words(&mut bytes, &self.neighbors);
        assert(bytes@ == hello_bytes(self@));
        bytes
    }

    pub fn length(&self) -> (r: usize)
        requires
            self@.size() <= usize::MAX,
        ensures
            r == self@.size(),
            r == hello_bytes(self@).len(),
    {
        proof {
            lemma_hello_bytes_len(self@);
        }
        44 + 4 * self.neighbors.len()
    }

    /// Reads a hello packet. Past a 24-byte header the reader of the neighbor list indexes
    /// beyond the end of every input, so only shorter inputs are read, and to no packet.
    pub fn try_from_be_bytes(payload: &[u8]) -> (r: Option<Self>)
        requires
            payload@.len() < 24,
        ensures
            r is None,
    {
        match OspfHeader::try_from_be_bytes(payload) {
            Some(_) => {},
            None => return None,
        }
        None
    }

    pub fn get_neighbor_addr(&self, network_type: NetworkType, paddr: u32) -> (r: u32)
        ensures
            r == spec_neighbor_addr(network_type, self.header.router_id, paddr),
    {
        match network_type {
            NetworkType::Broadcast | NetworkType::NBMA | NetworkType::PointToMultipoint => paddr,
            _ => self.header.router_id,
        }
    }

    pub fn get_neighbor_id(&self, network_type: NetworkType, paddr: u32) -> (r: u32)
        ensures
            r == spec_neighbor_id(network_type, self.header.router_id, paddr),
    {
        match network_type {
            NetworkType::Broadcast | NetworkType::NBMA | NetworkType::PointToMultipoint => {
                self.header.router_id
            },
            _ => paddr,
        }
    }

    /// Whether the hello agrees with the receiving interface and its area.
    pub fn checked(&self, interface: &Interface, external_routing_capability: bool) -> (r: bool)
        ensures
            r == spec_hello_acceptable(self@, *interface, external_routing_capability),
            r ==> self.header.version == 2 && self.header.area_id == interface.area_id
                && self.header.auth_type == interface.auth_type && self.header.authentication
                == interface.auth_key && self.network_mask == interface.mask && self.hello_interval
                == interface.hello_interval && self.router_dead_interval
                == interface.router_dead_interval,
    {
        if self.header.version != crate::OSPF_VERSION {
            return false;
        }
        if self.header.area_id != interface.area_id {
            return false;
        }
        if self.header.auth_type != interface.auth_type {
            return false;
        }
        if self.header.authentication != interface.auth_key {
            return false;
        }
        if self.network_mask != interface.mask {
            return false;
        }
        if self.hello_interval != interface.hello_interval {
            return false;
        }
        if self.router_dead_interval != interface.router_dead_interval {
            return false;
        }
        if self.options & crate::OPTION_E == crate::OPTION_E && !external_routing_capability
            || self.options & crate::OPTION_E == 0 && external_routing_capability {
            return false;
        }
        proof {
            let o = self.options;
            assert(o & 2 == 2 || o & 2 == 0) by (bit_vector);
        }
        true
    }

    /// Builds the hello that an interface sends.
    pub fn new(interface: &Interface, router_id: u32, dr: u32, bdr: u32, neighbors: Vec<u32>) -> (r:
        Self)
        requires
            44 + 4 * neighbors@.len() <= usize::MAX,
            checksum_sum(
                hello_bytes(spec_hello_to_send(*interface, router_id, dr, bdr, neighbors@)),
                44 + 4 * neighbors@.len() as int,
            ) <= u32::MAX,
        ensures
            r@ == spec_hello_to_send(*interface, router_id, dr, bdr, neighbors@),
    {
        let mut packet = Self::empty();
        packet.header.router_id = router_id;
        packet.header.area_id = interface.area_id;
        packet.header.version = crate::OSPF_VERSION;
        packet.header.auth_type = interface.auth_type;
        packet.header.authentication = interface.auth_key;
        packet.header.packet_type = HELLO_TYPE;
        packet.network_mask = interface.mask;
        packet.hello_interval = interface.hello_interval;
        packet.options = interface.options;
        packet.router_priority = interface.router_priority;
        packet.router_dead_interval = interface.router_dead_interval;
        packet.designated_router = dr;
        packet.backup_designated_router = bdr;
        packet.neighbors = neighbors;
        packet.header.packet_length = packet.length() as u16;
        let bytes = packet.to_be_bytes();
        proof {
            lemma_words_bytes_len(packet.neighbors@);
            lemma_checksum_sum_same_for_checksum(
                hello_bytes(spec_hello_to_send(*interface, router_id, dr, bdr, packet.neighbors@)),
                bytes@,
            );
        }
        packet.header.checksum = ospf_packet_checksum(bytes.as_slice());
        packet
    }

    /// Decides what an acceptable hello received on interface `iaddr` from `packet_source_addr`
    /// leads to; `None` where the hello does not agree with the interface and is dropped.
    pub fn received(
        &self,
        packet_source_addr: u32,
        iaddr: u32,
        interface: &Interface,
        external_routing_capability: bool,
        neighbor_known: bool,
    ) -> (r: Option<HelloReceipt>)
        ensures
            r == (if spec_hello_acceptable(self@, *interface, external_routing_capability) {
                Some(
                    spec_hello_receipt(
                        self@,
                        packet_source_addr,
                        iaddr,
                        interface.network_type,
                        neighbor_known,
                    ),
                )
            } else {
                None
            }),
            r is Some ==> self.hello_interval == interface.hello_interval
                && self.router_dead_interval == interface.router_dead_interval
                && self.network_mask == interface.mask && self.header.area_id == interface.area_id,
    {
        if !self.checked(interface, external_routing_capability) {
            return None;
        }
        let network_type = interface.network_type;
        let naddr = self.get_neighbor_addr(network_type, packet_source_addr);
        let neighbor_id = self.get_neighbor_id(network_type, packet_source_addr);
        let new_neighbor = if !neighbor_known {
            Some(Neighbor::from_hello_packet(self, naddr, neighbor_id))
        } else {
            None
        };
        let mut two_way = false;
        let mut i: usize = 0;
        while i < self.neighbors.len()
            invariant
                i <= self.neighbors.len(),
                two_way == self.neighbors@.take(i as int).contains(iaddr),
            decreases self.neighbors.len() - i,
        {
            let ghost prefix = self.neighbors@.take(i as int);
            if self.neighbors[i] == iaddr {
                two_way = true;
            }
            i = i + 1;
            assert(self.neighbors@.take(i as int) == prefix.push(self.neighbors@[i - 1]));
            proof {
                vstd::seq_lib::lemma_seq_contains_after_push(prefix, self.neighbors@[i - 1], iaddr);
            }
        }
        assert(self.neighbors@.take(i as int) == self.neighbors@);
        Some(HelloReceipt { naddr, neighbor_id, new_neighbor, two_way })
    }
}

/// A hello that disagrees with the receiving interface on the version, the area, the
/// authentication, the network mask, the hello interval or the dead interval, or whose E bit
/// disagrees with the area's external routing, is not acceptable.
pub proof fn lemma_mismatched_hello_rejected(v: HelloView, interface: Interface, external_routing_capability: bool)
    requires
        v.header.version != 2
            || v.header.area_id != interface.area_id
            || v.header.auth_type != interface.auth_type
            || v.header.authentication != interface.auth_key
            || v.network_mask != interface.mask
            || v.hello_interval != interface.hello_interval
            || v.router_dead_interval != interface.router_dead_interval
            || (v.options & 2 == 2) != external_routing_capability,
    ensures
        !spec_hello_acceptable(v, interface, external_routing_capability),
{
}

/// A hello that an interface sends is acceptable to an interface with the same settings
/// exactly when its E bit agrees with the area's external routing.
pub proof fn lemma_own_hello_acceptable(
    interface: Interface,
    router_id: u32,
    dr: u32,
    bdr: u32,
    neighbors: Seq<u32>,
    external_routing_capability: bool,
)
    ensures
        spec_hello_acceptable(
            spec_hello_to_send(interface, router_id, dr, bdr, neighbors),
            interface,
            external_routing_capability,
        ) == ((interface.options & 2 == 2) == external_routing_capability),
{
}

/// What an acceptable hello leads to: the hello is two-way exactly when it lists the
/// receiving interface's address; a record is made only for a neighbor not known yet, and it
/// carries the priority, options and designated and backup designated routers the hello
/// declares; on broadcast, NBMA and point-to-multipoint networks the neighbor is filed under
/// the packet's source address and known by the sending router's id.
pub proof fn lemma_hello_receipt(
    v: HelloView,
    paddr: u32,
    iaddr: u32,
    network_type: NetworkType,
    neighbor_known: bool,
)
    ensures
        ({
            let r = spec_hello_receipt(v, paddr, iaddr, network_type, neighbor_known);
            &&& r.two_way == (exists|k: int| 0 <= k < v.neighbors.len() && v.neighbors[k] == iaddr)
            &&& r.new_neighbor is Some == !neighbor_known
            &&& r.new_neighbor matches Some(n) ==> n.priority == v.router_priority && n.options
                == v.options && n.dr == v.designated_router && n.bdr == v.backup_designated_router
                && n.id == r.neighbor_id && n.ipv4_addr == r.naddr
            &&& (network_type == NetworkType::Broadcast || network_type == NetworkType::NBMA
                || network_type == NetworkType::PointToMultipoint) ==> r.naddr == paddr
                && r.neighbor_id == v.header.router_id
        }),
{
}

/// Two wire forms that differ at most in the checksum field have the same checksum sum.
proof fn lemma_checksum_sum_same_for_checksum(p: Seq<u8>, q: Seq<u8>)
    requires
        p.len() == q.len(),
        p.len() >= 14,
        forall|i: int| 0 <= i < p.len() && i != 12 && i != 13 ==> p[i] == q[i],
    ensures
        checksum_sum(p, p.len() as int) == checksum_sum(q, q.len() as int),
        ospf_checksum(p) == ospf_checksum(q),
{
    crate::packet::lemma_checksum_sum_same(p, q, p.len() as int);
}


impl Hello {
    /// Lists the neighbors filed on the interface, by address, after those already listed.
    pub fn add_neighbors(&mut self, neighbors: &Vec<NeighborState>)
        ensures
            final(self).neighbors@ == old(self).neighbors@ + neighbors@.map_values(
                |n: NeighborState| n.naddr,
            ),
            final(self).header == old(self).header,
            final(self).network_mask == old(self).network_mask,
            final(self).hello_interval == old(self).hello_interval,
            final(self).options == old(self).options,
            final(self).router_priority == old(self).router_priority,
            final(self).router_dead_interval == old(self).router_dead_interval,
            final(self).designated_router == old(self).designated_router,
            final(self).backup_designated_router == old(self).backup_designated_router,
    {
        let ghost start = self.neighbors@;
        let mut i: usize = 0;
        while i < neighbors.len()
            invariant
                i <= neighbors@.len(),
                self.header == old(self).header,
                self.network_mask == old(self).network_mask,
                self.hello_interval == old(self).hello_interval,
                self.options == old(self).options,
                self.router_priority == old(self).router_priority,
                self.router_dead_interval == old(self).router_dead_interval,
                self.designated_router == old(self).designated_router,
                self.backup_designated_router == old(self).backup_designated_router,
                start == old(self).neighbors@,
                self.neighbors@ == start + neighbors@.map_values(|n: NeighborState| n.naddr).take(
                    i as int,
                ),
            decreases neighbors@.len() - i,
        {
            self.neighbors.push(neighbors[i].naddr);
            i = i + 1;
            assert(self.neighbors@ =~= start + neighbors@.map_values(|n: NeighborState| n.naddr).take(
                i as int,
            ));
        }
        assert(neighbors@.map_values(|n: NeighborState| n.naddr).take(i as int) =~= neighbors@.map_values(
            |n: NeighborState| n.naddr,
        ));
    }
}


impl Hello {
    /// The datagram that carries this hello from `src_ipv4_addr` to AllSPFRouters, whatever
    /// the network type.
    pub fn build_ipv4_packet(&self, src_ipv4_addr: u32) -> (r: Vec<u8>)
        requires
            20 + hello_bytes(self@).len() <= IPV4_PACKET_MTU,
        ensures
            r@ == ipv4_datagram(hello_bytes(self@), src_ipv4_addr, ALL_SPF_ROUTERS),
    {
        let payload = self.to_be_bytes();
        build_ipv4_datagram(&payload, src_ipv4_addr, ALL_SPF_ROUTERS)
    }
}


/// A hello that an interface sends carries, in its checksum field, the checksum that its
/// receiver computes over its wire form.
pub proof fn lemma_sent_hello_checksum_verifies(
    interface: Interface,
    router_id: u32,
    dr: u32,
    bdr: u32,
    neighbors: Seq<u32>,
)
    ensures
        ({
            let v = spec_hello_to_send(interface, router_id, dr, bdr, neighbors);
            crate::packet::ospf_checksum(hello_bytes(v)) == v.header.checksum
        }),
{
    let v = spec_hello_to_send(interface, router_id, dr, bdr, neighbors);
    let u = HelloView { header: OspfHeader { checksum: 0, ..v.header }, ..v };
    let p = hello_bytes(u);
    let q = hello_bytes(v);
    assert(p.len() == q.len());
    assert forall|i: int| 0 <= i < p.len() && i != 12 && i != 13 implies p[i] == q[i] by {}
    crate::packet::lemma_checksum_sum_same(p, q, p.len() as int);
}


/// The wire form of a hello packet is as long as `length` reports: 44 bytes and 4 for each
/// neighbor.
pub proof fn lemma_hello_bytes_len(v: HelloView)
    ensures
        hello_bytes(v).len() == v.size(),
{
    lemma_words_bytes_len(v.neighbors);
}

} // verus!
