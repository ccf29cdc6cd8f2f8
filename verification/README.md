# ospf

An OSPFv2 router whose protocol logic is verified with Verus.

## Layout

- `src/` — the verified library.
  - `codec.rs`: big- and little-endian byte encodings and their read-back lemmas.
  - `lsa/`: LSA headers and the router, network, summary and AS-external LSAs: wire forms,
    readers, Fletcher-16 checksums.
  - `packet/`: the OSPF header and checksum, the five packet types, the IPv4 datagrams and
    Ethernet frames that carry them, and how a received frame is classified.
  - `area/`: areas and the link-state database (four duplicate-free tables, with insertion,
    lookup, removal and aging).
  - `interface/`: interface configuration, the interface state machine, the election of the
    designated and backup designated routers, and the router-LSA built from the interfaces.
  - `neighbor/`: neighbor records, the neighbor state machine, and the per-neighbor
    retransmission, summary and request lists.
  - `rtable/`: the routing table and the graph built from the databases.
  - `router/`: the router's id, routing tables and named interfaces.
- `tests/` — tests of the library on concrete values.
- `app/` — the program: command line, datalink I/O, timers and tasks. It keeps the shared
  state and carries out what the library decides.

Addresses are held as host-order `u32` values throughout the library.

## Design notes

- The link-state tables, the graph and the neighbor lists are `Vec`s kept free of
  duplicate keys, viewed as `Map`s and `Set`s. Their keys are structs (an LSA identifier,
  a pair of graph nodes); with such keys a hashed map gives no usable specification of
  its contents, while a duplicate-free list proves every operation exactly.
- `DD::try_from_be_bytes` is a full reader of database description packets, given here so
  that a received DD can be taken apart and checked. It and the link state update reader
  read the wire forms that the writers produce: a DD packet is its 32 fixed bytes and one
  LSA header per whole 20 bytes; an update is its 28 fixed bytes and as many LSAs as it
  counts, each spanning the length in its header.
- Behaviour kept as the code has it, each stated in the contracts:
  - `ASExternalLSA::length` reports 33 + 12 per TOS entry, 3 bytes fewer than the wire form,
    so an update carrying one cannot be wrapped in a datagram;
  - an interface's area number is taken with its octets reversed;
  - the acknowledgment reader reads LSA headers from byte 0, across the OSPF header;
  - the request reader looks for entries 20 bytes apart, while they are written 12 apart;
  - the hello reader runs past the end of any input holding a whole OSPF header, so only
    shorter inputs are read (to nothing);
  - `NegotiationDone` moves a neighbor to `Exchange` from any state;
  - a link state request leaves its version field at 0.
