# rusty_enet

ENet — a thin, robust communication layer on top of UDP with optional reliable, in-order
delivery of packets — made agnostic to the underlying socket, with its protocol logic
stated in contracts and proved with Verus.

## Layout

- `src/` — the verified library.
  - `protocol.rs`: the wire format of datagram headers and protocol commands, with
    round-trip laws for commands, command sequences and headers.
  - `channel.rs`, `incoming.rs`, `fragment.rs`: sequencing of incoming commands per
    channel, reassembly of fragments, and the law that reliable delivery is in order.
  - `outgoing.rs`, `sending.rs`, `acknowledge.rs`, `timeouts.rs`: queueing, fragmenting and
    sending of outgoing commands, acknowledgements, retransmission and time outs.
  - `peer.rs`, `control.rs`, `handlers.rs`, `peer_api.rs`: the state of a peer, round trip
    times and throttling, and how each protocol command changes a peer.
  - `host.rs`, `dispatch.rs`, `throttle.rs`, `service.rs`: hosts, their counters of
    connected and bandwidth limited peers (kept by every operation), the dispatch of
    events, bandwidth throttling, and servicing a host over its socket at a given time.
  - `compressor.rs`: ENet's adaptive range coder.
  - `crc32.rs`, `os.rs`: the checksum and network byte order.
  - `connected.rs`, `connected_host.rs`, `read_write.rs`: hosts whose peers come over
    connections (TCP, WebRTC), through an in-memory socket.
- `tests/` — tests of the library, among them a simulated network of hosts.
- `app/` — what cannot be verified: a UDP and a TCP transport, the clock, and a host that
  owns its socket and reads the clock.

A host takes the current time (in milliseconds) and its socket as arguments of
`Host::service`, so that its logic stays a function of what it is given.
