# iroh_webrtc_transport

Carries iroh's QUIC over a datagram carrier of your choice (in memory, a
native WebRTC data channel, or a browser `RTCDataChannel`), so that a browser
can be a first-class iroh peer.

Layout:

- `src/` — the verified library (Verus):
  - `datagram.rs`: the carrier seam (`DatagramBackend`, `DatagramReceiver`,
    `DatagramSender`, `Inbound`, `PeerKey`);
  - `adapter.rs`: the custom address scheme (`addr_of`, `key_of`), the cutting
    of a transmit into datagrams (`plan_transmit`), the receive batch
    (`RecvBatch`) and the bind-once transport (`BackendTransport`);
  - `registry.rs`: values keyed by peer, one per key;
  - `in_memory.rs`: the in-memory carrier (`MemNetwork` and its halves);
  - `chat.rs`: the chat's identities from seeds, its length-prefixed framing, and its reader's and writer's steps;
  - `foreign.rs`: the contracts given to the outside functions called.
- `app/` — ordinary Rust: iroh's custom-transport traits over the library,
  `build_endpoint`, the WebRTC carriers and the browser chat entry point.
- `tests/` — tests of the library.
