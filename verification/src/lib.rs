//! Carries iroh's QUIC over a pluggable datagram carrier. The library holds
//! the carrier seam, the address scheme, the send-side segmentation, the
//! receive-side batching, the in-memory carrier and the chat framing; the
//! iroh- and browser-facing glue lives beside it.

pub mod foreign;
pub mod datagram;
pub mod adapter;
pub mod chat;
pub mod registry;
pub mod in_memory;

pub use adapter::{addr_of, BackendTransport, TRANSPORT_ID};
pub use datagram::{DatagramBackend, DatagramReceiver, DatagramSender, Inbound, PeerKey};
