//! The datagram-carrier seam.
//!
//! iroh's custom transport is datagram-oriented: it hands over opaque
//! UDP-like packets to deliver and expects opaque packets back, each tagged
//! with a peer. These three traits name that contract so that the adapter is
//! generic over how datagrams travel. Peers are addressed by their iroh
//! endpoint public key.

use vstd::prelude::*;
use core::task::{Context, Poll};
use bytes::Bytes;

verus! {

/// Routing key for a peer: its iroh endpoint public key (32 bytes).
pub type PeerKey = [u8; 32];

/// An inbound datagram plus the peer it came from.
#[derive(Debug, Clone)]
pub struct Inbound {
    pub data: Bytes,
    pub from: PeerKey,
}

/// Receive half of a datagram carrier, polled by a single consumer.
///
/// Returns `Poll::Pending` (registering the waker) when idle, and
/// `Poll::Ready(None)` only on permanent closure; the adapter treats both as
/// "nothing to hand up now", never as an error.
pub trait DatagramReceiver: core::fmt::Debug + Send + Sync + 'static {
    fn poll_recv(&mut self, cx: &mut Context<'_>) -> Poll<Option<Inbound>>;
}

/// Send half of a datagram carrier, shared and callable concurrently.
///
/// Sends are best-effort and non-blocking: on backpressure, or towards a path
/// that is not established yet, the datagram is dropped. QUIC above
/// retransmits, so a dropped datagram is a delay, never data loss.
pub trait DatagramSender: Send + Sync + 'static {
    fn send(&self, dst: &PeerKey, data: &[u8]);
}

/// A datagram carrier bound to one local identity: a receive half, a
/// cloneable send half, and the local key.
pub trait DatagramBackend: Send + 'static {
    type Receiver: DatagramReceiver;
    type Sender: DatagramSender + Clone;

    /// The carrier's local key.
    spec fn spec_local_key(&self) -> PeerKey;

    /// The halves the carrier splits into.
    spec fn spec_split(self) -> (Self::Receiver, Self::Sender);

    /// The local peer key iroh advertises as this transport's address.
    fn local_key(&self) -> (k: PeerKey)
        ensures
            k == self.spec_local_key(),
    ;

    /// Consume the carrier into its receive and send halves; called once,
    /// when the endpoint is bound.
    fn split(self) -> (r: (Self::Receiver, Self::Sender))
        ensures
            r == self.spec_split(),
    ;
}

} // verus!
