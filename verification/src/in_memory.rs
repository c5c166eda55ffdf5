//! The in-memory carrier: a shared registry of channels keyed by peer.
//! Reliable and ordered, stronger than a real datagram carrier, which
//! isolates the iroh/QUIC layering from transport flakiness.

use vstd::prelude::*;
use vstd::rwlock::{RwLock, RwLockPredicate};
use std::sync::Arc;
use core::task::{Context, Poll};
use tokio::sync::mpsc;
use crate::datagram::{DatagramBackend, DatagramReceiver, DatagramSender, Inbound, PeerKey};
use crate::registry::Registry;
use crate::foreign::{bytes_copy_from_slice, bytes_view, mpsc_channel, mpsc_poll_recv, mpsc_try_send};

verus! {

/// The capacity of each peer's inbound channel.
pub const CHANNEL_CAPACITY: usize = 1024;

/// The lock invariant of the shared registry. The registry keeps its own
/// well-formedness as a type invariant, so the lock adds nothing to it.
pub struct RegistryInv;

impl RwLockPredicate<Registry<mpsc::Sender<Inbound>>> for RegistryInv {
    open spec fn inv(self, v: Registry<mpsc::Sender<Inbound>>) -> bool {
        true
    }
}

/// A shared in-memory "wire". Cloning shares the same registry.
#[derive(Clone)]
pub struct MemNetwork {
    inner: Arc<RwLock<Registry<mpsc::Sender<Inbound>>, RegistryInv>>,
}

impl MemNetwork {
    /// A wire with no peer on it.
    pub fn new() -> (n: Self) {
        let reg: Registry<mpsc::Sender<Inbound>> = Registry::new();
        MemNetwork { inner: Arc::new(RwLock::new(reg, Ghost(RegistryInv))) }
    }

    /// Register `key` on the wire (replacing an earlier registration of it)
    /// and return its carrier, which receives what is sent to `key`: the
    /// registry the call leaves on the wire maps `key` to the sending end of
    /// the carrier's channel, and every other key as before.
    pub fn backend(&self, key: PeerKey) -> (b: MemBackend)
        ensures
            b.key() == key,
            b.wire() == *self,
            b.registration().contains_key(key@),
            b.registration()[key@] == b.sender_end(),
            exists|before: Map<Seq<u8>, mpsc::Sender<Inbound>>|
                b.registration() == before.insert(key@, b.sender_end()),
    {
        let (tx, rx) = mpsc_channel(CHANNEL_CAPACITY);
        let ghost sender_end = tx;
        let (mut reg, handle) = self.inner.acquire_write();
        let ghost before = reg.view();
        reg.insert(key, tx);
        let ghost after = reg.view();
        handle.release_write(reg);
        MemBackend {
            key,
            net: MemNetwork { inner: Arc::clone(&self.inner) },
            rx,
            registered: Ghost((after, sender_end)),
        }
    }
}

impl Default for MemNetwork {
    fn default() -> (n: Self) {
        MemNetwork::new()
    }
}

/// The carrier of one peer on an in-memory wire.
pub struct MemBackend {
    key: PeerKey,
    net: MemNetwork,
    rx: mpsc::Receiver<Inbound>,
    registered: Ghost<(Map<Seq<u8>, mpsc::Sender<Inbound>>, mpsc::Sender<Inbound>)>,
}

impl MemBackend {
    /// The peer key this carrier was registered under.
    pub closed spec fn key(&self) -> PeerKey {
        self.key
    }

    /// The channel this carrier receives on.
    pub closed spec fn receiver(&self) -> mpsc::Receiver<Inbound> {
        self.rx
    }

    /// The wire this carrier is on.
    pub closed spec fn wire(&self) -> MemNetwork {
        self.net
    }

    /// The wire's registry as this carrier's registration left it.
    pub closed spec fn registration(&self) -> Map<Seq<u8>, mpsc::Sender<Inbound>> {
        self.registered@.0
    }

    /// The sending end of the channel this carrier receives on, as it was
    /// put on the wire.
    pub closed spec fn sender_end(&self) -> mpsc::Sender<Inbound> {
        self.registered@.1
    }
}

impl DatagramBackend for MemBackend {
    type Receiver = MemReceiver;
    type Sender = MemSender;

    open spec fn spec_local_key(&self) -> PeerKey {
        self.key()
    }

    open spec fn spec_split(self) -> (MemReceiver, MemSender) {
        (MemReceiver::spec_new(self.receiver()), MemSender::spec_new(self.key(), self.wire()))
    }

    fn local_key(&self) -> (k: PeerKey) {
        self.key
    }

    /// The receive half takes this carrier's channel; the send half tags
    /// datagrams with this carrier's key and sends on this carrier's wire.
    fn split(self) -> (r: (MemReceiver, MemSender))
        ensures
            r.0.receiver() == self.receiver(),
            r.1.from() == self.key(),
            r.1.wire() == self.wire(),
    {
        (MemReceiver { rx: self.rx }, MemSender { from: self.key, net: self.net })
    }
}

/// The halves an in-memory carrier splits into: the receive half takes the
/// carrier's channel, the send half tags with the carrier's key and sends on
/// the carrier's wire.
pub proof fn lemma_split_halves(b: MemBackend)
    ensures
        b.spec_split().0.receiver() == b.receiver(),
        b.spec_split().1.from() == b.key(),
        b.spec_split().1.wire() == b.wire(),
{
}

/// The receive half of an in-memory carrier.
#[derive(Debug)]
pub struct MemReceiver {
    rx: mpsc::Receiver<Inbound>,
}

impl MemReceiver {
    /// The receive half over the given channel.
    pub closed spec fn spec_new(rx: mpsc::Receiver<Inbound>) -> MemReceiver {
        MemReceiver { rx }
    }

    /// The channel this half receives on.
    pub closed spec fn receiver(&self) -> mpsc::Receiver<Inbound> {
        self.rx
    }
}

impl DatagramReceiver for MemReceiver {
    fn poll_recv(&mut self, cx: &mut Context<'_>) -> Poll<Option<Inbound>> {
        mpsc_poll_recv(&mut self.rx, cx)
    }
}

/// The send half of an in-memory carrier.
#[derive(Clone)]
pub struct MemSender {
    from: PeerKey,
    net: MemNetwork,
}

impl MemSender {
    /// The send half tagging with `from` on the wire `net`.
    pub closed spec fn spec_new(from: PeerKey, net: MemNetwork) -> MemSender {
        MemSender { from, net }
    }

    /// The key this sender tags its datagrams with.
    pub closed spec fn from(&self) -> PeerKey {
        self.from
    }

    /// The wire this sender sends on.
    pub closed spec fn wire(&self) -> MemNetwork {
        self.net
    }

    /// The datagram this sender puts on the wire for `data`: a copy of it,
    /// tagged with this sender's own key.
    pub fn datagram(&self, data: &[u8]) -> (i: Inbound)
        ensures
            bytes_view(i.data) == data@,
            i.from == self.from(),
    {
        inbound_from(data, self.from)
    }
}

/// The datagram a sender hands to the wire: a copy of `data`, tagged with
/// the sender's own key.
pub fn inbound_from(data: &[u8], from: PeerKey) -> (i: Inbound)
    ensures
        bytes_view(i.data) == data@,
        i.from == from,
{
    Inbound { data: bytes_copy_from_slice(data), from }
}

impl MemSender {
    /// Where a datagram to `dst` goes on a registry: the channel registered
    /// for `dst` (none when `dst` is not on the wire), with this sender's
    /// datagram for `data`.
    pub fn route<'a>(&self, reg: &'a Registry<mpsc::Sender<Inbound>>, dst: &PeerKey, data: &[u8]) -> (r: Option<
        (&'a mpsc::Sender<Inbound>, Inbound),
    >)
        ensures
            r is Some <==> reg.view().contains_key(dst@),
            r matches Some((tx, i)) ==> *tx == reg.view()[dst@] && bytes_view(i.data) == data@
                && i.from == self.from(),
    {
        match reg.get(dst) {
            Some(tx) => Some((tx, self.datagram(data))),
            None => None,
        }
    }
}

impl DatagramSender for MemSender {
    /// Best effort: when `dst` is on the wire, the datagram that `route`
    /// gives (a copy of `data` tagged with this sender's key) is offered to
    /// its channel; when the channel is full the datagram is dropped (QUIC
    /// retransmits).
    fn send(&self, dst: &PeerKey, data: &[u8]) {
        let handle = self.net.inner.acquire_read();
        let reg = handle.borrow();
        match self.route(reg, dst, data) {
            Some((tx, datagram)) => {
                let _ = mpsc_try_send(tx, datagram);
            },
            None => {},
        }
        handle.release_read();
    }
}

} // verus!
