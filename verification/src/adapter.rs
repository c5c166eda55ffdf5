//! The carrier-to-iroh adapter: the custom address scheme, the cutting of a
//! transmit into datagrams, and the filling of a receive batch.

use vstd::prelude::*;
use crate::datagram::{DatagramBackend, Inbound, PeerKey};
use crate::foreign::bytes_view;

verus! {

/// Transport-type discriminator shared by every carrier of this crate
/// ("webr"). The data bytes of an address with this id are a `PeerKey`.
pub const TRANSPORT_ID: u64 = 0x7765_6272;

/// The parts of an iroh custom address: a transport id and opaque data.
#[derive(Debug, Clone)]
pub struct CustomAddrParts {
    pub id: u64,
    pub data: Vec<u8>,
}

impl View for CustomAddrParts {
    type V = (u64, Seq<u8>);

    open spec fn view(&self) -> (u64, Seq<u8>) {
        (self.id, self.data@)
    }
}

impl CustomAddrParts {
    /// A copy of this address.
    pub fn duplicate(&self) -> (c: CustomAddrParts)
        ensures
            c@ == self@,
    {
        CustomAddrParts { id: self.id, data: self.data.clone() }
    }
}

/// The address of a peer: this transport's id, the peer key as data.
pub open spec fn spec_addr_of(key: PeerKey) -> (u64, Seq<u8>) {
    (TRANSPORT_ID, key@)
}

/// The peer key that an address's data spells, if it is exactly one key long.
pub open spec fn spec_key_of(data: Seq<u8>) -> Option<Seq<u8>> {
    if data.len() == 32 {
        Some(data)
    } else {
        None
    }
}

/// Build the custom address for a peer key.
pub fn addr_of(key: &PeerKey) -> (a: CustomAddrParts)
    ensures
        a@ == spec_addr_of(*key),
        a.id == 0x7765_6272,
        a.data@ == key@,
{
    let mut data: Vec<u8> = Vec::new();
    let mut i: usize = 0;
    while i < 32
        invariant
            i <= 32,
            data@ == key@.take(i as int),
        decreases 32 - i,
    {
        data.push(key[i]);
        i = i + 1;
        assert(data@ =~= key@.take(i as int));
    }
    assert(key@.take(32) =~= key@);
    CustomAddrParts { id: TRANSPORT_ID, data }
}

/// The peer key held by an address's data, when the data is exactly 32 bytes.
pub fn key_of(addr: &CustomAddrParts) -> (k: Option<PeerKey>)
    ensures
        k matches Some(key) ==> spec_key_of(addr.data@) == Some(key@),
        k is None <==> spec_key_of(addr.data@) is None,
        k is Some <==> addr.data@.len() == 32,
        k matches Some(key) ==> key@ == addr.data@,
{
    if addr.data.len() != 32 {
        return None;
    }
    let mut key: PeerKey = [0u8; 32];
    let mut i: usize = 0;
    while i < 32
        invariant
            i <= 32,
            addr.data@.len() == 32,
            key@.len() == 32,
            forall|j: int| 0 <= j < i ==> key@[j] == addr.data@[j],
        decreases 32 - i,
    {
        key[i] = addr.data[i];
        i = i + 1;
    }
    assert(key@ =~= addr.data@);
    Some(key)
}

/// Whether a sender of this crate can send to `addr`: its id is this transport's.
pub fn is_valid_send_addr(addr: &CustomAddrParts) -> (b: bool)
    ensures
        b == (addr.id == TRANSPORT_ID),
{
    addr.id == TRANSPORT_ID
}

/// This transport's id is the four ASCII bytes "webr", big-endian.
pub proof fn lemma_transport_id_spells_webr()
    ensures
        TRANSPORT_ID == 0x77 * 16777216 + 0x65 * 65536 + 0x62 * 256 + 0x72,
{
}

/// Address and key agree: the key read back from a peer's address is the peer's key,
/// and a sender of this crate accepts that address.
pub proof fn lemma_addr_key_round_trip(key: PeerKey)
    ensures
        spec_key_of(spec_addr_of(key).1) == Some(key@),
        spec_addr_of(key).0 == TRANSPORT_ID,
{
}


/// The size of the datagrams a transmit is cut into: its segment size, or
/// the whole transmit when it has none, and never less than one byte.
pub open spec fn spec_segment_len(len: nat, segment_size: Option<usize>) -> nat {
    let seg: nat = match segment_size {
        Some(s) => s as nat,
        None => len,
    };
    if seg == 0 { 1 } else { seg }
}

/// `s` cut into consecutive pieces of `n` bytes, the last one possibly shorter
/// (no piece for an empty `s`), as `<[u8]>::chunks` cuts it.
pub open spec fn chunks(s: Seq<u8>, n: nat) -> Seq<Seq<u8>>
    decreases s.len(),
{
    if s.len() == 0 || n == 0 {
        Seq::empty()
    } else if s.len() <= n {
        seq![s]
    } else {
        seq![s.take(n as int)] + chunks(s.skip(n as int), n)
    }
}

/// The datagrams of a transmit sent to `dst`: none when `dst` carries no peer key.
pub open spec fn spec_transmit_datagrams(
    dst: Seq<u8>,
    contents: Seq<u8>,
    segment_size: Option<usize>,
) -> Seq<Seq<u8>> {
    if spec_key_of(dst) is Some {
        chunks(contents, spec_segment_len(contents.len(), segment_size))
    } else {
        Seq::empty()
    }
}

/// The size of the datagrams a transmit of `len` bytes is cut into.
pub fn segment_len(len: usize, segment_size: Option<usize>) -> (n: usize)
    ensures
        n == spec_segment_len(len as nat, segment_size),
        n >= 1,
        segment_size matches Some(sz) ==> (sz >= 1 ==> n == sz),
        segment_size matches Some(sz) ==> (sz == 0 ==> n == 1),
        segment_size is None ==> n == (if len == 0 { 1 } else { len }),
{
    let seg = match segment_size {
        Some(s) => s,
        None => len,
    };
    if seg == 0 { 1 } else { seg }
}

/// A given segment size is the datagram size (a size of zero counts as
/// one byte); without one, the whole transmit is one datagram.
pub proof fn lemma_segment_size_honoured(len: nat, segment_size: Option<usize>)
    ensures
        segment_size matches Some(sz) ==> (sz >= 1 ==> spec_segment_len(len, segment_size) == sz),
        segment_size matches Some(sz) ==> (sz == 0 ==> spec_segment_len(len, segment_size) == 1),
        segment_size is None && len >= 1 ==> spec_segment_len(len, segment_size) == len,
        segment_size is None && len == 0 ==> spec_segment_len(len, segment_size) == 1,
{
}

proof fn lemma_chunks_step(s: Seq<u8>, pos: int, n: nat)
    requires
        0 <= pos < s.len(),
        n > 0,
    ensures
        chunks(s.skip(pos), n) == (if s.len() - pos <= n {
            seq![s.subrange(pos, s.len() as int)]
        } else {
            seq![s.subrange(pos, pos + n)] + chunks(s.skip(pos + n), n)
        }),
{
    let t = s.skip(pos);
    if s.len() - pos <= n {
        assert(t =~= s.subrange(pos, s.len() as int));
    } else {
        assert(t.take(n as int) =~= s.subrange(pos, pos + n));
        assert(t.skip(n as int) =~= s.skip(pos + n));
    }
}

/// How a transmit goes out: the peer key it is sent to, and the byte ranges
/// of the contents that form its datagrams, in order.
#[derive(Debug)]
pub struct TransmitPlan {
    pub key: PeerKey,
    pub ranges: Vec<(usize, usize)>,
}

/// Plan one transmit for the carrier: `None` when `dst` carries no peer key
/// (nothing is sent); otherwise that key and the ranges of the consecutive
/// datagrams of the segment size, in order, each to be handed to the
/// carrier's `send` with the key. An empty transmit has no datagram.
pub fn plan_transmit(
    dst: &CustomAddrParts,
    contents: &[u8],
    segment_size: Option<usize>,
) -> (r: Option<TransmitPlan>)
    ensures
        r is None <==> spec_key_of(dst.data@) is None,
        r matches Some(p) ==> {
            let pieces = spec_transmit_datagrams(dst.data@, contents@, segment_size);
            &&& p.key@ == dst.data@
            &&& p.ranges@.len() == pieces.len()
            &&& forall|i: int|
                #![trigger p.ranges@[i]]
                0 <= i < p.ranges@.len() ==> p.ranges@[i].0 <= p.ranges@[i].1 <= contents@.len()
                    && contents@.subrange(p.ranges@[i].0 as int, p.ranges@[i].1 as int) == pieces[i]
        },
        r matches Some(p) ==> {
            &&& (p.ranges@.len() == 0 <==> contents@.len() == 0)
            &&& p.ranges@.len() > 0 ==> p.ranges@[0].0 == 0 && p.ranges@.last().1 == contents@.len()
            &&& forall|i: int|
                #![trigger p.ranges@[i]]
                0 <= i < p.ranges@.len() ==> p.ranges@[i].0 < p.ranges@[i].1
            &&& forall|i: int|
                0 <= i < p.ranges@.len() - 1 ==> (#[trigger] p.ranges@[i]).1 == p.ranges@[i + 1].0
            &&& forall|i: int|
                #![trigger p.ranges@[i]]
                0 <= i < p.ranges@.len() ==> (segment_size matches Some(sz) ==> (sz >= 1 ==> p.ranges@[i].1
                    - p.ranges@[i].0 <= sz && (i < p.ranges@.len() - 1 ==> p.ranges@[i].1 - p.ranges@[i].0
                    == sz)))
            &&& forall|i: int|
                #![trigger p.ranges@[i]]
                0 <= i < p.ranges@.len() ==> (segment_size matches Some(sz) ==> (sz == 0 ==> p.ranges@[i].1
                    - p.ranges@[i].0 == 1))
            &&& segment_size is None ==> p.ranges@.len() <= 1
        },
{
    let key = match key_of(dst) {
        Some(k) => k,
        None => return None,
    };
    assert(key@ =~= dst.data@);
    let len = contents.len();
    let seg = segment_len(len, segment_size);
    let ghost n: nat = seg as nat;
    let ghost pieces = chunks(contents@, n);
    let mut ranges: Vec<(usize, usize)> = Vec::new();
    let mut pos: usize = 0;
    assert(contents@.skip(0) =~= contents@);
    while pos < len
        invariant
            pos <= len,
            len == contents@.len(),
            seg == n,
            n >= 1,
            pieces == chunks(contents@, n),
            ranges@.len() + chunks(contents@.skip(pos as int), n).len() == pieces.len(),
            forall|i: int|
                #![trigger ranges@[i]]
                0 <= i < ranges@.len() ==> ranges@[i].0 <= ranges@[i].1 <= len && contents@.subrange(
                    ranges@[i].0 as int,
                    ranges@[i].1 as int,
                ) == pieces[i],
            forall|i: int|
                0 <= i < chunks(contents@.skip(pos as int), n).len() ==> #[trigger] chunks(
                    contents@.skip(pos as int),
                    n,
                )[i] == pieces[ranges@.len() + i],
            segment_size matches Some(sz) ==> (sz >= 1 ==> seg == sz),
            segment_size matches Some(sz) ==> (sz == 0 ==> seg == 1),
            segment_size is None ==> seg == (if len == 0 { 1 } else { len }),
            ranges@.len() == 0 ==> pos == 0,
            ranges@.len() > 0 ==> ranges@[0].0 == 0 && ranges@.last().1 == pos,
            forall|i: int|
                0 <= i < ranges@.len() - 1 ==> (#[trigger] ranges@[i]).1 == ranges@[i + 1].0,
            forall|i: int|
                #![trigger ranges@[i]]
                0 <= i < ranges@.len() ==> ranges@[i].0 < ranges@[i].1 && ranges@[i].1 - ranges@[i].0
                    <= seg && (ranges@[i].1 - ranges@[i].0 == seg || ranges@[i].1 == len),
            segment_size is None ==> ranges@.len() <= 1,
            segment_size is None && ranges@.len() > 0 ==> pos == len,
        decreases len - pos,
    {
        let end = if len - pos <= seg { len } else { pos + seg };
        proof {
            lemma_chunks_step(contents@, pos as int, n);
            let here = chunks(contents@.skip(pos as int), n);
            let rest = chunks(contents@.skip(end as int), n);
            if end == len {
                assert(contents@.skip(end as int) =~= Seq::<u8>::empty());
                assert(rest =~= Seq::<Seq<u8>>::empty());
            }
            assert(here[0] == pieces[ranges@.len() as int]);
            assert forall|i: int| 0 <= i < rest.len() implies #[trigger] rest[i] == pieces[ranges@.len() + 1 + i] by {
                assert(rest[i] == here[i + 1]);
            }
        }
        ranges.push((pos, end));
        pos = end;
    }
    assert(contents@.skip(len as int) =~= Seq::<u8>::empty());
    assert forall|i: int| 0 <= i < ranges@.len() - 1 implies ranges@[i].1 != len by {
        assert(ranges@[i].1 == ranges@[i + 1].0);
    }
    Some(TransmitPlan { key, ranges })
}

/// The datagrams of a transmit put back together give the transmit; each is
/// non-empty and at most one segment long, all but the last exactly one
/// segment long, and there are as many as the length divided by the segment
/// size, rounded up.
pub proof fn lemma_chunks_reassemble(s: Seq<u8>, n: nat)
    requires
        n > 0,
    ensures
        chunks(s, n).flatten() == s,
        chunks(s, n).len() == (s.len() + n - 1) / (n as int),
        forall|i: int| 0 <= i < chunks(s, n).len() ==> 0 < #[trigger] chunks(s, n)[i].len() <= n,
        forall|i: int| 0 <= i < chunks(s, n).len() - 1 ==> #[trigger] chunks(s, n)[i].len() == n,
    decreases s.len(),
{
    let c = chunks(s, n);
    if s.len() == 0 {
        assert(c.flatten() =~= s);
        assert((s.len() + n - 1) / (n as int) == 0) by (nonlinear_arith)
            requires s.len() == 0, n > 0;
    } else if s.len() <= n {
        assert(c.drop_first() =~= Seq::<Seq<u8>>::empty());
        assert(c.drop_first().flatten() =~= Seq::<u8>::empty());
        assert(c.flatten() =~= s);
        assert((s.len() + n - 1) / (n as int) == 1) by (nonlinear_arith)
            requires 0 < s.len() <= n;
    } else {
        let rest = s.skip(n as int);
        lemma_chunks_reassemble(rest, n);
        assert(c.drop_first() =~= chunks(rest, n));
        assert(c.first() =~= s.take(n as int));
        assert(s.take(n as int) + rest =~= s);
        let l = s.len() as int;
        assert((l - n + n - 1) / (n as int) + 1 == (l + n - 1) / (n as int)) by (nonlinear_arith)
            requires l > n, n > 0;
        assert forall|i: int| 0 <= i < c.len() implies 0 < #[trigger] c[i].len() <= n by {
            if i > 0 {
                assert(c[i] == chunks(rest, n)[i - 1]);
            }
        }
        assert forall|i: int| 0 <= i < c.len() - 1 implies #[trigger] c[i].len() == n by {
            if i > 0 {
                assert(c[i] == chunks(rest, n)[i - 1]);
            }
        }
    }
}

/// How a receive poll ends: nothing handed up yet, or this many slots filled.
#[derive(Debug, Clone, Copy, PartialEq, Eq)]
pub enum RecvOutcome {
    Pending,
    Ready(usize),
}

/// What one poll of the carrier's receive half gave.
#[derive(Debug)]
pub enum Polled {
    /// A datagram.
    Datagram(Inbound),
    /// The receive half is closed for good.
    Closed,
    /// Nothing yet (the waker is registered).
    Idle,
}

/// A receive batch being filled: the sizes of the slots that iroh offers,
/// and the datagrams stored so far, datagram `i` in slot `i`.
#[derive(Debug)]
pub struct RecvBatch {
    slot_lens: Vec<usize>,
    filled: Vec<Inbound>,
}

/// Whether a datagram of `len` bytes is stored when `count` slots of `lens`
/// are already filled: there is a next slot and the datagram fits in it.
pub open spec fn spec_fits(lens: Seq<usize>, count: nat, len: nat) -> bool {
    count < lens.len() && len <= lens[count as int]
}

/// The datagrams stored when `offered` is offered, in order, to an empty
/// batch of slots of sizes `lens`: each one that fits the next free slot is
/// stored there, the others are dropped.
pub open spec fn spec_fill(lens: Seq<usize>, offered: Seq<Seq<u8>>) -> Seq<Seq<u8>>
    decreases offered.len(),
{
    if offered.len() == 0 {
        Seq::empty()
    } else {
        let before = spec_fill(lens, offered.drop_last());
        if spec_fits(lens, before.len(), offered.last().len()) {
            before.push(offered.last())
        } else {
            before
        }
    }
}

/// At most one datagram per slot, each within its slot.
pub open spec fn fits_slots(stored: Seq<(Seq<u8>, PeerKey)>, lens: Seq<usize>) -> bool {
    &&& stored.len() <= lens.len()
    &&& forall|i: int| 0 <= i < stored.len() ==> (#[trigger] stored[i]).0.len() <= lens[i]
}

impl RecvBatch {
    /// The sizes of the slots.
    pub closed spec fn lens(&self) -> Seq<usize> {
        self.slot_lens@
    }

    /// The stored datagrams: their bytes and the peer each came from.
    pub closed spec fn stored(&self) -> Seq<(Seq<u8>, PeerKey)> {
        self.filled@.map_values(|i: Inbound| (bytes_view(i.data), i.from))
    }

    #[verifier::type_invariant]
    spec fn wf(self) -> bool {
        fits_slots(self.stored(), self.lens())
    }

    /// An empty batch over slots of the given sizes.
    pub fn new(slot_lens: Vec<usize>) -> (b: RecvBatch)
        ensures
            b.lens() == slot_lens@,
            b.stored() == Seq::<(Seq<u8>, PeerKey)>::empty(),
    {
        let b = RecvBatch { slot_lens, filled: Vec::new() };
        assert(b.stored() =~= Seq::<(Seq<u8>, PeerKey)>::empty());
        b
    }

    /// Whether every slot is filled, so that no further datagram is taken.
    pub fn is_full(&self) -> (full: bool)
        ensures
            full == (self.stored().len() >= self.lens().len()),
    {
        self.filled.len() >= self.slot_lens.len()
    }

    /// The number of filled slots.
    pub fn count(&self) -> (n: usize)
        ensures
            n == self.stored().len(),
    {
        self.filled.len()
    }

    /// Offer a received datagram: it is stored in the next free slot when it
    /// fits there, and dropped otherwise (QUIC retransmits).
    pub fn offer(&mut self, inb: Inbound) -> (stored: bool)
        ensures
            stored == spec_fits(old(self).lens(), old(self).stored().len(), bytes_view(inb.data).len()),
            stored == (old(self).stored().len() < old(self).lens().len() && bytes_view(inb.data).len()
                <= old(self).lens()[old(self).stored().len() as int]),
            final(self).lens() == old(self).lens(),
            final(self).stored() == (if stored {
                old(self).stored().push((bytes_view(inb.data), inb.from))
            } else {
                old(self).stored()
            }),
    {
        let mut taken = RecvBatch::new(Vec::new());
        core::mem::swap(self, &mut taken);
        proof {
            use_type_invariant(&taken);
        }
        let RecvBatch { slot_lens, mut filled } = taken;
        let count = filled.len();
        let len = crate::foreign::bytes_len(&inb.data);
        let stored = count < slot_lens.len() && len <= slot_lens[count];
        let ghost before = filled@.map_values(|i: Inbound| (bytes_view(i.data), i.from));
        let ghost item = (bytes_view(inb.data), inb.from);
        if stored {
            filled.push(inb);
            assert(filled@.map_values(|i: Inbound| (bytes_view(i.data), i.from)) =~= before.push(item));
        }
        *self = RecvBatch { slot_lens, filled };
        stored
    }

    /// Take the result of one poll of the carrier. A datagram is offered as
    /// `offer` does; a closed or idle carrier changes nothing (a closed one
    /// counts as idle, never as an error). The result says whether to poll
    /// again: only after a datagram, and only while a slot is free.
    pub fn step(&mut self, polled: Polled) -> (go_on: bool)
        ensures
            final(self).lens() == old(self).lens(),
            polled matches Polled::Datagram(inb) ==> final(self).stored() == (if spec_fits(
                old(self).lens(),
                old(self).stored().len(),
                bytes_view(inb.data).len(),
            ) {
                old(self).stored().push((bytes_view(inb.data), inb.from))
            } else {
                old(self).stored()
            }),
            !(polled is Datagram) ==> final(self).stored() == old(self).stored(),
            go_on == (polled is Datagram && final(self).stored().len() < final(self).lens().len()),
    {
        match polled {
            Polled::Datagram(inb) => {
                self.offer(inb);
                !self.is_full()
            },
            Polled::Closed => false,
            Polled::Idle => false,
        }
    }

    /// How the poll ends: `Pending` when no slot is filled, else the number
    /// of filled slots (never a ready count of zero).
    pub fn outcome(&self) -> (o: RecvOutcome)
        ensures
            o == (if self.stored().len() == 0 {
                RecvOutcome::Pending
            } else {
                RecvOutcome::Ready(self.stored().len() as usize)
            }),
    {
        let n = self.filled.len();
        if n == 0 {
            RecvOutcome::Pending
        } else {
            RecvOutcome::Ready(n)
        }
    }

    /// The stored datagrams, datagram `i` for slot `i`.
    pub fn into_filled(self) -> (v: Vec<Inbound>)
        ensures
            v@.map_values(|i: Inbound| (bytes_view(i.data), i.from)) == self.stored(),
            fits_slots(self.stored(), self.lens()),
    {
        proof {
            use_type_invariant(&self);
        }
        let RecvBatch { slot_lens, filled } = self;
        filled
    }
}

/// Offering one more datagram to a batch that holds what `spec_fill` keeps of
/// the datagrams offered so far leaves it holding what `spec_fill` keeps of
/// them all, so a batch filled by `offer` holds exactly `spec_fill` of the
/// datagrams received, in the order received.
pub proof fn lemma_offer_follows_fill(
    lens: Seq<usize>,
    offered: Seq<Seq<u8>>,
    before: Seq<Seq<u8>>,
    d: Seq<u8>,
)
    requires
        before == spec_fill(lens, offered),
    ensures
        spec_fill(lens, offered.push(d)) == (if spec_fits(lens, before.len(), d.len()) {
            before.push(d)
        } else {
            before
        }),
{
    assert(offered.push(d).drop_last() =~= offered);
}

/// What `spec_fill` keeps fills at most every slot, each datagram within
/// the slot it lands in.
pub proof fn lemma_fill_within_slots(lens: Seq<usize>, offered: Seq<Seq<u8>>)
    ensures
        spec_fill(lens, offered).len() <= lens.len(),
        forall|i: int|
            0 <= i < spec_fill(lens, offered).len() ==> #[trigger] spec_fill(lens, offered)[i].len()
                <= lens[i],
    decreases offered.len(),
{
    if offered.len() > 0 {
        lemma_fill_within_slots(lens, offered.drop_last());
    }
}


/// Why a transport could not be bound.
#[derive(Debug, Clone, Copy, PartialEq, Eq)]
pub enum BindError {
    /// The carrier's halves were already handed to an earlier bind.
    AlreadyBound,
}

/// The iroh custom-transport factory over a carrier: it advertises the
/// carrier's key, and the carrier waits here until the one bind splits it.
pub struct BackendTransport<B: DatagramBackend> {
    local: CustomAddrParts,
    backend: Option<B>,
}

/// A bound endpoint: the local address, and the carrier's receive and send halves.
#[derive(Debug)]
pub struct BackendEndpoint<R, S> {
    pub local: CustomAddrParts,
    pub rx: R,
    pub tx: S,
}

impl<B: DatagramBackend> BackendTransport<B> {
    /// The address this transport advertises.
    pub closed spec fn local_addr(&self) -> (u64, Seq<u8>) {
        self.local@
    }

    /// Whether a bind has taken the carrier.
    pub closed spec fn is_bound(&self) -> bool {
        self.backend is None
    }

    /// The carrier waiting for the bind, while not yet bound.
    pub closed spec fn parked(&self) -> B
        recommends
            !self.is_bound(),
    {
        self.backend->0
    }

    /// The transport once a bind has taken its carrier.
    pub closed spec fn spec_bound(self) -> Self {
        BackendTransport { local: self.local, backend: None }
    }

    /// Park a carrier: the transport advertises the address of the carrier's
    /// local key, and keeps the carrier, unsplit, for the bind.
    pub fn new(backend: B) -> (t: Self)
        ensures
            !t.is_bound(),
            t.local_addr() == spec_addr_of(backend.spec_local_key()),
            t.parked() == backend,
    {
        let key = backend.local_key();
        let local = addr_of(&key);
        BackendTransport { local, backend: Some(backend) }
    }

    /// The address this transport advertises.
    pub fn local(&self) -> (a: &CustomAddrParts)
        ensures
            a@ == self.local_addr(),
    {
        &self.local
    }

    /// Split the parked carrier and hand its halves to a new endpoint at
    /// this transport's address. Only the first bind succeeds (the carrier is
    /// split exactly once); every later one fails with `AlreadyBound` and
    /// changes nothing.
    pub fn bind(&mut self) -> (r: Result<BackendEndpoint<B::Receiver, B::Sender>, BindError>)
        ensures
            r is Ok <==> !old(self).is_bound(),
            r matches Err(e) ==> e == BindError::AlreadyBound,
            r matches Ok(ep) ==> ep.local@ == old(self).local_addr() && (ep.rx, ep.tx) == old(
                self,
            ).parked().spec_split(),
            *final(self) == old(self).spec_bound(),
            final(self).is_bound(),
            final(self).local_addr() == old(self).local_addr(),
    {
        match self.backend.take() {
            Some(backend) => {
                let (rx, tx) = backend.split();
                Ok(BackendEndpoint { local: self.local.duplicate(), rx, tx })
            },
            None => Err(BindError::AlreadyBound),
        }
    }
}

/// A transport binds once: after a bind it is bound and keeps its address,
/// so every later bind fails, and a failed bind leaves it as it was.
pub proof fn lemma_bind_once<B: DatagramBackend>(t: BackendTransport<B>)
    ensures
        t.spec_bound().is_bound(),
        t.spec_bound().local_addr() == t.local_addr(),
        t.spec_bound().spec_bound() == t.spec_bound(),
{
}

} // verus!
