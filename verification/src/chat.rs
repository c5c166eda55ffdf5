//! The chat's wire format and the decisions of its reader: messages travel
//! on one QUIC stream as frames of a 4-byte big-endian length followed by
//! the UTF-8 text; a zero-length frame primes the stream and is skipped.

use vstd::prelude::*;
use vstd::utf8::{decode_utf8, encode_utf8, valid_utf8};
use crate::foreign::{ed25519_public_key, lossy_utf8, public_key_of, utf8_lossy_string};

verus! {

/// The largest message body a reader accepts, in bytes.
pub const MAX_MSG: usize = 1048576;

/// The secret-key bytes a chat seed stands for: the seed, 32 times.
pub open spec fn spec_seed_secret(seed: u8) -> Seq<u8> {
    Seq::new(32, |_i: int| seed)
}

/// The identities of a chat between two pages that know each other's seed:
/// this side's secret-key bytes (its seed, 32 times), this side's public key,
/// and the other side's public key, derived the same way from its seed. The
/// two sides swap seeds, so each knows both public keys without discovery.
pub fn chat_identities(my_seed: u8, remote_seed: u8) -> (r: ([u8; 32], [u8; 32], [u8; 32]))
    ensures
        r.0@ == spec_seed_secret(my_seed),
        r.1@ == ed25519_public_key(spec_seed_secret(my_seed)),
        r.2@ == ed25519_public_key(spec_seed_secret(remote_seed)),
        forall|i: int| 0 <= i < 32 ==> r.0[i] == my_seed,
        r.1@ == ed25519_public_key(r.0@),
{
    let my_secret: [u8; 32] = [my_seed; 32];
    let remote_secret: [u8; 32] = [remote_seed; 32];
    assert(my_secret@ =~= spec_seed_secret(my_seed));
    assert(remote_secret@ =~= spec_seed_secret(remote_seed));
    let my_public = public_key_of(&my_secret);
    let remote_public = public_key_of(&remote_secret);
    (my_secret, my_public, remote_public)
}

/// The big-endian number spelled by four bytes.
pub open spec fn be32(b: Seq<u8>) -> nat {
    (b[0] as nat) * 16777216 + (b[1] as nat) * 65536 + (b[2] as nat) * 256 + (b[3] as nat)
}

/// The header of a frame whose body is `len` bytes: the length as a
/// 32-bit number (kept modulo 2^32), big-endian.
pub open spec fn spec_frame_header(len: nat) -> Seq<u8> {
    let v = len % 4294967296;
    seq![(v / 16777216) as u8, ((v / 65536) % 256) as u8, ((v / 256) % 256) as u8, (v % 256) as u8]
}

/// The whole frame that carries `body`.
pub open spec fn spec_frame(body: Seq<u8>) -> Seq<u8> {
    spec_frame_header(body.len()) + body
}

/// The header of a frame whose body is `len` bytes.
pub fn frame_header(len: usize) -> (h: [u8; 4])
    ensures
        h@ == spec_frame_header(len as nat),
        h[0] as int * 16777216 + h[1] as int * 65536 + h[2] as int * 256 + h[3] as int == len as int
            % 4294967296,
{
    let v: u64 = (len as u64) % 4294967296;
    let h: [u8; 4] = [
        (v / 16777216) as u8,
        ((v / 65536) % 256) as u8,
        ((v / 256) % 256) as u8,
        (v % 256) as u8,
    ];
    assert(h@ =~= spec_frame_header(len as nat));
    assert((v / 16777216) * 16777216 + ((v / 65536) % 256) * 65536 + ((v / 256) % 256) * 256 + v % 256
        == v) by (bit_vector)
        requires
            v < 4294967296u64,
    ;
    h
}

/// The body length a header announces.
pub fn header_len(h: [u8; 4]) -> (n: u32)
    ensures
        n == be32(h@),
        n as int == h[0] as int * 16777216 + h[1] as int * 65536 + h[2] as int * 256 + h[3] as int,
{
    (h[0] as u32) * 16777216 + (h[1] as u32) * 65536 + (h[2] as u32) * 256 + (h[3] as u32)
}

/// A header gives back the length it was made from, for every length that
/// fits in 32 bits.
pub proof fn lemma_header_round_trip(len: nat)
    requires
        len < 4294967296,
    ensures
        be32(spec_frame_header(len)) == len,
{
}

/// Where a reader stands: waiting for a header, for a body of the given
/// length, for a delivered message to be taken, or finished.
#[derive(Debug, Clone, Copy, PartialEq, Eq)]
pub enum ReadState {
    Header,
    Body(usize),
    Delivering,
    Closed,
}

/// What happened since the last step.
#[derive(Debug)]
pub enum ReadEvent {
    /// The four header bytes were read.
    HeaderRead([u8; 4]),
    /// The body bytes were read.
    BodyRead(Vec<u8>),
    /// The delivered message was taken by the consumer.
    Delivered,
    /// A read failed, or the consumer went away.
    Failed,
}

/// What the reader asks for next.
#[derive(Debug)]
pub enum ReadAction {
    /// Read exactly this many bytes from the stream.
    ReadExact(usize),
    /// Hand this message to the consumer.
    Deliver(String),
    /// Stop reading.
    Stop,
}

/// A reader event as values.
pub enum ReadEventView {
    HeaderRead(Seq<u8>),
    BodyRead(Seq<u8>),
    Delivered,
    Failed,
}

/// A reader action as values.
pub enum ReadActionView {
    ReadExact(nat),
    Deliver(Seq<char>),
    Stop,
}

impl View for ReadEvent {
    type V = ReadEventView;

    open spec fn view(&self) -> ReadEventView {
        match self {
            ReadEvent::HeaderRead(h) => ReadEventView::HeaderRead(h@),
            ReadEvent::BodyRead(b) => ReadEventView::BodyRead(b@),
            ReadEvent::Delivered => ReadEventView::Delivered,
            ReadEvent::Failed => ReadEventView::Failed,
        }
    }
}

impl View for ReadAction {
    type V = ReadActionView;

    open spec fn view(&self) -> ReadActionView {
        match self {
            ReadAction::ReadExact(n) => ReadActionView::ReadExact(*n as nat),
            ReadAction::Deliver(s) => ReadActionView::Deliver(s@),
            ReadAction::Stop => ReadActionView::Stop,
        }
    }
}

/// The text a body decodes to: the body as UTF-8 where it is valid, else
/// with each invalid sequence replaced by U+FFFD.
pub open spec fn spec_decode_body(b: Seq<u8>) -> Seq<char> {
    if valid_utf8(b) {
        decode_utf8(b)
    } else {
        lossy_utf8(b)
    }
}

/// One step of the reader. A header of length zero is the priming frame and
/// is skipped; a header above `MAX_MSG` ends the stream; any other header
/// asks for its body, which is then delivered as text; once the consumer has
/// taken it, the next header is read. A failure, or an event that does not
/// fit where the reader stands, ends the stream.
pub open spec fn spec_read_step(state: ReadState, event: ReadEventView) -> (ReadState, ReadActionView) {
    match (state, event) {
        (ReadState::Header, ReadEventView::HeaderRead(h)) => {
            if h.len() != 4 {
                (ReadState::Closed, ReadActionView::Stop)
            } else if be32(h) == 0 {
                (ReadState::Header, ReadActionView::ReadExact(4))
            } else if be32(h) > MAX_MSG {
                (ReadState::Closed, ReadActionView::Stop)
            } else {
                (ReadState::Body(be32(h) as usize), ReadActionView::ReadExact(be32(h)))
            }
        },
        (ReadState::Body(n), ReadEventView::BodyRead(b)) => {
            if b.len() == n {
                (ReadState::Delivering, ReadActionView::Deliver(spec_decode_body(b)))
            } else {
                (ReadState::Closed, ReadActionView::Stop)
            }
        },
        (ReadState::Delivering, ReadEventView::Delivered) => (
            ReadState::Header,
            ReadActionView::ReadExact(4),
        ),
        _ => (ReadState::Closed, ReadActionView::Stop),
    }
}

/// Where a reader starts: waiting for the first header.
pub fn read_start() -> (r: (ReadState, ReadAction))
    ensures
        r.0 == ReadState::Header,
        r.1@ == ReadActionView::ReadExact(4),
{
    (ReadState::Header, ReadAction::ReadExact(4))
}

/// One step of the reader, as `spec_read_step` says.
pub fn read_step(state: ReadState, event: ReadEvent) -> (r: (ReadState, ReadAction))
    ensures
        (r.0, r.1@) == spec_read_step(state, event@),
        event is Failed ==> r.0 == ReadState::Closed && r.1 is Stop,
{
    match (state, event) {
        (ReadState::Header, ReadEvent::HeaderRead(h)) => {
            let n = header_len(h);
            if n == 0 {
                (ReadState::Header, ReadAction::ReadExact(4))
            } else if n as usize > MAX_MSG {
                (ReadState::Closed, ReadAction::Stop)
            } else {
                (ReadState::Body(n as usize), ReadAction::ReadExact(n as usize))
            }
        },
        (ReadState::Body(n), ReadEvent::BodyRead(b)) => {
            if b.len() == n {
                let s = utf8_lossy_string(b.as_slice());
                (ReadState::Delivering, ReadAction::Deliver(s))
            } else {
                (ReadState::Closed, ReadAction::Stop)
            }
        },
        (ReadState::Delivering, ReadEvent::Delivered) => (
            ReadState::Header,
            ReadAction::ReadExact(4),
        ),
        _ => (ReadState::Closed, ReadAction::Stop),
    }
}

/// A message written as a frame is read back whole: its header asks for
/// exactly its body, and the body is delivered as the same text, after which
/// the reader waits for the next header.
pub proof fn lemma_frame_round_trip(text: Seq<char>)
    requires
        0 < encode_utf8(text).len() <= MAX_MSG,
    ensures
        ({
            let body = encode_utf8(text);
            let first = spec_read_step(
                ReadState::Header,
                ReadEventView::HeaderRead(spec_frame(body).take(4)),
            );
            let second = spec_read_step(first.0, ReadEventView::BodyRead(spec_frame(body).skip(4)));
            &&& first == (ReadState::Body(body.len() as usize), ReadActionView::ReadExact(body.len()))
            &&& second == (ReadState::Delivering, ReadActionView::Deliver(text))
            &&& spec_read_step(second.0, ReadEventView::Delivered) == (
                ReadState::Header,
                ReadActionView::ReadExact(4),
            )
        }),
{
    let body = encode_utf8(text);
    let frame = spec_frame(body);
    assert(frame.take(4) =~= spec_frame_header(body.len()));
    assert(frame.skip(4) =~= body);
    vstd::utf8::encode_utf8_valid_utf8(text);
    vstd::utf8::encode_utf8_decode_utf8(text);
}

/// The priming frame (an empty body) is skipped: the reader stays waiting
/// for a header.
pub proof fn lemma_priming_frame_skipped()
    ensures
        spec_read_step(ReadState::Header, ReadEventView::HeaderRead(spec_frame_header(0)))
            == (ReadState::Header, ReadActionView::ReadExact(4)),
{
}

/// A header announcing more than `MAX_MSG` bytes ends the stream.
pub proof fn lemma_oversized_frame_stops(len: nat)
    requires
        MAX_MSG < len < 4294967296,
    ensures
        spec_read_step(ReadState::Header, ReadEventView::HeaderRead(spec_frame_header(len)))
            == (ReadState::Closed, ReadActionView::Stop),
{
}

/// Once stopped, a reader stays stopped whatever happens.
pub proof fn lemma_closed_stays_closed(event: ReadEventView)
    ensures
        spec_read_step(ReadState::Closed, event) == (ReadState::Closed, ReadActionView::Stop),
{
}


/// The frames carrying `bodies`, one after another: what the writer puts on
/// the stream for a queue of messages.
pub open spec fn spec_frames(bodies: Seq<Seq<u8>>) -> Seq<u8>
    decreases bodies.len(),
{
    if bodies.len() == 0 {
        Seq::empty()
    } else {
        spec_frame(bodies[0]) + spec_frames(bodies.drop_first())
    }
}

/// The texts a reader delivers, in order, when it is driven by
/// `spec_read_step` over the byte stream `stream`: each read takes exactly
/// the bytes asked for, a read past the end of the stream fails, and every
/// delivery is taken.
pub open spec fn spec_read_stream(stream: Seq<u8>) -> Seq<Seq<char>>
    decreases stream.len(),
{
    if stream.len() < 4 {
        Seq::empty()
    } else {
        let first = spec_read_step(ReadState::Header, ReadEventView::HeaderRead(stream.take(4)));
        let rest = stream.skip(4);
        match first.1 {
            ReadActionView::ReadExact(n) => {
                if first.0 == ReadState::Header {
                    spec_read_stream(rest)
                } else if rest.len() < n {
                    Seq::empty()
                } else {
                    let second = spec_read_step(first.0, ReadEventView::BodyRead(rest.take(n as int)));
                    match second.1 {
                        ReadActionView::Deliver(t) => {
                            if spec_read_step(second.0, ReadEventView::Delivered).0 == ReadState::Header {
                                seq![t] + spec_read_stream(rest.skip(n as int))
                            } else {
                                Seq::empty()
                            }
                        },
                        _ => Seq::empty(),
                    }
                }
            },
            _ => Seq::empty(),
        }
    }
}

/// The UTF-8 bodies of a sequence of texts.
pub open spec fn spec_bodies(texts: Seq<Seq<char>>) -> Seq<Seq<u8>> {
    texts.map_values(|t: Seq<char>| encode_utf8(t))
}

/// Reading one frame off the front of a stream delivers its text and goes
/// on with the rest of the stream.
proof fn lemma_read_one_frame(body: Seq<u8>, tail: Seq<u8>)
    requires
        0 < body.len() <= MAX_MSG,
        valid_utf8(body),
    ensures
        spec_read_stream(spec_frame(body) + tail) == seq![decode_utf8(body)] + spec_read_stream(tail),
{
    let stream = spec_frame(body) + tail;
    assert(stream.take(4) =~= spec_frame_header(body.len()));
    assert(stream.skip(4) =~= body + tail);
    assert((body + tail).take(body.len() as int) =~= body);
    assert((body + tail).skip(body.len() as int) =~= tail);
    lemma_header_round_trip(body.len());
}

/// A priming frame off the front of a stream is skipped.
proof fn lemma_read_priming(tail: Seq<u8>)
    ensures
        spec_read_stream(spec_frame_header(0) + tail) == spec_read_stream(tail),
{
    let stream = spec_frame_header(0) + tail;
    assert(stream.take(4) =~= spec_frame_header(0));
    assert(stream.skip(4) =~= tail);
}

/// A queue of messages written as frames, one after another, is read back
/// as exactly those messages, in order and nothing else; a priming frame in
/// front of them changes nothing.
pub proof fn lemma_stream_round_trip(texts: Seq<Seq<char>>)
    requires
        forall|i: int| 0 <= i < texts.len() ==> 0 < (#[trigger] encode_utf8(texts[i])).len() <= MAX_MSG,
    ensures
        spec_read_stream(spec_frames(spec_bodies(texts))) == texts,
        spec_read_stream(spec_frame_header(0) + spec_frames(spec_bodies(texts))) == texts,
    decreases texts.len(),
{
    let frames = spec_frames(spec_bodies(texts));
    if texts.len() == 0 {
        assert(frames =~= Seq::<u8>::empty());
    } else {
        let rest = texts.drop_first();
        assert forall|i: int| 0 <= i < rest.len() implies 0 < (#[trigger] encode_utf8(rest[i])).len() <= MAX_MSG by {
            assert(rest[i] == texts[i + 1]);
        }
        lemma_stream_round_trip(rest);
        assert(spec_bodies(texts).drop_first() =~= spec_bodies(rest));
        let body = encode_utf8(texts[0]);
        assert(spec_bodies(texts)[0] == body);
        assert(0 < encode_utf8(texts[0]).len() <= MAX_MSG);
        vstd::utf8::encode_utf8_valid_utf8(texts[0]);
        vstd::utf8::encode_utf8_decode_utf8(texts[0]);
        lemma_read_one_frame(body, spec_frames(spec_bodies(rest)));
        assert(seq![texts[0]] + rest =~= texts);
    }
    lemma_read_priming(frames);
}


/// Where a writer stands: waiting for the next queued message, writing a
/// header (with the body still to write), writing a body, or finished.
#[derive(Debug)]
pub enum WriteState {
    AwaitMessage,
    HeaderWriting(Vec<u8>),
    BodyWriting,
    Done,
}

/// What happened since the writer's last step.
#[derive(Debug)]
pub enum WriteEvent {
    /// The next queued message, as its UTF-8 bytes.
    Message(Vec<u8>),
    /// The queue closed: no message will come.
    QueueClosed,
    /// The last write went through.
    Written,
    /// The last write failed.
    WriteFailed,
}

/// What the writer asks for next.
#[derive(Debug)]
pub enum WriteAction {
    /// Wait for the next queued message.
    NextMessage,
    /// Write these bytes to the stream.
    Write(Vec<u8>),
    /// Finish the stream and stop.
    Finish,
}

/// A writer state as values.
pub enum WriteStateView {
    AwaitMessage,
    HeaderWriting(Seq<u8>),
    BodyWriting,
    Done,
}

/// A writer event as values.
pub enum WriteEventView {
    Message(Seq<u8>),
    QueueClosed,
    Written,
    WriteFailed,
}

/// A writer action as values.
pub enum WriteActionView {
    NextMessage,
    Write(Seq<u8>),
    Finish,
}

impl View for WriteState {
    type V = WriteStateView;

    open spec fn view(&self) -> WriteStateView {
        match self {
            WriteState::AwaitMessage => WriteStateView::AwaitMessage,
            WriteState::HeaderWriting(b) => WriteStateView::HeaderWriting(b@),
            WriteState::BodyWriting => WriteStateView::BodyWriting,
            WriteState::Done => WriteStateView::Done,
        }
    }
}

impl View for WriteEvent {
    type V = WriteEventView;

    open spec fn view(&self) -> WriteEventView {
        match self {
            WriteEvent::Message(b) => WriteEventView::Message(b@),
            WriteEvent::QueueClosed => WriteEventView::QueueClosed,
            WriteEvent::Written => WriteEventView::Written,
            WriteEvent::WriteFailed => WriteEventView::WriteFailed,
        }
    }
}

impl View for WriteAction {
    type V = WriteActionView;

    open spec fn view(&self) -> WriteActionView {
        match self {
            WriteAction::NextMessage => WriteActionView::NextMessage,
            WriteAction::Write(b) => WriteActionView::Write(b@),
            WriteAction::Finish => WriteActionView::Finish,
        }
    }
}

/// One step of the writer. Each queued message goes out as its header and
/// then its body; when the queue closes, or a write fails, or an event does
/// not fit where the writer stands, the stream is finished.
pub open spec fn spec_write_step(state: WriteStateView, event: WriteEventView) -> (WriteStateView, WriteActionView) {
    match (state, event) {
        (WriteStateView::AwaitMessage, WriteEventView::Message(b)) => (
            WriteStateView::HeaderWriting(b),
            WriteActionView::Write(spec_frame_header(b.len())),
        ),
        (WriteStateView::AwaitMessage, WriteEventView::QueueClosed) => (
            WriteStateView::Done,
            WriteActionView::Finish,
        ),
        (WriteStateView::HeaderWriting(b), WriteEventView::Written) => (
            WriteStateView::BodyWriting,
            WriteActionView::Write(b),
        ),
        (WriteStateView::BodyWriting, WriteEventView::Written) => (
            WriteStateView::AwaitMessage,
            WriteActionView::NextMessage,
        ),
        _ => (WriteStateView::Done, WriteActionView::Finish),
    }
}

/// Where a writer starts: waiting for the first queued message.
pub fn write_start() -> (r: (WriteState, WriteAction))
    ensures
        r.0@ == WriteStateView::AwaitMessage,
        r.1@ == WriteActionView::NextMessage,
{
    (WriteState::AwaitMessage, WriteAction::NextMessage)
}

/// One step of the writer, as `spec_write_step` says.
pub fn write_step(state: WriteState, event: WriteEvent) -> (r: (WriteState, WriteAction))
    ensures
        (r.0@, r.1@) == spec_write_step(state@, event@),
        event is WriteFailed ==> r.0 is Done && r.1 is Finish,
{
    match (state, event) {
        (WriteState::AwaitMessage, WriteEvent::Message(b)) => {
            let header = frame_header(b.len());
            let mut h: Vec<u8> = Vec::new();
            h.push(header[0]);
            h.push(header[1]);
            h.push(header[2]);
            h.push(header[3]);
            assert(h@ =~= header@);
            (WriteState::HeaderWriting(b), WriteAction::Write(h))
        },
        (WriteState::AwaitMessage, WriteEvent::QueueClosed) => (WriteState::Done, WriteAction::Finish),
        (WriteState::HeaderWriting(b), WriteEvent::Written) => (
            WriteState::BodyWriting,
            WriteAction::Write(b),
        ),
        (WriteState::BodyWriting, WriteEvent::Written) => (
            WriteState::AwaitMessage,
            WriteAction::NextMessage,
        ),
        _ => (WriteState::Done, WriteAction::Finish),
    }
}

/// When its writes go through, the writer puts a queued message on the
/// stream as exactly its frame (header, then body) and then waits for the
/// next message; a failed write, or the queue closing, finishes the stream.
pub proof fn lemma_writer_writes_frame(body: Seq<u8>)
    ensures
        ({
            let s1 = spec_write_step(WriteStateView::AwaitMessage, WriteEventView::Message(body));
            let s2 = spec_write_step(s1.0, WriteEventView::Written);
            let s3 = spec_write_step(s2.0, WriteEventView::Written);
            &&& s1.1 matches WriteActionView::Write(h) && s2.1 matches WriteActionView::Write(b)
                && h + b == spec_frame(body)
            &&& s3.0 == WriteStateView::AwaitMessage
            &&& s3.1 == WriteActionView::NextMessage
            &&& spec_write_step(s1.0, WriteEventView::WriteFailed) == (WriteStateView::Done, WriteActionView::Finish)
            &&& spec_write_step(s2.0, WriteEventView::WriteFailed) == (WriteStateView::Done, WriteActionView::Finish)
            &&& spec_write_step(WriteStateView::AwaitMessage, WriteEventView::QueueClosed) == (
                WriteStateView::Done,
                WriteActionView::Finish,
            )
        }),
{
}


/// What a writer puts on the stream, and its last action, when it is driven
/// by `spec_write_step` from waiting for a message over the queue `bodies`:
/// each message arrives, every write goes through, and then the queue closes.
pub open spec fn spec_write_queue(bodies: Seq<Seq<u8>>) -> (Seq<u8>, WriteActionView)
    decreases bodies.len(),
{
    if bodies.len() == 0 {
        (Seq::empty(), spec_write_step(WriteStateView::AwaitMessage, WriteEventView::QueueClosed).1)
    } else {
        let s1 = spec_write_step(WriteStateView::AwaitMessage, WriteEventView::Message(bodies[0]));
        let s2 = spec_write_step(s1.0, WriteEventView::Written);
        let s3 = spec_write_step(s2.0, WriteEventView::Written);
        match (s1.1, s2.1) {
            (WriteActionView::Write(h), WriteActionView::Write(b)) => {
                if s3.0 == WriteStateView::AwaitMessage {
                    let rest = spec_write_queue(bodies.drop_first());
                    (h + b + rest.0, rest.1)
                } else {
                    (Seq::empty(), WriteActionView::Finish)
                }
            },
            _ => (Seq::empty(), WriteActionView::Finish),
        }
    }
}

/// A writer given a queue of messages puts exactly their frames on the
/// stream, one after another, and then finishes the stream.
pub proof fn lemma_writer_writes_queue(bodies: Seq<Seq<u8>>)
    ensures
        spec_write_queue(bodies) == (spec_frames(bodies), WriteActionView::Finish),
    decreases bodies.len(),
{
    if bodies.len() > 0 {
        lemma_writer_writes_queue(bodies.drop_first());
        assert(spec_frame_header(bodies[0].len()) + bodies[0] + spec_frames(bodies.drop_first())
            =~= spec_frame(bodies[0]) + spec_frames(bodies.drop_first()));
    }
}

/// What the writer puts on the stream for a queue of messages, after the
/// priming frame, the reader delivers back: the same messages, in order,
/// and nothing else.
pub proof fn lemma_chat_end_to_end(texts: Seq<Seq<char>>)
    requires
        forall|i: int| 0 <= i < texts.len() ==> 0 < (#[trigger] encode_utf8(texts[i])).len() <= MAX_MSG,
    ensures
        spec_read_stream(spec_frame_header(0) + spec_write_queue(spec_bodies(texts)).0) == texts,
{
    lemma_writer_writes_queue(spec_bodies(texts));
    lemma_stream_round_trip(texts);
}


proof fn lemma_be_digits(v: u64)
    requires
        v < 4294967296u64,
    ensures
        (v / 16777216) * 16777216 + ((v / 65536) % 256) * 65536 + ((v / 256) % 256) * 256 + v % 256 == v,
{
    assert((v / 16777216) * 16777216 + ((v / 65536) % 256) * 65536 + ((v / 256) % 256) * 256 + v % 256
        == v) by (bit_vector)
        requires
            v < 4294967296u64,
    ;
}

/// A frame header is four bytes whose plain big-endian value (first byte
/// most significant) is the body length, taken modulo 2^32.
pub proof fn lemma_header_is_big_endian(len: nat)
    ensures
        spec_frame_header(len).len() == 4,
        spec_frame_header(len)[0] as int * 16777216 + spec_frame_header(len)[1] as int * 65536
            + spec_frame_header(len)[2] as int * 256 + spec_frame_header(len)[3] as int == len
            % 4294967296,
{
    let v = (len % 4294967296) as u64;
    lemma_be_digits(v);
}

/// The length a header announces is the plain big-endian value of its four
/// bytes, first byte most significant.
pub proof fn lemma_be32_is_big_endian(h: Seq<u8>)
    requires
        h.len() == 4,
    ensures
        be32(h) == h[0] as int * 16777216 + h[1] as int * 65536 + h[2] as int * 256 + h[3] as int,
{
}

/// A failure ends the reader wherever it stands.
pub proof fn lemma_read_failure_stops(state: ReadState)
    ensures
        spec_read_step(state, ReadEventView::Failed) == (ReadState::Closed, ReadActionView::Stop),
{
}

/// What a header does to a waiting reader, by the plain big-endian value
/// `v` of its four bytes: zero is skipped (the reader waits for the next
/// header), above `MAX_MSG` (1 MiB) stops the reader, anything else asks
/// for exactly `v` body bytes.
pub proof fn lemma_read_header(h: Seq<u8>)
    requires
        h.len() == 4,
    ensures
        ({
            let v = h[0] as int * 16777216 + h[1] as int * 65536 + h[2] as int * 256 + h[3] as int;
            let r = spec_read_step(ReadState::Header, ReadEventView::HeaderRead(h));
            &&& v == 0 ==> r == (ReadState::Header, ReadActionView::ReadExact(4))
            &&& v > 1048576 ==> r == (ReadState::Closed, ReadActionView::Stop)
            &&& 0 < v <= 1048576 ==> r == (ReadState::Body(v as usize), ReadActionView::ReadExact(v as nat))
        }),
{
}

/// A body of the announced length is delivered as its text (decoded as
/// UTF-8 where valid); a body of another length, or anything but a body,
/// stops a reader waiting for a body.
pub proof fn lemma_read_body(n: usize, event: ReadEventView)
    ensures
        event matches ReadEventView::BodyRead(b) ==> (b.len() == n ==> spec_read_step(ReadState::Body(n), event) == (
            ReadState::Delivering,
            ReadActionView::Deliver(if valid_utf8(b) { decode_utf8(b) } else { lossy_utf8(b) }),
        )),
        event matches ReadEventView::BodyRead(b) ==> (b.len() != n ==> spec_read_step(ReadState::Body(n), event) == (
            ReadState::Closed,
            ReadActionView::Stop,
        )),
        !(event is BodyRead) ==> spec_read_step(ReadState::Body(n), event) == (
            ReadState::Closed,
            ReadActionView::Stop,
        ),
{
}

/// Once its message is taken, a delivering reader waits for the next
/// four-byte header; any other event stops it.
pub proof fn lemma_read_delivered(event: ReadEventView)
    ensures
        event is Delivered ==> spec_read_step(ReadState::Delivering, event) == (
            ReadState::Header,
            ReadActionView::ReadExact(4),
        ),
        !(event is Delivered) ==> spec_read_step(ReadState::Delivering, event) == (
            ReadState::Closed,
            ReadActionView::Stop,
        ),
{
}

/// A failed write finishes the writer wherever it stands.
pub proof fn lemma_write_failure_finishes(state: WriteStateView)
    ensures
        spec_write_step(state, WriteEventView::WriteFailed) == (WriteStateView::Done, WriteActionView::Finish),
{
}

/// A writer waiting for a message writes, for a body of `len` bytes, four
/// header bytes whose plain big-endian value is `len` (modulo 2^32), then
/// the body itself.
pub proof fn lemma_write_message(body: Seq<u8>)
    ensures
        ({
            let s1 = spec_write_step(WriteStateView::AwaitMessage, WriteEventView::Message(body));
            let s2 = spec_write_step(s1.0, WriteEventView::Written);
            &&& s1.1 matches WriteActionView::Write(h) && h.len() == 4 && h[0] as int * 16777216 + h[1] as int
                * 65536 + h[2] as int * 256 + h[3] as int == body.len() % 4294967296
            &&& s2.1 == WriteActionView::Write(body)
        }),
{
    lemma_header_is_big_endian(body.len());
}

} // verus!
