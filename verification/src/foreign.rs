//! The outside items the library calls: std's task types, the `bytes`
//! buffer, tokio's bounded channel, std's lossy UTF-8 decoding and iroh's
//! public-key derivation. Each
//! contract here is believed, not proved; each says what the outside
//! source or documentation shows.

use vstd::prelude::*;

verus! {

#[verifier::external_type_specification]
#[verifier::external_body]
#[verifier::reject_recursive_types(T)]
pub struct ExPoll<T>(core::task::Poll<T>);

#[verifier::external_type_specification]
#[verifier::external_body]
pub struct ExContext<'a>(core::task::Context<'a>);

#[verifier::external_type_specification]
#[verifier::external_body]
pub struct ExBytes(bytes::Bytes);

/// What a `bytes::Bytes` buffer holds.
pub uninterp spec fn bytes_view(b: bytes::Bytes) -> Seq<u8>;

/// `bytes::Bytes::copy_from_slice`: a new buffer holding a copy of `data`.
#[verifier::external_body]
pub(crate) fn bytes_copy_from_slice(data: &[u8]) -> (b: bytes::Bytes)
    ensures
        bytes_view(b) == data@,
{
    bytes::Bytes::copy_from_slice(data)
}

/// `<bytes::Bytes as Clone>::clone`: another handle to the same bytes.
pub assume_specification[ <bytes::Bytes as Clone>::clone ](b: &bytes::Bytes) -> (c: bytes::Bytes)
    ensures
        bytes_view(c) == bytes_view(*b),
;

/// `bytes::Bytes::len`: the number of bytes held.
#[verifier::external_body]
pub(crate) fn bytes_len(b: &bytes::Bytes) -> (n: usize)
    ensures
        n == bytes_view(*b).len(),
{
    b.len()
}


/// What `String::from_utf8_lossy` makes of bytes that are not valid UTF-8.
pub uninterp spec fn lossy_utf8(b: Seq<u8>) -> Seq<char>;

/// `String::from_utf8_lossy`, made an owned `String`: valid UTF-8 is decoded
/// as it stands; of other input the result is named by `lossy_utf8`.
#[verifier::external_body]
pub(crate) fn utf8_lossy_string(b: &[u8]) -> (s: String)
    ensures
        s@ == (if vstd::utf8::valid_utf8(b@) {
            vstd::utf8::decode_utf8(b@)
        } else {
            lossy_utf8(b@)
        }),
{
    String::from_utf8_lossy(b).into_owned()
}


#[verifier::external_type_specification]
#[verifier::external_body]
#[verifier::reject_recursive_types(T)]
pub struct ExMpscSender<T>(tokio::sync::mpsc::Sender<T>);

#[verifier::external_type_specification]
#[verifier::external_body]
#[verifier::reject_recursive_types(T)]
pub struct ExMpscReceiver<T>(tokio::sync::mpsc::Receiver<T>);

/// `tokio::sync::mpsc::channel`: a bounded channel of `buffer` places. Tokio
/// panics on a buffer of zero or above its permit limit (`usize::MAX >> 3`).
#[verifier::external_body]
pub(crate) fn mpsc_channel<T>(buffer: usize) -> (tokio::sync::mpsc::Sender<T>, tokio::sync::mpsc::Receiver<T>)
    requires
        0 < buffer <= usize::MAX / 8,
{
    tokio::sync::mpsc::channel(buffer)
}

/// `tokio::sync::mpsc::Sender::try_send`: enqueue without waiting; whether
/// the message went in depends on the channel's state (full, closed), so
/// nothing is promised of the result.
#[verifier::external_body]
pub(crate) fn mpsc_try_send<T>(tx: &tokio::sync::mpsc::Sender<T>, message: T) -> bool {
    tx.try_send(message).is_ok()
}

/// `tokio::sync::mpsc::Receiver::poll_recv`: the next message, `None` once
/// the channel is closed and drained, or pending; it depends on what was sent.
#[verifier::external_body]
pub(crate) fn mpsc_poll_recv<T>(
    rx: &mut tokio::sync::mpsc::Receiver<T>,
    cx: &mut core::task::Context<'_>,
) -> core::task::Poll<Option<T>> {
    rx.poll_recv(cx)
}


/// The ed25519 public key (32 bytes) that iroh derives from 32 secret-key bytes.
pub uninterp spec fn ed25519_public_key(secret: Seq<u8>) -> Seq<u8>;

/// `iroh_base::SecretKey::from_bytes` then `SecretKey::public`: the public
/// key of the secret key these bytes make, as its 32 bytes. The derivation
/// depends on the bytes alone; its result is named by `ed25519_public_key`.
#[verifier::external_body]
pub(crate) fn public_key_of(secret: &[u8; 32]) -> (p: [u8; 32])
    ensures
        p@ == ed25519_public_key(secret@),
{
    *iroh_base::SecretKey::from_bytes(secret).public().as_bytes()
}

} // verus!
