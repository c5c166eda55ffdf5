use std::sync::{Arc, Mutex};

use bytes::Bytes;
use iroh_webrtc_transport::adapter::{
    addr_of, is_valid_send_addr, key_of, segment_len, plan_transmit, BackendTransport, BindError,
    CustomAddrParts, Polled, RecvBatch, RecvOutcome, TRANSPORT_ID,
};
use iroh_webrtc_transport::in_memory::MemNetwork;
use iroh_webrtc_transport::{DatagramSender, Inbound, PeerKey};


fn send_planned<S: DatagramSender>(sender: &S, dst: &CustomAddrParts, contents: &[u8], seg: Option<usize>) {
    if let Some(plan) = plan_transmit(dst, contents, seg) {
        for (start, end) in plan.ranges {
            sender.send(&plan.key, &contents[start..end]);
        }
    }
}

#[derive(Clone, Default)]
struct Recorder {
    sent: Arc<Mutex<Vec<(PeerKey, Vec<u8>)>>>,
}

impl DatagramSender for Recorder {
    fn send(&self, dst: &PeerKey, data: &[u8]) {
        self.sent.lock().unwrap().push((*dst, data.to_vec()));
    }
}

fn key(b: u8) -> PeerKey {
    [b; 32]
}

#[test]
fn transport_id_spells_webr() {
    assert_eq!(TRANSPORT_ID, 0x77_65_62_72);
    assert_eq!(&TRANSPORT_ID.to_be_bytes()[4..], b"webr");
}

#[test]
fn addr_of_carries_the_key() {
    let k = key(3);
    let a = addr_of(&k);
    assert_eq!(a.id, TRANSPORT_ID);
    assert_eq!(a.data, vec![3u8; 32]);
    assert_eq!(key_of(&a), Some(k));
    assert!(is_valid_send_addr(&a));
}

#[test]
fn key_of_refuses_other_lengths() {
    let short = CustomAddrParts { id: TRANSPORT_ID, data: vec![1u8; 31] };
    let long = CustomAddrParts { id: TRANSPORT_ID, data: vec![1u8; 33] };
    let empty = CustomAddrParts { id: TRANSPORT_ID, data: vec![] };
    assert_eq!(key_of(&short), None);
    assert_eq!(key_of(&long), None);
    assert_eq!(key_of(&empty), None);
    let mut data: Vec<u8> = (0u8..32).collect();
    data[31] = 200;
    let ok = CustomAddrParts { id: 9, data: data.clone() };
    let got = key_of(&ok).unwrap();
    assert_eq!(got.to_vec(), data);
}

#[test]
fn foreign_id_is_not_a_send_addr() {
    let mut a = addr_of(&key(1));
    a.id = 1;
    assert!(!is_valid_send_addr(&a));
}

#[test]
fn segment_len_rules() {
    assert_eq!(segment_len(10, Some(4)), 4);
    assert_eq!(segment_len(10, None), 10);
    assert_eq!(segment_len(0, None), 1);
    assert_eq!(segment_len(10, Some(0)), 1);
}

#[test]
fn transmit_is_cut_into_segments() {
    let rec = Recorder::default();
    let dst = addr_of(&key(5));
    let contents: Vec<u8> = (0u8..10).collect();
    send_planned(&rec, &dst, &contents, Some(4));
    let sent = rec.sent.lock().unwrap().clone();
    assert_eq!(sent.len(), 3);
    assert!(sent.iter().all(|(k, _)| *k == key(5)));
    assert_eq!(sent[0].1, vec![0, 1, 2, 3]);
    assert_eq!(sent[1].1, vec![4, 5, 6, 7]);
    assert_eq!(sent[2].1, vec![8, 9]);
}

#[test]
fn transmit_without_segment_size_is_one_datagram() {
    let rec = Recorder::default();
    let dst = addr_of(&key(6));
    send_planned(&rec, &dst, b"hello", None);
    let sent = rec.sent.lock().unwrap().clone();
    assert_eq!(sent, vec![(key(6), b"hello".to_vec())]);
}

#[test]
fn transmit_with_zero_segment_size_goes_byte_by_byte() {
    let rec = Recorder::default();
    let dst = addr_of(&key(6));
    send_planned(&rec, &dst, b"abc", Some(0));
    let sent = rec.sent.lock().unwrap().clone();
    let pieces: Vec<Vec<u8>> = sent.into_iter().map(|(_, d)| d).collect();
    assert_eq!(pieces, vec![b"a".to_vec(), b"b".to_vec(), b"c".to_vec()]);
}

#[test]
fn empty_transmit_sends_nothing() {
    let rec = Recorder::default();
    send_planned(&rec, &addr_of(&key(1)), b"", Some(3));
    assert!(rec.sent.lock().unwrap().is_empty());
}

#[test]
fn transmit_to_a_malformed_address_is_dropped() {
    let rec = Recorder::default();
    let dst = CustomAddrParts { id: TRANSPORT_ID, data: vec![1, 2, 3] };
    send_planned(&rec, &dst, b"payload", None);
    assert!(rec.sent.lock().unwrap().is_empty());
}

fn inbound(len: usize, from: u8) -> Inbound {
    Inbound { data: Bytes::from(vec![from; len]), from: key(from) }
}

#[test]
fn batch_stores_what_fits_and_drops_the_rest() {
    let mut b = RecvBatch::new(vec![3, 5]);
    assert!(!b.is_full());
    assert!(!b.offer(inbound(4, 1)));
    assert_eq!(b.count(), 0);
    assert!(b.offer(inbound(2, 2)));
    assert!(!b.offer(inbound(6, 3)));
    assert!(b.offer(inbound(5, 4)));
    assert!(b.is_full());
    assert!(!b.offer(inbound(1, 5)));
    assert_eq!(b.outcome(), RecvOutcome::Ready(2));
    let filled = b.into_filled();
    assert_eq!(filled.len(), 2);
    assert_eq!(filled[0].from, key(2));
    assert_eq!(&filled[0].data[..], &[2u8, 2][..]);
    assert_eq!(filled[1].from, key(4));
    assert_eq!(filled[1].data.len(), 5);
}

#[test]
fn empty_batch_is_pending_never_ready_zero() {
    let b = RecvBatch::new(vec![10, 10]);
    assert_eq!(b.outcome(), RecvOutcome::Pending);
    let none = RecvBatch::new(vec![]);
    assert!(none.is_full());
    assert_eq!(none.outcome(), RecvOutcome::Pending);
}

#[test]
fn batch_takes_an_exact_fit() {
    let mut b = RecvBatch::new(vec![4]);
    assert!(b.offer(inbound(4, 9)));
    assert_eq!(b.outcome(), RecvOutcome::Ready(1));
}

#[test]
fn transport_binds_only_once() {
    let net = MemNetwork::new();
    let mut t = BackendTransport::new(net.backend(key(8)));
    assert_eq!(t.local().id, TRANSPORT_ID);
    assert_eq!(t.local().data, vec![8u8; 32]);
    let ep = t.bind().expect("first bind");
    assert_eq!(ep.local.data, vec![8u8; 32]);
    assert_eq!(t.bind().err(), Some(BindError::AlreadyBound));
    assert_eq!(t.bind().err(), Some(BindError::AlreadyBound));
    assert_eq!(t.local().data, vec![8u8; 32]);
}

#[test]
fn plan_gives_key_and_ranges() {
    let dst = addr_of(&key(5));
    let plan = plan_transmit(&dst, &[0u8; 10], Some(4)).unwrap();
    assert_eq!(plan.key, key(5));
    assert_eq!(plan.ranges, vec![(0, 4), (4, 8), (8, 10)]);
    let empty = plan_transmit(&dst, &[], None).unwrap();
    assert!(empty.ranges.is_empty());
    let bad = CustomAddrParts { id: TRANSPORT_ID, data: vec![0u8; 5] };
    assert!(plan_transmit(&bad, &[1, 2, 3], None).is_none());
}

#[test]
fn step_polls_on_only_after_a_datagram_with_room_left() {
    let mut b = RecvBatch::new(vec![4, 4]);
    assert!(b.step(Polled::Datagram(inbound(2, 1))));
    assert!(b.step(Polled::Datagram(inbound(9, 2))));
    assert_eq!(b.count(), 1);
    assert!(!b.step(Polled::Datagram(inbound(4, 3))));
    assert!(b.is_full());
    let mut c = RecvBatch::new(vec![4]);
    assert!(!c.step(Polled::Idle));
    assert!(!c.step(Polled::Closed));
    assert_eq!(c.outcome(), RecvOutcome::Pending);
}
