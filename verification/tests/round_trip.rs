use std::task::{Context, Poll, Waker};

use iroh_webrtc_transport::adapter::{
    plan_transmit, BackendTransport, CustomAddrParts, Polled, RecvBatch, RecvOutcome,
};
use iroh_webrtc_transport::in_memory::MemNetwork;
use iroh_webrtc_transport::{addr_of, DatagramReceiver, DatagramSender, PeerKey};


fn send_planned<S: DatagramSender>(sender: &S, dst: &CustomAddrParts, contents: &[u8], seg: Option<usize>) {
    if let Some(plan) = plan_transmit(dst, contents, seg) {
        for (start, end) in plan.ranges {
            sender.send(&plan.key, &contents[start..end]);
        }
    }
}

fn key(b: u8) -> PeerKey {
    [b; 32]
}

const PAYLOAD: &[u8] = b"payload over a custom iroh transport \x00\x01\x02\xff";

#[test]
fn transmit_arrives_as_a_batch_over_the_in_memory_wire() {
    let net = MemNetwork::new();
    let mut client = BackendTransport::new(net.backend(key(1)));
    let mut server = BackendTransport::new(net.backend(key(2)));
    let client_ep = client.bind().unwrap();
    let mut server_ep = server.bind().unwrap();

    let dst = addr_of(&key(2));
    send_planned(&client_ep.tx, &dst, PAYLOAD, Some(16));

    let mut cx = Context::from_waker(Waker::noop());
    let mut batch = RecvBatch::new(vec![16, 16, 16, 16]);
    let mut go_on = !batch.is_full();
    while go_on {
        let polled = match server_ep.rx.poll_recv(&mut cx) {
            Poll::Ready(Some(inb)) => Polled::Datagram(inb),
            Poll::Ready(None) => Polled::Closed,
            Poll::Pending => Polled::Idle,
        };
        go_on = batch.step(polled);
    }
    let expected_count = (PAYLOAD.len() + 15) / 16;
    assert_eq!(batch.outcome(), RecvOutcome::Ready(expected_count));
    let mut got = Vec::new();
    for inb in batch.into_filled() {
        assert_eq!(inb.from, key(1));
        got.extend_from_slice(&inb.data);
    }
    assert_eq!(got, PAYLOAD);
}

#[test]
fn oversized_datagram_is_dropped_and_polling_goes_on() {
    let net = MemNetwork::new();
    let mut a = BackendTransport::new(net.backend(key(1)));
    let mut b = BackendTransport::new(net.backend(key(2)));
    let a_ep = a.bind().unwrap();
    let mut b_ep = b.bind().unwrap();
    let dst = addr_of(&key(2));
    send_planned(&a_ep.tx, &dst, &[9u8; 40], None);
    send_planned(&a_ep.tx, &dst, &[7u8; 8], None);

    let mut cx = Context::from_waker(Waker::noop());
    let mut batch = RecvBatch::new(vec![32, 32]);
    while !batch.is_full() {
        match b_ep.rx.poll_recv(&mut cx) {
            Poll::Ready(Some(inb)) => {
                batch.offer(inb);
            }
            _ => break,
        }
    }
    assert_eq!(batch.outcome(), RecvOutcome::Ready(1));
    let filled = batch.into_filled();
    assert_eq!(&filled[0].data[..], &[7u8; 8][..]);
}
