use iroh_webrtc_transport::chat::{
    frame_header, header_len, read_start, read_step, ReadAction, ReadEvent, ReadState, MAX_MSG,
};

fn expect_read(a: &ReadAction) -> usize {
    match a {
        ReadAction::ReadExact(n) => *n,
        other => panic!("expected a read, got {:?}", other),
    }
}

#[test]
fn header_is_big_endian_length() {
    assert_eq!(frame_header(0), [0, 0, 0, 0]);
    assert_eq!(frame_header(5), [0, 0, 0, 5]);
    assert_eq!(frame_header(0x0102_0304), [1, 2, 3, 4]);
    assert_eq!(frame_header(MAX_MSG), (MAX_MSG as u32).to_be_bytes());
    assert_eq!(header_len([1, 2, 3, 4]), 0x0102_0304);
    assert_eq!(header_len(frame_header(300)), 300);
}

#[test]
fn max_msg_is_one_mebibyte() {
    assert_eq!(MAX_MSG, 1 << 20);
}

#[test]
fn message_round_trips_through_the_reader() {
    let text = "héllo, peer";
    let (st, act) = read_start();
    assert_eq!(st, ReadState::Header);
    assert_eq!(expect_read(&act), 4);
    let (st, act) = read_step(st, ReadEvent::HeaderRead(frame_header(text.len())));
    assert_eq!(st, ReadState::Body(text.len()));
    assert_eq!(expect_read(&act), text.len());
    let (st, act) = read_step(st, ReadEvent::BodyRead(text.as_bytes().to_vec()));
    assert_eq!(st, ReadState::Delivering);
    match act {
        ReadAction::Deliver(s) => assert_eq!(s, text),
        other => panic!("expected a delivery, got {:?}", other),
    }
    let (st, act) = read_step(st, ReadEvent::Delivered);
    assert_eq!(st, ReadState::Header);
    assert_eq!(expect_read(&act), 4);
}

#[test]
fn priming_frame_is_skipped() {
    let (st, act) = read_step(ReadState::Header, ReadEvent::HeaderRead(frame_header(0)));
    assert_eq!(st, ReadState::Header);
    assert_eq!(expect_read(&act), 4);
}

#[test]
fn oversized_frame_stops() {
    let (st, act) = read_step(ReadState::Header, ReadEvent::HeaderRead(frame_header(MAX_MSG + 1)));
    assert_eq!(st, ReadState::Closed);
    assert!(matches!(act, ReadAction::Stop));
    let (st, act) = read_step(ReadState::Header, ReadEvent::HeaderRead(frame_header(MAX_MSG)));
    assert_eq!(st, ReadState::Body(MAX_MSG));
    assert_eq!(expect_read(&act), MAX_MSG);
}

#[test]
fn invalid_utf8_is_replaced() {
    let (st, act) = read_step(ReadState::Body(3), ReadEvent::BodyRead(vec![b'a', 0xff, b'b']));
    assert_eq!(st, ReadState::Delivering);
    match act {
        ReadAction::Deliver(s) => assert_eq!(s, "a\u{fffd}b"),
        other => panic!("expected a delivery, got {:?}", other),
    }
}

#[test]
fn failures_and_mismatches_stop() {
    let (st, act) = read_step(ReadState::Header, ReadEvent::Failed);
    assert_eq!(st, ReadState::Closed);
    assert!(matches!(act, ReadAction::Stop));
    let (st, _) = read_step(ReadState::Body(4), ReadEvent::Failed);
    assert_eq!(st, ReadState::Closed);
    let (st, _) = read_step(ReadState::Delivering, ReadEvent::Failed);
    assert_eq!(st, ReadState::Closed);
    let (st, _) = read_step(ReadState::Body(4), ReadEvent::BodyRead(vec![1, 2]));
    assert_eq!(st, ReadState::Closed);
    let (st, _) = read_step(ReadState::Header, ReadEvent::Delivered);
    assert_eq!(st, ReadState::Closed);
    let (st, act) = read_step(ReadState::Closed, ReadEvent::HeaderRead([0, 0, 0, 1]));
    assert_eq!(st, ReadState::Closed);
    assert!(matches!(act, ReadAction::Stop));
}

use iroh_webrtc_transport::chat::{write_start, write_step, WriteAction, WriteEvent, WriteState};

fn expect_write(a: WriteAction) -> Vec<u8> {
    match a {
        WriteAction::Write(b) => b,
        other => panic!("expected a write, got {:?}", other),
    }
}

#[test]
fn writer_puts_each_message_as_header_then_body() {
    let (st, act) = write_start();
    assert!(matches!(st, WriteState::AwaitMessage));
    assert!(matches!(act, WriteAction::NextMessage));
    let (st, act) = write_step(st, WriteEvent::Message(b"hi".to_vec()));
    assert_eq!(expect_write(act), vec![0, 0, 0, 2]);
    let (st, act) = write_step(st, WriteEvent::Written);
    assert_eq!(expect_write(act), b"hi".to_vec());
    let (st, act) = write_step(st, WriteEvent::Written);
    assert!(matches!(st, WriteState::AwaitMessage));
    assert!(matches!(act, WriteAction::NextMessage));
    let (st, act) = write_step(st, WriteEvent::QueueClosed);
    assert!(matches!(st, WriteState::Done));
    assert!(matches!(act, WriteAction::Finish));
}

#[test]
fn writer_finishes_on_a_failed_write() {
    let (st, _) = write_step(WriteState::AwaitMessage, WriteEvent::Message(vec![1, 2, 3]));
    let (st, act) = write_step(st, WriteEvent::WriteFailed);
    assert!(matches!(st, WriteState::Done));
    assert!(matches!(act, WriteAction::Finish));
}

#[test]
fn written_stream_reads_back_message_by_message() {
    let messages = ["one", "twö", "three"];
    let mut stream: Vec<u8> = frame_header(0).to_vec();
    let (mut ws, mut wa) = write_start();
    for m in messages {
        (ws, wa) = write_step(ws, WriteEvent::Message(m.as_bytes().to_vec()));
        stream.extend(expect_write(wa));
        (ws, wa) = write_step(ws, WriteEvent::Written);
        stream.extend(expect_write(wa));
        (ws, wa) = write_step(ws, WriteEvent::Written);
        assert!(matches!(wa, WriteAction::NextMessage));
    }
    let mut got = Vec::new();
    let mut pos = 0;
    let (mut st, mut act) = read_start();
    loop {
        let event = match act {
            ReadAction::ReadExact(n) => {
                if pos + n > stream.len() {
                    ReadEvent::Failed
                } else if st == ReadState::Header {
                    let h = [stream[pos], stream[pos + 1], stream[pos + 2], stream[pos + 3]];
                    pos += 4;
                    ReadEvent::HeaderRead(h)
                } else {
                    let b = stream[pos..pos + n].to_vec();
                    pos += n;
                    ReadEvent::BodyRead(b)
                }
            }
            ReadAction::Deliver(s) => {
                got.push(s);
                ReadEvent::Delivered
            }
            ReadAction::Stop => break,
        };
        (st, act) = read_step(st, event);
    }
    assert_eq!(got, vec!["one".to_string(), "twö".to_string(), "three".to_string()]);
}

use iroh_webrtc_transport::chat::chat_identities;

#[test]
fn chat_identities_derive_both_public_keys_from_seeds() {
    let (my_secret, my_public, remote_public) = chat_identities(1, 2);
    assert_eq!(my_secret, [1u8; 32]);
    let expect_mine = *iroh_base::SecretKey::from_bytes(&[1u8; 32]).public().as_bytes();
    let expect_remote = *iroh_base::SecretKey::from_bytes(&[2u8; 32]).public().as_bytes();
    assert_eq!(my_public, expect_mine);
    assert_eq!(remote_public, expect_remote);
    assert_ne!(my_public, my_secret);
    let (other_secret, other_public, other_remote) = chat_identities(2, 1);
    assert_eq!(other_secret, [2u8; 32]);
    assert_eq!(other_public, remote_public);
    assert_eq!(other_remote, my_public);
}
