use cds::handshake::{handshake_bytes, parse_handshake};
use cds::message::{checksum, ControlMessage, Message};
use cds::socket_worker::{ReceiveResult, SocketWorker};

fn frame(id: u64, data: &[u8]) -> Vec<u8> {
    Message::new(id, data.to_vec()).serialize()
}

fn ack(id: u64) -> Vec<u8> {
    Message::new_acc(id).serialize()
}

#[test]
fn checksum_values() {
    assert_eq!(checksum(&[]), 17);
    assert_eq!(checksum(&[1]), 528);
    assert_eq!(checksum(&[1, 2]), 16370);
}

#[test]
fn frame_layout() {
    let b = frame(1, &[1]);
    assert_eq!(b, vec![1, 0, 0, 0, 0, 0, 0, 0, 0x10, 0x02, 0, 0, 0, 0, 0, 0, 1]);
}

#[test]
fn frame_round_trip() {
    let m = Message::new(300, vec![9, 8, 7]);
    let back = Message::deserialize(&m.serialize()).unwrap();
    assert_eq!(back.id, 300);
    assert_eq!(back.data, vec![9, 8, 7]);
    assert!(back.check_hash());
}

#[test]
fn short_datagram_is_not_a_frame() {
    assert!(Message::deserialize(&[0u8; 15]).is_none());
    assert!(Message::deserialize(&[0u8; 16]).is_some());
}

#[test]
fn ack_frame_holds_control() {
    let m = Message::new_acc(42);
    assert_eq!(m.id, 0);
    assert_eq!(m.get_control(), Some(ControlMessage::Acc { id: 42 }));
    assert_eq!(ControlMessage::Acc { id: 42 }.encode(), vec![1, 42, 0, 0, 0, 0, 0, 0, 0]);
}

#[test]
fn unknown_control_is_invalid() {
    assert_eq!(ControlMessage::decode(&[2, 0, 0, 0, 0, 0, 0, 0, 0]), None);
    let mut w = SocketWorker::new("peer".to_string());
    let bad = Message::new(0, vec![7, 1, 2]).serialize();
    assert!(matches!(w.receive(&bad), ReceiveResult::Invalid));
    assert!(matches!(w.receive(&[1, 2, 3]), ReceiveResult::Invalid));
    assert_eq!(w.pending(), 0);
}

#[test]
fn send_message_assigns_increasing_ids() {
    let mut w = SocketWorker::new("peer".to_string());
    assert_eq!(w.next_id(), 1);
    w.send_message(vec![1]);
    w.send_message(vec![2]);
    assert_eq!(w.next_id(), 3);
    assert_eq!(w.send(), Some(frame(1, &[1])));
    assert_eq!(w.send(), Some(frame(2, &[2])));
    assert_eq!(w.send(), Some(frame(1, &[1])));
}

#[test]
fn empty_queue_sends_nothing() {
    let mut w = SocketWorker::new("peer".to_string());
    assert_eq!(w.send(), None);
    let (got, out) = w.work(vec![]);
    assert!(got.is_empty());
    assert!(out.is_none());
}

#[test]
fn duplicate_frame_surfaces_once_and_acks_twice() {
    let mut w = SocketWorker::new("peer".to_string());
    let d = frame(5, b"hello");
    match w.receive(&d) {
        ReceiveResult::Payload(p) => assert_eq!(p, b"hello".to_vec()),
        _ => panic!("first delivery must surface"),
    }
    assert!(matches!(w.receive(&d), ReceiveResult::Skip));
    assert_eq!(w.pending(), 2);
    assert_eq!(w.send(), Some(ack(5)));
    assert_eq!(w.send(), Some(ack(5)));
    assert_eq!(w.send(), None);
}

#[test]
fn corrupt_frame_is_dropped_without_ack() {
    let mut w = SocketWorker::new("peer".to_string());
    let mut d = frame(5, b"hello");
    let last = d.len() - 1;
    d[last] ^= 1;
    assert!(matches!(w.receive(&d), ReceiveResult::Bad));
    assert_eq!(w.pending(), 0);
}

#[test]
fn ack_goes_before_data() {
    let mut w = SocketWorker::new("peer".to_string());
    w.send_message(b"mine".to_vec());
    let (got, out) = w.work(vec![frame(9, b"theirs")]);
    assert_eq!(got, vec![b"theirs".to_vec()]);
    assert_eq!(out, Some(ack(9)));
    assert_eq!(w.send(), Some(frame(1, b"mine")));
}

#[test]
fn ack_removes_only_its_frame() {
    let mut w = SocketWorker::new("peer".to_string());
    w.send_message(vec![1]);
    w.send_message(vec![2]);
    assert!(matches!(w.receive(&ack(1)), ReceiveResult::Ctrl));
    assert_eq!(w.pending(), 1);
    assert!(matches!(w.receive(&ack(1)), ReceiveResult::Ctrl));
    assert_eq!(w.pending(), 1);
    assert_eq!(w.send(), Some(frame(2, &[2])));
}

#[test]
fn delivery_despite_lost_datagrams() {
    let mut a = SocketWorker::new("b".to_string());
    let mut b = SocketWorker::new("a".to_string());
    a.send_message(b"update".to_vec());
    // the first two transmissions are lost
    for _ in 0..2 {
        let (_, out) = a.work(vec![]);
        assert_eq!(out, Some(frame(1, b"update")));
    }
    let (_, out) = a.work(vec![]);
    let (got, back) = b.work(vec![out.unwrap()]);
    assert_eq!(got, vec![b"update".to_vec()]);
    // the acknowledgment is lost too: a retransmits, b acknowledges again
    let (_, out) = a.work(vec![]);
    let (got, back2) = b.work(vec![out.unwrap()]);
    assert!(got.is_empty());
    assert_eq!(back, back2);
    let (got, out) = a.work(vec![back2.unwrap()]);
    assert!(got.is_empty());
    assert_eq!(out, None);
    assert_eq!(a.pending(), 0);
}

#[test]
fn handshake_round_trip() {
    let h = handshake_bytes(258);
    assert_eq!(h, vec![0x48, 2, 1, 0, 0]);
    assert_eq!(parse_handshake(&h), Some(258));
    assert_eq!(parse_handshake(&[0x48, 1, 2]), None);
    assert_eq!(parse_handshake(&[0x47, 1, 2, 3, 4]), None);
}
