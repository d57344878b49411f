use netlabs::packet::{Packet, TYPE_ACK, TYPE_CMD, TYPE_DATA};
use netlabs::rdt::{RdtState, RecvAction};

#[test]
fn packet_encoding_exact_bytes() {
    let p = Packet { pkt_type: TYPE_DATA, seq: 1, payload: b"hi".to_vec() };
    assert_eq!(p.to_bytes(), vec![0, 1, 151, 149, 104, 105]);
}

#[test]
fn packet_roundtrip() {
    let p = Packet { pkt_type: TYPE_CMD, seq: 0, payload: b"upload file.txt".to_vec() };
    let q = Packet::from_bytes(&p.to_bytes()).expect("decodes");
    assert_eq!(q.pkt_type, TYPE_CMD);
    assert_eq!(q.seq, 0);
    assert_eq!(q.payload, b"upload file.txt".to_vec());
}

#[test]
fn packet_too_short_is_rejected() {
    assert!(Packet::from_bytes(&[0, 1, 2]).is_none());
    assert!(Packet::from_bytes(&[]).is_none());
}

#[test]
fn packet_corruption_is_rejected() {
    let mut bytes = Packet { pkt_type: TYPE_DATA, seq: 0, payload: vec![1, 2, 3] }.to_bytes();
    bytes[5] ^= 0x10;
    assert!(Packet::from_bytes(&bytes).is_none());
}

#[test]
fn empty_ack_encoding() {
    let ack = Packet { pkt_type: TYPE_ACK, seq: 0, payload: vec![] };
    assert_eq!(ack.to_bytes(), vec![1, 0, 254, 255]);
}

#[test]
fn rdt_in_step_exchange() {
    let mut sender = RdtState::new();
    let mut receiver = RdtState::new();
    let datagram = sender.outgoing(TYPE_DATA, b"abc");
    match receiver.on_datagram(&datagram) {
        RecvAction::Deliver { pkt_type, payload, ack } => {
            assert_eq!(pkt_type, TYPE_DATA);
            assert_eq!(payload, b"abc".to_vec());
            assert!(sender.is_expected_ack(true, &ack));
            assert!(!sender.is_expected_ack(false, &ack));
        }
        _ => panic!("expected delivery"),
    }
    // the expected number flips only once the acknowledgement is sent
    assert_eq!(receiver.seq_recv(), 0);
    receiver.ack_sent();
    assert_eq!(receiver.seq_recv(), 1);
    // a retransmission of the same datagram is a duplicate
    match receiver.on_datagram(&datagram) {
        RecvAction::Duplicate { ack } => assert_eq!(ack, vec![1, 0, 254, 255]),
        _ => panic!("expected duplicate"),
    }
    sender.ack_received();
    assert_eq!(sender.seq_send(), 1);
}

#[test]
fn rdt_corrupted_and_stray_ack() {
    let mut receiver = RdtState::new();
    assert!(matches!(receiver.on_datagram(&[9, 9]), RecvAction::Corrupted));
    let ack = Packet { pkt_type: TYPE_ACK, seq: 0, payload: vec![] }.to_bytes();
    assert!(matches!(receiver.on_datagram(&ack), RecvAction::StrayAck));
    assert_eq!(receiver.seq_recv(), 0);
}

#[test]
fn rdt_command_resynchronises() {
    let mut receiver = RdtState::new();
    let cmd = Packet { pkt_type: TYPE_CMD, seq: 1, payload: b"download x".to_vec() }.to_bytes();
    match receiver.on_datagram(&cmd) {
        RecvAction::Deliver { ack, .. } => assert_eq!(ack, vec![1, 1, 254, 254]),
        _ => panic!("a command is always delivered"),
    }
    assert_eq!(receiver.seq_recv(), 1);
    receiver.ack_sent();
    assert_eq!(receiver.seq_recv(), 0);
}

#[test]
fn rdt_wrong_ack_not_accepted() {
    let sender = RdtState::new();
    let ack1 = Packet { pkt_type: TYPE_ACK, seq: 1, payload: vec![] }.to_bytes();
    assert!(!sender.is_expected_ack(true, &ack1));
}

#[test]
fn every_single_bit_flip_is_rejected() {
    let bytes = Packet { pkt_type: TYPE_DATA, seq: 1, payload: b"payload!".to_vec() }.to_bytes();
    for i in 0..bytes.len() {
        for bit in 0..8 {
            let mut b = bytes.clone();
            b[i] ^= 1 << bit;
            assert!(Packet::from_bytes(&b).is_none(), "flip of bit {} in byte {} accepted", bit, i);
        }
    }
}
