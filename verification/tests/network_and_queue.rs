use btmesh::address::{Address, UnicastAddress};
use btmesh::common::{Ctl, IvIndex, Ivi, SequenceNumber, SeqZero, Ttl};
use btmesh::lower::BlockAck;
use btmesh::network::{network_decrypt, network_decrypt_with_key, network_encrypt, relay_decision};
use btmesh::opcode::Opcode;
use btmesh::queue::TransmitQueue;
use btmesh::secrets::{NetworkKey, Secrets};
use btmesh::upper::{UpperControlPDU, UpperMetadata, UpperPDU};

fn sample_meta(seq: u32, ttl: u8) -> UpperMetadata {
    let secrets = Secrets::new([0x11; 16], [0x22; 16]);
    UpperMetadata {
        network_key_handle: secrets.network_key_by_index(0).unwrap(),
        iv_index: IvIndex::new(0),
        akf_aid: None,
        seq: SequenceNumber::new(seq),
        src: UnicastAddress::parse(0x0100).unwrap(),
        dst: Address::parse(0x0200),
        ttl: Ttl::new(ttl),
        label_uuids: Vec::new(),
    }
}

fn sample_pdu(seq: u32) -> UpperPDU {
    UpperPDU::Control(UpperControlPDU {
        opcode: 0x0A,
        parameters: vec![1, 2, 3],
        meta: sample_meta(seq, 4),
    })
}

#[test]
fn network_frame_round_trip() {
    let key = NetworkKey::new([0x22; 16]);
    let handle = Secrets::new([0x11; 16], [0x22; 16])
        .network_key_by_index(0)
        .unwrap();
    let iv = IvIndex::new(0x11223344);
    let transport = vec![0xDE, 0xAD, 0xBE, 0xEF, 0x01];

    let frame = network_encrypt(
        &key,
        iv,
        Ivi::Zero,
        Ctl::Access,
        Ttl::new(5),
        SequenceNumber::new(0x000102),
        UnicastAddress::parse(0x0100).unwrap(),
        Address::parse(0xC005),
        &transport,
    )
    .unwrap();

    let pdu = network_decrypt_with_key(&key, handle, iv, &frame).unwrap();
    assert_eq!(pdu.ttl.value(), 5);
    assert_eq!(pdu.seq.value(), 0x000102);
    assert_eq!(pdu.src.value(), 0x0100);
    assert_eq!(pdu.dst.value(), 0xC005);
    assert_eq!(pdu.transport_pdu, transport);
    assert!(matches!(pdu.ctl, Ctl::Access));

    // the wrong network key cannot decrypt the frame
    let wrong = NetworkKey::new([0x23; 16]);
    assert!(network_decrypt_with_key(&wrong, handle, iv, &frame).is_err());
}

#[test]
fn network_decrypt_finds_the_stored_key() {
    let secrets = Secrets::new([0x11; 16], [0x22; 16]);
    let key = NetworkKey::new([0x22; 16]);
    let iv = IvIndex::new(1);
    let frame = network_encrypt(
        &key,
        iv,
        Ivi::One,
        Ctl::Control,
        Ttl::new(2),
        SequenceNumber::new(42),
        UnicastAddress::parse(0x0005).unwrap(),
        Address::parse(0x0006),
        &[0x55, 0x66],
    )
    .unwrap();
    let pdu = network_decrypt(&secrets, iv, &frame).unwrap();
    assert_eq!(pdu.seq.value(), 42);
    assert!(matches!(pdu.ctl, Ctl::Control));
    assert!(matches!(pdu.ivi, Ivi::One));
}

#[test]
fn relay_decisions() {
    assert_eq!(relay_decision(false, false, Ttl::new(5)), None);
    assert_eq!(relay_decision(true, true, Ttl::new(5)), None);
    assert_eq!(relay_decision(true, false, Ttl::new(1)), None);
    assert_eq!(relay_decision(true, false, Ttl::new(5)), Some(Ttl::new(4)));
}

#[test]
fn queue_nonsegmented_decay_fires_token() {
    let mut queue = TransmitQueue::new();
    queue
        .add_nonsegmented(sample_pdu(10), 2, Some(77))
        .unwrap();

    // first pass transmits and decays the counter
    let (pdus, fired) = queue.iter();
    assert_eq!(pdus.len(), 1);
    assert!(fired.is_empty());

    // second pass exhausts the retry budget and fires the token
    let (pdus, fired) = queue.iter();
    assert_eq!(pdus.len(), 1);
    assert_eq!(fired, vec![77]);

    // the slot is free again
    let (pdus, fired) = queue.iter();
    assert!(pdus.is_empty());
    assert!(fired.is_empty());
}

#[test]
fn queue_segmented_completes_on_full_ack() {
    let mut queue = TransmitQueue::new();
    let seq = 0x000102u32;
    let seq_zero = SeqZero::of_seq(SequenceNumber::new(seq));
    queue
        .add_segmented(sample_pdu(seq), 3, Some(5), seq_zero)
        .unwrap();

    // segmented entries stay queued until acked
    let (pdus, fired) = queue.iter();
    assert_eq!(pdus.len(), 1);
    assert!(fired.is_empty());

    let mut partial = BlockAck::new(seq_zero);
    partial.ack(0).unwrap();
    partial.ack(1).unwrap();
    assert_eq!(queue.receive_ack(partial).unwrap(), None);

    let mut rest = BlockAck::new(seq_zero);
    rest.ack(2).unwrap();
    assert_eq!(queue.receive_ack(rest).unwrap(), Some(5));

    let (pdus, _) = queue.iter();
    assert!(pdus.is_empty());
}

#[test]
fn queue_expire_outbound_drops_entry() {
    let mut queue = TransmitQueue::new();
    let seq_zero = SeqZero::new(0x0123);
    queue
        .add_segmented(sample_pdu(0x0123), 2, None, seq_zero)
        .unwrap();
    queue.expire_outbound(seq_zero);
    let (pdus, _) = queue.iter();
    assert!(pdus.is_empty());
}

#[test]
fn queue_invalid_ack_changes_nothing() {
    let mut queue = TransmitQueue::new();
    let seq_zero = SeqZero::new(0x0042);
    queue
        .add_segmented(sample_pdu(0x0042), 2, Some(9), seq_zero)
        .unwrap();
    let mut bad = BlockAck::new(seq_zero);
    bad.ack(7).unwrap();
    assert!(queue.receive_ack(bad).is_err());
    // the entry is still queued
    let (pdus, _) = queue.iter();
    assert_eq!(pdus.len(), 1);
}

#[test]
fn opcode_round_trip_all_ranges() {
    let samples = [
        Opcode::OneOctet(0x00),
        Opcode::OneOctet(0x04),
        Opcode::OneOctet(0x7E),
        Opcode::TwoOctet(0x80, 0x00),
        Opcode::TwoOctet(0xBF, 0xFF),
        Opcode::ThreeOctet(0xC0, 0x59, 0x00),
        Opcode::ThreeOctet(0xFF, 0xAB, 0xCD),
    ];
    for op in samples {
        let mut bytes = Vec::new();
        op.emit(&mut bytes).unwrap();
        let expected_len = match op {
            Opcode::OneOctet(_) => 1,
            Opcode::TwoOctet(_, _) => 2,
            Opcode::ThreeOctet(_, _, _) => 3,
        };
        assert_eq!(bytes.len(), expected_len);
        bytes.extend_from_slice(&[0x99, 0x88]);
        let (decoded, len) = Opcode::split(&bytes).unwrap();
        assert_eq!(decoded, op);
        assert_eq!(len, expected_len);
    }
    // 0x7F is reserved and not a one-octet opcode, nor valid alone
    assert!(Opcode::split(&[0x7F]).is_none());
}

#[test]
fn watchdog_table_tracks_deadlines_per_transmission() {
    let mut table = btmesh::queue::WatchdogTable::new();
    table.arm(1000, SeqZero::new(1));
    table.arm(2000, SeqZero::new(2));
    // re-arming replaces the entry for the same SeqZero
    table.arm(1500, SeqZero::new(1));
    assert_eq!(table.entries.len(), 2);

    // only the expired transmission is retired
    let due = table.expired(1600);
    assert_eq!(due, vec![SeqZero::new(1)]);
    assert_eq!(table.entries, vec![(2000, SeqZero::new(2))]);

    // an acknowledged transmission drops its deadline
    table.clear(SeqZero::new(2));
    assert!(table.entries.is_empty());
}

#[test]
fn queue_ack_is_idempotent() {
    let mut queue = TransmitQueue::new();
    let seq_zero = SeqZero::new(0x0055);
    queue
        .add_segmented(sample_pdu(0x0055), 3, Some(4), seq_zero)
        .unwrap();

    let mut partial = BlockAck::new(seq_zero);
    partial.ack(0).unwrap();
    assert_eq!(queue.receive_ack(partial).unwrap(), None);
    let once = match &queue.queue[0] {
        Some(btmesh::queue::QueueEntry::Segmented(e)) => e.acked,
        other => panic!("expected the segmented entry, got {:?}", other),
    };

    // the same block-ack again leaves the acked set unchanged
    assert_eq!(queue.receive_ack(partial).unwrap(), None);
    let twice = match &queue.queue[0] {
        Some(btmesh::queue::QueueEntry::Segmented(e)) => e.acked,
        other => panic!("expected the segmented entry, got {:?}", other),
    };
    assert_eq!(once, twice);
}
