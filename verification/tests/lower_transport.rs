use btmesh::common::{SequenceNumber, SeqZero};
use btmesh::lower::{segment, reassemble, Acked, BlockAck, SEGMENT_SIZE_ACCESS};

#[test]
fn segmentation_of_thirty_byte_payload() {
    // a 30-byte access payload with SZMIC=0 carries a 4-byte MIC:
    // 34 bytes of upper-transport PDU split into segments of 12, 12, 10
    let mut upper_pdu: Vec<u8> = (0u8..30).collect();
    upper_pdu.extend_from_slice(&[0xAA, 0xBB, 0xCC, 0xDD]);
    let segments = segment(&upper_pdu, SEGMENT_SIZE_ACCESS);
    assert_eq!(segments.len(), 3);
    let seg_n = (segments.len() - 1) as u8;
    assert_eq!(seg_n, 2);
    assert_eq!(segments[0].len(), 12);
    assert_eq!(segments[1].len(), 12);
    assert_eq!(segments[2].len(), 10);

    // SeqZero is the low 13 bits of the allocation seq
    let seq = SequenceNumber::new(0x00ABCDEF);
    assert_eq!(SeqZero::of_seq(seq).value(), (0x00ABCDEF & 0x1FFF) as u16);
}

#[test]
fn segmentation_round_trip() {
    for len in [0usize, 1, 11, 12, 13, 24, 100, 379] {
        let payload: Vec<u8> = (0..len).map(|i| (i % 251) as u8).collect();
        let segments = segment(&payload, SEGMENT_SIZE_ACCESS);
        let rebuilt = reassemble(&segments);
        assert_eq!(rebuilt, payload);
    }
}

#[test]
fn block_ack_idempotence() {
    let seq_zero = SeqZero::new(0x0042);
    let mut acked = Acked::new(seq_zero, 3);

    let mut inbound = BlockAck::new(seq_zero);
    inbound.ack(0).unwrap();
    inbound.ack(2).unwrap();

    assert_eq!(acked.ack(inbound).unwrap(), false);
    let once = acked.block_ack.bitmap;
    // applying the same block-ack twice produces the same acked set
    assert_eq!(acked.ack(inbound).unwrap(), false);
    assert_eq!(acked.block_ack.bitmap, once);

    let mut last = BlockAck::new(seq_zero);
    last.ack(1).unwrap();
    assert_eq!(acked.ack(last).unwrap(), true);
}

#[test]
fn block_ack_rejects_out_of_range_segment() {
    let seq_zero = SeqZero::new(1);
    let mut acked = Acked::new(seq_zero, 2);
    let mut inbound = BlockAck::new(seq_zero);
    inbound.ack(5).unwrap();
    // an ack naming a segment index at or past the segment count is invalid
    assert!(acked.ack(inbound).is_err());
    assert_eq!(acked.block_ack.bitmap, 0);

    let mut ba = BlockAck::new(seq_zero);
    assert!(ba.ack(32).is_err());
}

#[test]
fn block_ack_full_coverage() {
    let seq_zero = SeqZero::new(7);
    let mut ba = BlockAck::new(seq_zero);
    for i in 0..3u8 {
        ba.ack(i).unwrap();
    }
    assert!(ba.is_fully_acked(2));
    assert!(!ba.is_fully_acked(3));
    assert_eq!(ba.acked_indices(), vec![0, 1, 2]);
}
