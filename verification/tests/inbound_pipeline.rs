use btmesh::address::{Address, UnicastAddress};
use btmesh::common::{Ctl, IvIndex, IvUpdateFlag, SequenceNumber, SeqZero, Ttl};
use btmesh::device::KeyHandle;
use btmesh::lower::{segment, LowerPDU, Reassembly, SEGMENT_SIZE_ACCESS};
use btmesh::mic::SzMic;
use btmesh::network::network_encrypt;
use btmesh::opcode::Opcode;
use btmesh::secrets::Secrets;
use btmesh::sequence::Sequence;
use btmesh::stack::{dispatch_elements, DeviceInfo, NetworkState, ProvisionedStack};
use btmesh::upper::{encrypt_access, AccessMessage, Message};

fn provisioned() -> ProvisionedStack {
    let secrets = Secrets::new([0x11; 16], [0x22; 16]);
    let device_info = DeviceInfo::new(UnicastAddress::parse(0x0100).unwrap(), 2);
    let network_state = NetworkState::new(IvIndex::new(0), IvUpdateFlag::Normal);
    ProvisionedStack::new(device_info, secrets, network_state, Default::default())
}

fn encrypt_frame(stack: &ProvisionedStack, seq: u32, transport: &[u8]) -> Vec<u8> {
    let handle = stack.secrets().network_key_by_index(0).unwrap();
    let key = stack.secrets().network_key(handle).unwrap();
    let iv = IvIndex::new(0);
    network_encrypt(
        &key,
        iv,
        iv.ivi(),
        Ctl::Access,
        Ttl::new(5),
        SequenceNumber::new(seq),
        UnicastAddress::parse(0x0200).unwrap(),
        Address::parse(0x0100),
        transport,
    )
    .unwrap()
}

#[test]
fn unsegmented_access_frame_end_to_end() {
    let mut stack = provisioned();
    let mut sequence = Sequence::new(SequenceNumber::new(800));
    sequence.commit(900);
    let network_key_handle = stack.secrets().network_key_by_index(0).unwrap();

    // the sender encrypts an access message under the shared device key
    let message = AccessMessage {
        opcode: Opcode::OneOctet(0x04),
        parameters: vec![0xCA, 0xFE],
        src: UnicastAddress::parse(0x0200).unwrap(),
        dst: Address::parse(0x0100),
        ttl: Ttl::new(5),
        iv_index: IvIndex::new(0),
        network_key_handle,
        key_handle: KeyHandle::Device,
        label_uuid: None,
    };
    let upper_pdu = encrypt_access(stack.secrets(), &mut sequence, &message).unwrap();
    let seq = upper_pdu.meta.seq.value();

    let mut upper_bytes = upper_pdu.payload.clone();
    match &upper_pdu.transmic {
        btmesh::mic::TransMic::Bit32(mic) => upper_bytes.extend_from_slice(mic),
        btmesh::mic::TransMic::Bit64(mic) => upper_bytes.extend_from_slice(mic),
    }
    let mut transport = Vec::new();
    LowerPDU::UnsegmentedAccess {
        akf_aid: None,
        upper: upper_bytes,
    }
    .emit(&mut transport);

    let frame = encrypt_frame(&stack, seq, &transport);
    let result = stack.process_inbound_network_pdu(&frame, 0).unwrap();
    match result.message {
        Some(Message::Access(m)) => {
            assert_eq!(m.opcode, Opcode::OneOctet(0x04));
            assert_eq!(m.parameters, vec![0xCA, 0xFE]);
            assert_eq!(m.src.value(), 0x0200);
        }
        other => panic!("expected an access message, got {:?}", other),
    }
    assert!(result.block_ack.is_none());

    // the identical frame is a replay and is dropped silently
    let replayed = stack.process_inbound_network_pdu(&frame, 0).unwrap();
    assert!(replayed.message.is_none());
}

#[test]
fn segmented_access_frames_end_to_end() {
    let mut stack = provisioned();
    let mut sequence = Sequence::new(SequenceNumber::new(800));
    sequence.commit(900);
    let network_key_handle = stack.secrets().network_key_by_index(0).unwrap();

    // a 30-byte payload gives a 34-byte upper PDU: segments of 12, 12, 10
    let message = AccessMessage {
        opcode: Opcode::OneOctet(0x04),
        parameters: (0u8..29).collect(),
        src: UnicastAddress::parse(0x0200).unwrap(),
        dst: Address::parse(0x0100),
        ttl: Ttl::new(5),
        iv_index: IvIndex::new(0),
        network_key_handle,
        key_handle: KeyHandle::Device,
        label_uuid: None,
    };
    let upper_pdu = encrypt_access(stack.secrets(), &mut sequence, &message).unwrap();
    let seq = upper_pdu.meta.seq.value();
    let seq_zero = SeqZero::of_seq(SequenceNumber::new(seq)).value();

    let mut upper_bytes = upper_pdu.payload.clone();
    match &upper_pdu.transmic {
        btmesh::mic::TransMic::Bit32(mic) => upper_bytes.extend_from_slice(mic),
        btmesh::mic::TransMic::Bit64(mic) => upper_bytes.extend_from_slice(mic),
    }
    let segments = segment(&upper_bytes, SEGMENT_SIZE_ACCESS);
    assert_eq!(segments.len(), 3);
    let seg_n = (segments.len() - 1) as u8;

    let mut delivered = None;
    for (seg_o, part) in segments.into_iter().enumerate() {
        let mut transport = Vec::new();
        LowerPDU::SegmentedAccess {
            akf_aid: None,
            szmic: SzMic::Bit32,
            seq_zero,
            seg_o: seg_o as u8,
            seg_n,
            segment: part,
        }
        .emit(&mut transport);
        let frame = encrypt_frame(&stack, seq, &transport);
        let result = stack.process_inbound_network_pdu(&frame, 0).unwrap();
        if let Some(message) = result.message {
            // completion also carries the final block-ack, addressed
            // back to the segments' source
            let (ack, ack_dst) = result.block_ack.expect("completion acks");
            assert!(ack.is_fully_acked(seg_n));
            assert_eq!(ack_dst.value(), 0x0200);
            delivered = Some(message);
        }
    }

    match delivered {
        Some(Message::Access(m)) => {
            assert_eq!(m.opcode, Opcode::OneOctet(0x04));
            assert_eq!(m.parameters, (0u8..29).collect::<Vec<u8>>());
        }
        other => panic!("expected an access message, got {:?}", other),
    }
}

#[test]
fn lower_pdu_codec_round_trip() {
    let unsegmented = LowerPDU::UnsegmentedAccess {
        akf_aid: Some(0x15),
        upper: vec![1, 2, 3, 4, 5],
    };
    let mut bytes = Vec::new();
    unsegmented.emit(&mut bytes);
    assert_eq!(bytes[0], 0x40 | 0x15);
    match LowerPDU::parse_access(&bytes).unwrap() {
        LowerPDU::UnsegmentedAccess { akf_aid, upper } => {
            assert_eq!(akf_aid, Some(0x15));
            assert_eq!(upper, vec![1, 2, 3, 4, 5]);
        }
        other => panic!("unexpected PDU {:?}", other),
    }

    let segmented = LowerPDU::SegmentedAccess {
        akf_aid: None,
        szmic: SzMic::Bit32,
        seq_zero: 0x1ABC,
        seg_o: 1,
        seg_n: 2,
        segment: vec![9, 8, 7],
    };
    let mut bytes = Vec::new();
    segmented.emit(&mut bytes);
    match LowerPDU::parse_access(&bytes).unwrap() {
        LowerPDU::SegmentedAccess { akf_aid, szmic, seq_zero, seg_o, seg_n, segment } => {
            assert_eq!(akf_aid, None);
            assert_eq!(szmic, SzMic::Bit32);
            assert_eq!(seq_zero, 0x1ABC);
            assert_eq!(seg_o, 1);
            assert_eq!(seg_n, 2);
            assert_eq!(segment, vec![9, 8, 7]);
        }
        other => panic!("unexpected PDU {:?}", other),
    }
}

#[test]
fn reassembly_emits_acks_and_expires() {
    let mut reassembly = Reassembly::new();
    // first segment of two: not complete, ack due immediately
    let (done, ba, ack_due) = reassembly
        .on_segment(0x0200, 5, SzMic::Bit32, 0, 1, vec![1; 12], 1000)
        .unwrap();
    assert!(done.is_none());
    assert!(ack_due);
    assert_eq!(ba.seq_zero.value(), 5);

    // the same segment shortly after: ack suppressed
    let (_, _, ack_due) = reassembly
        .on_segment(0x0200, 5, SzMic::Bit32, 0, 1, vec![1; 12], 1050)
        .unwrap();
    assert!(!ack_due);

    // ten idle seconds drop the context silently
    reassembly.expire(20_000);
    assert_eq!(reassembly.contexts.len(), 0);
}

#[test]
fn dispatch_fan_out() {
    let info = DeviceInfo::new(UnicastAddress::parse(0x0100).unwrap(), 3);
    assert_eq!(dispatch_elements(&info, Address::parse(0x0101)), vec![1]);
    assert_eq!(dispatch_elements(&info, Address::parse(0x0500)), Vec::<u8>::new());
    assert_eq!(dispatch_elements(&info, Address::parse(0xC000)), vec![0, 1, 2]);
    assert_eq!(dispatch_elements(&info, Address::parse(0x8000)), vec![0, 1, 2]);
    assert_eq!(dispatch_elements(&info, Address::parse(0x0000)), Vec::<u8>::new());
}

#[test]
fn outbound_pipeline_round_trip_unsegmented() {
    let mut sender = provisioned();
    let mut receiver = provisioned();
    let mut sequence = Sequence::new(SequenceNumber::new(800));
    sequence.commit(900);
    let network_key_handle = sender.secrets().network_key_by_index(0).unwrap();

    let message = Message::Access(AccessMessage {
        opcode: Opcode::OneOctet(0x04),
        parameters: vec![0x01],
        src: UnicastAddress::parse(0x0200).unwrap(),
        dst: Address::parse(0x0100),
        ttl: Ttl::new(5),
        iv_index: IvIndex::new(0),
        network_key_handle,
        key_handle: KeyHandle::Device,
        label_uuid: None,
    });
    let frames = sender.process_outbound(&mut sequence, &message, None).unwrap();
    assert_eq!(frames.len(), 1);

    let result = receiver.process_inbound_network_pdu(&frames[0], 0).unwrap();
    match result.message {
        Some(Message::Access(m)) => {
            assert_eq!(m.opcode, Opcode::OneOctet(0x04));
            assert_eq!(m.parameters, vec![0x01]);
        }
        other => panic!("expected an access message, got {:?}", other),
    }
}

#[test]
fn outbound_pipeline_round_trip_segmented() {
    let mut sender = provisioned();
    let mut receiver = provisioned();
    let mut sequence = Sequence::new(SequenceNumber::new(800));
    sequence.commit(900);
    let network_key_handle = sender.secrets().network_key_by_index(0).unwrap();

    let message = Message::Access(AccessMessage {
        opcode: Opcode::OneOctet(0x04),
        parameters: (0u8..29).collect(),
        src: UnicastAddress::parse(0x0200).unwrap(),
        dst: Address::parse(0x0100),
        ttl: Ttl::new(5),
        iv_index: IvIndex::new(0),
        network_key_handle,
        key_handle: KeyHandle::Device,
        label_uuid: None,
    });
    let frames = sender.process_outbound(&mut sequence, &message, Some(3)).unwrap();
    // a 34-byte upper PDU travels as three segments
    assert_eq!(frames.len(), 3);

    let mut delivered = None;
    for frame in &frames {
        let result = receiver.process_inbound_network_pdu(frame, 0).unwrap();
        if let Some(m) = result.message {
            delivered = Some(m);
        }
    }
    match delivered {
        Some(Message::Access(m)) => {
            assert_eq!(m.parameters, (0u8..29).collect::<Vec<u8>>());
        }
        other => panic!("expected an access message, got {:?}", other),
    }

    // the sender queued the segmented transmission until it is acked
    let (queued, _) = sender.transmit_queue.iter();
    assert_eq!(queued.len(), 1);
}

#[test]
fn segment_ack_wire_format() {
    let mut ba = btmesh::lower::BlockAck::new(SeqZero::new(0x0321));
    ba.ack(0).unwrap();
    ba.ack(1).unwrap();
    let params = btmesh::lower::segment_ack_parameters(ba);
    assert_eq!(
        params,
        vec![
            ((0x0321u16 >> 6) & 0x7f) as u8,
            ((0x0321u16 & 0x3f) << 2) as u8,
            0x00,
            0x00,
            0x00,
            0x03
        ]
    );
}

#[test]
fn outbound_message_takes_default_ttl() {
    let secrets = Secrets::new([0x11; 16], [0x22; 16]);
    let network_key_handle = secrets.network_key_by_index(0).unwrap();
    let meta = btmesh::device::OutboundMetadata {
        dst: Address::parse(0xC001),
        network_key_handle,
        iv_index: IvIndex::new(0),
        key_handle: KeyHandle::Device,
        label_uuid: None,
        ttl: None,
    };
    let message = AccessMessage::new_outbound(
        Opcode::OneOctet(0x04),
        vec![1],
        UnicastAddress::parse(0x0100).unwrap(),
        meta,
        Ttl::new(127),
    );
    assert_eq!(message.ttl, Ttl::new(127));
    assert_eq!(message.dst.value(), 0xC001);

    let with_ttl = meta.with_ttl(Ttl::new(9));
    let message = AccessMessage::new_outbound(
        Opcode::OneOctet(0x04),
        vec![1],
        UnicastAddress::parse(0x0100).unwrap(),
        with_ttl,
        Ttl::new(127),
    );
    assert_eq!(message.ttl, Ttl::new(9));

    // a reply goes back to the inbound source with the same keys
    let inbound = message_inbound_fixture();
    let reply = inbound.reply();
    assert_eq!(reply.dst.value(), 0x0300);
    assert!(reply.ttl().is_none());
}

fn message_inbound_fixture() -> btmesh::device::InboundMetadata {
    let secrets = Secrets::new([0x11; 16], [0x22; 16]);
    let network_key_handle = secrets.network_key_by_index(0).unwrap();
    btmesh::device::InboundMetadata::new(
        UnicastAddress::parse(0x0300).unwrap(),
        Address::parse(0x0100),
        Ttl::new(5),
        network_key_handle,
        IvIndex::new(0),
        KeyHandle::Device,
        None,
    )
}

#[test]
fn segment_ack_parses_back() {
    let mut ba = btmesh::lower::BlockAck::new(SeqZero::new(0x1ABC));
    ba.ack(0).unwrap();
    ba.ack(2).unwrap();
    let params = btmesh::lower::segment_ack_parameters(ba);
    let parsed = btmesh::lower::parse_segment_ack(&params).unwrap();
    assert_eq!(parsed.seq_zero.value(), 0x1ABC);
    assert_eq!(parsed.bitmap, ba.bitmap);
    assert!(btmesh::lower::parse_segment_ack(&params[..5]).is_err());

    // the whole control transport is the zero opcode and the parameters
    let transport = btmesh::lower::segment_ack_transport(ba);
    assert_eq!(transport[0], 0);
    assert_eq!(&transport[1..], &params[..]);
}

#[test]
fn ack_frame_travels_back_to_the_sender() {
    let mut receiver = provisioned();
    let mut sender = provisioned();
    let mut seq_rx = Sequence::new(SequenceNumber::new(800));
    seq_rx.commit(900);
    let mut seq_tx = Sequence::new(SequenceNumber::new(800));
    seq_tx.commit(900);
    let network_key_handle = sender.secrets().network_key_by_index(0).unwrap();

    // the sender queues a segmented message
    let message = Message::Access(AccessMessage {
        opcode: Opcode::OneOctet(0x04),
        parameters: (0u8..29).collect(),
        src: UnicastAddress::parse(0x0200).unwrap(),
        dst: Address::parse(0x0100),
        ttl: Ttl::new(5),
        iv_index: IvIndex::new(0),
        network_key_handle,
        key_handle: KeyHandle::Device,
        label_uuid: None,
    });
    let frames = sender.process_outbound(&mut seq_tx, &message, Some(11)).unwrap();

    // the receiver completes reassembly and frames a block-ack back
    let mut ack_frame = None;
    for frame in &frames {
        let result = receiver.process_inbound_network_pdu(frame, 0).unwrap();
        if let Some((ba, dst)) = result.block_ack {
            let ttl = Ttl::new(5);
            ack_frame = Some(receiver.ack_frame(&mut seq_rx, ba, dst, ttl).unwrap());
        }
    }
    let ack_frame = ack_frame.expect("completion emits an ack");

    // the sender decodes the ack and retires its queued entry
    let result = sender.process_inbound_network_pdu(&ack_frame, 0).unwrap();
    match result.message {
        Some(Message::Control(control)) => {
            assert_eq!(control.opcode, 0);
            let ba = btmesh::lower::parse_segment_ack(&control.parameters).unwrap();
            assert_eq!(sender.transmit_queue.receive_ack(ba).unwrap(), Some(11));
        }
        other => panic!("expected the segment-ack control message, got {:?}", other),
    }
    // the queue slot is free again
    let (queued, _) = sender.transmit_queue.iter();
    assert!(queued.is_empty());
}

#[test]
fn retransmission_frames_decrypt_again() {
    let mut sender = provisioned();
    let mut receiver = provisioned();
    let mut sequence = Sequence::new(SequenceNumber::new(800));
    sequence.commit(900);
    let network_key_handle = sender.secrets().network_key_by_index(0).unwrap();

    let message = Message::Access(AccessMessage {
        opcode: Opcode::OneOctet(0x04),
        parameters: (0u8..29).collect(),
        src: UnicastAddress::parse(0x0200).unwrap(),
        dst: Address::parse(0x0100),
        ttl: Ttl::new(5),
        iv_index: IvIndex::new(0),
        network_key_handle,
        key_handle: KeyHandle::Device,
        label_uuid: None,
    });
    let _ = sender.process_outbound(&mut sequence, &message, None).unwrap();

    // the queued entry is re-framed with fresh sequence numbers and
    // still reassembles at the receiver
    let (frames, fired) = sender.retransmit_frames(&mut sequence).unwrap();
    assert_eq!(frames.len(), 3);
    assert!(fired.is_empty());
    let mut delivered = None;
    for frame in &frames {
        let result = receiver.process_inbound_network_pdu(frame, 0).unwrap();
        if let Some(m) = result.message {
            delivered = Some(m);
        }
    }
    match delivered {
        Some(Message::Access(m)) => assert_eq!(m.parameters, (0u8..29).collect::<Vec<u8>>()),
        other => panic!("expected the retransmitted message, got {:?}", other),
    }
}
