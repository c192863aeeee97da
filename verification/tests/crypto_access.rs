use btmesh::address::{Address, LabelUuid, UnicastAddress};
use btmesh::common::{IvIndex, SequenceNumber, Ttl};
use btmesh::crypto::s1;
use btmesh::device::{Aid, KeyHandle};
use btmesh::error::DriverError;
use btmesh::opcode::Opcode;
use btmesh::secrets::{ApplicationKey, NetworkKey, Secrets};
use btmesh::sequence::Sequence;
use btmesh::stack::{DeviceInfo, NetworkState, ProvisionedStack};
use btmesh::upper::{
    decrypt_access, encrypt_access, encrypt_device_key, try_decrypt_device_key,
    encrypt_application_key, try_decrypt_application_key, AccessMessage, Message, UpperPDU,
};

fn sample_secrets() -> Secrets {
    Secrets::new([0x11; 16], [0x22; 16])
}

#[test]
fn s1_matches_the_specification_sample() {
    // the mesh profile's sample: s1("test")
    let digest = s1(b"test");
    assert_eq!(
        digest,
        [
            0xb7, 0x3c, 0xef, 0xbd, 0x64, 0x1e, 0xf2, 0xea, 0x59, 0x8c, 0x2b, 0x6e, 0xfb, 0x62,
            0xf7, 0x9c
        ]
    );
}

#[test]
fn device_key_round_trip() {
    let key = [0x42u8; 16];
    let nonce = [0x07u8; 13];
    let payload = b"mesh access payload";
    let ct = encrypt_device_key(&key, &nonce, payload).unwrap();
    assert_eq!(ct.len(), payload.len() + 4);
    let pt = try_decrypt_device_key(&key, &nonce, &ct).unwrap();
    assert_eq!(pt, payload);

    // decryption with the wrong key fails
    let wrong = [0x43u8; 16];
    assert!(try_decrypt_device_key(&wrong, &nonce, &ct).is_err());
}

#[test]
fn application_key_round_trip_with_label() {
    let key = [0x0Fu8; 16];
    let nonce = [0x01u8; 13];
    let label = LabelUuid::new([0xDD; 16]);
    let payload = b"published state";
    let ct = encrypt_application_key(&key, &nonce, payload, Some(label)).unwrap();
    let pt = try_decrypt_application_key(&key, &nonce, &ct, Some(label)).unwrap();
    assert_eq!(pt, payload);

    // the label is bound into the authentication: dropping it fails
    assert!(try_decrypt_application_key(&key, &nonce, &ct, None).is_err());
}

#[test]
fn label_uuid_hash_is_a_virtual_address() {
    let label = LabelUuid::new([0x10; 16]);
    let va = label.virtual_address();
    assert!((0x8000..0xC000).contains(&va.value()));
    // the derivation is deterministic
    assert_eq!(LabelUuid::new([0x10; 16]).virtual_address(), va);
}

#[test]
fn access_message_round_trip_with_device_key() {
    let secrets = sample_secrets();
    let mut sequence = Sequence::new(SequenceNumber::new(800));
    sequence.commit(900);
    let network_key_handle = secrets.network_key_by_index(0).unwrap();

    let message = AccessMessage {
        opcode: Opcode::OneOctet(0x04),
        parameters: vec![1, 2, 3, 4],
        src: UnicastAddress::parse(0x0100).unwrap(),
        dst: Address::parse(0x0200),
        ttl: Ttl::new(5),
        iv_index: IvIndex::new(0),
        network_key_handle,
        key_handle: KeyHandle::Device,
        label_uuid: None,
    };

    let pdu = encrypt_access(&secrets, &mut sequence, &message).unwrap();
    assert_eq!(pdu.meta.seq.value(), 800);
    let decrypted = decrypt_access(&secrets, &pdu).unwrap();
    assert_eq!(decrypted.opcode, Opcode::OneOctet(0x04));
    assert_eq!(decrypted.parameters, vec![1, 2, 3, 4]);
    assert_eq!(decrypted.src.value(), 0x0100);
    assert!(matches!(decrypted.key_handle, KeyHandle::Device));
}

#[test]
fn access_message_round_trip_with_application_key() {
    let mut secrets = sample_secrets();
    let handle = secrets.add_application_key([0x77; 16], 0).unwrap();
    let mut sequence = Sequence::new(SequenceNumber::new(800));
    sequence.commit(900);
    let network_key_handle = secrets.network_key_by_index(0).unwrap();

    let message = AccessMessage {
        opcode: Opcode::TwoOctet(0x82, 0x01),
        parameters: vec![0xAB],
        src: UnicastAddress::parse(0x0100).unwrap(),
        dst: Address::parse(0xC001),
        ttl: Ttl::new(3),
        iv_index: IvIndex::new(7),
        network_key_handle,
        key_handle: KeyHandle::Application(handle),
        label_uuid: None,
    };

    let pdu = encrypt_access(&secrets, &mut sequence, &message).unwrap();
    assert_eq!(pdu.meta.akf_aid, Some(Aid(handle.aid().0)));
    let decrypted = decrypt_access(&secrets, &pdu).unwrap();
    assert_eq!(decrypted.opcode, Opcode::TwoOctet(0x82, 0x01));
    assert_eq!(decrypted.parameters, vec![0xAB]);
    match decrypted.key_handle {
        KeyHandle::Application(h) => assert_eq!(h.0, handle.0),
        other => panic!("unexpected key handle {:?}", other),
    }
}

#[test]
fn undecryptable_pdu_is_invalid() {
    let secrets = sample_secrets();
    let other = Secrets::new([0x99; 16], [0x22; 16]);
    let mut sequence = Sequence::new(SequenceNumber::new(800));
    sequence.commit(900);
    let network_key_handle = secrets.network_key_by_index(0).unwrap();

    let message = AccessMessage {
        opcode: Opcode::OneOctet(0x04),
        parameters: vec![],
        src: UnicastAddress::parse(0x0100).unwrap(),
        dst: Address::parse(0x0200),
        ttl: Ttl::new(5),
        iv_index: IvIndex::new(0),
        network_key_handle,
        key_handle: KeyHandle::Device,
        label_uuid: None,
    };

    // encrypted under one device key, tried under another
    let pdu = encrypt_access(&secrets, &mut sequence, &message).unwrap();
    match decrypt_access(&other, &pdu) {
        Err(DriverError::InvalidPDU) => {}
        other => panic!("expected an invalid PDU, got {:?}", other),
    }
}

#[test]
fn virtual_address_acceptance_depends_on_subscription() {
    let mut secrets = sample_secrets();
    let handle = secrets.add_application_key([0x77; 16], 0).unwrap();
    let network_key_handle = secrets.network_key_by_index(0).unwrap();
    let label = LabelUuid::new([0xEE; 16]);

    let device_info = DeviceInfo::new(UnicastAddress::parse(0x0100).unwrap(), 1);
    let network_state = NetworkState::new(IvIndex::new(0), btmesh::common::IvUpdateFlag::Normal);
    let mut subscribed = ProvisionedStack::new(device_info, secrets.clone(), network_state, Default::default());
    subscribed.add_label_uuid(label).unwrap();
    let mut unsubscribed =
        ProvisionedStack::new(device_info, secrets.clone(), network_state, Default::default());

    let mut sequence = Sequence::new(SequenceNumber::new(800));
    sequence.commit(900);
    let message = AccessMessage {
        opcode: Opcode::OneOctet(0x04),
        parameters: vec![9, 9],
        src: UnicastAddress::parse(0x0100).unwrap(),
        dst: Address::Virtual(label.virtual_address()),
        ttl: Ttl::new(5),
        iv_index: IvIndex::new(0),
        network_key_handle,
        key_handle: KeyHandle::Application(handle),
        label_uuid: Some(label),
    };
    let pdu = encrypt_access(&secrets, &mut sequence, &message).unwrap();

    // the node holding a label whose hash is the destination accepts
    let accepted = subscribed
        .process_inbound_upper_pdu(UpperPDU::Access(pdu.clone()))
        .unwrap();
    match accepted {
        Message::Access(m) => {
            assert_eq!(m.parameters, vec![9, 9]);
            assert_eq!(m.label_uuid.unwrap(), label);
        }
        Message::Control(_) => panic!("expected an access message"),
    }

    // the node without the subscription rejects the same PDU: with no
    // candidate label attached, the virtual destination is never tried
    match unsubscribed.process_inbound_upper_pdu(UpperPDU::Access(pdu)) {
        Err(DriverError::InvalidPDU) => {}
        other => panic!("expected an invalid PDU, got {:?}", other),
    }
}

#[test]
fn derived_identifiers_are_deterministic_and_in_range() {
    let network = NetworkKey::new([0x22; 16]);
    assert!(network.nid < 0x80);
    assert_eq!(NetworkKey::new([0x22; 16]).nid, network.nid);
    assert_eq!(network.network_id().as_bytes().len(), 8);

    let app = ApplicationKey::new([0x77; 16], 0);
    assert!(app.aid < 0x40);
    assert_eq!(ApplicationKey::new([0x77; 16], 0).aid, app.aid);
}

#[test]
fn beacon_authentication_is_deterministic() {
    let key = btmesh::crypto::beacon_key(&[0x22; 16]);
    let network = NetworkKey::new([0x22; 16]);
    let auth = btmesh::crypto::beacon_authentication(&key, 0x00, &network.network_id().0, 5);
    let again = btmesh::crypto::beacon_authentication(&key, 0x00, &network.network_id().0, 5);
    assert_eq!(auth, again);
    // a different IV index changes the authentication value
    let other = btmesh::crypto::beacon_authentication(&key, 0x00, &network.network_id().0, 6);
    assert_ne!(auth, other);
}
