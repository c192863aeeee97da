use btmesh::common::SequenceNumber;
use btmesh::provisioning::{
    encrypt_provisioning_data, session_keys, Capabilities, KeyAgreement, ProvisioningAction,
    ProvisioningPDU, ProvisioningState, UnprovisionedStack,
};
use btmesh::sequence::Sequence;
use btmesh::stack::INITIAL_SEQUENCE;

fn key_agreement() -> KeyAgreement {
    KeyAgreement {
        public_key: vec![0x0B; 64],
        shared_secret: [0x55; 32],
    }
}

#[test]
fn provisioning_happy_path() {
    let keys = key_agreement();
    let device_random = [0xD0; 16];
    let provisioner_random = [0xA0u8; 16];

    let mut stack = UnprovisionedStack::new(Capabilities { number_of_elements: 1 });
    assert!(!stack.in_progress());

    // Invite -> Capabilities(num_elements = 1)
    let action = stack
        .process(&ProvisioningPDU::Invite { attention_duration: 0 }, device_random, &keys)
        .unwrap();
    match action {
        ProvisioningAction::Respond(ProvisioningPDU::Capabilities { number_of_elements }) => {
            assert_eq!(number_of_elements, 1)
        }
        other => panic!("unexpected action {:?}", other),
    }
    assert!(stack.in_progress());

    // Start (no OOB) -> no response
    let action = stack
        .process(
            &ProvisioningPDU::Start { algorithm: 0, public_key_used: 0, auth_method: 0 },
            device_random,
            &keys,
        )
        .unwrap();
    assert!(matches!(action, ProvisioningAction::Continue));

    // PublicKey (provisioner's, over the air) -> device's PublicKey
    let provisioner_key = vec![0x0A; 64];
    let action = stack
        .process(&ProvisioningPDU::PublicKey { xy: provisioner_key }, device_random, &keys)
        .unwrap();
    match action {
        ProvisioningAction::Respond(ProvisioningPDU::PublicKey { xy }) => {
            assert_eq!(xy, vec![0x0B; 64])
        }
        other => panic!("unexpected action {:?}", other),
    }

    // the provisioner computes its confirmation over the same transcript
    let transcript = stack.transcript.clone();
    let mirror = UnprovisionedStack {
        state: ProvisioningState::KeyExchanged,
        capabilities: Capabilities { number_of_elements: 1 },
        transcript: transcript.clone(),
        device_random: [0; 16],
        peer_confirmation: None,
        peer_random: None,
        last_transmit: None,
        in_progress: true,
    };
    let provisioner_confirmation = mirror.confirmation_value(&provisioner_random, &keys);

    // Confirmation -> device's confirmation
    let action = stack
        .process(
            &ProvisioningPDU::Confirmation { confirmation: provisioner_confirmation },
            device_random,
            &keys,
        )
        .unwrap();
    let device_confirmation = match action {
        ProvisioningAction::Respond(ProvisioningPDU::Confirmation { confirmation }) => confirmation,
        other => panic!("unexpected action {:?}", other),
    };
    assert_eq!(
        device_confirmation,
        mirror.confirmation_value(&device_random, &keys)
    );

    // Random -> device's random, after the confirmation checks out
    let action = stack
        .process(&ProvisioningPDU::Random { random: provisioner_random }, device_random, &keys)
        .unwrap();
    match action {
        ProvisioningAction::Respond(ProvisioningPDU::Random { random }) => {
            assert_eq!(random, device_random)
        }
        other => panic!("unexpected action {:?}", other),
    }

    // Data(unicast = 0x0100, iv = 0), encrypted with the session key
    let (session_key, session_nonce, expected_device_key) = session_keys(
        &keys.shared_secret,
        &transcript,
        &provisioner_random,
        &device_random,
    );
    let mut plaintext = Vec::new();
    plaintext.extend_from_slice(&[0x33; 16]); // network key
    plaintext.extend_from_slice(&[0x00, 0x00]); // key index
    plaintext.push(0x00); // flags
    plaintext.extend_from_slice(&[0x00, 0x00, 0x00, 0x00]); // iv index
    plaintext.extend_from_slice(&[0x01, 0x00]); // unicast address
    let encrypted = encrypt_provisioning_data(&session_key, &session_nonce, &plaintext).unwrap();

    let action = stack
        .process(&ProvisioningPDU::Data { encrypted_and_mic: encrypted }, device_random, &keys)
        .unwrap();
    match action {
        ProvisioningAction::Provisioned(data, device_key) => {
            assert_eq!(data.unicast_address.value(), 0x0100);
            assert_eq!(data.iv_index.value(), 0);
            assert_eq!(data.network_key, [0x33; 16]);
            assert_eq!(device_key, expected_device_key);
        }
        other => panic!("unexpected action {:?}", other),
    }
    assert_eq!(stack.state, ProvisioningState::Complete);

    // post-condition: the provisioned node starts its sequence at 800
    let sequence = Sequence::new(SequenceNumber::new(INITIAL_SEQUENCE));
    assert_eq!(sequence.current().value(), 800);
}

#[test]
fn provisioning_bad_confirmation_fails() {
    let keys = key_agreement();
    let device_random = [0xD0; 16];

    let mut stack = UnprovisionedStack::new(Capabilities { number_of_elements: 1 });
    stack
        .process(&ProvisioningPDU::Invite { attention_duration: 0 }, device_random, &keys)
        .unwrap();
    stack
        .process(
            &ProvisioningPDU::Start { algorithm: 0, public_key_used: 0, auth_method: 0 },
            device_random,
            &keys,
        )
        .unwrap();
    stack
        .process(&ProvisioningPDU::PublicKey { xy: vec![0x0A; 64] }, device_random, &keys)
        .unwrap();
    stack
        .process(
            &ProvisioningPDU::Confirmation { confirmation: [0x00; 16] },
            device_random,
            &keys,
        )
        .unwrap();

    // a random that does not match the confirmation fails the attempt
    let action = stack
        .process(&ProvisioningPDU::Random { random: [0x01; 16] }, device_random, &keys)
        .unwrap();
    assert!(matches!(action, ProvisioningAction::Fail));
    assert_eq!(stack.state, ProvisioningState::Failed);
}

#[test]
fn provisioning_out_of_order_pdu_fails() {
    let keys = key_agreement();
    let mut stack = UnprovisionedStack::new(Capabilities { number_of_elements: 1 });
    let action = stack
        .process(&ProvisioningPDU::Random { random: [0; 16] }, [0; 16], &keys)
        .unwrap();
    assert!(matches!(action, ProvisioningAction::Fail));
    assert_eq!(stack.state, ProvisioningState::Failed);
}
