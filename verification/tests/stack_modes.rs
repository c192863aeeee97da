use btmesh::common::{IvIndex, IvUpdateFlag, SequenceNumber, Ttl, Uuid};
use btmesh::address::UnicastAddress;
use btmesh::provisioning::{Capabilities, UnprovisionedStack};
use btmesh::secrets::Secrets;
use btmesh::sequence::Sequence;
use btmesh::stack::{
    desired_stack, Configuration, DesiredStack, DeviceInfo, DeviceState, NetworkState,
    ProvisionedStack, Stack, UnprovisionedConfiguration,
};

fn provisioned_stack() -> Stack {
    let secrets = Secrets::new([0x11; 16], [0x22; 16]);
    let device_info = DeviceInfo::new(UnicastAddress::parse(0x0100).unwrap(), 2);
    let network_state = NetworkState::new(IvIndex::new(0), IvUpdateFlag::Normal);
    Stack::Provisioned {
        stack: ProvisionedStack::new(device_info, secrets, network_state, Default::default()),
        sequence: Sequence::new(SequenceNumber::new(800)),
    }
}

#[test]
fn device_state_follows_mode() {
    assert!(Stack::Unconfigured.device_state().is_none());

    let uuid = Uuid::new([7; 16]);
    let unprovisioned = Stack::Unprovisioned {
        stack: UnprovisionedStack::new(Capabilities { number_of_elements: 1 }),
        uuid,
    };
    match unprovisioned.device_state() {
        Some(DeviceState::Unprovisioned { uuid: u, in_progress }) => {
            assert_eq!(u, uuid);
            assert!(!in_progress);
        }
        other => panic!("unexpected state {:?}", other),
    }

    assert!(matches!(
        provisioned_stack().device_state(),
        Some(DeviceState::Provisioned)
    ));
}

#[test]
fn beacon_and_retransmit_cadence() {
    let uuid = Uuid::new([7; 16]);
    let unprovisioned = Stack::Unprovisioned {
        stack: UnprovisionedStack::new(Capabilities { number_of_elements: 1 }),
        uuid,
    };
    assert_eq!(Stack::Unconfigured.next_beacon_deadline(1000), None);
    assert_eq!(unprovisioned.next_beacon_deadline(1000), Some(6000));
    assert_eq!(provisioned_stack().next_beacon_deadline(1000), Some(11000));
    assert_eq!(unprovisioned.next_retransmit(1000), Some(1500));
    assert_eq!(provisioned_stack().next_retransmit(1000), Some(1200));
}

#[test]
fn desired_stack_reconciles_modes() {
    let uuid = Uuid::new([7; 16]);
    let unprovisioned_config =
        Configuration::Unprovisioned(UnprovisionedConfiguration { uuid });
    let provisioned_config = match provisioned_stack().configuration().unwrap() {
        Configuration::Provisioned(c) => c,
        _ => unreachable!(),
    };

    // a missing or stale mode swaps to what storage holds
    assert!(matches!(
        desired_stack(&Stack::Unconfigured, unprovisioned_config.clone()),
        DesiredStack::Unprovisioned(_)
    ));
    assert!(matches!(
        desired_stack(
            &Stack::Unconfigured,
            Configuration::Provisioned(provisioned_config.clone())
        ),
        DesiredStack::Provisioned(_)
    ));
    assert!(matches!(
        desired_stack(&provisioned_stack(), unprovisioned_config.clone()),
        DesiredStack::Unprovisioned(_)
    ));

    // a matching mode is left untouched
    let unprovisioned = Stack::Unprovisioned {
        stack: UnprovisionedStack::new(Capabilities { number_of_elements: 1 }),
        uuid,
    };
    assert!(matches!(
        desired_stack(&unprovisioned, unprovisioned_config),
        DesiredStack::Unchanged
    ));
    assert!(matches!(
        desired_stack(
            &provisioned_stack(),
            Configuration::Provisioned(provisioned_config)
        ),
        DesiredStack::Unchanged
    ));
}

#[test]
fn provisioned_configuration_round_trip() {
    let stack = provisioned_stack();
    match stack.configuration().unwrap() {
        Configuration::Provisioned(c) => {
            assert_eq!(c.sequence(), 800);
            assert_eq!(c.device_info().number_of_elements, 2);
            assert_eq!(c.foundation().configuration().default_ttl(), Ttl::new(127));
        }
        _ => panic!("expected a provisioned configuration"),
    }
}

#[test]
fn local_element_addresses() {
    let info = DeviceInfo::new(UnicastAddress::parse(0x0100).unwrap(), 2);
    assert_eq!(
        info.local_element_address(0),
        Some(UnicastAddress::parse(0x0100).unwrap())
    );
    assert_eq!(
        info.local_element_address(1),
        Some(UnicastAddress::parse(0x0101).unwrap())
    );
    assert_eq!(info.local_element_address(2), None);
    assert!(info.is_local_unicast(UnicastAddress::parse(0x0101).unwrap()));
    assert!(!info.is_local_unicast(UnicastAddress::parse(0x0102).unwrap()));
}

#[test]
fn configuration_serialisation_round_trip() {
    // unprovisioned: a tag and the UUID
    let unprovisioned = Configuration::Unprovisioned(UnprovisionedConfiguration {
        uuid: Uuid::new([7; 16]),
    });
    let bytes = btmesh::stack::emit_configuration(&unprovisioned);
    assert_eq!(bytes.len(), 17);
    let parsed = btmesh::stack::parse_configuration(&bytes).unwrap();
    assert_eq!(btmesh::stack::emit_configuration(&parsed), bytes);

    // provisioned: the parsed form re-derives the key identifiers
    let provisioned = match provisioned_stack().configuration().unwrap() {
        Configuration::Provisioned(mut c) => {
            c.secrets.add_application_key([0x77; 16], 0).unwrap();
            Configuration::Provisioned(c)
        }
        _ => unreachable!(),
    };
    let bytes = btmesh::stack::emit_configuration(&provisioned);
    assert_eq!(bytes.len(), 170);
    let parsed = btmesh::stack::parse_configuration(&bytes).unwrap();
    assert_eq!(btmesh::stack::emit_configuration(&parsed), bytes);
    match parsed {
        Configuration::Provisioned(c) => {
            assert_eq!(c.sequence(), 800);
            let handle = c.secrets.network_key_by_index(0).unwrap();
            let key = c.secrets.network_key(handle).unwrap();
            assert_eq!(key.key, [0x22; 16]);
        }
        _ => panic!("expected a provisioned configuration"),
    }

    // a corrupted tag is refused
    let mut bad = bytes.clone();
    bad[0] = 0x09;
    assert!(btmesh::stack::parse_configuration(&bad).is_err());
}
