use btmesh::common::{
    Ctl, IvIndex, IvUpdateFlag, Ivi, KeyRefreshFlag, ModelIdentifier, SequenceNumber, SeqZero,
    CompanyIdentifier, Composition, ElementDescriptor, Features, Location, ProductIdentifier,
    Uuid, VersionIdentifier,
};
use btmesh::error::ParseError;

#[test]
fn iv_index_zero() {
    let iv_index = IvIndex::parse(&[0x00, 0x00, 0x00, 0x00]).unwrap();
    assert_eq!(Ivi::Zero, iv_index.ivi());

    assert_eq!(iv_index, iv_index.accepted_iv_index(Ivi::Zero));
    // special case, non-valid but don't break.
    assert_eq!(iv_index, iv_index.accepted_iv_index(Ivi::One));

    assert_eq!(
        iv_index,
        iv_index.transmission_iv_index(IvUpdateFlag::Normal)
    );

    // special case, non-valid but don't break.
    assert_eq!(
        iv_index,
        iv_index.transmission_iv_index(IvUpdateFlag::InProgress)
    );
}

#[test]
fn iv_index_non_zero() {
    let iv_index = IvIndex::parse(&[0x00, 0x00, 0x00, 0x03]).unwrap();
    let prev_iv_index = iv_index.subtract(1);

    assert_eq!(iv_index.value(), 3);
    assert_eq!(prev_iv_index.value(), 2);

    assert_eq!(Ivi::One, iv_index.ivi());

    assert_eq!(iv_index, iv_index.accepted_iv_index(Ivi::One));
    assert_eq!(prev_iv_index, iv_index.accepted_iv_index(Ivi::Zero));
}

#[test]
fn iv_index_parity_and_acceptance() {
    let iv_index = IvIndex::parse(&[0, 0, 0, 3]).unwrap();
    assert_eq!(iv_index.ivi(), Ivi::One);
    assert_eq!(iv_index.accepted_iv_index(Ivi::Zero), IvIndex::new(2));
    assert_eq!(iv_index.accepted_iv_index(Ivi::One), IvIndex::new(3));
}

#[test]
fn iv_index_parse_rejects_wrong_length() {
    assert_eq!(
        IvIndex::parse(&[0, 0, 0]),
        Err(ParseError::InvalidLength)
    );
    assert_eq!(
        IvIndex::parse(&[0, 0, 0, 0, 0]),
        Err(ParseError::InvalidLength)
    );
}

#[test]
fn iv_index_round_trips_bytes() {
    let iv_index = IvIndex::new(0x01020304);
    assert_eq!(iv_index.to_be_bytes(), [1, 2, 3, 4]);
    assert_eq!(IvIndex::parse(&iv_index.to_be_bytes()).unwrap(), iv_index);
}

#[test]
fn model_identifier_emission_is_little_endian() {
    let mut sig = Vec::new();
    ModelIdentifier::SIG(0x1000).emit(&mut sig).unwrap();
    assert_eq!(sig, vec![0x00, 0x10]);

    let mut vendor = Vec::new();
    ModelIdentifier::Vendor(CompanyIdentifier(0x0059), 0x1234)
        .emit(&mut vendor)
        .unwrap();
    assert_eq!(vendor, vec![0x59, 0x00, 0x34, 0x12]);
}

#[test]
fn model_identifier_parse_round_trip() {
    let sig = ModelIdentifier::SIG(0x1000);
    let mut bytes = Vec::new();
    sig.emit(&mut bytes).unwrap();
    assert_eq!(ModelIdentifier::parse(&bytes).unwrap(), sig);

    let vendor = ModelIdentifier::Vendor(CompanyIdentifier(0x0059), 0x1234);
    let mut bytes = Vec::new();
    vendor.emit(&mut bytes).unwrap();
    assert_eq!(ModelIdentifier::parse(&bytes).unwrap(), vendor);

    assert_eq!(
        ModelIdentifier::parse(&[1, 2, 3]),
        Err(ParseError::InvalidLength)
    );
}

#[test]
fn flags_emit_expected_bits() {
    let mut byte = 0u8;
    IvUpdateFlag::InProgress.emit(&mut byte);
    assert_eq!(byte, 0b10);
    IvUpdateFlag::parse(0).emit(&mut byte);
    assert_eq!(byte, 0b10);

    let mut byte = 0u8;
    KeyRefreshFlag(true).emit(&mut byte);
    assert_eq!(byte, 0b01);
    assert_eq!(KeyRefreshFlag::parse(0).0, false);
    assert_eq!(KeyRefreshFlag::parse(7).0, true);
}

#[test]
fn ctl_controls_netmic_size() {
    assert_eq!(Ctl::parse(0).unwrap().netmic_size(), 4);
    assert_eq!(Ctl::parse(1).unwrap().netmic_size(), 8);
    assert_eq!(Ctl::parse(2), Err(ParseError::InvalidValue));
}

#[test]
fn seq_zero_is_low_13_bits() {
    let seq = SequenceNumber::new(0x00ABCDEF);
    assert_eq!(SeqZero::of_seq(seq).value(), (0x00ABCDEF & 0x1FFF) as u16);
    assert_eq!(SeqZero::new(0x1234).value(), 0x1234);
}

#[test]
fn sequence_number_checked_add() {
    let seq = SequenceNumber::new(5);
    assert_eq!(seq.add(3).unwrap_or(SequenceNumber(0)).value(), 8);
    // the sequence space is 24 bits: its last value is usable, one past
    // it is a rollover
    assert_eq!(
        SequenceNumber::new(0x00FF_FFFE).add(1).unwrap_or(SequenceNumber(0)).value(),
        0x00FF_FFFF
    );
    assert!(SequenceNumber::new(0x00FF_FFFF).add(1).is_err());
    assert!(SequenceNumber::new(u32::MAX).add(1).is_err());
}

#[test]
fn features_emit_two_bytes() {
    let features = Features {
        relay: true,
        proxy: false,
        friend: true,
        low_power: false,
    };
    let mut out = Vec::new();
    features.emit(&mut out).unwrap();
    assert_eq!(out, vec![0b0101, 0]);

    let defaults = Features::default();
    assert!(!defaults.relay && !defaults.proxy && !defaults.friend && !defaults.low_power);
}

#[test]
fn composition_is_bounded() {
    let mut composition = Composition::new(
        CompanyIdentifier(0x0059),
        ProductIdentifier(1),
        VersionIdentifier(1),
    );
    for i in 0..4u16 {
        let mut element = ElementDescriptor::new(Location(i));
        element.add_model(ModelIdentifier::SIG(0x1000 + i));
        assert!(composition.add_element(element).is_ok());
    }
    assert_eq!(composition.number_of_elements(), 4);
    let overflow = ElementDescriptor::new(Location(9));
    assert!(composition.add_element(overflow).is_err());
    assert_eq!(composition.number_of_elements(), 4);
    assert_eq!(composition.cid(), CompanyIdentifier(0x0059));
    assert_eq!(composition.elements()[0].loc(), Location(0));
    assert_eq!(
        composition.elements()[1].models()[0],
        ModelIdentifier::SIG(0x1001)
    );
}

#[test]
fn random_uuid_carries_version_and_variant() {
    let uuid = Uuid::new_random([0xAA; 16]);
    let bytes = uuid.as_bytes();
    assert_eq!(bytes[6] & 0xF0, 0x40);
    assert_eq!(bytes[8] & 0xC0, 0x80);
    for (i, b) in bytes.iter().enumerate() {
        if i != 6 && i != 8 {
            assert_eq!(*b, 0xAA);
        }
    }
}
