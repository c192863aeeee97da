use btmesh::address::UnicastAddress;
use btmesh::common::{IvIndex, SequenceNumber};
use btmesh::replay::ReplayProtection;
use btmesh::sequence::{Sequence, SEQ_MAX};

#[test]
fn replay_rejects_duplicate_pair() {
    let mut rpl = ReplayProtection::new(8);
    let src = UnicastAddress::parse(0x0010).unwrap();
    let iv = IvIndex::new(5);
    let seq = SequenceNumber::new(100);

    // first receive is accepted and recorded after decryption succeeds
    assert!(rpl.check(src, iv, seq));
    rpl.update(src, iv, seq);

    // the identical pair is rejected, and the list is unchanged
    assert!(!rpl.check(src, iv, seq));
    assert_eq!(rpl.entries.len(), 1);
    assert_eq!(rpl.entries[0].iv, 5);
    assert_eq!(rpl.entries[0].seq, 100);
}

#[test]
fn replay_accepts_strictly_fresher_pairs() {
    let mut rpl = ReplayProtection::new(8);
    let src = UnicastAddress::parse(0x0010).unwrap();

    rpl.update(src, IvIndex::new(5), SequenceNumber::new(100));
    // lower or equal seq at the same IV is stale
    assert!(!rpl.check(src, IvIndex::new(5), SequenceNumber::new(99)));
    assert!(!rpl.check(src, IvIndex::new(5), SequenceNumber::new(100)));
    // higher seq or higher IV is fresh
    assert!(rpl.check(src, IvIndex::new(5), SequenceNumber::new(101)));
    assert!(rpl.check(src, IvIndex::new(6), SequenceNumber::new(0)));
    // a lower IV is stale regardless of seq
    assert!(!rpl.check(src, IvIndex::new(4), SequenceNumber::new(10_000)));
}

#[test]
fn replay_is_fail_closed_when_full() {
    let mut rpl = ReplayProtection::new(1);
    let first = UnicastAddress::parse(0x0001).unwrap();
    let second = UnicastAddress::parse(0x0002).unwrap();

    assert!(rpl.check(first, IvIndex::new(0), SequenceNumber::new(1)));
    rpl.update(first, IvIndex::new(0), SequenceNumber::new(1));

    // an unknown source is rejected once the list is at capacity
    assert!(!rpl.check(second, IvIndex::new(0), SequenceNumber::new(1)));
}

#[test]
fn sequence_allocations_are_strictly_increasing() {
    let mut sequence = Sequence::new(SequenceNumber::new(800));
    sequence.commit(800 + 100);
    let mut previous = None;
    for _ in 0..100 {
        let seq = sequence.next().unwrap();
        if let Some(p) = previous {
            assert!(seq.value() > p);
        }
        assert!(seq.value() < sequence.committed);
        previous = Some(seq.value());
    }
    // the stride is exhausted: a new threshold must be committed first
    assert!(sequence.needs_commit(1));
}

#[test]
fn sequence_rollover_surfaces_error() {
    let mut sequence = Sequence::new(SequenceNumber::new(0x00FFFF00));
    sequence.commit(0x0100_0010);
    let mut last = 0;
    loop {
        match sequence.next() {
            Ok(seq) => {
                last = seq.value();
                if last == SEQ_MAX {
                    break;
                }
            }
            Err(_) => panic!("allocation failed before the space was exhausted"),
        }
    }
    assert_eq!(last, 0x00FFFFFF);
    // one more allocation rolls the 24-bit space over: a fatal error,
    // and no outbound frame is produced from it
    assert!(sequence.next().is_err());
}

#[test]
fn sequence_boot_requires_commit() {
    let sequence = Sequence::new(SequenceNumber::new(800));
    assert_eq!(sequence.current().value(), 800);
    assert_eq!(sequence.committed, 800);
    assert!(sequence.needs_commit(1));
}
