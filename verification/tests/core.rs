use sync_contribution::bits::BitVector;
use sync_contribution::bits::BitVectorError;
use sync_contribution::contribution::Error;
use sync_contribution::contribution::Hash256;
use sync_contribution::contribution::SyncCommitteeContribution;
use sync_contribution::contribution::SyncCommitteeMessage;
use sync_contribution::contribution::SyncContributionData;
use sync_contribution::signature::Signature;
use sync_contribution::contribution::SlotData;

fn root(b: u8) -> Hash256 {
    Hash256 { bytes: vec![b; 32] }
}

fn message(slot: u64, root_byte: u8, sig_byte: u8) -> SyncCommitteeMessage {
    SyncCommitteeMessage {
        slot,
        beacon_block_root: root(root_byte),
        signature: Signature { bytes: vec![sig_byte; 96] },
    }
}

#[test]
fn single_validator_construction() {
    let m = message(42, 0x11, 7);
    let c = SyncCommitteeContribution::<8>::from_message(&m, 3, 5).unwrap();
    assert_eq!(c.slot, 42);
    assert_eq!(c.beacon_block_root.bytes, vec![0x11; 32]);
    assert_eq!(c.subcommittee_index, 3);
    // bits 0b00100000: only bit 5 set
    let expected_bits: Vec<bool> = (0..8).map(|i| i == 5).collect();
    assert_eq!(c.aggregation_bits.bits, expected_bits);
    assert_eq!(c.signature.bytes, vec![7; 96]);
}

#[test]
fn construction_boundary() {
    let m = message(1, 0x22, 1);
    assert!(SyncCommitteeContribution::<8>::from_message(&m, 0, 7).is_ok());
    let err = SyncCommitteeContribution::<8>::from_message(&m, 0, 8).unwrap_err();
    assert_eq!(err, Error::SszTypesError(BitVectorError::OutOfBounds { i: 8, len: 8 }));
}

#[test]
fn disjoint_aggregation() {
    let m1 = message(42, 0x11, 1);
    let m2 = message(42, 0x11, 2);
    let mut a = SyncCommitteeContribution::<8>::from_message(&m1, 3, 5).unwrap();
    let b = SyncCommitteeContribution::<8>::from_message(&m2, 3, 1).unwrap();
    a.aggregate(&b);
    // bits 0b00100010: bits 1 and 5
    let expected_bits: Vec<bool> = (0..8).map(|i| i == 1 || i == 5).collect();
    assert_eq!(a.aggregation_bits.bits, expected_bits);
    // identity preserved
    assert_eq!(a.slot, 42);
    assert_eq!(a.beacon_block_root.bytes, vec![0x11; 32]);
    assert_eq!(a.subcommittee_index, 3);
    // `b` unchanged
    let expected_b: Vec<bool> = (0..8).map(|i| i == 1).collect();
    assert_eq!(b.aggregation_bits.bits, expected_b);
}

#[test]
fn aggregation_any_order() {
    // bit sets {5}, {1}, {7} fold in any order to bits 0b10100010
    let m1 = message(9, 0x33, 11);
    let m2 = message(9, 0x33, 22);
    let m3 = message(9, 0x33, 33);
    let build = || {
        (
            SyncCommitteeContribution::<8>::from_message(&m1, 2, 5).unwrap(),
            SyncCommitteeContribution::<8>::from_message(&m2, 2, 1).unwrap(),
            SyncCommitteeContribution::<8>::from_message(&m3, 2, 7).unwrap(),
        )
    };

    let (mut x, b, c) = build();
    x.aggregate(&b);
    x.aggregate(&c);

    let (mut y, b2, c2) = build();
    y.aggregate(&c2);
    y.aggregate(&b2);

    let (mut z, mut b3, c3) = build();
    b3.aggregate(&c3);
    z.aggregate(&b3);

    let expected_bits: Vec<bool> = (0..8).map(|i| i == 1 || i == 5 || i == 7).collect();
    assert_eq!(x.aggregation_bits.bits, expected_bits);
    assert_eq!(x, y);
    assert_eq!(x, z);
    assert_eq!(x.signature.bytes, y.signature.bytes);
    assert_eq!(x.signature.bytes, z.signature.bytes);
}

#[test]
fn identity_projection() {
    let m = message(42, 0x11, 7);
    let c = SyncCommitteeContribution::<8>::from_message(&m, 3, 5).unwrap();
    let d = SyncContributionData::from_contribution(&c);
    assert_eq!(d.slot, 42);
    assert_eq!(d.beacon_block_root.bytes, vec![0x11; 32]);
    assert_eq!(d.subcommittee_index, 3);
}

fn slot_via<T: SlotData>(t: T) -> u64 {
    t.get_slot()
}

#[test]
fn slot_data_access() {
    let m = message(77, 0x44, 7);
    let c = SyncCommitteeContribution::<8>::from_message(&m, 0, 0).unwrap();
    assert_eq!(c.get_slot(), 77);
    // a borrowed view exposes the slot the same way
    assert_eq!(slot_via(&c), 77);
    let d = SyncContributionData::from_contribution(&c);
    assert_eq!(d.get_slot(), 77);
}

#[test]
fn bit_vector_basics() {
    let mut v = BitVector::<8>::new();
    assert!(!v.get(3));
    v.set(3, true).unwrap();
    assert!(v.get(3));
    assert!(!v.get(9));
    let e = v.set(8, true).unwrap_err();
    assert_eq!(e, BitVectorError::OutOfBounds { i: 8, len: 8 });
    let mut w = BitVector::<8>::new();
    w.set(0, true).unwrap();
    let u = v.union(&w);
    assert!(u.get(0) && u.get(3) && !u.get(1));
}
