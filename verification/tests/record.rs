use blobary::endian::{u64_from_be_bytes, u64_to_be_bytes};
use blobary::{hash, PersistentBlobRecord, RECORD_SIZE};

#[test]
fn record_size_is_forty() {
    assert_eq!(RECORD_SIZE, 40);
    assert_eq!(PersistentBlobRecord::new(hash(b"x"), 1).to_bytes().len(), RECORD_SIZE);
}

#[test]
fn record_layout_is_digest_then_big_endian_size() {
    let digest = hash(b"Foo");
    let record = PersistentBlobRecord::new(digest, 0x0102_0304_0506_0708);
    let bytes = record.to_bytes();
    assert_eq!(&bytes[..32], &digest.0[..]);
    assert_eq!(&bytes[32..], &[1, 2, 3, 4, 5, 6, 7, 8]);
    assert_eq!(record.size(), 0x0102_0304_0506_0708);
    assert_eq!(record.blob_hash(), digest);
}

#[test]
fn record_size_of_small_blob() {
    let bytes = PersistentBlobRecord::new(hash(b"Foo"), 3).to_bytes();
    assert_eq!(&bytes[32..], &[0, 0, 0, 0, 0, 0, 0, 3]);
    let bytes = PersistentBlobRecord::new(hash(b""), 0).to_bytes();
    assert_eq!(&bytes[32..], &[0u8; 8]);
}

#[test]
fn record_size_uses_all_64_bits() {
    let four_gib_and_five: u64 = (1u64 << 32) + 5;
    let bytes = PersistentBlobRecord::new(hash(b"big"), four_gib_and_five).to_bytes();
    assert_eq!(&bytes[32..], &[0, 0, 0, 1, 0, 0, 0, 5]);
    let back = PersistentBlobRecord::read_from(&bytes).unwrap();
    assert_eq!(back.1, four_gib_and_five);

    let bytes = PersistentBlobRecord::new(hash(b"max"), u64::MAX).to_bytes();
    assert_eq!(&bytes[32..], &[0xff; 8]);
    assert_eq!(PersistentBlobRecord::read_from(&bytes).unwrap().1, u64::MAX);
}

#[test]
fn record_round_trip() {
    for size in [0u64, 1, 255, 256, 65_535, 1 << 31, 1 << 40, u64::MAX - 1] {
        let record = PersistentBlobRecord::new(hash(&size.to_le_bytes()), size);
        let back = PersistentBlobRecord::read_from(&record.to_bytes()).unwrap();
        assert_eq!(back.0, record.0);
        assert_eq!(back.1, size);
    }
}

#[test]
fn record_needs_exactly_forty_bytes() {
    assert!(PersistentBlobRecord::read_from(&[0u8; 39]).is_none());
    assert!(PersistentBlobRecord::read_from(&[0u8; 41]).is_none());
    assert!(PersistentBlobRecord::read_from(&[]).is_none());
    assert!(PersistentBlobRecord::read_from(&[0u8; 40]).is_some());
}

#[test]
fn big_endian_matches_std() {
    for n in [0u64, 1, 0x1234_5678_9abc_def0, u64::MAX, 1 << 32] {
        assert_eq!(u64_to_be_bytes(n), n.to_be_bytes());
        assert_eq!(u64_from_be_bytes(&n.to_be_bytes()), n);
    }
}
