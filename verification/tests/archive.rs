use blobary::{
    export_blobs, hash, import_archive, import_entries, BlobStore, BlobStoreError, BlobStoreExt,
    EphemeralBlobStore, IndexedBlobStore, IoErrorKind,
};
use std::io::Read;

fn store_of(texts: &[&str]) -> EphemeralBlobStore {
    let mut store = EphemeralBlobStore::default();
    for text in texts {
        store.put_string(text).unwrap();
    }
    store
}

fn archive_of(entries: &[(&str, &[u8])]) -> Vec<u8> {
    let mut builder = tar::Builder::new(Vec::new());
    for (name, data) in entries {
        let mut head = tar::Header::new_ustar();
        head.set_entry_type(tar::EntryType::Regular);
        head.set_path(name).unwrap();
        head.set_size(data.len() as u64);
        head.set_mtime(1_700_000_000);
        head.set_mode(0o444);
        head.set_username("root").unwrap();
        head.set_groupname("root").unwrap();
        head.set_cksum();
        builder.append(&head, *data).unwrap();
    }
    builder.into_inner().unwrap()
}

#[test]
fn export_writes_one_entry_for_each_blob() {
    let mut store = store_of(&["Foo", "Bar", "Baz"]);
    store.remove(hash(b"Bar")).unwrap();
    let archive = export_blobs(&store, 1_700_000_000).unwrap();

    let mut reader = tar::Archive::new(&archive[..]);
    let mut seen = Vec::new();
    for entry in reader.entries().unwrap() {
        let mut entry = entry.unwrap();
        let header = entry.header().clone();
        assert_eq!(header.entry_type(), tar::EntryType::Regular);
        assert_eq!(header.mode().unwrap(), 0o444);
        assert_eq!(header.mtime().unwrap(), 1_700_000_000);
        assert_eq!(header.username().unwrap(), Some("root"));
        assert_eq!(header.groupname().unwrap(), Some("root"));
        assert!(header.as_ustar().is_some());
        let mut data = Vec::new();
        entry.read_to_end(&mut data).unwrap();
        assert_eq!(header.size().unwrap(), data.len() as u64);
        seen.push((String::from_utf8(entry.path_bytes().into_owned()).unwrap(), data));
    }
    assert_eq!(
        seen,
        vec![
            (hash(b"Foo").to_hex(), b"Foo".to_vec()),
            (hash(b"Baz").to_hex(), b"Baz".to_vec()),
        ]
    );
}

#[test]
fn export_is_what_the_tar_builder_writes() {
    let big = vec![7u8; 1300];
    let exact = vec![9u8; 512];
    let mut store = EphemeralBlobStore::default();
    store.put_bytes(b"Foo").unwrap();
    store.put_bytes(b"").unwrap();
    store.put_bytes(&big).unwrap();
    store.put_bytes(&exact).unwrap();
    let ours = export_blobs(&store, 1_700_000_000).unwrap();
    let theirs = archive_of(&[
        (&hash(b"Foo").to_hex(), b"Foo"),
        (&hash(b"").to_hex(), b""),
        (&hash(&big).to_hex(), &big),
        (&hash(&exact).to_hex(), &exact),
    ]);
    assert_eq!(ours.len() % 512, 0);
    assert_eq!(ours, theirs);
}

#[test]
fn export_of_empty_store_is_an_empty_archive() {
    let archive = export_blobs(&EphemeralBlobStore::default(), 0).unwrap();
    assert_eq!(archive, vec![0u8; 1024]);
}

#[test]
fn export_then_import_restores_the_digests() {
    let mut store = store_of(&["Foo", "Bar"]);
    store.remove(hash(b"Foo")).unwrap();
    let archive = export_blobs(&store, 12345).unwrap();

    let mut fresh = EphemeralBlobStore::default();
    assert_eq!(import_archive(&mut fresh, &archive).unwrap(), 1);
    assert_eq!(fresh.count().unwrap(), 1);
    let bar = fresh.get_by_id(1).unwrap().unwrap();
    assert_eq!(bar.hash, hash(b"Bar"));
    assert_eq!(bar.data.unwrap(), b"Bar");
    assert!(!fresh.contains_hash(hash(b"Foo")).unwrap());
}

#[test]
fn export_then_import_of_many() {
    let texts = ["a", "b", "c", "d", "e"];
    let store = store_of(&texts);
    let archive = export_blobs(&store, 1).unwrap();
    let mut fresh = EphemeralBlobStore::default();
    assert_eq!(import_archive(&mut fresh, &archive).unwrap(), 5);
    for (i, text) in texts.iter().enumerate() {
        assert_eq!(fresh.hash_to_id(hash(text.as_bytes())).unwrap(), Some(i + 1));
    }
    // importing again creates nothing
    assert_eq!(import_archive(&mut fresh, &archive).unwrap(), 5);
    assert_eq!(fresh.count().unwrap(), 5);
}

#[test]
fn import_skips_names_that_are_no_digest() {
    let foo = hash(b"Foo").to_hex();
    let upper = hash(b"Bar").to_hex().to_uppercase();
    let archive = archive_of(&[
        ("README", b"read me"),
        (&foo, b"Foo"),
        (&upper, b"Bar"),
        ("dir/nested", b"nested"),
    ]);
    let mut store = EphemeralBlobStore::default();
    assert_eq!(import_archive(&mut store, &archive).unwrap(), 1);
    assert_eq!(store.count().unwrap(), 1);
    assert!(store.contains_hash(hash(b"Foo")).unwrap());
    assert!(!store.contains_hash(hash(b"Bar")).unwrap());
}

#[test]
fn import_stops_at_the_first_false_name() {
    let foo = hash(b"Foo").to_hex();
    let bar = hash(b"Bar").to_hex();
    let baz = hash(b"Baz").to_hex();
    let archive = archive_of(&[(&foo, b"Foo"), (&bar, b"not Bar"), (&baz, b"Baz")]);
    let mut store = EphemeralBlobStore::default();
    assert!(matches!(import_archive(&mut store, &archive), Err(BlobStoreError::DataError)));
    assert!(store.contains_hash(hash(b"Foo")).unwrap());
    assert!(store.contains_hash(hash(b"not Bar")).unwrap());
    assert!(!store.contains_hash(hash(b"Bar")).unwrap());
    assert!(!store.contains_hash(hash(b"Baz")).unwrap());
    assert_eq!(store.count().unwrap(), 2);
}

#[test]
fn import_of_entries_as_values() {
    let entries = vec![
        (hash(b"one").to_hex().into_bytes(), b"one".to_vec()),
        (b"notes.txt".to_vec(), b"skipped".to_vec()),
        (hash(b"two").to_hex().into_bytes(), b"two".to_vec()),
        (hash(b"one").to_hex().into_bytes(), b"one".to_vec()),
    ];
    let mut store = EphemeralBlobStore::default();
    assert_eq!(import_entries(&mut store, &entries).unwrap(), 3);
    assert_eq!(store.count().unwrap(), 2);
    assert_eq!(store.hash_to_id(hash(b"two")).unwrap(), Some(2));

    let bad = vec![(hash(b"one").to_hex().into_bytes(), b"two".to_vec())];
    assert!(matches!(import_entries(&mut store, &bad), Err(BlobStoreError::DataError)));
    assert!(import_entries(&mut store, &Vec::new()).unwrap() == 0);
}

#[test]
fn import_of_damaged_archive() {
    let store = store_of(&["Foo", "Bar"]);
    let archive = export_blobs(&store, 1).unwrap();
    // cut in the middle of the second entry's header
    let cut = &archive[..1024 + 100];
    let mut fresh = EphemeralBlobStore::default();
    match import_archive(&mut fresh, cut) {
        Err(BlobStoreError::IO(failure)) => assert_eq!(failure.kind, IoErrorKind::InvalidData),
        other => panic!("unexpected: {:?}", other),
    }
    assert!(fresh.contains_hash(hash(b"Foo")).unwrap());
    assert_eq!(fresh.count().unwrap(), 1);

    let mut fresh = EphemeralBlobStore::default();
    assert!(import_archive(&mut fresh, b"this is no archive at all").is_err());
    assert_eq!(fresh.count().unwrap(), 0);
    assert_eq!(import_archive(&mut fresh, &[]).unwrap(), 0);
}
