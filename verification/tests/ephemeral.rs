use blobary::{
    hash, BlobStore, BlobStoreError, BlobStoreExt, BlobStoreOptions, EphemeralBlobStore,
    IndexedBlobStore, IndexedBlobStoreIterator,
};

fn digests_in_order(store: &EphemeralBlobStore) -> Vec<blobary::BlobHash> {
    let mut walk = IndexedBlobStoreIterator::new(store).unwrap();
    let mut found = Vec::new();
    while let Some(next) = walk.next() {
        found.push(next.unwrap().hash);
    }
    found
}

#[test]
fn store_test() {
    let mut store = EphemeralBlobStore::default();
    assert_eq!(store.count().unwrap(), 0);

    let (_, foo) = store.put_string("Foo").unwrap();
    assert_eq!(store.count().unwrap(), 1);
    assert_eq!(foo.id, 1);

    let (_, foo2) = store.put_string("Foo").unwrap();
    assert_eq!(store.count().unwrap(), 1);
    assert_eq!(foo2.id, 1);

    let (_, bar) = store.put_string("Bar").unwrap();
    assert_eq!(store.count().unwrap(), 2);
    assert_eq!(bar.id, 2);
}

#[test]
fn ephemeral_first_put_creates() {
    let mut store = EphemeralBlobStore::new(BlobStoreOptions::new());
    assert!(store.is_empty().unwrap());
    let (created, foo) = store.put_string("Foo").unwrap();
    assert!(created);
    assert_eq!(foo.id, 1);
    assert_eq!(foo.size, 3);
    assert_eq!(foo.hash.0, *blake3::hash(b"Foo").as_bytes());
    assert_eq!(foo.data.as_deref(), Some(&b"Foo"[..]));
    assert_eq!(store.count().unwrap(), 1);
    assert!(!store.is_empty().unwrap());
}

#[test]
fn ephemeral_put_is_idempotent() {
    let mut store = EphemeralBlobStore::default();
    let (first, a) = store.put_bytes(b"Foo").unwrap();
    let (second, b) = store.put_bytes(b"Foo").unwrap();
    assert!(first);
    assert!(!second);
    assert_eq!(a.id, b.id);
    assert_eq!(a.hash, b.hash);
    assert_eq!(store.count().unwrap(), 1);
}

#[test]
fn ephemeral_iterates_in_order_of_ids() {
    let mut store = EphemeralBlobStore::default();
    store.put_string("Foo").unwrap();
    store.put_string("Foo").unwrap();
    let (_, bar) = store.put_string("Bar").unwrap();
    assert_eq!(bar.id, 2);
    assert_eq!(store.count().unwrap(), 2);
    assert_eq!(digests_in_order(&store), vec![hash(b"Foo"), hash(b"Bar")]);
}

#[test]
fn ephemeral_lookups_agree() {
    let mut store = EphemeralBlobStore::default();
    for text in ["Foo", "Bar", "Baz"] {
        store.put_string(text).unwrap();
    }
    for id in 1..=3usize {
        let by_id = store.get_by_id(id).unwrap().unwrap();
        let digest = store.id_to_hash(id).unwrap().unwrap();
        assert_eq!(by_id.hash, digest);
        assert_eq!(by_id.id, id);
        assert_eq!(store.hash_to_id(digest).unwrap(), Some(id));
        let by_hash = store.get_by_hash(digest).unwrap().unwrap();
        assert_eq!(by_hash.id, id);
        assert_eq!(by_hash.data, by_id.data);
        assert!(store.contains_hash(digest).unwrap());
    }
    assert_eq!(store.get_by_id(2).unwrap().unwrap().data.unwrap(), b"Bar");
    assert!(store.get_by_id(0).unwrap().is_none());
    assert!(store.get_by_id(4).unwrap().is_none());
    assert!(store.id_to_hash(0).unwrap().is_none());
    assert!(store.id_to_hash(4).unwrap().is_none());
    assert!(store.get_by_hash(hash(b"Qux")).unwrap().is_none());
    assert_eq!(store.hash_to_id(hash(b"Qux")).unwrap(), None);
    assert!(!store.contains_hash(hash(b"Qux")).unwrap());
}

#[test]
fn ephemeral_remove_leaves_the_slot() {
    let mut store = EphemeralBlobStore::default();
    store.put_string("Foo").unwrap();
    store.put_string("Bar").unwrap();
    let foo = hash(b"Foo");

    assert!(store.remove(foo).unwrap());
    assert!(store.get_by_hash(foo).unwrap().is_none());
    assert!(!store.contains_hash(foo).unwrap());
    assert!(matches!(store.get_by_id(1), Err(BlobStoreError::Removed)));
    assert_eq!(store.id_to_hash(1).unwrap(), Some(foo));
    assert_eq!(store.count().unwrap(), 2);
    assert_eq!(digests_in_order(&store), vec![hash(b"Bar")]);
    assert_eq!(store.get_by_id(2).unwrap().unwrap().hash, hash(b"Bar"));
    assert_eq!(store.hash_to_id(hash(b"Bar")).unwrap(), Some(2));

    assert!(!store.remove(foo).unwrap());
    assert_eq!(store.count().unwrap(), 2);
}

#[test]
fn ephemeral_remove_of_absent_digest() {
    let mut store = EphemeralBlobStore::default();
    assert!(!store.remove(hash(b"never put")).unwrap());
    store.put_string("Foo").unwrap();
    assert!(!store.remove(hash(b"never put")).unwrap());
    assert_eq!(store.count().unwrap(), 1);
    assert!(store.contains_hash(hash(b"Foo")).unwrap());
}

#[test]
fn ephemeral_put_after_remove_takes_a_new_slot() {
    let mut store = EphemeralBlobStore::default();
    store.put_string("Foo").unwrap();
    store.remove(hash(b"Foo")).unwrap();
    let (created, again) = store.put_string("Foo").unwrap();
    assert!(created);
    assert_eq!(again.id, 2);
    assert_eq!(store.count().unwrap(), 2);
    assert_eq!(store.hash_to_id(hash(b"Foo")).unwrap(), Some(2));
    assert!(matches!(store.get_by_id(1), Err(BlobStoreError::Removed)));
    assert_eq!(digests_in_order(&store), vec![hash(b"Foo")]);
}

#[test]
fn ephemeral_zero_byte_blob() {
    let mut store = EphemeralBlobStore::default();
    let (created, empty) = store.put_bytes(b"").unwrap();
    assert!(created);
    assert_eq!(empty.size, 0);
    assert_eq!(
        empty.hash.to_hex(),
        "af1349b9f5f9a1a6a0404dea36dcc9499bcb25c9adc112b7cc9a93cae41f3262"
    );
    assert_eq!(store.get_by_id(1).unwrap().unwrap().data.unwrap(), b"");
}

#[test]
fn ephemeral_read_only_store() {
    let mut store = EphemeralBlobStore::new(BlobStoreOptions::new().writable(false));
    assert!(matches!(store.put_string("Foo"), Err(BlobStoreError::NotWritable)));
    assert!(matches!(store.put_bytes(b"Foo"), Err(BlobStoreError::NotWritable)));
    assert!(matches!(store.remove(hash(b"Foo")), Err(BlobStoreError::NotWritable)));
    assert_eq!(store.count().unwrap(), 0);
    assert!(store.get_by_hash(hash(b"Foo")).unwrap().is_none());
    assert!(digests_in_order(&store).is_empty());
}

#[test]
fn iterator_sees_the_count_at_its_start() {
    let mut store = EphemeralBlobStore::default();
    store.put_string("a").unwrap();
    store.put_string("b").unwrap();
    store.put_string("c").unwrap();
    store.remove(hash(b"a")).unwrap();
    store.remove(hash(b"c")).unwrap();
    let mut walk = IndexedBlobStoreIterator::new(&store).unwrap();
    let only = walk.next().unwrap().unwrap();
    assert_eq!(only.id, 2);
    assert_eq!(only.data.unwrap(), b"b");
    assert!(walk.next().is_none());
    assert!(walk.next().is_none());
}
