use blobary::{
    copy_blobs, hash, sync_blobs, BlobHash, BlobStore, BlobStoreError, BlobStoreExt,
    BlobStoreOptions, EphemeralBlobStore, FileBlobStore, IndexedBlobStore,
};
use std::collections::BTreeSet;

fn store_of(texts: &[&str]) -> EphemeralBlobStore {
    let mut store = EphemeralBlobStore::default();
    for text in texts {
        store.put_string(text).unwrap();
    }
    store
}

fn held(store: &EphemeralBlobStore) -> BTreeSet<[u8; 32]> {
    let mut digests = BTreeSet::new();
    for id in 1..=store.count().unwrap() {
        if let Ok(Some(blob)) = store.get_by_id(id) {
            digests.insert(blob.hash.0);
        }
    }
    digests
}

fn digests_of(texts: &[&str]) -> BTreeSet<[u8; 32]> {
    texts.iter().map(|text| hash(text.as_bytes()).0).collect()
}

#[test]
fn copy_skips_what_the_target_holds() {
    let source = store_of(&["a", "b", "c"]);
    let mut target = store_of(&["b", "x"]);
    let created = copy_blobs(&source, &mut target).unwrap();
    assert_eq!(created, vec![hash(b"a"), hash(b"c")]);
    assert_eq!(target.count().unwrap(), 4);
    assert_eq!(target.hash_to_id(hash(b"b")).unwrap(), Some(1));
    assert_eq!(target.hash_to_id(hash(b"x")).unwrap(), Some(2));
    assert_eq!(target.hash_to_id(hash(b"a")).unwrap(), Some(3));
    assert_eq!(target.hash_to_id(hash(b"c")).unwrap(), Some(4));
    assert_eq!(target.get_by_id(4).unwrap().unwrap().data.unwrap(), b"c");
    assert_eq!(held(&target), digests_of(&["a", "b", "c", "x"]));
    assert_eq!(held(&source), digests_of(&["a", "b", "c"]));
}

#[test]
fn copy_passes_over_removed_blobs() {
    let mut source = store_of(&["a", "b", "c"]);
    source.remove(hash(b"b")).unwrap();
    let mut target = EphemeralBlobStore::default();
    let created = copy_blobs(&source, &mut target).unwrap();
    assert_eq!(created, vec![hash(b"a"), hash(b"c")]);
    assert_eq!(held(&target), digests_of(&["a", "c"]));
    assert_eq!(target.count().unwrap(), 2);
}

#[test]
fn copy_twice_changes_nothing() {
    let source = store_of(&["a", "b"]);
    let mut target = EphemeralBlobStore::default();
    assert_eq!(copy_blobs(&source, &mut target).unwrap().len(), 2);
    let again: Vec<BlobHash> = copy_blobs(&source, &mut target).unwrap();
    assert!(again.is_empty());
    assert_eq!(target.count().unwrap(), 2);
}

#[test]
fn copy_of_empty_source() {
    let source = EphemeralBlobStore::default();
    let mut target = store_of(&["x"]);
    assert!(copy_blobs(&source, &mut target).unwrap().is_empty());
    assert_eq!(target.count().unwrap(), 1);
}

#[test]
fn copy_into_read_only_target_fails() {
    let source = store_of(&["a"]);
    let mut target = EphemeralBlobStore::new(BlobStoreOptions::new().writable(false));
    assert!(matches!(copy_blobs(&source, &mut target), Err(BlobStoreError::NotWritable)));
    assert_eq!(target.count().unwrap(), 0);
}

#[test]
fn copy_hands_on_a_failure_of_the_source() {
    let source = FileBlobStore::default();
    let mut target = EphemeralBlobStore::default();
    match copy_blobs(&source, &mut target) {
        Err(BlobStoreError::Unimplemented(name)) => assert_eq!(name, "count"),
        other => panic!("unexpected: {:?}", other),
    }
}

#[test]
fn sync_gives_both_the_union() {
    let mut remote = store_of(&["a", "b", "shared"]);
    let mut local = store_of(&["shared", "x", "y"]);
    let (pulled, pushed) = sync_blobs(&mut remote, &mut local).unwrap();
    assert_eq!(pulled, vec![hash(b"a"), hash(b"b")]);
    assert_eq!(pushed, vec![hash(b"x"), hash(b"y")]);
    let all = digests_of(&["a", "b", "shared", "x", "y"]);
    assert_eq!(held(&remote), all);
    assert_eq!(held(&local), all);
}

#[test]
fn sync_of_equal_stores_changes_nothing() {
    let mut remote = store_of(&["a", "b"]);
    let mut local = store_of(&["b", "a"]);
    let (pulled, pushed) = sync_blobs(&mut remote, &mut local).unwrap();
    assert!(pulled.is_empty() && pushed.is_empty());
    assert_eq!(remote.count().unwrap(), 2);
    assert_eq!(local.count().unwrap(), 2);
}
