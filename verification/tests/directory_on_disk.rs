use blobary::{
    copy_blobs, encode_into_path, export_blobs, hash, import_archive, sync_blobs, Blob, BlobHash,
    BlobID, BlobStore, BlobStoreError, BlobStoreExt, BlobStoreOptions, DirectoryBlobStore,
    EphemeralBlobStore, FileProbe, FileRemoval, IndexedBlobStore, IndexedBlobStoreIterator,
    InstallStep, PutPlan,
};
use std::collections::HashMap;

/// A directory store with its directory kept in memory.
struct DiskStore {
    state: DirectoryBlobStore,
    index: Vec<u8>,
    files: HashMap<String, Vec<u8>>,
}

fn fresh(writable: bool) -> DiskStore {
    reopen(Vec::new(), HashMap::new(), writable)
}

fn reopen(index: Vec<u8>, files: HashMap<String, Vec<u8>>, writable: bool) -> DiskStore {
    let options = BlobStoreOptions::new().writable(writable);
    DiskStore { state: DirectoryBlobStore::open_dir(&index, options).unwrap(), index, files }
}

fn probe(store: &DiskStore, digest: BlobHash) -> FileProbe {
    match store.files.get(&encode_into_path(digest)) {
        Some(content) => FileProbe::Found(content.clone()),
        None => FileProbe::Missing,
    }
}

impl BlobStore for DiskStore {
    fn count(&self) -> Result<usize, BlobStoreError> {
        self.state.count()
    }

    fn contains_hash(&self, blob_hash: BlobHash) -> Result<bool, BlobStoreError> {
        self.state.contains_hash(blob_hash)
    }

    fn get_by_hash(&self, blob_hash: BlobHash) -> Result<Option<Blob>, BlobStoreError> {
        self.state.get_by_hash(blob_hash, probe(self, blob_hash))
    }

    fn put(&mut self, blob_data: &[u8]) -> Result<(bool, Blob), BlobStoreError> {
        self.state.ensure_writable()?;
        let digest = hash(blob_data);
        let size = blob_data.len() as u64;
        match self.state.plan_put(digest, size)? {
            PutPlan::Existing(blob) => Ok((false, blob)),
            PutPlan::Install { steps, .. } => {
                for step in steps {
                    match step {
                        InstallStep::SetMode(_) | InstallStep::Sync => (),
                        InstallStep::Rename(name) => {
                            self.files.insert(name, blob_data.to_vec());
                        }
                        InstallStep::Append(record) => self.index.extend_from_slice(&record),
                    }
                }
                self.state.commit_put(digest, size)
            }
        }
    }

    fn remove(&mut self, blob_hash: BlobHash) -> Result<bool, BlobStoreError> {
        let unlinked = match self.state.evict(blob_hash)? {
            None => None,
            Some(name) => Some(match self.files.remove(&name) {
                Some(_) => FileRemoval::Unlinked,
                None => FileRemoval::Missing,
            }),
        };
        DirectoryBlobStore::removal_outcome(unlinked)
    }
}

impl IndexedBlobStore for DiskStore {
    fn hash_to_id(&self, blob_hash: BlobHash) -> Result<Option<BlobID>, BlobStoreError> {
        self.state.hash_to_id(blob_hash)
    }

    fn id_to_hash(&self, blob_id: BlobID) -> Result<Option<BlobHash>, BlobStoreError> {
        self.state.id_to_hash(blob_id)
    }

    fn get_by_id(&self, blob_id: BlobID) -> Result<Option<Blob>, BlobStoreError> {
        let file = match self.state.id_to_hash(blob_id)? {
            Some(digest) => probe(self, digest),
            None => FileProbe::Missing,
        };
        self.state.get_by_id(blob_id, file)
    }
}

impl BlobStoreExt for DiskStore {}

fn digests_in_order(store: &DiskStore) -> Vec<BlobHash> {
    let mut walk = IndexedBlobStoreIterator::new(store).unwrap();
    let mut found = Vec::new();
    while let Some(next) = walk.next() {
        found.push(next.unwrap().hash);
    }
    found
}

#[test]
fn disk_store_runs_the_whole_course() {
    // an empty directory
    let mut store = fresh(true);
    let (created, foo) = store.put_string("Foo").unwrap();
    assert!(created);
    assert_eq!((foo.id, foo.size, foo.hash), (1, 3, hash(b"Foo")));
    assert_eq!(store.count().unwrap(), 1);

    // the same content again
    let (created, foo2) = store.put_string("Foo").unwrap();
    assert!(!created);
    assert_eq!(foo2.id, 1);
    assert_eq!(store.count().unwrap(), 1);

    // other content
    let (_, bar) = store.put_string("Bar").unwrap();
    assert_eq!(bar.id, 2);
    assert_eq!(store.count().unwrap(), 2);
    assert_eq!(digests_in_order(&store), vec![hash(b"Foo"), hash(b"Bar")]);

    // close and reopen
    let mut store = reopen(store.index, store.files, true);
    assert_eq!(store.count().unwrap(), 2);
    assert_eq!(store.hash_to_id(hash(b"Foo")).unwrap(), Some(1));
    assert_eq!(store.hash_to_id(hash(b"Bar")).unwrap(), Some(2));

    // remove
    assert!(store.remove(hash(b"Foo")).unwrap());
    assert!(store.get_by_hash(hash(b"Foo")).unwrap().is_none());
    assert!(matches!(store.get_by_id(1), Err(BlobStoreError::Removed)));
    assert_eq!(digests_in_order(&store), vec![hash(b"Bar")]);

    // export, clear the directory, import
    let archive = export_blobs(&store, 1_700_000_000).unwrap();
    let mut store = fresh(true);
    assert_eq!(import_archive(&mut store, &archive).unwrap(), 1);
    assert_eq!(store.count().unwrap(), 1);
    assert_eq!(digests_in_order(&store), vec![hash(b"Bar")]);
    assert_eq!(store.get_by_id(1).unwrap().unwrap().data.unwrap(), b"Bar");
    assert_eq!(store.index.len(), 40);
}

#[test]
fn disk_store_invariants_after_many_operations() {
    let mut store = fresh(true);
    let texts = ["a", "b", "c", "a", "d", "b", "e", ""];
    for (round, text) in texts.iter().enumerate() {
        store.put_string(text).unwrap();
        if round % 3 == 2 {
            store.remove(hash(texts[round - 1].as_bytes())).unwrap();
        }
        // the index is made of whole records
        assert_eq!(store.index.len() % 40, 0);
        assert_eq!(store.index.len(), 40 * store.count().unwrap());
        // every record has its file, with its size and digest, or was removed
        for id in 1..=store.count().unwrap() {
            let record = store.state.read_record(id).unwrap().unwrap();
            let digest = store.id_to_hash(id).unwrap().unwrap();
            assert_eq!(record.0, digest.0);
            match store.get_by_id(id) {
                Ok(Some(blob)) => {
                    let content = blob.data.unwrap();
                    assert_eq!(blob.hash, digest);
                    assert_eq!(hash(&content), digest);
                    assert_eq!(content.len() as u64, record.1);
                    assert_eq!(blob.size, record.1);
                }
                Err(BlobStoreError::Removed) => {
                    assert!(!store.files.contains_key(&digest.to_hex()));
                }
                other => panic!("unexpected: {:?}", other),
            }
        }
    }
}

#[test]
fn disk_store_reopens_to_the_same_map() {
    let mut store = fresh(true);
    let texts = ["one", "two", "three", "four"];
    for text in texts {
        store.put_string(text).unwrap();
    }
    let reopened = reopen(store.index.clone(), store.files.clone(), false);
    assert_eq!(reopened.count().unwrap(), store.count().unwrap());
    for text in texts {
        let digest = hash(text.as_bytes());
        assert_eq!(reopened.hash_to_id(digest).unwrap(), store.hash_to_id(digest).unwrap());
    }
    assert_eq!(reopened.hash_to_id(hash(b"five")).unwrap(), None);
    assert_eq!(digests_in_order(&reopened), digests_in_order(&store));
}

#[test]
fn disk_store_replicates_with_a_store_in_memory() {
    let mut on_disk = fresh(true);
    on_disk.put_string("a").unwrap();
    on_disk.put_string("b").unwrap();
    let mut in_memory = EphemeralBlobStore::default();
    in_memory.put_string("b").unwrap();
    in_memory.put_string("c").unwrap();

    let created = copy_blobs(&on_disk, &mut in_memory).unwrap();
    assert_eq!(created, vec![hash(b"a")]);
    let (pulled, pushed) = sync_blobs(&mut in_memory, &mut on_disk).unwrap();
    assert_eq!(pulled, vec![hash(b"c")]);
    assert!(pushed.is_empty());
    for text in ["a", "b", "c"] {
        assert!(on_disk.contains_hash(hash(text.as_bytes())).unwrap());
        assert!(in_memory.contains_hash(hash(text.as_bytes())).unwrap());
    }
    assert_eq!(on_disk.count().unwrap(), 3);
    assert_eq!(in_memory.count().unwrap(), 3);
    assert_eq!(on_disk.files.len(), 3);
    assert_eq!(on_disk.index.len(), 120);
}

#[test]
fn disk_store_read_only() {
    let mut store = fresh(true);
    store.put_string("Foo").unwrap();
    let mut store = reopen(store.index, store.files, false);
    assert!(matches!(store.put_string("Bar"), Err(BlobStoreError::NotWritable)));
    assert!(matches!(store.remove(hash(b"Foo")), Err(BlobStoreError::NotWritable)));
    assert_eq!(store.get_by_hash(hash(b"Foo")).unwrap().unwrap().data.unwrap(), b"Foo");
    assert_eq!(digests_in_order(&store), vec![hash(b"Foo")]);
    assert!(export_blobs(&store, 0).is_ok());
    let archive = export_blobs(&store, 0).unwrap();
    assert!(matches!(import_archive(&mut store, &archive), Err(BlobStoreError::NotWritable)));
}

#[test]
fn disk_store_records_each_digest_once() {
    let mut store = fresh(true);
    for text in ["a", "b", "a", "c", "b", "a", "", ""] {
        store.put_string(text).unwrap();
    }
    let store = reopen(store.index, store.files, true);
    let mut seen = std::collections::HashSet::new();
    for id in 1..=store.count().unwrap() {
        let digest = store.id_to_hash(id).unwrap().unwrap();
        assert!(seen.insert(digest.0), "digest of slot {} occurs twice", id);
        assert_eq!(store.hash_to_id(digest).unwrap(), Some(id));
    }
    assert_eq!(seen.len(), 4);
    assert_eq!(store.index.len(), 160);
}
