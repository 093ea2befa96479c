//! The in-memory side of the directory store: the records of the index, the
//! map from digest to id, and every decision that the store takes. The files
//! themselves are read and written by the caller, who reports what happened.

use crate::blob::{lemma_hash_view_injective, Blob, BlobHash, BlobID};
use crate::dir::record::{
    lemma_record_bytes_round_trip, lemma_record_round_trip, record_bytes, record_hash, record_size,
    PersistentBlobRecord,
};
use crate::error::{BlobStoreError, IoError, IoErrorKind};
use crate::hex::hex_chars;
use crate::lookup::DigestMap;
use crate::store::BlobStoreOptions;
use vstd::prelude::*;
use vstd::slice::slice_subrange;

verus! {

/// The name of the store's directory below the working directory.
pub const STORE_DIR_NAME: &'static str = ".blobary";

/// The name of the index file within the store's directory.
pub const INDEX_FILE_NAME: &'static str = ".index";

/// Record number `k`, counted from 0, of an index file.
pub open spec fn index_record(index: Seq<u8>, k: int) -> (Seq<u8>, u64) {
    let bytes = index.subrange(40 * k, 40 * k + 40);
    (record_hash(bytes), record_size(bytes))
}

/// The records of an index file whose length is a multiple of 40.
pub open spec fn index_records(index: Seq<u8>) -> Seq<(Seq<u8>, u64)> {
    Seq::new(index.len() / 40, |k: int| index_record(index, k))
}

/// The index file that holds `records`, in order and nothing else.
pub open spec fn index_bytes(records: Seq<(Seq<u8>, u64)>) -> Seq<u8>
    decreases records.len(),
{
    if records.len() == 0 {
        Seq::empty()
    } else {
        index_bytes(records.drop_last()) + record_bytes(records.last().0, records.last().1)
    }
}

/// The map from digest to id that opening an index with `records` builds:
/// record `k`, counted from 0, gives its digest the id `k + 1`, and where a
/// digest occurs again the later record wins.
pub open spec fn index_lookup(records: Seq<(Seq<u8>, u64)>) -> Map<Seq<u8>, BlobID>
    decreases records.len(),
{
    if records.len() == 0 {
        Map::empty()
    } else {
        index_lookup(records.drop_last()).insert(records.last().0, records.len() as usize)
    }
}

/// Every digest among `records` has 32 bytes.
pub open spec fn digests_are_whole(records: Seq<(Seq<u8>, u64)>) -> bool {
    forall|k: int| 0 <= k < records.len() ==> (#[trigger] records[k]).0.len() == 32
}

/// No digest occurs in two of `records`.
pub open spec fn digests_are_distinct(records: Seq<(Seq<u8>, u64)>) -> bool {
    forall|i: int, j: int|
        0 <= i < j < records.len() ==> (#[trigger] records[i]).0 != (#[trigger] records[j]).0
}

/// What the caller found when it opened a blob's file.
#[derive(Debug)]
pub enum FileProbe {
    /// The file is there, with this content.
    Found(Vec<u8>),
    /// There is no such file.
    Missing,
    /// The file could not be opened or read.
    Failed(IoError),
}

/// What the caller found when it unlinked a blob's file.
#[derive(Debug)]
pub enum FileRemoval {
    /// The file was there and is gone.
    Unlinked,
    /// There was no such file.
    Missing,
    /// The file could not be unlinked.
    Failed(IoError),
}

/// The mode of the index file: written by its owner, read by all.
pub const INDEX_FILE_MODE: u32 = 0o644;

/// The mode of an installed blob file: read by all, written by none.
pub const BLOB_FILE_MODE: u32 = 0o444;

/// One step in the installation of a blob whose content waits in a temporary
/// file of the store's directory.
#[derive(Debug)]
pub enum InstallStep {
    /// Set the mode of the temporary file.
    SetMode(u32),
    /// Rename the temporary file to this name, over what is there.
    Rename(String),
    /// Append these bytes to the end of the index file.
    Append([u8; 40]),
    /// Make the index file durable. Once this has succeeded the blob is in
    /// the store.
    Sync,
}

/// What is to be done with content that has been hashed.
#[derive(Debug)]
pub enum PutPlan {
    /// A blob with this digest is in the index: nothing is to be written,
    /// and the temporary file is to be discarded.
    Existing(Blob),
    /// The steps are to be taken in order, each only after the one before it
    /// has succeeded, and then the put is to be committed. The content file
    /// is in place before its record is written, so that a crash leaves at
    /// worst a file that no record names.
    Install { steps: Vec<InstallStep>, blob_id: BlobID },
}

/// The steps that install a blob with this digest and size: the file is
/// made read-only and given its name, then its record is appended to the
/// index and the index is made durable.
pub open spec fn is_installation(steps: Seq<InstallStep>, digest: Seq<u8>, size: u64) -> bool {
    &&& steps.len() == 4
    &&& steps[0] == InstallStep::SetMode(BLOB_FILE_MODE)
    &&& steps[1] matches InstallStep::Rename(name) && name@ == hex_chars(digest)
    &&& steps[2] matches InstallStep::Append(record) && record@ == record_bytes(digest, size)
    &&& steps[3] == InstallStep::Sync
}

/// The index of a directory store, as it is held in memory.
pub struct DirectoryBlobStore {
    pub(crate) config: BlobStoreOptions,
    records: Vec<PersistentBlobRecord>,
    lookup_id: DigestMap,
}

/// The name of the file that holds the blob with this digest: the digest's
/// 64 hex digits.
pub fn encode_into_path(blob_hash: BlobHash) -> (path: String)
    ensures
        path@ == hex_chars(blob_hash@),
{
    blob_hash.to_hex()
}

/// An index file made of whole records has 40 bytes for each of them.
pub proof fn lemma_index_bytes_len(records: Seq<(Seq<u8>, u64)>)
    requires
        digests_are_whole(records),
    ensures
        index_bytes(records).len() == 40 * records.len(),
        index_bytes(records).len() % 40 == 0,
    decreases records.len(),
{
    if records.len() > 0 {
        assert(digests_are_whole(records.drop_last())) by {
            assert forall|k: int| 0 <= k < records.drop_last().len() implies (
            #[trigger] records.drop_last()[k]).0.len() == 32 by {
                assert(records.drop_last()[k] == records[k]);
            }
        }
        lemma_index_bytes_len(records.drop_last());
        lemma_record_round_trip(records.last().0, records.last().1);
    }
}

/// Reading an index file back gives the records that it was written from.
pub proof fn lemma_index_round_trip(records: Seq<(Seq<u8>, u64)>)
    requires
        digests_are_whole(records),
    ensures
        index_records(index_bytes(records)) == records,
    decreases records.len(),
{
    let index = index_bytes(records);
    lemma_index_bytes_len(records);
    if records.len() == 0 {
        assert(index_records(index) =~= records);
    } else {
        let shorter = records.drop_last();
        let last = records.last();
        assert(digests_are_whole(shorter)) by {
            assert forall|k: int| 0 <= k < shorter.len() implies (#[trigger] shorter[k]).0.len()
                == 32 by {
                assert(shorter[k] == records[k]);
            }
        }
        lemma_index_round_trip(shorter);
        lemma_index_bytes_len(shorter);
        lemma_record_round_trip(last.0, last.1);
        let head = index_bytes(shorter);
        let tail = record_bytes(last.0, last.1);
        assert(index == head + tail);
        assert forall|k: int| 0 <= k < records.len() implies index_records(index)[k]
            == records[k] by {
            if k < shorter.len() {
                assert(index.subrange(40 * k, 40 * k + 40) =~= head.subrange(40 * k, 40 * k + 40));
                assert(index_records(head)[k] == shorter[k]);
            } else {
                assert(index.subrange(40 * k, 40 * k + 40) =~= tail);
            }
        }
        assert(index_records(index) =~= records);
    }
}

/// Writing the records of an index file out again gives the file itself.
pub proof fn lemma_index_image_round_trip(index: Seq<u8>)
    requires
        index.len() % 40 == 0,
    ensures
        index_bytes(index_records(index)) == index,
    decreases index.len(),
{
    let records = index_records(index);
    if index.len() == 0 {
        assert(index_bytes(records) =~= index);
    } else {
        let n = records.len() as int;
        let head = index.take(index.len() - 40);
        let tail = index.subrange(40 * (n - 1), 40 * (n - 1) + 40);
        assert(index_records(head) =~= records.drop_last()) by {
            assert forall|k: int| 0 <= k < n - 1 implies index_records(head)[k] == records[k] by {
                assert(head.subrange(40 * k, 40 * k + 40) =~= index.subrange(40 * k, 40 * k + 40));
            }
        }
        lemma_index_image_round_trip(head);
        lemma_record_bytes_round_trip(tail);
        assert(records.last() == index_record(index, n - 1));
        assert(index_bytes(records) =~= head + tail);
        assert(head + tail =~= index);
    }
}

/// The map built from records points every digest at a record that has it.
pub proof fn lemma_index_lookup_points(records: Seq<(Seq<u8>, u64)>, digest: Seq<u8>)
    requires
        records.len() <= usize::MAX,
    ensures
        index_lookup(records).contains_key(digest) <==> exists|k: int|
            0 <= k < records.len() && (#[trigger] records[k]).0 == digest,
        index_lookup(records).contains_key(digest) ==> {
            &&& 1 <= index_lookup(records)[digest] <= records.len()
            &&& records[index_lookup(records)[digest] - 1].0 == digest
        },
    decreases records.len(),
{
    if records.len() > 0 {
        let shorter = records.drop_last();
        lemma_index_lookup_points(shorter, digest);
        if records.last().0 == digest {
            assert(records[records.len() - 1].0 == digest);
        } else {
            if index_lookup(shorter).contains_key(digest) {
                let k = choose|k: int| 0 <= k < shorter.len() && (#[trigger] shorter[k]).0 == digest;
                assert(records[k] == shorter[k]);
                assert(records[index_lookup(shorter)[digest] - 1] == shorter[index_lookup(
                    shorter,
                )[digest] - 1]);
            }
            if exists|k: int| 0 <= k < records.len() && (#[trigger] records[k]).0 == digest {
                let k = choose|k: int| 0 <= k < records.len() && (#[trigger] records[k]).0 == digest;
                assert(shorter[k] == records[k]);
            }
        }
    }
}

impl DirectoryBlobStore {
    /// The records of the index, in order: digest and size.
    pub closed spec fn records(&self) -> Seq<(Seq<u8>, u64)> {
        self.records.deep_view()
    }

    /// The map from the digest of each blob that is known to its id.
    pub closed spec fn lookup(&self) -> Map<Seq<u8>, BlobID> {
        self.lookup_id@
    }

    /// Whether the store accepts `put` and `remove`.
    pub closed spec fn is_writable(&self) -> bool {
        self.config.writable
    }

    /// The content of the index file that this store stands for.
    pub open spec fn index_image(&self) -> Seq<u8> {
        index_bytes(self.records())
    }

    /// The map knows no digest twice, and each id in it is the number of a
    /// record with that digest.
    pub closed spec fn valid(&self) -> bool {
        &&& self.lookup_id.wf()
        &&& forall|digest: Seq<u8>| #[trigger]
            self.lookup_id@.contains_key(digest) ==> {
                &&& 1 <= self.lookup_id@[digest] <= self.records@.len()
                &&& self.records@[self.lookup_id@[digest] - 1].0@ == digest
            }
    }

    /// Nothing was removed since the index was read: the map is the one that
    /// opening the index as it stands would build.
    pub open spec fn in_sync(&self) -> bool {
        self.lookup() == index_lookup(self.records())
    }

    /// What `valid` says, in terms of the records and the map.
    pub proof fn lemma_valid(&self)
        requires
            self.valid(),
        ensures
            digests_are_whole(self.records()),
            self.records().len() <= usize::MAX,
            forall|digest: Seq<u8>| #[trigger]
                self.lookup().contains_key(digest) ==> {
                    &&& 1 <= self.lookup()[digest] <= self.records().len()
                    &&& self.records()[self.lookup()[digest] - 1].0 == digest
                },
    {
        assert(self.records().len() == self.records@.len());
        assert(self.records@.len() == self.records.len());
    }

    /// The index file of a valid store is made of whole records.
    pub proof fn lemma_index_image_is_whole(&self)
        requires
            self.valid(),
        ensures
            self.index_image().len() == 40 * self.records().len(),
            self.index_image().len() % 40 == 0,
    {
        self.lemma_valid();
        lemma_index_bytes_len(self.records());
    }

    /// Closing a store and opening its directory again gives the same
    /// records and the same map from digest to id, as long as nothing was
    /// removed: `reopened` is any store that `open_dir` may build from this
    /// store's index file.
    pub proof fn lemma_reopen_restores(&self, reopened: &DirectoryBlobStore)
        requires
            self.valid(),
            self.in_sync(),
            reopened.in_sync(),
            reopened.records() == index_records(self.index_image()),
        ensures
            reopened.records() == self.records(),
            reopened.lookup() == self.lookup(),
    {
        self.lemma_valid();
        lemma_index_round_trip(self.records());
    }

    /// What `get_by_id` returns for a slot has the digest that `id_to_hash`
    /// gives for it.
    pub proof fn lemma_get_by_id_has_id_to_hash(&self, blob_id: BlobID, blob: Blob, hash: BlobHash)
        requires
            1 <= blob_id <= self.records().len(),
            blob.hash@ == self.records()[blob_id - 1].0,
            hash@ == self.records()[blob_id - 1].0,
        ensures
            blob.hash == hash,
    {
        lemma_hash_view_injective(blob.hash, hash);
    }

    /// Builds the store from the content of its index file. An index that is
    /// not made of whole records is refused as torn.
    pub fn open_dir(index: &[u8], config: BlobStoreOptions) -> (r: Result<
        DirectoryBlobStore,
        BlobStoreError,
    >)
        ensures
            index@.len() % 40 != 0 ==> (r matches Err(BlobStoreError::IO(failure)) && failure.kind
                == IoErrorKind::UnexpectedEof),
            index@.len() % 40 == 0 ==> (r matches Ok(store) && {
                &&& store.valid()
                &&& store.in_sync()
                &&& store.records() == index_records(index@)
                &&& store.index_image() == index@
                &&& store.is_writable() == config.writable
            }),
    {
        if index.len() % 40 != 0 {
            return Err(
                BlobStoreError::IO(
                    IoError::new(IoErrorKind::UnexpectedEof, "failed to fill whole buffer"),
                ),
            );
        }
        let count: usize = index.len() / 40;
        let mut records: Vec<PersistentBlobRecord> = Vec::new();
        let mut lookup_id = DigestMap::new();
        let mut k: usize = 0;
        assert(records.deep_view() =~= index_records(index@).take(0));
        while k < count
            invariant
                k <= count,
                count == index@.len() / 40,
                index@.len() % 40 == 0,
                index@.len() <= usize::MAX,
                lookup_id.wf(),
                records@.len() == k,
                records.deep_view() == index_records(index@).take(k as int),
                lookup_id@ == index_lookup(records.deep_view()),
            decreases count - k,
        {
            assert(40 * (k + 1) <= index@.len()) by {
                assert(k + 1 <= index@.len() / 40);
            }
            let bytes = slice_subrange(index, 40 * k, 40 * k + 40);
            let record = match PersistentBlobRecord::read_from(bytes) {
                Some(record) => record,
                None => {
                    // forty bytes always make a record
                    assert(false);
                    return Err(BlobStoreError::Unexpected);
                },
            };
            let ghost before = records.deep_view();
            records.push(record);
            lookup_id.insert(record.blob_hash(), k + 1);
            proof {
                let after = records.deep_view();
                assert(after.last() == index_record(index@, k as int));
                assert(after.drop_last() =~= before);
                assert(after =~= index_records(index@).take(k + 1));
            }
            k += 1;
        }
        let store = DirectoryBlobStore { config, records, lookup_id };
        proof {
            lemma_index_image_round_trip(index@);
            assert(index_records(index@).take(count as int) =~= index_records(index@));
            assert forall|digest: Seq<u8>| #[trigger]
                store.lookup_id@.contains_key(digest) implies {
                &&& 1 <= store.lookup_id@[digest] <= store.records@.len()
                &&& store.records@[store.lookup_id@[digest] - 1].0@ == digest
            } by {
                lemma_index_lookup_points(store.records.deep_view(), digest);
            }
        }
        Ok(store)
    }

    /// The number of index slots, those of removed blobs included.
    pub fn count(&self) -> (r: Result<usize, BlobStoreError>)
        ensures
            r matches Ok(n) && n == self.records().len(),
    {
        Ok(self.records.len())
    }

    /// Whether a blob with this digest is known.
    pub fn contains_hash(&self, blob_hash: BlobHash) -> (r: Result<bool, BlobStoreError>)
        requires
            self.valid(),
        ensures
            r matches Ok(found) && found == self.lookup().contains_key(blob_hash@),
    {
        Ok(self.lookup_id.contains_key(&blob_hash))
    }

    /// The id of the blob with this digest, if it is known.
    pub fn hash_to_id(&self, blob_hash: BlobHash) -> (r: Result<Option<BlobID>, BlobStoreError>)
        requires
            self.valid(),
        ensures
            r matches Ok(found) && found == (if self.lookup().contains_key(blob_hash@) {
                Some(self.lookup()[blob_hash@])
            } else {
                None
            }),
    {
        Ok(self.lookup_id.get(&blob_hash))
    }

    /// The record of slot `blob_id`, if there is such a slot.
    pub fn read_record(&self, blob_id: BlobID) -> (r: Result<
        Option<PersistentBlobRecord>,
        BlobStoreError,
    >)
        ensures
            r matches Ok(found) && match found {
                Some(record) => 1 <= blob_id <= self.records().len() && record@
                    == self.records()[blob_id - 1],
                None => !(1 <= blob_id <= self.records().len()),
            },
    {
        if blob_id == 0 || blob_id > self.records.len() {
            Ok(None)
        } else {
            Ok(Some(self.records[blob_id - 1]))
        }
    }

    /// The digest in the record of slot `blob_id`, whether or not the blob is
    /// still there.
    pub fn id_to_hash(&self, blob_id: BlobID) -> (r: Result<Option<BlobHash>, BlobStoreError>)
        ensures
            r matches Ok(found) && match found {
                Some(hash) => 1 <= blob_id <= self.records().len() && hash@
                    == self.records()[blob_id - 1].0,
                None => !(1 <= blob_id <= self.records().len()),
            },
    {
        match self.read_record(blob_id) {
            Ok(Some(record)) => Ok(Some(record.blob_hash())),
            Ok(None) => Ok(None),
            Err(error) => Err(error),
        }
    }

    /// The handle for a blob whose file the caller has looked for: with the
    /// content when the file is there, `Removed` when it is missing, and the
    /// failure when it could not be read.
    pub fn blob_from_file(blob_id: BlobID, blob_hash: BlobHash, file: FileProbe) -> (r: Result<
        Option<Blob>,
        BlobStoreError,
    >)
        ensures
            match file {
                FileProbe::Found(content) => r matches Ok(Some(blob)) && {
                    &&& blob.id == blob_id
                    &&& blob.hash == blob_hash
                    &&& blob.size == content@.len()
                    &&& blob.content() == Some(content@)
                },
                FileProbe::Missing => r matches Err(BlobStoreError::Removed),
                FileProbe::Failed(failure) => r == Err::<Option<Blob>, BlobStoreError>(
                    BlobStoreError::IO(failure),
                ),
            },
    {
        match file {
            FileProbe::Found(content) => {
                let size = content.len() as u64;
                Ok(Some(Blob { id: blob_id, hash: blob_hash, size, data: Some(content) }))
            },
            FileProbe::Missing => Err(BlobStoreError::Removed),
            FileProbe::Failed(failure) => Err(BlobStoreError::IO(failure)),
        }
    }

    /// The blob with this digest. `file` is what the caller found under the
    /// name that `encode_into_path` gives; it is looked at only if the digest
    /// is known.
    pub fn get_by_hash(&self, blob_hash: BlobHash, file: FileProbe) -> (r: Result<
        Option<Blob>,
        BlobStoreError,
    >)
        requires
            self.valid(),
        ensures
            !self.lookup().contains_key(blob_hash@) ==> r matches Ok(None),
            self.lookup().contains_key(blob_hash@) ==> match file {
                FileProbe::Found(content) => r matches Ok(Some(blob)) && {
                    &&& blob.id == self.lookup()[blob_hash@]
                    &&& blob.hash == blob_hash
                    &&& blob.size == content@.len()
                    &&& blob.content() == Some(content@)
                },
                FileProbe::Missing => r matches Err(BlobStoreError::Removed),
                FileProbe::Failed(failure) => r == Err::<Option<Blob>, BlobStoreError>(
                    BlobStoreError::IO(failure),
                ),
            },
    {
        match self.lookup_id.get(&blob_hash) {
            None => Ok(None),
            Some(blob_id) => DirectoryBlobStore::blob_from_file(blob_id, blob_hash, file),
        }
    }

    /// The blob in slot `blob_id`. `file` is what the caller found under the
    /// name of the digest that `id_to_hash` gives; it is looked at only if
    /// there is such a slot.
    pub fn get_by_id(&self, blob_id: BlobID, file: FileProbe) -> (r: Result<
        Option<Blob>,
        BlobStoreError,
    >)
        ensures
            !(1 <= blob_id <= self.records().len()) ==> r matches Ok(None),
            1 <= blob_id <= self.records().len() ==> match file {
                FileProbe::Found(content) => r matches Ok(Some(blob)) && {
                    &&& blob.id == blob_id
                    &&& blob.hash@ == self.records()[blob_id - 1].0
                    &&& blob.size == content@.len()
                    &&& blob.content() == Some(content@)
                },
                FileProbe::Missing => r matches Err(BlobStoreError::Removed),
                FileProbe::Failed(failure) => r == Err::<Option<Blob>, BlobStoreError>(
                    BlobStoreError::IO(failure),
                ),
            },
    {
        match self.id_to_hash(blob_id) {
            Ok(Some(blob_hash)) => DirectoryBlobStore::blob_from_file(blob_id, blob_hash, file),
            Ok(None) => Ok(None),
            Err(error) => Err(error),
        }
    }

    /// Refuses a mutation of a read-only store.
    pub fn ensure_writable(&self) -> (r: Result<(), BlobStoreError>)
        ensures
            self.is_writable() ==> r is Ok,
            !self.is_writable() ==> r matches Err(BlobStoreError::NotWritable),
    {
        if self.config.writable {
            Ok(())
        } else {
            Err(BlobStoreError::NotWritable)
        }
    }

    /// Decides what to do with content of `blob_size` bytes that hashes to
    /// `blob_hash`. Changes nothing.
    pub fn plan_put(&self, blob_hash: BlobHash, blob_size: u64) -> (r: Result<
        PutPlan,
        BlobStoreError,
    >)
        requires
            self.valid(),
        ensures
            !self.is_writable() ==> r matches Err(BlobStoreError::NotWritable),
            self.is_writable() && self.lookup().contains_key(blob_hash@) ==> (r matches Ok(
                PutPlan::Existing(blob),
            ) && {
                &&& blob.id == self.lookup()[blob_hash@]
                &&& blob.hash == blob_hash
                &&& blob.size == blob_size
                &&& blob.data is None
            }),
            self.is_writable() && !self.lookup().contains_key(blob_hash@) && self.records().len()
                < usize::MAX ==> (r matches Ok(PutPlan::Install { steps, blob_id }) && {
                &&& is_installation(steps@, blob_hash@, blob_size)
                &&& blob_id == self.records().len() + 1
            }),
            self.is_writable() && !self.lookup().contains_key(blob_hash@) && self.records().len()
                == usize::MAX ==> r matches Err(BlobStoreError::Other(_)),
    {
        if !self.config.writable {
            return Err(BlobStoreError::NotWritable);
        }
        if let Some(blob_id) = self.lookup_id.get(&blob_hash) {
            return Ok(
                PutPlan::Existing(Blob { id: blob_id, hash: blob_hash, size: blob_size, data: None }),
            );
        }
        if self.records.len() == usize::MAX {
            return Err(BlobStoreError::Other("the index has no room for another record".to_owned()));
        }
        let record = PersistentBlobRecord::new(blob_hash, blob_size);
        let mut steps: Vec<InstallStep> = Vec::new();
        steps.push(InstallStep::SetMode(BLOB_FILE_MODE));
        steps.push(InstallStep::Rename(encode_into_path(blob_hash)));
        steps.push(InstallStep::Append(record.to_bytes()));
        steps.push(InstallStep::Sync);
        Ok(PutPlan::Install { steps, blob_id: self.records.len() + 1 })
    }

    /// Takes note that the content with this digest and size was installed
    /// and its record appended to the index file. Where the digest is known
    /// already nothing changes.
    pub fn commit_put(&mut self, blob_hash: BlobHash, blob_size: u64) -> (r: Result<
        (bool, Blob),
        BlobStoreError,
    >)
        requires
            old(self).valid(),
        ensures
            final(self).valid(),
            final(self).is_writable() == old(self).is_writable(),
            r is Ok <==> old(self).is_writable() && (old(self).lookup().contains_key(blob_hash@)
                || old(self).records().len() < usize::MAX),
            !old(self).is_writable() ==> r matches Err(BlobStoreError::NotWritable),
            r is Err ==> final(self).records() == old(self).records() && final(self).lookup()
                == old(self).lookup(),
            r matches Ok((created, blob)) ==> {
                &&& created == !old(self).lookup().contains_key(blob_hash@)
                &&& blob.hash == blob_hash
                &&& blob.size == blob_size
                &&& blob.data is None
                &&& blob.id == final(self).lookup()[blob_hash@]
                &&& final(self).lookup() == old(self).lookup().insert(blob_hash@, blob.id)
                &&& final(self).records() == if created {
                    old(self).records().push((blob_hash@, blob_size))
                } else {
                    old(self).records()
                }
                &&& created ==> blob.id == final(self).records().len()
                &&& created ==> final(self).index_image() == old(self).index_image() + record_bytes(
                    blob_hash@,
                    blob_size,
                )
                &&& old(self).in_sync() ==> final(self).in_sync()
                &&& old(self).in_sync() && digests_are_distinct(old(self).records())
                    ==> digests_are_distinct(final(self).records())
            },
    {
        if !self.config.writable {
            return Err(BlobStoreError::NotWritable);
        }
        if let Some(blob_id) = self.lookup_id.get(&blob_hash) {
            assert(self.lookup_id@ =~= self.lookup_id@.insert(blob_hash@, blob_id));
            return Ok((false, Blob { id: blob_id, hash: blob_hash, size: blob_size, data: None }));
        }
        if self.records.len() == usize::MAX {
            return Err(BlobStoreError::Other("the index has no room for another record".to_owned()));
        }
        let blob_id: BlobID = self.records.len() + 1;
        let ghost before = self.records.deep_view();
        self.records.push(PersistentBlobRecord::new(blob_hash, blob_size));
        self.lookup_id.insert(blob_hash, blob_id);
        proof {
            let after = self.records.deep_view();
            assert(after =~= before.push((blob_hash@, blob_size)));
            assert(after.drop_last() =~= before);
            assert forall|digest: Seq<u8>| #[trigger]
                self.lookup_id@.contains_key(digest) implies {
                &&& 1 <= self.lookup_id@[digest] <= self.records@.len()
                &&& self.records@[self.lookup_id@[digest] - 1].0@ == digest
            } by {
                if digest != blob_hash@ {
                    assert(old(self).lookup_id@.contains_key(digest));
                }
            }
            if old(self).in_sync() && digests_are_distinct(before) {
                assert forall|i: int, j: int| 0 <= i < j < after.len() implies (#[trigger] after[i]).0
                    != (#[trigger] after[j]).0 by {
                    if j == after.len() - 1 {
                        lemma_index_lookup_points(before, blob_hash@);
                        assert(before[i] == after[i]);
                    } else {
                        assert(before[i] == after[i]);
                        assert(before[j] == after[j]);
                    }
                }
            }
        }
        Ok((true, Blob { id: blob_id, hash: blob_hash, size: blob_size, data: None }))
    }

    /// Forgets the blob with this digest and returns the name of the file to
    /// unlink, or `None` where the digest was not known. The record stays.
    pub fn evict(&mut self, blob_hash: BlobHash) -> (r: Result<Option<String>, BlobStoreError>)
        requires
            old(self).valid(),
        ensures
            final(self).valid(),
            final(self).is_writable() == old(self).is_writable(),
            final(self).records() == old(self).records(),
            !old(self).is_writable() ==> (r matches Err(BlobStoreError::NotWritable))
                && final(self).lookup() == old(self).lookup(),
            old(self).is_writable() ==> {
                &&& final(self).lookup() == old(self).lookup().remove(blob_hash@)
                &&& r matches Ok(file_name) && match file_name {
                    Some(name) => old(self).lookup().contains_key(blob_hash@) && name@ == hex_chars(
                        blob_hash@,
                    ),
                    None => !old(self).lookup().contains_key(blob_hash@),
                }
            },
    {
        if !self.config.writable {
            return Err(BlobStoreError::NotWritable);
        }
        match self.lookup_id.remove(&blob_hash) {
            None => Ok(None),
            Some(_) => Ok(Some(encode_into_path(blob_hash))),
        }
    }

    /// What `remove` returns after `evict`: `false` when the digest was not
    /// known and nothing was to be unlinked; else `true` when the file was
    /// there, `false` when it was missing, which is no error, and the failure
    /// otherwise.
    pub fn removal_outcome(unlinked: Option<FileRemoval>) -> (r: Result<bool, BlobStoreError>)
        ensures
            match unlinked {
                None => r matches Ok(false),
                Some(FileRemoval::Unlinked) => r matches Ok(true),
                Some(FileRemoval::Missing) => r matches Ok(false),
                Some(FileRemoval::Failed(failure)) => r == Err::<bool, BlobStoreError>(
                    BlobStoreError::IO(failure),
                ),
            },
    {
        match unlinked {
            None => Ok(false),
            Some(FileRemoval::Unlinked) => Ok(true),
            Some(FileRemoval::Missing) => Ok(false),
            Some(FileRemoval::Failed(failure)) => Err(BlobStoreError::IO(failure)),
        }
    }
}

} // verus!
