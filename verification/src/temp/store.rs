//! An in-memory blob store. Ids are stable: a removed blob leaves its slot
//! behind, empty, and later blobs keep their ids.

use crate::blob::{Blob, BlobHash, BlobID};
use crate::error::BlobStoreError;
use crate::hasher::{blake3_digest, hash};
use crate::lookup::DigestMap;
use crate::store::{
    blob_at, holds, ready, sound, without, BlobStore, BlobStoreExt, BlobStoreOptions,
    IndexedBlobStore, Slot,
};
use vstd::prelude::*;
use vstd::slice::slice_to_vec;

verus! {

/// A store that lives in memory.
pub struct EphemeralBlobStore {
    pub(crate) config: BlobStoreOptions,
    index: DigestMap,
    store: Vec<Blob>,
}

/// The slot that a stored handle stands for.
pub open spec fn slot_of(blob: Blob) -> Slot {
    Slot { digest: blob.hash@, content: blob.content() }
}

impl EphemeralBlobStore {
    /// An empty store with the given options.
    pub fn new(config: BlobStoreOptions) -> (store: EphemeralBlobStore)
        ensures
            ready(&store),
            store.slots() == Seq::<Slot>::empty(),
            store.is_writable() == config.writable,
    {
        let store = EphemeralBlobStore { config, index: DigestMap::new(), store: Vec::new() };
        assert(store.slots() =~= Seq::<Slot>::empty());
        store
    }

    /// The index and the slots agree: the index knows exactly the digests of
    /// the slots that have content, each with the number of its slot.
    spec fn agrees(&self) -> bool {
        &&& forall|i: int|
            0 <= i < self.store@.len() && (#[trigger] self.store@[i]).data is Some
                ==> self.index@.contains_key(self.store@[i].hash@) && self.index@[self.store@[i].hash@]
                == i + 1
        &&& forall|digest: Seq<u8>| #[trigger]
            self.index@.contains_key(digest) ==> {
                &&& 1 <= self.index@[digest] <= self.store@.len()
                &&& self.store@[self.index@[digest] - 1].hash@ == digest
                &&& self.store@[self.index@[digest] - 1].data is Some
            }
    }

    /// Every stored handle has the id of its slot, and content that hashes
    /// to its digest and has its size.
    spec fn handles_ok(&self) -> bool {
        forall|i: int|
            0 <= i < self.store@.len() ==> {
                &&& (#[trigger] self.store@[i]).id == i + 1
                &&& self.store@[i].data matches Some(content) ==> {
                    &&& self.store@[i].hash@ == blake3_digest(content@)
                    &&& self.store@[i].size == content@.len()
                }
            }
    }

    /// The index answers as `holds` does.
    proof fn lemma_index_is_holds(&self, digest: Seq<u8>)
        requires
            self.valid(),
        ensures
            self.index@.contains_key(digest) == holds(self.slots(), digest),
    {
        if self.index@.contains_key(digest) {
            let i = self.index@[digest] - 1;
            assert(self.slots()[i].digest == digest && self.slots()[i].content is Some);
        }
        if holds(self.slots(), digest) {
            let i = choose|i: int|
                0 <= i < self.slots().len() && (#[trigger] self.slots()[i]).digest == digest
                    && self.slots()[i].content is Some;
            assert(self.store@[i].data is Some);
        }
    }

    /// A valid store's slots are sound.
    proof fn lemma_valid_is_sound(&self)
        requires
            self.valid(),
        ensures
            sound(self.slots()),
    {
        let slots = self.slots();
        assert forall|i: int, j: int|
            0 <= i < j < slots.len() && (#[trigger] slots[i]).content is Some && (
            #[trigger] slots[j]).content is Some implies slots[i].digest != slots[j].digest by {
            assert(self.store@[i].data is Some);
            assert(self.store@[j].data is Some);
        }
        assert forall|i: int| 0 <= i < slots.len() implies ((#[trigger] slots[i]).content matches Some(
            content,
        ) ==> slots[i].digest == blake3_digest(content)) by {
            assert(self.store@[i].id == i + 1);
        }
    }
}

impl Default for EphemeralBlobStore {
    fn default() -> (store: EphemeralBlobStore)
        ensures
            ready(&store),
            store.slots() == Seq::<Slot>::empty(),
            store.is_writable(),
    {
        EphemeralBlobStore::new(BlobStoreOptions::new())
    }
}

impl BlobStore for EphemeralBlobStore {
    closed spec fn valid(&self) -> bool {
        &&& self.index.wf()
        &&& self.agrees()
        &&& self.handles_ok()
    }

    closed spec fn slots(&self) -> Seq<Slot> {
        Seq::new(self.store@.len(), |i: int| slot_of(self.store@[i]))
    }

    closed spec fn is_writable(&self) -> bool {
        self.config.writable
    }

    open spec fn reliable(&self) -> bool {
        true
    }

    fn count(&self) -> (r: Result<usize, BlobStoreError>)
        ensures
            r matches Ok(n) && n == self.slots().len(),
    {
        Ok(self.store.len())
    }

    fn contains_hash(&self, blob_hash: BlobHash) -> (r: Result<bool, BlobStoreError>)
        ensures
            r matches Ok(found) && found == holds(self.slots(), blob_hash@),
    {
        proof {
            self.lemma_index_is_holds(blob_hash@);
        }
        Ok(self.index.contains_key(&blob_hash))
    }

    fn get_by_hash(&self, blob_hash: BlobHash) -> (r: Result<Option<Blob>, BlobStoreError>)
        ensures
            r is Ok,
            r matches Ok(found) && (found is Some <==> holds(self.slots(), blob_hash@)),
    {
        proof {
            self.lemma_index_is_holds(blob_hash@);
        }
        match self.index.get(&blob_hash) {
            None => Ok(None),
            Some(blob_id) => {
                let blob = self.store[blob_id - 1].duplicate();
                proof {
                    assert(self.store@[blob_id - 1].id == blob_id);
                    crate::blob::lemma_hash_view_injective(blob.hash, blob_hash);
                    assert(blob_at(self.slots(), blob_id, blob));
                }
                Ok(Some(blob))
            },
        }
    }

    fn put(&mut self, blob_data: &[u8]) -> (r: Result<(bool, Blob), BlobStoreError>)
        ensures
            r is Ok <==> old(self).is_writable() && (holds(old(self).slots(), blake3_digest(blob_data@))
                || old(self).slots().len() < usize::MAX),
            r matches Ok((_, blob)) ==> blob_at(final(self).slots(), blob.id, blob),
    {
        if !self.config.writable {
            return Err(BlobStoreError::NotWritable);
        }
        let blob_hash = hash(blob_data);
        proof {
            self.lemma_index_is_holds(blob_hash@);
        }
        if let Some(blob_id) = self.index.get(&blob_hash) {
            let blob = self.store[blob_id - 1].duplicate();
            proof {
                assert(self.store@[blob_id - 1].id == blob_id);
                assert(blob_at(self.slots(), blob_id, blob));
            }
            return Ok((false, blob));
        }
        if self.store.len() == usize::MAX {
            return Err(BlobStoreError::Other("the store has no room for another blob".to_owned()));
        }
        let blob_id: BlobID = self.store.len() + 1;
        let blob_size = blob_data.len() as u64;
        let blob = Blob {
            id: blob_id,
            hash: blob_hash,
            size: blob_size,
            data: Some(slice_to_vec(blob_data)),
        };
        let stored = Blob {
            id: blob_id,
            hash: blob_hash,
            size: blob_size,
            data: Some(slice_to_vec(blob_data)),
        };
        self.store.push(stored);
        self.index.insert(blob_hash, blob_id);
        proof {
            let digest = blob_hash@;
            let n = old(self).store@.len() as int;
            assert(self.store@[n] == stored);
            assert forall|i: int|
                0 <= i < self.store@.len() && (#[trigger] self.store@[i]).data is Some implies self.index@.contains_key(
                self.store@[i].hash@,
            ) && self.index@[self.store@[i].hash@] == i + 1 by {
                if i < n {
                    assert(old(self).store@[i].data is Some);
                }
            }
            assert forall|d: Seq<u8>| #[trigger] self.index@.contains_key(d) implies {
                &&& 1 <= self.index@[d] <= self.store@.len()
                &&& self.store@[self.index@[d] - 1].hash@ == d
                &&& self.store@[self.index@[d] - 1].data is Some
            } by {
                if d != digest {
                    assert(old(self).index@.contains_key(d));
                }
            }
            assert(self.agrees());
            assert(self.handles_ok());
            assert(self.slots() =~= old(self).slots().push(
                Slot { digest, content: Some(blob_data@) },
            ));
            assert(blob_at(self.slots(), blob_id, blob));
            self.lemma_valid_is_sound();
        }
        Ok((true, blob))
    }

    fn remove(&mut self, blob_hash: BlobHash) -> (r: Result<bool, BlobStoreError>)
        ensures
            r is Ok <==> old(self).is_writable(),
            r matches Ok(was_held) ==> was_held == holds(old(self).slots(), blob_hash@),
    {
        if !self.config.writable {
            return Err(BlobStoreError::NotWritable);
        }
        proof {
            self.lemma_index_is_holds(blob_hash@);
        }
        match self.index.remove(&blob_hash) {
            None => {
                proof {
                    let before = old(self).slots();
                    assert forall|i: int| 0 <= i < before.len() implies (#[trigger] before[i])
                        == without(before, blob_hash@)[i] by {
                        if before[i].digest == blob_hash@ {
                            assert(before[i].content is None);
                        }
                    }
                    assert(self.slots() =~= without(before, blob_hash@));
                    assert(self.index@ =~= old(self).index@);
                }
                Ok(false)
            },
            Some(blob_id) => {
                let slot = &self.store[blob_id - 1];
                let emptied = Blob { id: slot.id, hash: slot.hash, size: slot.size, data: None };
                self.store.set(blob_id - 1, emptied);
                proof {
                    let k = blob_id - 1;
                    let before = old(self).slots();
                    assert(old(self).store@[k].hash@ == blob_hash@);
                    assert forall|i: int|
                        0 <= i < self.store@.len() && (#[trigger] self.store@[i]).data is Some implies self.index@.contains_key(
                        self.store@[i].hash@,
                    ) && self.index@[self.store@[i].hash@] == i + 1 by {
                        assert(i != k);
                        assert(old(self).store@[i].data is Some);
                        assert(old(self).index@[old(self).store@[i].hash@] == i + 1);
                    }
                    assert forall|d: Seq<u8>| #[trigger] self.index@.contains_key(d) implies {
                        &&& 1 <= self.index@[d] <= self.store@.len()
                        &&& self.store@[self.index@[d] - 1].hash@ == d
                        &&& self.store@[self.index@[d] - 1].data is Some
                    } by {
                        assert(old(self).index@.contains_key(d));
                        assert(d != blob_hash@);
                        assert(old(self).index@[d] - 1 != k);
                    }
                    assert(self.agrees());
                    assert forall|i: int| 0 <= i < self.store@.len() implies {
                        &&& (#[trigger] self.store@[i]).id == i + 1
                        &&& self.store@[i].data matches Some(content) ==> {
                            &&& self.store@[i].hash@ == blake3_digest(content@)
                            &&& self.store@[i].size == content@.len()
                        }
                    } by {
                        assert(old(self).store@[i].id == i + 1);
                    }
                    assert(self.handles_ok());
                    assert forall|i: int| 0 <= i < before.len() implies (#[trigger] self.slots()[i])
                        == without(before, blob_hash@)[i] by {
                        if i != k && before[i].digest == blob_hash@ {
                            if before[i].content is Some {
                                assert(old(self).store@[i].data is Some);
                                assert(old(self).index@[blob_hash@] == i + 1);
                            }
                        }
                    }
                    assert(self.slots() =~= without(before, blob_hash@));
                    self.lemma_valid_is_sound();
                }
                Ok(true)
            },
        }
    }
}

impl IndexedBlobStore for EphemeralBlobStore {
    fn hash_to_id(&self, blob_hash: BlobHash) -> (r: Result<Option<BlobID>, BlobStoreError>)
        ensures
            r matches Ok(found) && (found is Some <==> holds(self.slots(), blob_hash@)),
    {
        proof {
            self.lemma_index_is_holds(blob_hash@);
        }
        Ok(self.index.get(&blob_hash))
    }

    fn id_to_hash(&self, blob_id: BlobID) -> (r: Result<Option<BlobHash>, BlobStoreError>)
        ensures
            r matches Ok(found) && (found is Some <==> 1 <= blob_id <= self.slots().len()),
    {
        if blob_id == 0 || blob_id > self.store.len() {
            Ok(None)
        } else {
            Ok(Some(self.store[blob_id - 1].hash))
        }
    }

    fn get_by_id(&self, blob_id: BlobID) -> (r: Result<Option<Blob>, BlobStoreError>)
        ensures
            !(1 <= blob_id <= self.slots().len()) ==> r matches Ok(None),
            1 <= blob_id <= self.slots().len() ==> (match self.slots()[blob_id - 1].content {
                Some(_) => r matches Ok(Some(_)),
                None => r matches Err(BlobStoreError::Removed),
            }),
    {
        if blob_id == 0 || blob_id > self.store.len() {
            return Ok(None);
        }
        let slot = &self.store[blob_id - 1];
        if slot.data.is_none() {
            return Err(BlobStoreError::Removed);
        }
        let blob = slot.duplicate();
        proof {
            assert(self.store@[blob_id - 1].id == blob_id);
            assert(blob_at(self.slots(), blob_id, blob));
        }
        Ok(Some(blob))
    }
}

impl BlobStoreExt for EphemeralBlobStore {

}

} // verus!
