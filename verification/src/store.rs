//! The contract that every blob store honours, stated over a model of its
//! index: the sequence of slots in the order in which blobs were put.

use crate::blob::{Blob, BlobHash, BlobID};
use crate::error::BlobStoreError;
use crate::filter::Filter;
use crate::hasher::blake3_digest;
use vstd::prelude::*;
use vstd::string::StringSliceAdditionalSpecFns;

verus! {

/// One slot of a store's index: the digest it was made for and, until the
/// blob is removed, the content.
pub struct Slot {
    pub digest: Seq<u8>,
    pub content: Option<Seq<u8>>,
}

/// Some slot still has content under `digest`.
pub open spec fn holds(slots: Seq<Slot>, digest: Seq<u8>) -> bool {
    exists|i: int|
        0 <= i < slots.len() && (#[trigger] slots[i]).digest == digest && slots[i].content is Some
}

/// The digests of all blobs that the slots still hold.
pub open spec fn held(slots: Seq<Slot>) -> Set<Seq<u8>> {
    Set::new(|digest: Seq<u8>| holds(slots, digest))
}

/// What must hold of the slots of any store: every digest has 32 bytes, held
/// content hashes to the digest of its slot, and no two held blobs share a
/// digest.
pub open spec fn sound(slots: Seq<Slot>) -> bool {
    &&& forall|i: int| 0 <= i < slots.len() ==> (#[trigger] slots[i]).digest.len() == 32
    &&& forall|i: int|
        0 <= i < slots.len() ==> ((#[trigger] slots[i]).content matches Some(content)
            ==> slots[i].digest == blake3_digest(content))
    &&& forall|i: int, j: int|
        0 <= i < j < slots.len() && (#[trigger] slots[i]).content is Some && (
        #[trigger] slots[j]).content is Some ==> slots[i].digest != slots[j].digest
}

/// The slots after the blob with `digest` was removed: each slot stays in
/// its place, and those made for `digest` have lost their content.
pub open spec fn without(slots: Seq<Slot>, digest: Seq<u8>) -> Seq<Slot> {
    Seq::new(
        slots.len(),
        |i: int|
            if slots[i].digest == digest {
                Slot { digest, content: None }
            } else {
                slots[i]
            },
    )
}

/// `blob` is a handle for the slot with the id `id`, content included.
pub open spec fn blob_at(slots: Seq<Slot>, id: BlobID, blob: Blob) -> bool {
    &&& 1 <= id <= slots.len()
    &&& blob.id == id
    &&& blob.hash@ == slots[id - 1].digest
    &&& slots[id - 1].content is Some
    &&& blob.content() == slots[id - 1].content
    &&& blob.size == slots[id - 1].content.unwrap().len()
}

/// `blob` is a handle for a held blob with the digest of `hash`: it carries
/// the content, and its id, unless the store assigns none, is the blob's slot.
pub open spec fn blob_for(slots: Seq<Slot>, hash: BlobHash, blob: Blob) -> bool {
    &&& holds(slots, hash@)
    &&& blob.hash == hash
    &&& blob.content() matches Some(content) && blob.hash@ == blake3_digest(content) && blob.size
        == content.len()
    &&& blob.id != 0 ==> blob_at(slots, blob.id, blob)
}

/// What `put` owes for `data`: on success the digest of the data, a new slot
/// at the end, with the data and its size, if and only if no held blob had
/// that digest, and otherwise no change at all. A read-only store fails with
/// `NotWritable`.
pub open spec fn put_post(
    before: Seq<Slot>,
    writable: bool,
    data: Seq<u8>,
    after: Seq<Slot>,
    outcome: Result<(bool, Blob), BlobStoreError>,
) -> bool {
    let digest = blake3_digest(data);
    match outcome {
        Ok((created, blob)) => {
            &&& writable
            &&& created == !holds(before, digest)
            &&& after == if created {
                before.push(Slot { digest, content: Some(data) })
            } else {
                before
            }
            &&& blob.hash@ == digest
            &&& created ==> blob.size == data.len()
            &&& blob.id != 0 ==> {
                &&& 1 <= blob.id <= after.len()
                &&& after[blob.id - 1].digest == digest
                &&& after[blob.id - 1].content is Some
            }
            &&& created && blob.id != 0 ==> blob.id == after.len()
            &&& blob.content() matches Some(content) ==> blake3_digest(content) == digest
        },
        Err(error) => {
            &&& after == before
            &&& !writable ==> error is NotWritable
        },
    }
}

/// What `remove` owes for `digest`: on success no slot holds it any longer
/// and nothing else has changed, and `true` is returned only if it was held.
/// A read-only store fails with `NotWritable` and changes nothing.
pub open spec fn remove_post(
    before: Seq<Slot>,
    writable: bool,
    digest: Seq<u8>,
    after: Seq<Slot>,
    outcome: Result<bool, BlobStoreError>,
) -> bool {
    match outcome {
        Ok(was_held) => {
            &&& writable
            &&& after == without(before, digest)
            &&& was_held ==> holds(before, digest)
        },
        Err(error) => {
            &&& !writable ==> error is NotWritable && after == before
            &&& after == before || after == without(before, digest)
        },
    }
}

/// The operations of every backend.
pub trait BlobStore {
    /// The store's own invariant. A backend that states none keeps this
    /// one, under which it is never valid: proofs then say nothing of it.
    open spec fn valid(&self) -> bool {
        false
    }

    /// The index, slot by slot.
    open spec fn slots(&self) -> Seq<Slot> {
        Seq::empty()
    }

    /// Whether the store accepts `put` and `remove`.
    open spec fn is_writable(&self) -> bool {
        false
    }

    /// Whether the store never fails on its own account: every operation
    /// that its state admits succeeds. A store in memory can promise that; a
    /// store on disk or across a network cannot.
    open spec fn reliable(&self) -> bool {
        false
    }

    /// The number of index slots, those of removed blobs included.
    fn count(&self) -> (r: Result<usize, BlobStoreError>)
        requires
            self.valid(),
            sound(self.slots()),
        ensures
            r matches Ok(n) ==> n == self.slots().len(),
            self.reliable() ==> r is Ok,
    ;

    /// Whether the store holds a blob with this digest.
    fn contains_hash(&self, blob_hash: BlobHash) -> (r: Result<bool, BlobStoreError>)
        requires
            self.valid(),
            sound(self.slots()),
        ensures
            r matches Ok(found) ==> found == holds(self.slots(), blob_hash@),
            self.reliable() ==> r is Ok,
    ;

    /// The blob with this digest, if the store holds it.
    fn get_by_hash(&self, blob_hash: BlobHash) -> (r: Result<Option<Blob>, BlobStoreError>)
        requires
            self.valid(),
            sound(self.slots()),
        ensures
            r matches Ok(Some(blob)) ==> blob_for(self.slots(), blob_hash, blob),
            r matches Ok(None) ==> !holds(self.slots(), blob_hash@),
            self.reliable() ==> r is Ok,
    ;

    /// Stores `blob_data` unless a blob with its digest is held already.
    /// Returns whether a blob was created, and the blob's handle.
    fn put(&mut self, blob_data: &[u8]) -> (r: Result<(bool, Blob), BlobStoreError>)
        requires
            old(self).valid(),
            sound(old(self).slots()),
        ensures
            final(self).valid(),
            sound(final(self).slots()),
            final(self).is_writable() == old(self).is_writable(),
            final(self).reliable() == old(self).reliable(),
            put_post(old(self).slots(), old(self).is_writable(), blob_data@, final(self).slots(), r),
            old(self).reliable() && old(self).is_writable() && old(self).slots().len() < usize::MAX
                ==> r is Ok,
    ;

    /// Removes the blob with this digest. Returns whether it was held.
    fn remove(&mut self, blob_hash: BlobHash) -> (r: Result<bool, BlobStoreError>)
        requires
            old(self).valid(),
            sound(old(self).slots()),
        ensures
            final(self).valid(),
            sound(final(self).slots()),
            final(self).is_writable() == old(self).is_writable(),
            final(self).reliable() == old(self).reliable(),
            remove_post(
                old(self).slots(),
                old(self).is_writable(),
                blob_hash@,
                final(self).slots(),
                r,
            ),
            old(self).reliable() && old(self).is_writable() ==> r is Ok,
    ;
}

/// The operations of a backend whose blobs have ids: the number of the slot,
/// counted from 1.
pub trait IndexedBlobStore: BlobStore {
    /// The id of the held blob with this digest.
    fn hash_to_id(&self, blob_hash: BlobHash) -> (r: Result<Option<BlobID>, BlobStoreError>)
        requires
            self.valid(),
            sound(self.slots()),
        ensures
            r matches Ok(Some(id)) ==> {
                &&& 1 <= id <= self.slots().len()
                &&& self.slots()[id - 1].digest == blob_hash@
                &&& self.slots()[id - 1].content is Some
            },
            r matches Ok(None) ==> !holds(self.slots(), blob_hash@),
            self.reliable() ==> r is Ok,
    ;

    /// The digest that slot `blob_id` was made for, whether or not its blob
    /// is still held.
    fn id_to_hash(&self, blob_id: BlobID) -> (r: Result<Option<BlobHash>, BlobStoreError>)
        requires
            self.valid(),
            sound(self.slots()),
        ensures
            r matches Ok(Some(hash)) ==> 1 <= blob_id <= self.slots().len() && hash@
                == self.slots()[blob_id - 1].digest,
            r matches Ok(None) ==> !(1 <= blob_id <= self.slots().len()),
            self.reliable() ==> r is Ok,
    ;

    /// The blob in slot `blob_id`: absent where there is no such slot,
    /// `Removed` where the slot has lost its content.
    fn get_by_id(&self, blob_id: BlobID) -> (r: Result<Option<Blob>, BlobStoreError>)
        requires
            self.valid(),
            sound(self.slots()),
        ensures
            r matches Ok(Some(blob)) ==> blob_at(self.slots(), blob_id, blob),
            r matches Ok(None) ==> !(1 <= blob_id <= self.slots().len()),
            r matches Err(BlobStoreError::Removed) ==> 1 <= blob_id <= self.slots().len()
                && self.slots()[blob_id - 1].content is None,
            self.reliable() ==> r is Ok || r matches Err(BlobStoreError::Removed),
    ;
}

/// Conveniences that every store has from its five operations.
pub trait BlobStoreExt: BlobStore {
    /// Whether the index has no slot.
    fn is_empty(&self) -> (r: Result<bool, BlobStoreError>)
        requires
            self.valid(),
            sound(self.slots()),
        ensures
            r matches Ok(empty) ==> empty == (self.slots().len() == 0),
            self.reliable() ==> r is Ok,
    {
        match self.count() {
            Ok(n) => Ok(n == 0),
            Err(error) => Err(error),
        }
    }

    /// Stores the bytes of `data`.
    fn put_bytes(&mut self, data: &[u8]) -> (r: Result<(bool, Blob), BlobStoreError>)
        requires
            old(self).valid(),
            sound(old(self).slots()),
        ensures
            final(self).valid(),
            sound(final(self).slots()),
            final(self).is_writable() == old(self).is_writable(),
            final(self).reliable() == old(self).reliable(),
            put_post(old(self).slots(), old(self).is_writable(), data@, final(self).slots(), r),
            old(self).reliable() && old(self).is_writable() && old(self).slots().len() < usize::MAX
                ==> r is Ok,
    {
        self.put(data)
    }

    /// Stores the UTF-8 bytes of `data`.
    fn put_string(&mut self, data: &str) -> (r: Result<(bool, Blob), BlobStoreError>)
        requires
            old(self).valid(),
            sound(old(self).slots()),
        ensures
            final(self).valid(),
            sound(final(self).slots()),
            final(self).is_writable() == old(self).is_writable(),
            final(self).reliable() == old(self).reliable(),
            put_post(
                old(self).slots(),
                old(self).is_writable(),
                data.spec_bytes(),
                final(self).slots(),
                r,
            ),
            old(self).reliable() && old(self).is_writable() && old(self).slots().len() < usize::MAX
                ==> r is Ok,
    {
        self.put(data.as_bytes())
    }
}

/// The store is in a state in which it may be used: its own invariant holds
/// and its slots are sound.
pub open spec fn ready<S: BlobStore + ?Sized>(store: &S) -> bool {
    store.valid() && sound(store.slots())
}

/// Putting the same content twice creates one blob: the first put of content
/// that was not held creates it, the second finds it under the same id, and
/// the index has grown by one slot in all.
pub proof fn lemma_put_is_idempotent(
    start: Seq<Slot>,
    between: Seq<Slot>,
    end: Seq<Slot>,
    data: Seq<u8>,
    first: (bool, Blob),
    second: (bool, Blob),
)
    requires
        sound(between),
        !holds(start, blake3_digest(data)),
        put_post(start, true, data, between, Ok(first)),
        put_post(between, true, data, end, Ok(second)),
    ensures
        first.0,
        !second.0,
        end == between,
        end.len() == start.len() + 1,
        first.1.id != 0 && second.1.id != 0 ==> second.1.id == first.1.id,
{
    let digest = blake3_digest(data);
    assert(between[start.len() as int].digest == digest);
    assert(holds(between, digest));
    if first.1.id != 0 && second.1.id != 0 {
        let i = first.1.id - 1;
        let j = second.1.id - 1;
        if i < j {
            assert(between[i].digest != between[j].digest);
        }
        if j < i {
            assert(between[j].digest != between[i].digest);
        }
    }
}

/// What `get_by_id` returns for a slot has the digest that `id_to_hash`
/// gives for it.
pub proof fn lemma_get_by_id_has_id_to_hash(slots: Seq<Slot>, id: BlobID, blob: Blob, hash: BlobHash)
    requires
        blob_at(slots, id, blob),
        1 <= id <= slots.len() && hash@ == slots[id - 1].digest,
    ensures
        blob.hash == hash,
{
    crate::blob::lemma_hash_view_injective(blob.hash, hash);
}

/// How a store is opened.
pub struct BlobStoreOptions {
    /// Whether `put` and `remove` are accepted.
    pub writable: bool,
    /// The filters to apply to content, in order. None by default.
    pub filters: Vec<Box<dyn Filter>>,
}

impl Default for BlobStoreOptions {
    fn default() -> (options: BlobStoreOptions)
        ensures
            options.writable,
            options.filters@.len() == 0,
    {
        BlobStoreOptions { writable: true, filters: Vec::new() }
    }
}

impl BlobStoreOptions {
    /// The default options: writable, no filters.
    pub fn new() -> (options: BlobStoreOptions)
        ensures
            options.writable,
            options.filters@.len() == 0,
    {
        BlobStoreOptions { writable: true, filters: Vec::new() }
    }

    /// The same options, writable or not as `writable` says.
    pub fn writable(self, writable: bool) -> (options: BlobStoreOptions)
        ensures
            options.writable == writable,
            options.filters == self.filters,
    {
        BlobStoreOptions { writable, filters: self.filters }
    }

    /// The same options with `filters` in place of the filters.
    pub fn filters(self, filters: Vec<Box<dyn Filter>>) -> (options: BlobStoreOptions)
        ensures
            options.writable == self.writable,
            options.filters == filters,
    {
        BlobStoreOptions { writable: self.writable, filters }
    }

    /// The same options with `filter` added behind the filters.
    pub fn filter(self, filter: Box<dyn Filter>) -> (options: BlobStoreOptions)
        ensures
            options.writable == self.writable,
            options.filters@ == self.filters@.push(filter),
    {
        let mut options = self;
        options.filters.push(filter);
        options
    }
}

} // verus!
