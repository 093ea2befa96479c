//! Walking an indexed store in the order of its ids.

use crate::blob::{Blob, BlobID};
use crate::error::BlobStoreError;
use crate::store::{blob_at, ready, IndexedBlobStore, Slot};
use vstd::prelude::*;

verus! {

/// The slots with the ids `from + 1` to `to` have all lost their content.
pub open spec fn all_removed(slots: Seq<Slot>, from: int, to: int) -> bool {
    forall|i: int| from <= i < to && 0 <= i < slots.len() ==> (#[trigger] slots[i]).content is None
}

/// A walk over the blobs of a store, by ascending id. The number of slots is
/// fixed when the walk starts; slots whose blob was removed are passed over.
pub struct IndexedBlobStoreIterator<'a, S: IndexedBlobStore> {
    pub(crate) store: &'a S,
    pub(crate) index: usize,
    pub(crate) count: usize,
}

impl<'a, S: IndexedBlobStore> IndexedBlobStoreIterator<'a, S> {
    /// The store that is walked.
    pub closed spec fn store(&self) -> &'a S {
        self.store
    }

    /// The id of the last slot that was visited; 0 before the first.
    pub closed spec fn position(&self) -> BlobID {
        self.index
    }

    /// The walk is over a valid store, whose slots it has counted.
    pub closed spec fn wf(&self) -> bool {
        &&& ready(self.store)
        &&& self.count == self.store.slots().len()
        &&& self.index <= self.count
    }

    /// A walk over `store` from its first slot. Fails if the store cannot
    /// say how many slots it has.
    pub fn new(store: &'a S) -> (r: Result<Self, BlobStoreError>)
        requires
            ready(store),
        ensures
            r matches Ok(walk) ==> walk.wf() && walk.store() == store && walk.position() == 0,
            store.reliable() ==> r is Ok,
    {
        match store.count() {
            Ok(count) => Ok(IndexedBlobStoreIterator { store, index: 0, count }),
            Err(error) => Err(error),
        }
    }

    /// The next blob that the store still holds, or `None` when every slot
    /// has been visited. A failure of the store other than `Removed` is
    /// handed on; the walk then stands behind the slot that failed.
    pub fn next(&mut self) -> (r: Option<Result<Blob, BlobStoreError>>)
        requires
            old(self).wf(),
        ensures
            final(self).wf(),
            final(self).store() == old(self).store(),
            old(self).position() <= final(self).position() <= old(self).store().slots().len(),
            old(self).store().reliable() ==> !(r matches Some(Err(_))),
            match r {
                None => {
                    &&& final(self).position() == old(self).store().slots().len()
                    &&& all_removed(
                        old(self).store().slots(),
                        old(self).position() as int,
                        final(self).position() as int,
                    )
                },
                Some(outcome) => {
                    &&& old(self).position() < final(self).position()
                    &&& all_removed(
                        old(self).store().slots(),
                        old(self).position() as int,
                        final(self).position() - 1,
                    )
                    &&& match outcome {
                        Ok(blob) => blob_at(
                            old(self).store().slots(),
                            final(self).position(),
                            blob,
                        ),
                        Err(error) => !(error is Removed),
                    }
                },
            },
    {
        while self.index < self.count
            invariant
                self.wf(),
                self.store == old(self).store,
                self.count == old(self).count,
                old(self).index <= self.index,
                all_removed(self.store.slots(), old(self).index as int, self.index as int),
            decreases self.count - self.index,
        {
            self.index += 1;
            match self.store.get_by_id(self.index) {
                Ok(Some(blob)) => {
                    return Some(Ok(blob));
                },
                Ok(None) => {
                    // a slot within the count is never absent
                    assert(false);
                    return None;
                },
                Err(BlobStoreError::Removed) => {},
                Err(error) => {
                    return Some(Err(error));
                },
            }
        }
        None
    }
}

} // verus!
