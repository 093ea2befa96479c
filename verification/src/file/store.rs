//! A store kept in one file. None of its operations is provided yet: each
//! one fails and names itself.

use crate::blob::{Blob, BlobHash, BlobID};
use crate::error::BlobStoreError;
use crate::store::{ready, BlobStore, BlobStoreExt, IndexedBlobStore, Slot};
use vstd::prelude::*;

verus! {

/// The single-file store.
pub struct FileBlobStore {}

impl Default for FileBlobStore {
    fn default() -> (store: FileBlobStore)
        ensures
            ready(&store),
    {
        FileBlobStore {  }
    }
}

/// The failure of the operation called `name`.
pub open spec fn unimplemented_as(error: BlobStoreError, name: Seq<char>) -> bool {
    error matches BlobStoreError::Unimplemented(operation) && operation@ == name
}

impl BlobStore for FileBlobStore {
    open spec fn valid(&self) -> bool {
        true
    }

    open spec fn slots(&self) -> Seq<Slot> {
        Seq::empty()
    }

    open spec fn is_writable(&self) -> bool {
        true
    }

    fn count(&self) -> (r: Result<usize, BlobStoreError>)
        ensures
            r matches Err(error) && unimplemented_as(error, "count"@),
    {
        Err(BlobStoreError::unimplemented("count"))
    }

    fn contains_hash(&self, _blob_hash: BlobHash) -> (r: Result<bool, BlobStoreError>)
        ensures
            r matches Err(error) && unimplemented_as(error, "contains_hash"@),
    {
        Err(BlobStoreError::unimplemented("contains_hash"))
    }

    fn get_by_hash(&self, _blob_hash: BlobHash) -> (r: Result<Option<Blob>, BlobStoreError>)
        ensures
            r matches Err(error) && unimplemented_as(error, "get_by_hash"@),
    {
        Err(BlobStoreError::unimplemented("get_by_hash"))
    }

    fn put(&mut self, _blob_data: &[u8]) -> (r: Result<(bool, Blob), BlobStoreError>)
        ensures
            r matches Err(error) && unimplemented_as(error, "put"@),
    {
        Err(BlobStoreError::unimplemented("put"))
    }

    fn remove(&mut self, _blob_hash: BlobHash) -> (r: Result<bool, BlobStoreError>)
        ensures
            r matches Err(error) && unimplemented_as(error, "remove"@),
    {
        Err(BlobStoreError::unimplemented("remove"))
    }
}

impl IndexedBlobStore for FileBlobStore {
    fn hash_to_id(&self, _blob_hash: BlobHash) -> (r: Result<Option<BlobID>, BlobStoreError>)
        ensures
            r matches Err(error) && unimplemented_as(error, "hash_to_id"@),
    {
        Err(BlobStoreError::unimplemented("hash_to_id"))
    }

    fn id_to_hash(&self, _blob_id: BlobID) -> (r: Result<Option<BlobHash>, BlobStoreError>)
        ensures
            r matches Err(error) && unimplemented_as(error, "id_to_hash"@),
    {
        Err(BlobStoreError::unimplemented("id_to_hash"))
    }

    fn get_by_id(&self, _blob_id: BlobID) -> (r: Result<Option<Blob>, BlobStoreError>)
        ensures
            r matches Err(error) && unimplemented_as(error, "get_by_id"@),
    {
        Err(BlobStoreError::unimplemented("get_by_id"))
    }
}

impl BlobStoreExt for FileBlobStore {

}

} // verus!
