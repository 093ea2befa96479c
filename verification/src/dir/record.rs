//! The index record: a digest followed by the blob's size, 40 bytes in all.

use crate::blob::BlobHash;
use crate::endian::{
    be64, from_be64, lemma_be64_round_trip, lemma_from_be64_round_trip, u64_from_be_bytes,
    u64_to_be_bytes,
};
use vstd::prelude::*;

verus! {

/// Number of bytes in one index record.
pub const RECORD_SIZE: usize = 40;

/// One entry of the index: the digest of a blob and the number of its bytes.
#[derive(Debug, Clone, Copy)]
pub struct PersistentBlobRecord(pub [u8; 32], pub u64);

impl View for PersistentBlobRecord {
    type V = (Seq<u8>, u64);

    open spec fn view(&self) -> (Seq<u8>, u64) {
        (self.0@, self.1)
    }
}

impl DeepView for PersistentBlobRecord {
    type V = (Seq<u8>, u64);

    open spec fn deep_view(&self) -> (Seq<u8>, u64) {
        (self.0@, self.1)
    }
}

/// The 40 bytes of a record: the digest, then the size in network byte order.
pub open spec fn record_bytes(hash: Seq<u8>, size: u64) -> Seq<u8> {
    hash + be64(size)
}

/// The digest that 40 record bytes hold.
pub open spec fn record_hash(bytes: Seq<u8>) -> Seq<u8> {
    bytes.subrange(0, 32)
}

/// The size that 40 record bytes hold.
pub open spec fn record_size(bytes: Seq<u8>) -> u64 {
    from_be64(bytes.subrange(32, 40))
}

/// A record read back from its own bytes is the record that was written.
pub proof fn lemma_record_round_trip(hash: Seq<u8>, size: u64)
    requires
        hash.len() == 32,
    ensures
        record_bytes(hash, size).len() == 40,
        record_hash(record_bytes(hash, size)) == hash,
        record_size(record_bytes(hash, size)) == size,
{
    lemma_be64_round_trip(size);
    let bytes = record_bytes(hash, size);
    assert(bytes.subrange(0, 32) =~= hash);
    assert(bytes.subrange(32, 40) =~= be64(size));
}

/// Forty bytes are the record bytes of what they decode to: the layout has
/// no slack.
pub proof fn lemma_record_bytes_round_trip(bytes: Seq<u8>)
    requires
        bytes.len() == 40,
    ensures
        record_bytes(record_hash(bytes), record_size(bytes)) == bytes,
{
    lemma_from_be64_round_trip(bytes.subrange(32, 40));
    assert(record_bytes(record_hash(bytes), record_size(bytes)) =~= bytes);
}

impl PersistentBlobRecord {
    /// The record's digest.
    pub open spec fn hash(&self) -> Seq<u8> {
        self.0@
    }

    /// The record's 40 bytes as the index holds them.
    pub open spec fn bytes(&self) -> Seq<u8> {
        record_bytes(self.0@, self.1)
    }

    /// The record for a blob with this digest and size.
    pub fn new(hash: BlobHash, size: u64) -> (record: PersistentBlobRecord)
        ensures
            record.0 == hash.0,
            record.1 == size,
    {
        PersistentBlobRecord(hash.0, size)
    }

    /// The digest as a value of its own.
    pub fn blob_hash(&self) -> (hash: BlobHash)
        ensures
            hash@ == self.hash(),
    {
        BlobHash(self.0)
    }

    /// The blob's size.
    pub fn size(&self) -> (size: u64)
        ensures
            size == self.1,
    {
        self.1
    }

    /// Lays the record out in its 40 bytes.
    pub fn to_bytes(&self) -> (bytes: [u8; 40])
        ensures
            bytes@ == self.bytes(),
    {
        let size = u64_to_be_bytes(self.1);
        let mut bytes = [0u8;40];
        let mut i: usize = 0;
        while i < 32
            invariant
                i <= 32,
                forall|k: int| 0 <= k < i ==> bytes@[k] == self.0@[k],
            decreases 32 - i,
        {
            bytes[i] = self.0[i];
            i += 1;
        }
        let mut j: usize = 0;
        while j < 8
            invariant
                j <= 8,
                forall|k: int| 0 <= k < 32 ==> bytes@[k] == self.0@[k],
                forall|k: int| 0 <= k < j ==> bytes@[32 + k] == size@[k],
            decreases 8 - j,
        {
            bytes[32 + j] = size[j];
            j += 1;
        }
        assert(bytes@ =~= self.bytes());
        bytes
    }

    /// Reads a record from exactly 40 bytes; any other length gives `None`.
    pub fn read_from(bytes: &[u8]) -> (record: Option<PersistentBlobRecord>)
        ensures
            bytes@.len() == 40 ==> (record matches Some(r) && r.0@ == record_hash(bytes@) && r.1
                == record_size(bytes@)),
            bytes@.len() != 40 ==> record is None,
    {
        if bytes.len() != 40 {
            return None;
        }
        let mut hash = [0u8;32];
        let mut i: usize = 0;
        while i < 32
            invariant
                i <= 32,
                bytes@.len() == 40,
                forall|k: int| 0 <= k < i ==> hash@[k] == bytes@[k],
            decreases 32 - i,
        {
            hash[i] = bytes[i];
            i += 1;
        }
        assert(hash@ =~= record_hash(bytes@));
        let mut tail = [0u8;8];
        let mut j: usize = 0;
        while j < 8
            invariant
                j <= 8,
                bytes@.len() == 40,
                forall|k: int| 0 <= k < j ==> tail@[k] == bytes@[32 + k],
            decreases 8 - j,
        {
            tail[j] = bytes[32 + j];
            j += 1;
        }
        assert(tail@ =~= bytes@.subrange(32, 40));
        let size = u64_from_be_bytes(&tail);
        Some(PersistentBlobRecord(hash, size))
    }
}

} // verus!
