//! BLAKE3 digests of byte sequences, at once or piece by piece.

use crate::blob::{lemma_hash_view_injective, BlobHash};
use vstd::prelude::*;

verus! {

#[verifier::external_type_specification]
#[verifier::external_body]
pub struct ExBlake3Hasher(blake3::Hasher);

/// The 32 bytes that `blake3::hash` returns for `data`.
pub uninterp spec fn blake3_digest(data: Seq<u8>) -> Seq<u8>;

/// All bytes written to a `blake3::Hasher` since it was made, in order.
pub uninterp spec fn hasher_input(hasher: blake3::Hasher) -> Seq<u8>;

/// Calls `blake3::hash`. Trusted: its 32 bytes are what `blake3_digest` names.
#[verifier::external_body]
fn blake3_hash(input: &[u8]) -> (digest: [u8; 32])
    ensures
        digest@ == blake3_digest(input@),
{
    blake3::hash(input).into()
}

/// Calls `blake3::Hasher::new`. Trusted: a new hasher has been written nothing.
#[verifier::external_body]
fn hasher_new() -> (hasher: blake3::Hasher)
    ensures
        hasher_input(hasher) == Seq::<u8>::empty(),
{
    blake3::Hasher::new()
}

/// Calls `blake3::Hasher::update`. Trusted: the bytes are added behind those
/// written before.
#[verifier::external_body]
fn hasher_update(hasher: &mut blake3::Hasher, input: &[u8])
    ensures
        hasher_input(*final(hasher)) == hasher_input(*old(hasher)) + input@,
{
    hasher.update(input);
}

/// Calls `blake3::Hasher::finalize` on a hasher that was made by
/// `hasher_new` and written by `hasher_update` alone. Trusted: the result is
/// the digest that `blake3::hash` gives for everything written, as the crate
/// documents.
#[verifier::external_body]
fn hasher_finalize(hasher: &blake3::Hasher) -> (digest: [u8; 32])
    ensures
        digest@ == blake3_digest(hasher_input(*hasher)),
{
    hasher.finalize().into()
}

/// The digest of `input`.
pub fn hash(input: &[u8]) -> (digest: BlobHash)
    ensures
        digest@ == blake3_digest(input@),
{
    BlobHash::from_bytes(blake3_hash(input))
}

/// A digest in the making: bytes are written to it piece by piece.
pub struct BlobHasher(blake3::Hasher);

impl BlobHasher {
    /// Everything written so far.
    pub closed spec fn absorbed(&self) -> Seq<u8> {
        hasher_input(self.0)
    }

    /// A hasher that has been written nothing.
    pub fn new() -> (hasher: BlobHasher)
        ensures
            hasher.absorbed() == Seq::<u8>::empty(),
    {
        BlobHasher(hasher_new())
    }

    /// Writes all of `buf` and returns its length.
    pub fn write(&mut self, buf: &[u8]) -> (written: usize)
        ensures
            written == buf@.len(),
            final(self).absorbed() == old(self).absorbed() + buf@,
    {
        hasher_update(&mut self.0, buf);
        buf.len()
    }

    /// Does nothing: a hasher holds nothing back.
    pub fn flush(&mut self)
        ensures
            *final(self) == *old(self),
    {
    }

    /// The digest of everything written.
    pub fn finalize(self) -> (digest: BlobHash)
        ensures
            digest@ == blake3_digest(self.absorbed()),
    {
        BlobHash::from_bytes(hasher_finalize(&self.0))
    }
}

impl Default for BlobHasher {
    fn default() -> (hasher: BlobHasher)
        ensures
            hasher.absorbed() == Seq::<u8>::empty(),
    {
        BlobHasher::new()
    }
}

/// The digest of `parts` written one after the other.
pub fn hash_parts(parts: &Vec<Vec<u8>>) -> (digest: BlobHash)
    ensures
        digest@ == blake3_digest(joined(parts.deep_view())),
{
    let mut hasher = BlobHasher::new();
    let mut i: usize = 0;
    assert(parts.deep_view().take(0) =~= Seq::<Seq<u8>>::empty());
    while i < parts.len()
        invariant
            i <= parts.len(),
            hasher.absorbed() == joined(parts.deep_view().take(i as int)),
        decreases parts.len() - i,
    {
        let ghost before = parts.deep_view().take(i as int);
        hasher.write(parts[i].as_slice());
        proof {
            let after = parts.deep_view().take(i + 1);
            assert(after.drop_last() =~= before);
            assert(after.last() == parts@[i as int]@);
        }
        i += 1;
    }
    assert(parts.deep_view().take(parts.len() as int) =~= parts.deep_view());
    hasher.finalize()
}

/// The parts laid end to end.
pub open spec fn joined(parts: Seq<Seq<u8>>) -> Seq<u8>
    decreases parts.len(),
{
    if parts.len() == 0 {
        Seq::empty()
    } else {
        joined(parts.drop_last()) + parts.last()
    }
}

/// A digest depends on the bytes alone: a hasher that was written `input`,
/// in whatever pieces, finishes with the digest that `hash` gives for `input`.
pub proof fn lemma_streamed_digest_is_hash(hasher: BlobHasher, input: Seq<u8>, streamed: BlobHash, direct: BlobHash)
    requires
        hasher.absorbed() == input,
        streamed@ == blake3_digest(hasher.absorbed()),
        direct@ == blake3_digest(input),
    ensures
        streamed == direct,
{
    lemma_hash_view_injective(streamed, direct);
}

} // verus!
