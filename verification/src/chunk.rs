//! Slicing an input into chunks of a fixed size, each stored as a blob of
//! its own.

use crate::blob::Blob;
use crate::error::BlobStoreError;
use crate::hasher::{blake3_digest, joined};
use crate::store::{holds, ready, BlobStore, Slot};
use vstd::prelude::*;
use vstd::slice::{slice_subrange, slice_to_vec};

verus! {

/// The chunks of `data`: pieces of `size` bytes from the front, and a last,
/// shorter piece for what is left over. Empty data has no chunk.
pub open spec fn chunks(data: Seq<u8>, size: nat) -> Seq<Seq<u8>>
    decreases data.len(),
{
    if size == 0 || data.len() == 0 {
        Seq::empty()
    } else if data.len() <= size {
        seq![data]
    } else {
        seq![data.take(size as int)] + chunks(data.skip(size as int), size)
    }
}

/// The chunks, laid end to end, are the data; none is empty or longer than
/// `size`, and all but the last have exactly `size` bytes.
pub proof fn lemma_chunks_cover(data: Seq<u8>, size: nat)
    requires
        size > 0,
    ensures
        joined(chunks(data, size)) == data,
        forall|i: int|
            0 <= i < chunks(data, size).len() ==> 0 < (#[trigger] chunks(data, size)[i]).len()
                <= size,
        forall|i: int|
            0 <= i < chunks(data, size).len() - 1 ==> (#[trigger] chunks(data, size)[i]).len()
                == size,
    decreases data.len(),
{
    let all = chunks(data, size);
    if data.len() == 0 {
        assert(joined(all) =~= data);
    } else if data.len() <= size {
        assert(all.drop_last() =~= Seq::<Seq<u8>>::empty());
        assert(joined(all.drop_last()) =~= Seq::<u8>::empty());
        assert(all.last() == data);
        assert(joined(all) =~= data);
    } else {
        let rest = chunks(data.skip(size as int), size);
        lemma_chunks_cover(data.skip(size as int), size);
        lemma_joined_prepend(data.take(size as int), rest);
        assert(data.take(size as int) + data.skip(size as int) =~= data);
        assert forall|i: int| 0 <= i < all.len() implies 0 < (#[trigger] all[i]).len() <= size by {
            if i > 0 {
                assert(all[i] == rest[i - 1]);
            }
        }
        assert forall|i: int| 0 <= i < all.len() - 1 implies (#[trigger] all[i]).len() == size by {
            if i > 0 {
                assert(all[i] == rest[i - 1]);
            }
        }
    }
}

/// Laying parts end to end, the first part comes first.
pub proof fn lemma_joined_prepend(first: Seq<u8>, rest: Seq<Seq<u8>>)
    ensures
        joined(seq![first] + rest) == first + joined(rest),
    decreases rest.len(),
{
    let all = seq![first] + rest;
    if rest.len() == 0 {
        assert(all.drop_last() =~= Seq::<Seq<u8>>::empty());
        assert(joined(all.drop_last()) =~= Seq::<u8>::empty());
        assert(all.last() == first);
        assert(joined(all) =~= first + joined(rest));
    } else {
        assert(all.drop_last() =~= seq![first] + rest.drop_last());
        assert(all.last() == rest.last());
        lemma_joined_prepend(first, rest.drop_last());
        assert(joined(all) =~= first + joined(rest));
    }
}

/// The slots of a store after the first `upto` of `contents` were put.
pub open spec fn put_each(contents: Seq<Seq<u8>>, upto: nat, target: Seq<Slot>) -> Seq<Slot>
    decreases upto,
{
    if upto == 0 {
        target
    } else {
        let before = put_each(contents, (upto - 1) as nat, target);
        let digest = blake3_digest(contents[upto - 1]);
        if holds(before, digest) {
            before
        } else {
            before.push(Slot { digest, content: Some(contents[upto - 1]) })
        }
    }
}

/// Cuts `data` into chunks of `chunk_size` bytes. A chunk size of 0 is
/// refused as invalid input.
pub fn slice_chunks(data: &[u8], chunk_size: usize) -> (r: Result<Vec<Vec<u8>>, BlobStoreError>)
    ensures
        chunk_size == 0 ==> r matches Err(BlobStoreError::InvalidInput(_)),
        chunk_size > 0 ==> (r matches Ok(pieces) && pieces.deep_view() == chunks(
            data@,
            chunk_size as nat,
        )),
{
    if chunk_size == 0 {
        return Err(BlobStoreError::InvalidInput("chunk size must not be zero".to_owned()));
    }
    let mut pieces: Vec<Vec<u8>> = Vec::new();
    let mut offset: usize = 0;
    assert(data@.skip(0) =~= data@);
    assert(pieces.deep_view() + chunks(data@, chunk_size as nat) =~= chunks(
        data@,
        chunk_size as nat,
    ));
    while offset < data.len()
        invariant
            chunk_size > 0,
            offset <= data@.len(),
            pieces.deep_view() + chunks(data@.skip(offset as int), chunk_size as nat) == chunks(
                data@,
                chunk_size as nat,
            ),
        decreases data@.len() - offset,
    {
        let left = data.len() - offset;
        let end = if left <= chunk_size {
            data.len()
        } else {
            offset + chunk_size
        };
        let piece = slice_to_vec(slice_subrange(data, offset, end));
        let ghost before = pieces.deep_view();
        let ghost old_pieces = pieces@;
        let ghost rest = data@.skip(offset as int);
        pieces.push(piece);
        proof {
            assert(piece.deep_view() =~= piece@);
            assert(pieces.deep_view().len() == before.len() + 1);
            assert forall|k: int| 0 <= k < before.len() implies pieces.deep_view()[k]
                == before[k] by {
                assert(pieces@[k] == old_pieces[k]);
            }
            assert(pieces.deep_view() =~= before.push(piece@));
            if left <= chunk_size {
                assert(piece@ =~= rest);
                assert(data@.skip(end as int).len() == 0);
                assert(chunks(rest, chunk_size as nat) =~= seq![rest]);
                assert(chunks(data@.skip(end as int), chunk_size as nat) =~= Seq::<
                    Seq<u8>,
                >::empty());
            } else {
                assert(piece@ =~= rest.take(chunk_size as int));
                assert(rest.skip(chunk_size as int) =~= data@.skip(end as int));
            }
            assert(pieces.deep_view() + chunks(data@.skip(end as int), chunk_size as nat)
                =~= before + chunks(rest, chunk_size as nat));
        }
        offset = end;
    }
    assert(pieces.deep_view() + Seq::<Seq<u8>>::empty() =~= pieces.deep_view());
    Ok(pieces)
}

/// Puts each of `contents` in order and returns the handles. Stops at the
/// first failure of the store.
pub fn put_all<S: BlobStore>(store: &mut S, contents: &Vec<Vec<u8>>) -> (r: Result<
    Vec<Blob>,
    BlobStoreError,
>)
    requires
        ready(old(store)),
    ensures
        ready(final(store)),
        final(store).is_writable() == old(store).is_writable(),
        final(store).reliable() == old(store).reliable(),
        !old(store).is_writable() ==> final(store).slots() == old(store).slots(),
        !old(store).is_writable() && contents@.len() > 0 ==> r matches Err(
            BlobStoreError::NotWritable,
        ),
        old(store).reliable() && old(store).is_writable() && old(store).slots().len()
            + contents@.len() < usize::MAX ==> r is Ok,
        match r {
            Ok(blobs) => {
                &&& final(store).slots() == put_each(
                    contents.deep_view(),
                    contents@.len(),
                    old(store).slots(),
                )
                &&& blobs@.len() == contents@.len()
                &&& forall|i: int|
                    0 <= i < blobs@.len() ==> (#[trigger] blobs@[i]).hash@ == blake3_digest(
                        contents@[i]@,
                    )
            },
            Err(_) => exists|upto: nat|
                upto <= contents@.len() && final(store).slots() == #[trigger] put_each(
                    contents.deep_view(),
                    upto,
                    old(store).slots(),
                ),
        },
{
    let ghost all = contents.deep_view();
    let ghost target = store.slots();
    let mut blobs: Vec<Blob> = Vec::new();
    let mut i: usize = 0;
    while i < contents.len()
        invariant
            i <= contents@.len(),
            all == contents.deep_view(),
            target == old(store).slots(),
            ready(store),
            store.is_writable() == old(store).is_writable(),
            store.reliable() == old(store).reliable(),
            store.slots().len() <= target.len() + i,
            !store.is_writable() ==> i == 0,
            store.slots() == put_each(all, i as nat, target),
            blobs@.len() == i,
            forall|k: int|
                0 <= k < i ==> (#[trigger] blobs@[k]).hash@ == blake3_digest(contents@[k]@),
        decreases contents@.len() - i,
    {
        assert(all[i as int] == contents@[i as int]@);
        match store.put(contents[i].as_slice()) {
            Err(error) => {
                return Err(error);
            },
            Ok((_, blob)) => {
                assert(store.slots() == put_each(all, (i + 1) as nat, target));
                blobs.push(blob);
            },
        }
        i += 1;
    }
    Ok(blobs)
}

/// Cuts `data` into chunks of `chunk_size` bytes and puts each chunk as a
/// blob of its own, in order.
pub fn put_chunked<S: BlobStore>(store: &mut S, data: &[u8], chunk_size: usize) -> (r: Result<
    Vec<Blob>,
    BlobStoreError,
>)
    requires
        ready(old(store)),
    ensures
        ready(final(store)),
        final(store).is_writable() == old(store).is_writable(),
        final(store).reliable() == old(store).reliable(),
        !old(store).is_writable() ==> final(store).slots() == old(store).slots(),
        chunk_size > 0 && old(store).reliable() && old(store).is_writable() && old(store).slots().len()
            + chunks(data@, chunk_size as nat).len() < usize::MAX ==> r is Ok,
        chunk_size == 0 ==> (r matches Err(BlobStoreError::InvalidInput(_)))
            && final(store).slots() == old(store).slots(),
        chunk_size > 0 ==> match r {
            Ok(blobs) => {
                &&& final(store).slots() == put_each(
                    chunks(data@, chunk_size as nat),
                    chunks(data@, chunk_size as nat).len(),
                    old(store).slots(),
                )
                &&& blobs@.len() == chunks(data@, chunk_size as nat).len()
                &&& forall|i: int|
                    0 <= i < blobs@.len() ==> (#[trigger] blobs@[i]).hash@ == blake3_digest(
                        chunks(data@, chunk_size as nat)[i],
                    )
            },
            Err(_) => exists|upto: nat|
                upto <= chunks(data@, chunk_size as nat).len() && final(store).slots()
                    == #[trigger] put_each(
                    chunks(data@, chunk_size as nat),
                    upto,
                    old(store).slots(),
                ),
        },
{
    let pieces = match slice_chunks(data, chunk_size) {
        Ok(pieces) => pieces,
        Err(error) => {
            return Err(error);
        },
    };
    let r = put_all(store, &pieces);
    proof {
        if r is Ok {
            let blobs = r->Ok_0;
            assert forall|i: int| 0 <= i < blobs@.len() implies (#[trigger] blobs@[i]).hash@
                == blake3_digest(chunks(data@, chunk_size as nat)[i]) by {
                assert(pieces.deep_view()[i] == pieces@[i]@);
            }
        }
    }
    r
}

} // verus!
