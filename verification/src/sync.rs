//! Copying the blobs of one store into another.

use crate::blob::{lemma_hash_view_injective, BlobHash};
use crate::error::BlobStoreError;
use crate::hasher::blake3_digest;
use crate::iter::{all_removed, IndexedBlobStoreIterator};
use crate::store::{held, holds, ready, sound, BlobStore, IndexedBlobStore, Slot};
use vstd::prelude::*;

verus! {

/// The slots of a target after the first `upto` slots of `source` were
/// copied into it: each held blob that the target did not hold yet has
/// been given a new slot at the target's end, in the source's order.
pub open spec fn copied(source: Seq<Slot>, upto: nat, target: Seq<Slot>) -> Seq<Slot>
    decreases upto,
{
    if upto == 0 {
        target
    } else {
        let before = copied(source, (upto - 1) as nat, target);
        let slot = source[upto - 1];
        if slot.content is Some && !holds(before, slot.digest) {
            before.push(slot)
        } else {
            before
        }
    }
}

/// The digests of the slots from `from` on.
pub open spec fn digests_from(slots: Seq<Slot>, from: int) -> Seq<Seq<u8>> {
    Seq::new((slots.len() - from) as nat, |i: int| slots[from + i].digest)
}

/// Copying passes over slots that have lost their content.
pub proof fn lemma_copied_skips_removed(source: Seq<Slot>, from: nat, to: nat, target: Seq<Slot>)
    requires
        from <= to <= source.len(),
        all_removed(source, from as int, to as int),
    ensures
        copied(source, to, target) == copied(source, from, target),
    decreases to,
{
    if to > from {
        assert(source[to - 1].content is None);
        lemma_copied_skips_removed(source, from, (to - 1) as nat, target);
    }
}

/// Copying only adds slots: what the target had stays in place.
pub proof fn lemma_copied_extends(source: Seq<Slot>, upto: nat, target: Seq<Slot>)
    requires
        upto <= source.len(),
    ensures
        copied(source, upto, target).len() >= target.len(),
        copied(source, upto, target).subrange(0, target.len() as int) == target,
    decreases upto,
{
    if upto == 0 {
        assert(target.subrange(0, target.len() as int) =~= target);
    } else {
        lemma_copied_extends(source, (upto - 1) as nat, target);
        let before = copied(source, (upto - 1) as nat, target);
        assert(copied(source, upto, target).subrange(0, target.len() as int) =~= before.subrange(
            0,
            target.len() as int,
        ));
    }
}

/// After the first `upto` slots were copied, the target holds what it held
/// before and what those slots hold, and nothing else.
pub proof fn lemma_copied_holds(source: Seq<Slot>, upto: nat, target: Seq<Slot>, digest: Seq<u8>)
    requires
        upto <= source.len(),
    ensures
        holds(copied(source, upto, target), digest) <==> holds(target, digest) || holds(
            source.take(upto as int),
            digest,
        ),
    decreases upto,
{
    let part = source.take(upto as int);
    if upto == 0 {
        assert(!holds(part, digest));
    } else {
        let shorter = source.take(upto - 1);
        let before = copied(source, (upto - 1) as nat, target);
        let after = copied(source, upto, target);
        let slot = source[upto - 1];
        lemma_copied_holds(source, (upto - 1) as nat, target, digest);
        lemma_copied_holds(source, (upto - 1) as nat, target, slot.digest);
        // what the shorter part holds, the longer part holds
        if holds(shorter, digest) {
            let i = choose|i: int|
                0 <= i < shorter.len() && (#[trigger] shorter[i]).digest == digest
                    && shorter[i].content is Some;
            assert(part[i] == shorter[i]);
        }
        // what the longer part holds is in the shorter part or is the last slot
        if holds(part, digest) {
            let i = choose|i: int|
                0 <= i < part.len() && (#[trigger] part[i]).digest == digest && part[i].content is Some;
            if i < upto - 1 {
                assert(shorter[i] == part[i]);
            } else {
                assert(part[i] == slot);
            }
        }
        if slot.content is Some {
            assert(part[upto - 1] == slot);
            assert(holds(part, slot.digest));
        }
        if slot.content is Some && !holds(before, slot.digest) {
            assert(after == before.push(slot));
            if holds(before, digest) {
                let i = choose|i: int|
                    0 <= i < before.len() && (#[trigger] before[i]).digest == digest
                        && before[i].content is Some;
                assert(after[i] == before[i]);
            }
            if holds(after, digest) {
                let i = choose|i: int|
                    0 <= i < after.len() && (#[trigger] after[i]).digest == digest
                        && after[i].content is Some;
                if i < before.len() {
                    assert(before[i] == after[i]);
                }
            }
            assert(after[before.len() as int] == slot);
        }
    }
}

/// A complete copy leaves the target holding exactly what it held and what
/// the source holds.
pub proof fn lemma_copied_held(source: Seq<Slot>, target: Seq<Slot>)
    ensures
        held(copied(source, source.len(), target)) == held(target).union(held(source)),
{
    assert(source.take(source.len() as int) =~= source);
    assert forall|digest: Seq<u8>|
        held(copied(source, source.len(), target)).contains(digest) <==> held(target).union(
            held(source),
        ).contains(digest) by {
        lemma_copied_holds(source, source.len(), target, digest);
    }
    assert(held(copied(source, source.len(), target)) =~= held(target).union(held(source)));
}

/// Copies every blob that `source_store` holds and `target_store` does not,
/// in the order of the source's ids, and returns the digests of the blobs
/// that were created. Stops at the first failure of either store; the target
/// then has the copies made up to there.
pub fn copy_blobs<S: IndexedBlobStore, T: BlobStore>(source_store: &S, target_store: &mut T) -> (r:
    Result<Vec<BlobHash>, BlobStoreError>)
    requires
        ready(source_store),
        ready(old(target_store)),
    ensures
        ready(final(target_store)),
        final(target_store).is_writable() == old(target_store).is_writable(),
        final(target_store).reliable() == old(target_store).reliable(),
        final(target_store).slots().len() <= old(target_store).slots().len()
            + source_store.slots().len(),
        !old(target_store).is_writable() ==> final(target_store).slots() == old(
            target_store,
        ).slots(),
        source_store.reliable() && old(target_store).reliable() && !old(target_store).is_writable()
            && r is Err ==> r matches Err(BlobStoreError::NotWritable),
        source_store.reliable() && old(target_store).reliable() && old(target_store).is_writable()
            && old(target_store).slots().len() + source_store.slots().len() < usize::MAX ==> r is Ok,
        match r {
            Ok(created) => {
                &&& final(target_store).slots() == copied(
                    source_store.slots(),
                    source_store.slots().len(),
                    old(target_store).slots(),
                )
                &&& created.deep_view() == digests_from(
                    final(target_store).slots(),
                    old(target_store).slots().len() as int,
                )
            },
            Err(_) => exists|upto: nat|
                upto <= source_store.slots().len() && final(target_store).slots() == #[trigger] copied(
                    source_store.slots(),
                    upto,
                    old(target_store).slots(),
                ),
        },
{
    let ghost source = source_store.slots();
    let ghost target = target_store.slots();
    let mut created: Vec<BlobHash> = Vec::new();
    let mut walk = match IndexedBlobStoreIterator::new(source_store) {
        Ok(walk) => walk,
        Err(error) => {
            assert(target_store.slots() == copied(source, 0, target));
            return Err(error);
        },
    };
    assert(created.deep_view() =~= digests_from(target, target.len() as int));
    loop
        invariant
            walk.wf(),
            walk.store() == source_store,
            source == source_store.slots(),
            target == old(target_store).slots(),
            sound(source),
            walk.position() <= source.len(),
            ready(target_store),
            target_store.is_writable() == old(target_store).is_writable(),
            target_store.reliable() == old(target_store).reliable(),
            target_store.slots().len() <= target.len() + walk.position(),
            !target_store.is_writable() ==> target_store.slots() == target,
            target_store.slots() == copied(source, walk.position() as nat, target),
            target_store.slots().len() >= target.len(),
            created.deep_view() == digests_from(target_store.slots(), target.len() as int),
        decreases source.len() - walk.position(),
    {
        let ghost reached = walk.position() as nat;
        let ghost so_far = target_store.slots();
        let step = walk.next();
        match step {
            None => {
                proof {
                    lemma_copied_skips_removed(source, reached, source.len(), target);
                }
                return Ok(created);
            },
            Some(Err(error)) => {
                return Err(error);
            },
            Some(Ok(blob)) => {
                let ghost id = walk.position() as nat;
                proof {
                    lemma_copied_skips_removed(source, reached, (id - 1) as nat, target);
                    assert(copied(source, (id - 1) as nat, target) == so_far);
                }
                match target_store.contains_hash(blob.hash) {
                    Err(error) => {
                        return Err(error);
                    },
                    Ok(true) => {
                        assert(copied(source, id, target) == so_far);
                    },
                    Ok(false) => {
                        let data = match blob.data {
                            Some(data) => data,
                            None => {
                                // a handle from a walk carries its content
                                assert(false);
                                return Err(BlobStoreError::Unexpected);
                            },
                        };
                        match target_store.put(data.as_slice()) {
                            Err(error) => {
                                return Err(error);
                            },
                            Ok((was_created, copy)) => {
                                proof {
                                    assert(source[id - 1].content == Some(data@));
                                    assert(source[id - 1].digest == blake3_digest(data@));
                                    assert(source[id - 1] == Slot {
                                        digest: blake3_digest(data@),
                                        content: Some(data@),
                                    });
                                    assert(target_store.slots() == copied(source, id, target));
                                    lemma_hash_view_injective(copy.hash, blob.hash);
                                }
                                if copy.hash != blob.hash {
                                    return Err(BlobStoreError::DataError);
                                }
                                let ghost listed = created.deep_view();
                                let ghost listed_hashes = created@;
                                if was_created {
                                    created.push(blob.hash);
                                }
                                proof {
                                    let now = target_store.slots();
                                    let wanted = digests_from(now, target.len() as int);
                                    assert(was_created);
                                    assert(now == so_far.push(source[id - 1]));
                                    assert(listed.len() == listed_hashes.len());
                                    assert forall|i: int|
                                        0 <= i < wanted.len() implies created.deep_view()[i]
                                        == wanted[i] by {
                                        if i < listed.len() {
                                            assert(created@[i] == listed_hashes[i]);
                                            assert(listed[i] == so_far[target.len() + i].digest);
                                            assert(now[target.len() + i] == so_far[target.len()
                                                + i]);
                                        } else {
                                            assert(created@[i] == blob.hash);
                                            assert(now[target.len() + i] == source[id - 1]);
                                        }
                                    }
                                    assert(created.deep_view() =~= wanted);
                                }
                            },
                        }
                    },
                }
            },
        }
    }
}

/// Brings two stores to hold the same blobs: first what `remote` holds is
/// copied into `local`, then what `local` holds into `remote`. On success
/// both hold exactly what either held before.
pub fn sync_blobs<R: IndexedBlobStore, L: IndexedBlobStore>(remote: &mut R, local: &mut L) -> (r:
    Result<(Vec<BlobHash>, Vec<BlobHash>), BlobStoreError>)
    requires
        ready(old(remote)),
        ready(old(local)),
    ensures
        ready(final(remote)),
        ready(final(local)),
        final(remote).is_writable() == old(remote).is_writable(),
        final(local).is_writable() == old(local).is_writable(),
        final(remote).reliable() == old(remote).reliable(),
        final(local).reliable() == old(local).reliable(),
        old(remote).reliable() && old(local).reliable() && old(remote).is_writable() && old(
            local,
        ).is_writable() && 2 * old(remote).slots().len() + old(local).slots().len() < usize::MAX
            ==> r is Ok,
        r is Ok ==> {
            &&& held(final(remote).slots()) == held(old(remote).slots()).union(
                held(old(local).slots()),
            )
            &&& held(final(local).slots()) == held(final(remote).slots())
        },
{
    let ghost remote_before = remote.slots();
    let ghost local_before = local.slots();
    let pulled = match copy_blobs(&*remote, local) {
        Ok(pulled) => pulled,
        Err(error) => {
            return Err(error);
        },
    };
    let pushed = match copy_blobs(&*local, remote) {
        Ok(pushed) => pushed,
        Err(error) => {
            return Err(error);
        },
    };
    proof {
        lemma_copied_held(remote_before, local_before);
        lemma_copied_held(local.slots(), remote_before);
        assert(held(remote.slots()) =~= held(remote_before).union(held(local_before)));
        assert(held(local.slots()) =~= held(remote.slots()));
    }
    Ok((pulled, pushed))
}

} // verus!
