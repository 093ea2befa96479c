//! Moving blobs in bulk as a USTAR archive: one regular file for each blob,
//! named by the digest's hex text.

use crate::blob::{is_digest_hex, lemma_hash_view_injective, BlobHash};
use crate::error::{BlobStoreError, IoError, IoErrorKind};
use crate::filter::copy_bytes;
use crate::hasher::blake3_digest;
use crate::hex::{
    hex_chars, hex_decode, hex_encode, lemma_hex_decode_encode, lemma_hex_encode_is_canonical,
};
use crate::iter::{all_removed, IndexedBlobStoreIterator};
use crate::store::{held, holds, ready, sound, BlobStore, IndexedBlobStore, Slot};
use std::io::Read;
use vstd::prelude::*;

verus! {

/// The mode that every exported entry has: readable by all, writable by none.
pub const ENTRY_MODE: u32 = 0o444;

/// The owner and the group that every exported entry has.
pub const ENTRY_OWNER: &'static str = "root";

/// The 512 bytes of the USTAR header that the `tar` crate makes for a regular
/// file with these fields, checksum included; `None` where it refuses one of
/// them.
pub uninterp spec fn ustar_header_of(
    path: Seq<char>,
    size: u64,
    mtime: u64,
    mode: u32,
    user: Seq<char>,
    group: Seq<char>,
) -> Option<Seq<u8>>;

/// What the `tar` crate reads out of an archive: the path and content of each
/// entry, in order, up to the first one that it cannot read, and whether it
/// reached the archive's end.
pub uninterp spec fn tar_entries_of(archive: Seq<u8>) -> (Seq<(Seq<u8>, Seq<u8>)>, bool);

/// Makes a header with `tar::Header::new_ustar`, sets its entry type to
/// regular and its other fields from the arguments, and seals it with
/// `set_cksum`. Trusted: the header's bytes, or their absence where a setter
/// fails, are what `ustar_header_of` names.
#[verifier::external_body]
fn ustar_header(path: &str, size: u64, mtime: u64, mode: u32, user: &str, group: &str) -> (header:
    Option<Vec<u8>>)
    ensures
        match header {
            Some(bytes) => ustar_header_of(path@, size, mtime, mode, user@, group@) == Some(bytes@),
            None => ustar_header_of(path@, size, mtime, mode, user@, group@) is None,
        },
{
    let mut head = tar::Header::new_ustar();
    head.set_entry_type(tar::EntryType::Regular);
    head.set_path(path).ok()?;
    head.set_size(size);
    head.set_mtime(mtime);
    head.set_mode(mode);
    head.set_username(user).ok()?;
    head.set_groupname(group).ok()?;
    head.set_cksum();
    Some(head.as_bytes().to_vec())
}

/// Walks `tar::Archive::entries` over the bytes and reads each entry's path
/// and content. Trusted: what was read, and whether the walk reached the end
/// without a failure, is what `tar_entries_of` names.
#[verifier::external_body]
fn tar_entries(archive: &[u8]) -> (r: (Vec<(Vec<u8>, Vec<u8>)>, bool))
    ensures
        (r.0.deep_view(), r.1) == tar_entries_of(archive@),
{
    let mut found = Vec::new();
    let mut reader = tar::Archive::new(archive);
    let Ok(entries) = reader.entries() else { return (found, false) };
    for entry in entries {
        let Ok(mut entry) = entry else { return (found, false) };
        let mut data = Vec::new();
        if entry.read_to_end(&mut data).is_err() {
            return (found, false);
        }
        found.push((entry.path_bytes().into_owned(), data));
    }
    (found, true)
}

/// The zero bytes that fill content of `len` bytes up to a whole block of 512.
pub open spec fn padding(len: nat) -> Seq<u8> {
    Seq::new(((512 - len % 512) % 512) as nat, |i: int| 0u8)
}

/// The header of the entry for a blob.
pub open spec fn blob_header(digest: Seq<u8>, size: u64, mtime: u64) -> Option<Seq<u8>> {
    ustar_header_of(hex_chars(digest), size, mtime, ENTRY_MODE, ENTRY_OWNER@, ENTRY_OWNER@)
}

/// The entries for the blobs held in the first `upto` slots, one after the
/// other: header, content, padding. `None` where some header cannot be made.
pub open spec fn exported(slots: Seq<Slot>, upto: nat, mtime: u64) -> Option<Seq<u8>>
    decreases upto,
{
    if upto == 0 {
        Some(Seq::empty())
    } else {
        match exported(slots, (upto - 1) as nat, mtime) {
            None => None,
            Some(before) => match slots[upto - 1].content {
                None => Some(before),
                Some(content) => match blob_header(
                    slots[upto - 1].digest,
                    content.len() as u64,
                    mtime,
                ) {
                    None => None,
                    Some(header) => Some(before + header + content + padding(content.len())),
                },
            },
        }
    }
}

/// The archive of all held blobs: their entries and the two zero blocks that
/// end an archive.
pub open spec fn archive_image(slots: Seq<Slot>, mtime: u64) -> Option<Seq<u8>> {
    match exported(slots, slots.len(), mtime) {
        None => None,
        Some(entries) => Some(entries + Seq::new(1024, |i: int| 0u8)),
    }
}

/// Exporting passes over slots that have lost their content.
pub proof fn lemma_exported_skips_removed(slots: Seq<Slot>, from: nat, to: nat, mtime: u64)
    requires
        from <= to <= slots.len(),
        all_removed(slots, from as int, to as int),
    ensures
        exported(slots, to, mtime) == exported(slots, from, mtime),
    decreases to,
{
    if to > from {
        assert(slots[to - 1].content is None);
        lemma_exported_skips_removed(slots, from, (to - 1) as nat, mtime);
    }
}

/// Adds `count` zero bytes to `output`.
fn push_zeros(output: &mut Vec<u8>, count: usize)
    ensures
        final(output)@ == old(output)@ + Seq::new(count as nat, |i: int| 0u8),
{
    let mut i: usize = 0;
    assert(output@ =~= old(output)@ + Seq::new(0, |i: int| 0u8));
    while i < count
        invariant
            i <= count,
            output@ == old(output)@ + Seq::new(i as nat, |k: int| 0u8),
        decreases count - i,
    {
        output.push(0u8);
        i += 1;
        assert(output@ =~= old(output)@ + Seq::new(i as nat, |k: int| 0u8));
    }
}

/// Writes every blob that `store` holds into a new archive, in the order of
/// the ids, each with the modification time `blob_mtime`. A failure of the
/// store is handed on; a blob for which no header can be made ends the export
/// as invalid input.
pub fn export_blobs<S: IndexedBlobStore>(store: &S, blob_mtime: u64) -> (r: Result<
    Vec<u8>,
    BlobStoreError,
>)
    requires
        ready(store),
    ensures
        r matches Ok(archive) ==> archive_image(store.slots(), blob_mtime) == Some(archive@),
        store.reliable() ==> match archive_image(store.slots(), blob_mtime) {
            Some(_) => r is Ok,
            None => r matches Err(BlobStoreError::IO(failure)) && failure.kind
                == IoErrorKind::InvalidInput,
        },
{
    let ghost slots = store.slots();
    let mut archive: Vec<u8> = Vec::new();
    let mut walk = match IndexedBlobStoreIterator::new(store) {
        Ok(walk) => walk,
        Err(error) => {
            return Err(error);
        },
    };
    assert(archive@ =~= Seq::<u8>::empty());
    loop
        invariant
            walk.wf(),
            walk.store() == store,
            slots == store.slots(),
            walk.position() <= slots.len(),
            exported(slots, walk.position() as nat, blob_mtime) == Some(archive@),
        decreases slots.len() - walk.position(),
    {
        let ghost reached = walk.position() as nat;
        let ghost so_far = archive@;
        match walk.next() {
            None => {
                proof {
                    lemma_exported_skips_removed(slots, reached, slots.len(), blob_mtime);
                }
                push_zeros(&mut archive, 1024);
                return Ok(archive);
            },
            Some(Err(error)) => {
                return Err(error);
            },
            Some(Ok(blob)) => {
                let ghost id = walk.position() as nat;
                proof {
                    lemma_exported_skips_removed(slots, reached, (id - 1) as nat, blob_mtime);
                }
                let data = match blob.data {
                    Some(data) => data,
                    None => {
                        // a handle from a walk carries its content
                        assert(false);
                        return Err(BlobStoreError::Unexpected);
                    },
                };
                let name = blob.hash.to_hex();
                match ustar_header(
                    name.as_str(),
                    blob.size,
                    blob_mtime,
                    ENTRY_MODE,
                    ENTRY_OWNER,
                    ENTRY_OWNER,
                ) {
                    None => {
                        proof {
                            lemma_exported_stays_none(slots, id, slots.len(), blob_mtime);
                        }
                        return Err(
                            BlobStoreError::IO(
                                IoError::new(
                                    IoErrorKind::InvalidInput,
                                    "blob cannot be described by an archive header",
                                ),
                            ),
                        );
                    },
                    Some(header) => {
                        copy_bytes(header.as_slice(), &mut archive);
                        copy_bytes(data.as_slice(), &mut archive);
                        let fill = (512 - data.len() % 512) % 512;
                        push_zeros(&mut archive, fill);
                        assert(archive@ =~= so_far + header@ + data@ + padding(data@.len()));
                    },
                }
            },
        }
    }
}

/// Once a header cannot be made, no longer export can be.
pub proof fn lemma_exported_stays_none(slots: Seq<Slot>, from: nat, to: nat, mtime: u64)
    requires
        from <= to <= slots.len(),
        exported(slots, from, mtime) is None,
    ensures
        exported(slots, to, mtime) is None,
    decreases to,
{
    if to > from {
        lemma_exported_stays_none(slots, from, (to - 1) as nat, mtime);
    }
}

/// Whether an entry's path names a digest, and its content is something
/// else: the entry's claim is false.
pub open spec fn offends(entry: (Seq<u8>, Seq<u8>)) -> bool {
    is_digest_hex(entry.0) && hex_decode(entry.0) != blake3_digest(entry.1)
}

/// The slots of a store after the first `upto` entries were imported: the
/// content of each entry whose path is a digest's hex text has been put.
pub open spec fn imported(entries: Seq<(Seq<u8>, Seq<u8>)>, upto: nat, target: Seq<Slot>) -> Seq<
    Slot,
>
    decreases upto,
{
    if upto == 0 {
        target
    } else {
        let before = imported(entries, (upto - 1) as nat, target);
        let entry = entries[upto - 1];
        let digest = blake3_digest(entry.1);
        if is_digest_hex(entry.0) && !holds(before, digest) {
            before.push(Slot { digest, content: Some(entry.1) })
        } else {
            before
        }
    }
}

/// The store will not fail on its own account while `count` entries are put
/// into it: it is reliable and writable and has room for them.
pub open spec fn can_import<S: BlobStore>(store: &S, count: nat) -> bool {
    store.reliable() && store.is_writable() && store.slots().len() + count < usize::MAX
}

/// No entry before `upto` offends.
pub open spec fn none_offends(entries: Seq<(Seq<u8>, Seq<u8>)>, upto: int) -> bool {
    forall|k: int| 0 <= k < upto && k < entries.len() ==> !offends(#[trigger] entries[k])
}

/// Puts the content of each entry whose path is the hex text of a digest,
/// in order, and passes over the others. An entry whose content does not
/// hash to the digest in its path ends the import with `DataError`; its
/// content has been put by then, under the digest that it does have. A
/// failure of the store ends the import too. Returns the number of entries
/// that were put.
pub fn import_entries<S: BlobStore>(store: &mut S, entries: &Vec<(Vec<u8>, Vec<u8>)>) -> (r: Result<
    usize,
    BlobStoreError,
>)
    requires
        ready(old(store)),
    ensures
        ready(final(store)),
        final(store).is_writable() == old(store).is_writable(),
        final(store).reliable() == old(store).reliable(),
        !old(store).is_writable() ==> final(store).slots() == old(store).slots(),
        match r {
            Ok(_) => {
                &&& none_offends(entries.deep_view(), entries@.len() as int)
                &&& final(store).slots() == imported(
                    entries.deep_view(),
                    entries@.len(),
                    old(store).slots(),
                )
            },
            Err(error) => exists|upto: nat|
                {
                    &&& upto <= entries@.len()
                    &&& none_offends(entries.deep_view(), upto - 1)
                    &&& final(store).slots() == #[trigger] imported(
                        entries.deep_view(),
                        upto,
                        old(store).slots(),
                    )
                    &&& upto > 0 && offends(entries.deep_view()[upto - 1]) ==> error is DataError
                    &&& can_import(old(store), entries@.len()) ==> upto > 0 && offends(
                        entries.deep_view()[upto - 1],
                    )
                },
        },
{
    let ghost all = entries.deep_view();
    let ghost target = store.slots();
    let mut put: usize = 0;
    let mut i: usize = 0;
    while i < entries.len()
        invariant
            i <= entries@.len(),
            put <= i,
            all == entries.deep_view(),
            target == old(store).slots(),
            ready(store),
            store.is_writable() == old(store).is_writable(),
            store.reliable() == old(store).reliable(),
            store.slots().len() <= target.len() + i,
            !store.is_writable() ==> store.slots() == target,
            none_offends(all, i as int),
            store.slots() == imported(all, i as nat, target),
        decreases entries@.len() - i,
    {
        let entry = &entries[i];
        assert(all[i as int] == (entry.0@, entry.1@));
        if let Ok(file_hash) = BlobHash::from_hex(entry.0.as_slice()) {
            match store.put(entry.1.as_slice()) {
                Err(error) => {
                    assert(store.slots() == imported(all, i as nat, target));
                    proof {
                        if error is DataError {
                        }
                    }
                    return Err(error);
                },
                Ok((_, blob)) => {
                    assert(store.slots() == imported(all, (i + 1) as nat, target));
                    proof {
                        lemma_hash_view_injective(file_hash, blob.hash);
                    }
                    if file_hash != blob.hash {
                        assert(offends(all[i as int]));
                        return Err(BlobStoreError::DataError);
                    }
                    put += 1;
                },
            }
        } else {
            assert(!is_digest_hex(all[i as int].0));
        }
        i += 1;
    }
    Ok(put)
}

/// What the first `upto` entries hold, an import makes the store hold: a
/// digest is held afterwards if it was held before or if it is the digest of
/// the content of an entry whose path is a digest's hex text.
pub proof fn lemma_imported_holds(
    entries: Seq<(Seq<u8>, Seq<u8>)>,
    upto: nat,
    target: Seq<Slot>,
    digest: Seq<u8>,
)
    requires
        upto <= entries.len(),
    ensures
        holds(imported(entries, upto, target), digest) <==> holds(target, digest) || exists|k: int|
            0 <= k < upto && is_digest_hex((#[trigger] entries[k]).0) && blake3_digest(entries[k].1)
                == digest,
    decreases upto,
{
    if upto > 0 {
        let before = imported(entries, (upto - 1) as nat, target);
        let after = imported(entries, upto, target);
        let entry = entries[upto - 1];
        let own = blake3_digest(entry.1);
        lemma_imported_holds(entries, (upto - 1) as nat, target, digest);
        lemma_imported_holds(entries, (upto - 1) as nat, target, own);
        if is_digest_hex(entry.0) && !holds(before, own) {
            assert(after[before.len() as int].digest == own);
            if holds(before, digest) {
                let i = choose|i: int|
                    0 <= i < before.len() && (#[trigger] before[i]).digest == digest
                        && before[i].content is Some;
                assert(after[i] == before[i]);
            }
            if holds(after, digest) {
                let i = choose|i: int|
                    0 <= i < after.len() && (#[trigger] after[i]).digest == digest
                        && after[i].content is Some;
                if i < before.len() {
                    assert(before[i] == after[i]);
                }
            }
        }
        if is_digest_hex(entry.0) && own == digest {
            assert(is_digest_hex(entries[upto - 1].0) && blake3_digest(entries[upto - 1].1) == digest);
        }
    }
}

/// The entries of an archive of the blobs held in the first `upto` slots, as
/// an import is to read them: the path is the digest's hex text.
pub open spec fn entries_of(slots: Seq<Slot>, upto: nat) -> Seq<(Seq<u8>, Seq<u8>)>
    decreases upto,
{
    if upto == 0 {
        Seq::empty()
    } else {
        let before = entries_of(slots, (upto - 1) as nat);
        match slots[upto - 1].content {
            Some(content) => before.push((hex_encode(slots[upto - 1].digest), content)),
            None => before,
        }
    }
}

/// Every entry stands for a held blob, and every held blob has its entry.
pub proof fn lemma_entries_of_cover(slots: Seq<Slot>, upto: nat)
    requires
        upto <= slots.len(),
    ensures
        forall|i: int|
            0 <= i < entries_of(slots, upto).len() ==> exists|j: int|
                0 <= j < upto && (#[trigger] slots[j]).content == Some(
                    (#[trigger] entries_of(slots, upto)[i]).1,
                ) && entries_of(slots, upto)[i].0 == hex_encode(slots[j].digest),
        forall|j: int|
            0 <= j < upto && (#[trigger] slots[j]).content is Some ==> exists|i: int|
                0 <= i < entries_of(slots, upto).len() && (#[trigger] entries_of(slots, upto)[i])
                    == (hex_encode(slots[j].digest), slots[j].content.unwrap()),
    decreases upto,
{
    if upto > 0 {
        lemma_entries_of_cover(slots, (upto - 1) as nat);
        let before = entries_of(slots, (upto - 1) as nat);
        let now = entries_of(slots, upto);
        let last = slots[upto - 1];
        assert forall|i: int| 0 <= i < now.len() implies exists|j: int|
            0 <= j < upto && (#[trigger] slots[j]).content == Some((#[trigger] now[i]).1) && now[i].0
                == hex_encode(slots[j].digest) by {
            if i < before.len() {
                assert(now[i] == before[i]);
                let j = choose|j: int|
                    0 <= j < upto - 1 && (#[trigger] slots[j]).content == Some(before[i].1)
                        && before[i].0 == hex_encode(slots[j].digest);
                assert(slots[j].content == Some(now[i].1));
            } else {
                assert(slots[upto - 1].content == Some(now[i].1));
            }
        }
        assert forall|j: int| 0 <= j < upto && (#[trigger] slots[j]).content is Some implies exists|
            i: int,
        |
            0 <= i < now.len() && (#[trigger] now[i]) == (
                hex_encode(slots[j].digest),
                slots[j].content.unwrap(),
            ) by {
            if j < upto - 1 {
                let i = choose|i: int|
                    0 <= i < before.len() && (#[trigger] before[i]) == (
                        hex_encode(slots[j].digest),
                        slots[j].content.unwrap(),
                    );
                assert(now[i] == before[i]);
            } else {
                assert(now[now.len() - 1] == (hex_encode(last.digest), last.content.unwrap()));
            }
        }
    }
}

/// An export read into an empty store brings back what was held: no entry
/// belies its name, and the store ends up holding exactly the digests that
/// the exported slots hold.
pub proof fn lemma_import_of_export(slots: Seq<Slot>)
    requires
        sound(slots),
    ensures
        none_offends(entries_of(slots, slots.len()), entries_of(slots, slots.len()).len() as int),
        held(
            imported(
                entries_of(slots, slots.len()),
                entries_of(slots, slots.len()).len(),
                Seq::empty(),
            ),
        ) == held(slots),
{
    let entries = entries_of(slots, slots.len());
    let after = imported(entries, entries.len(), Seq::empty());
    lemma_entries_of_cover(slots, slots.len());
    assert forall|i: int| 0 <= i < entries.len() implies is_digest_hex((#[trigger] entries[i]).0)
        && hex_decode(entries[i].0) == blake3_digest(entries[i].1) by {
        let j = choose|j: int|
            0 <= j < slots.len() && (#[trigger] slots[j]).content == Some(entries[i].1)
                && entries[i].0 == hex_encode(slots[j].digest);
        lemma_hex_encode_is_canonical(slots[j].digest);
        lemma_hex_decode_encode(slots[j].digest);
    }
    assert forall|digest: Seq<u8>| held(after).contains(digest) <==> held(slots).contains(
        digest,
    ) by {
        lemma_imported_holds(entries, entries.len(), Seq::empty(), digest);
        assert(!holds(Seq::<Slot>::empty(), digest));
        if holds(slots, digest) {
            let j = choose|j: int|
                0 <= j < slots.len() && (#[trigger] slots[j]).digest == digest
                    && slots[j].content is Some;
            let i = choose|i: int|
                0 <= i < entries.len() && (#[trigger] entries[i]) == (
                    hex_encode(slots[j].digest),
                    slots[j].content.unwrap(),
                );
            assert(is_digest_hex(entries[i].0) && blake3_digest(entries[i].1) == digest);
        }
        if exists|k: int|
            0 <= k < entries.len() && is_digest_hex((#[trigger] entries[k]).0) && blake3_digest(
                entries[k].1,
            ) == digest {
            let k = choose|k: int|
                0 <= k < entries.len() && is_digest_hex((#[trigger] entries[k]).0) && blake3_digest(
                    entries[k].1,
                ) == digest;
            let j = choose|j: int|
                0 <= j < slots.len() && (#[trigger] slots[j]).content == Some(entries[k].1)
                    && entries[k].0 == hex_encode(slots[j].digest);
            assert(slots[j].digest == digest);
        }
    }
    assert(held(after) =~= held(slots));
}

/// Reads `archive` and imports its entries. Where the archive cannot be read
/// to its end, the entries before the damage are imported and the import
/// then fails as for invalid data.
pub fn import_archive<S: BlobStore>(store: &mut S, archive: &[u8]) -> (r: Result<
    usize,
    BlobStoreError,
>)
    requires
        ready(old(store)),
    ensures
        ready(final(store)),
        final(store).is_writable() == old(store).is_writable(),
        final(store).reliable() == old(store).reliable(),
        !old(store).is_writable() ==> final(store).slots() == old(store).slots(),
        can_import(old(store), tar_entries_of(archive@).0.len()) ==> (r is Ok <==> tar_entries_of(
            archive@,
        ).1 && none_offends(tar_entries_of(archive@).0, tar_entries_of(archive@).0.len() as int)),
        r is Ok ==> {
            &&& tar_entries_of(archive@).1
            &&& none_offends(tar_entries_of(archive@).0, tar_entries_of(archive@).0.len() as int)
            &&& final(store).slots() == imported(
                tar_entries_of(archive@).0,
                tar_entries_of(archive@).0.len(),
                old(store).slots(),
            )
        },
{
    let (entries, complete) = tar_entries(archive);
    match import_entries(store, &entries) {
        Err(error) => Err(error),
        Ok(put) => {
            if complete {
                Ok(put)
            } else {
                Err(
                    BlobStoreError::IO(
                        IoError::new(IoErrorKind::InvalidData, "archive cannot be read to its end"),
                    ),
                )
            }
        },
    }
}

} // verus!
