//! The in-memory map from a digest to the id of the blob that has it.
//!
//! Digests are spread evenly over all values, so the first eight bytes of a
//! digest serve as its hash: the map keeps one short list of entries for each
//! such prefix.

use crate::blob::{BlobHash, BlobID};
use crate::endian::{from_be64, u64_from_be_bytes};
use std::collections::HashMap;
use vstd::prelude::*;

verus! {

broadcast use vstd::std_specs::hash::group_hash_axioms;

/// The entries for the digests that share a prefix. No digest has two
/// entries.
struct Bucket {
    entries: Vec<(BlobHash, BlobID)>,
}

impl Bucket {
    /// No digest occurs twice among the entries.
    pub closed spec fn wf(&self) -> bool {
        forall|i: int, j: int|
            0 <= i < j < self.entries@.len() ==> (#[trigger] self.entries@[i]).0@ != (
            #[trigger] self.entries@[j]).0@
    }

    /// Whether some entry has the digest `digest`.
    pub closed spec fn has(&self, digest: Seq<u8>) -> bool {
        exists|i: int| 0 <= i < self.entries@.len() && (#[trigger] self.entries@[i]).0@ == digest
    }

    /// The position of the entry for `digest`.
    pub closed spec fn position(&self, digest: Seq<u8>) -> int {
        choose|i: int| 0 <= i < self.entries@.len() && (#[trigger] self.entries@[i]).0@ == digest
    }

    /// The map that the entries stand for.
    pub closed spec fn view(&self) -> Map<Seq<u8>, BlobID> {
        Map::new(|digest: Seq<u8>| self.has(digest), |digest: Seq<u8>| self.entries@[self.position(digest)].1)
    }

    /// A bucket without entries.
    pub fn new() -> (map: Bucket)
        ensures
            map.wf(),
            map@ == Map::<Seq<u8>, BlobID>::empty(),
    {
        let map = Bucket { entries: Vec::new() };
        assert(map@ =~= Map::<Seq<u8>, BlobID>::empty());
        map
    }

    /// Whether the bucket has no entry.
    pub fn is_empty(&self) -> (empty: bool)
        ensures
            empty <==> self@ == Map::<Seq<u8>, BlobID>::empty(),
    {
        let empty = self.entries.len() == 0;
        if empty {
            assert(self@ =~= Map::<Seq<u8>, BlobID>::empty());
        } else {
            assert(self.has(self.entries@[0].0@));
            assert(self@.contains_key(self.entries@[0].0@));
        }
        empty
    }

    /// Where the entry for `hash` stands, if there is one.
    fn find(&self, hash: &BlobHash) -> (at: Option<usize>)
        requires
            self.wf(),
        ensures
            match at {
                Some(i) => i < self.entries@.len() && self.entries@[i as int].0@ == hash@
                    && self.has(hash@) && self.position(hash@) == i,
                None => !self.has(hash@),
            },
    {
        let mut i: usize = 0;
        while i < self.entries.len()
            invariant
                self.wf(),
                i <= self.entries@.len(),
                forall|k: int| 0 <= k < i ==> (#[trigger] self.entries@[k]).0@ != hash@,
            decreases self.entries@.len() - i,
        {
            if self.entries[i].0 == *hash {
                proof {
                    assert(self.entries@[i as int].0@ == hash@);
                    assert(self.has(hash@));
                    let k = self.position(hash@);
                    assert(self.entries@[k].0@ == hash@);
                    assert(k == i);
                }
                return Some(i);
            }
            i += 1;
        }
        None
    }

    /// The id recorded for `hash`, if any.
    pub fn get(&self, hash: &BlobHash) -> (id: Option<BlobID>)
        requires
            self.wf(),
        ensures
            id == if self@.contains_key(hash@) {
                Some(self@[hash@])
            } else {
                None
            },
    {
        match self.find(hash) {
            Some(i) => Some(self.entries[i].1),
            None => None,
        }
    }

    /// Whether an id is recorded for `hash`.
    pub fn contains_key(&self, hash: &BlobHash) -> (found: bool)
        requires
            self.wf(),
        ensures
            found == self@.contains_key(hash@),
    {
        self.find(hash).is_some()
    }

    /// Records `id` for `hash`, in place of what was recorded before, which
    /// is returned.
    pub fn insert(&mut self, hash: BlobHash, id: BlobID) -> (previous: Option<BlobID>)
        requires
            old(self).wf(),
        ensures
            final(self).wf(),
            final(self)@ == old(self)@.insert(hash@, id),
            previous == if old(self)@.contains_key(hash@) {
                Some(old(self)@[hash@])
            } else {
                None
            },
    {
        let found = self.find(&hash);
        match found {
            Some(i) => {
                let previous = self.entries[i].1;
                self.entries.set(i, (hash, id));
                proof {
                    assert(self.wf());
                    let after = self@;
                    let wanted = old(self)@.insert(hash@, id);
                    assert forall|d: Seq<u8>| after.contains_key(d) <==> wanted.contains_key(
                        d,
                    ) by {
                        if after.contains_key(d) {
                            let k = self.position(d);
                            if k != i {
                                assert(old(self).entries@[k].0@ == d);
                            }
                        }
                        if wanted.contains_key(d) && d != hash@ {
                            let k = old(self).position(d);
                            assert(self.entries@[k].0@ == d);
                        }
                        if d == hash@ {
                            assert(self.entries@[i as int].0@ == d);
                        }
                    }
                    assert forall|d: Seq<u8>| after.contains_key(d) implies after[d] == wanted[d] by {
                        let k = self.position(d);
                        if d == hash@ {
                            assert(self.entries@[i as int].0@ == d);
                            assert(k == i);
                        } else {
                            assert(old(self).entries@[k].0@ == d);
                            assert(old(self).has(d));
                            assert(old(self).position(d) == k);
                        }
                    }
                    assert(after =~= wanted);
                }
                Some(previous)
            },
            None => {
                self.entries.push((hash, id));
                proof {
                    let n = old(self).entries@.len() as int;
                    assert(self.entries@[n].0@ == hash@);
                    assert(self.wf());
                    let after = self@;
                    let wanted = old(self)@.insert(hash@, id);
                    assert forall|d: Seq<u8>| after.contains_key(d) <==> wanted.contains_key(
                        d,
                    ) by {
                        if after.contains_key(d) {
                            let k = self.position(d);
                            if k != n {
                                assert(old(self).entries@[k].0@ == d);
                            }
                        }
                        if wanted.contains_key(d) && d != hash@ {
                            let k = old(self).position(d);
                            assert(self.entries@[k].0@ == d);
                        }
                    }
                    assert forall|d: Seq<u8>| after.contains_key(d) implies after[d] == wanted[d] by {
                        let k = self.position(d);
                        if d == hash@ {
                            assert(k == n);
                        } else {
                            assert(old(self).entries@[k].0@ == d);
                            assert(old(self).has(d));
                            assert(old(self).position(d) == k);
                        }
                    }
                    assert(after =~= wanted);
                }
                None
            },
        }
    }

    /// Forgets what is recorded for `hash`, and returns it.
    pub fn remove(&mut self, hash: &BlobHash) -> (previous: Option<BlobID>)
        requires
            old(self).wf(),
        ensures
            final(self).wf(),
            final(self)@ == old(self)@.remove(hash@),
            previous == if old(self)@.contains_key(hash@) {
                Some(old(self)@[hash@])
            } else {
                None
            },
    {
        let found = self.find(hash);
        match found {
            Some(i) => {
                let removed = self.entries.swap_remove(i);
                proof {
                    let n = old(self).entries@.len() as int;
                    let before = old(self).entries@;
                    let now = self.entries@;
                    // every entry that is left was there before, at its own
                    // place or at the end
                    assert forall|k: int| 0 <= k < now.len() implies now[k] == before[if k == i {
                        n - 1
                    } else {
                        k
                    }] by {}
                    assert(self.wf());
                    let after = self@;
                    let wanted = old(self)@.remove(hash@);
                    assert forall|d: Seq<u8>| after.contains_key(d) <==> wanted.contains_key(
                        d,
                    ) by {
                        if after.contains_key(d) {
                            let k = self.position(d);
                            let src = if k == i {
                                n - 1
                            } else {
                                k
                            };
                            assert(before[src].0@ == d);
                        }
                        if wanted.contains_key(d) {
                            let k = old(self).position(d);
                            assert(k != i);
                            let dst = if k == n - 1 {
                                i as int
                            } else {
                                k
                            };
                            assert(now[dst].0@ == d);
                        }
                    }
                    assert forall|d: Seq<u8>| after.contains_key(d) implies after[d] == wanted[d] by {
                        let k = self.position(d);
                        let src = if k == i {
                            n - 1
                        } else {
                            k
                        };
                        assert(before[src].0@ == d);
                        assert(old(self).has(d));
                        assert(old(self).position(d) == src);
                    }
                    assert(after =~= wanted);
                }
                Some(removed.1)
            },
            None => {
                assert(self@ =~= old(self)@.remove(hash@));
                None
            },
        }
    }
}

/// The prefix that a digest is filed under: its first eight bytes as a
/// number.
pub open spec fn prefix_of(digest: Seq<u8>) -> u64 {
    from_be64(digest)
}

/// The prefix that `hash` is filed under.
fn prefix(hash: &BlobHash) -> (key: u64)
    ensures
        key == prefix_of(hash@),
{
    let head: [u8; 8] = [
        hash.0[0],
        hash.0[1],
        hash.0[2],
        hash.0[3],
        hash.0[4],
        hash.0[5],
        hash.0[6],
        hash.0[7],
    ];
    u64_from_be_bytes(&head)
}

/// A finite map from digests to ids.
pub struct DigestMap {
    buckets: HashMap<u64, Bucket>,
}

impl DigestMap {
    /// Every bucket is in order and holds only digests with its prefix.
    pub closed spec fn wf(&self) -> bool {
        forall|key: u64| #[trigger]
            self.buckets@.contains_key(key) ==> {
                &&& self.buckets@[key].wf()
                &&& forall|digest: Seq<u8>| #[trigger]
                    self.buckets@[key]@.contains_key(digest) ==> prefix_of(digest) == key
            }
    }

    /// The map that the buckets stand for.
    pub closed spec fn view(&self) -> Map<Seq<u8>, BlobID> {
        Map::new(
            |digest: Seq<u8>|
                self.buckets@.contains_key(prefix_of(digest)) && self.buckets@[prefix_of(
                    digest,
                )]@.contains_key(digest),
            |digest: Seq<u8>| self.buckets@[prefix_of(digest)]@[digest],
        )
    }

    /// An empty map.
    pub fn new() -> (map: DigestMap)
        ensures
            map.wf(),
            map@ == Map::<Seq<u8>, BlobID>::empty(),
    {
        let map = DigestMap { buckets: HashMap::new() };
        assert(map@ =~= Map::<Seq<u8>, BlobID>::empty());
        map
    }

    /// The id recorded for `hash`, if any.
    pub fn get(&self, hash: &BlobHash) -> (id: Option<BlobID>)
        requires
            self.wf(),
        ensures
            id == if self@.contains_key(hash@) {
                Some(self@[hash@])
            } else {
                None
            },
    {
        let key = prefix(hash);
        match self.buckets.get(&key) {
            Some(bucket) => bucket.get(hash),
            None => None,
        }
    }

    /// Whether an id is recorded for `hash`.
    pub fn contains_key(&self, hash: &BlobHash) -> (found: bool)
        requires
            self.wf(),
        ensures
            found == self@.contains_key(hash@),
    {
        self.get(hash).is_some()
    }

    /// Records `id` for `hash`, in place of what was recorded before, which
    /// is returned.
    pub fn insert(&mut self, hash: BlobHash, id: BlobID) -> (previous: Option<BlobID>)
        requires
            old(self).wf(),
        ensures
            final(self).wf(),
            final(self)@ == old(self)@.insert(hash@, id),
            previous == if old(self)@.contains_key(hash@) {
                Some(old(self)@[hash@])
            } else {
                None
            },
    {
        let key = prefix(&hash);
        let mut bucket = match self.buckets.remove(&key) {
            Some(bucket) => bucket,
            None => Bucket::new(),
        };
        let previous = bucket.insert(hash, id);
        self.buckets.insert(key, bucket);
        proof {
            assert(self.buckets@ =~= old(self).buckets@.insert(key, bucket));
            assert forall|other: u64| #[trigger] self.buckets@.contains_key(other) implies {
                &&& self.buckets@[other].wf()
                &&& forall|digest: Seq<u8>| #[trigger]
                    self.buckets@[other]@.contains_key(digest) ==> prefix_of(digest) == other
            } by {
                if other != key {
                    assert(old(self).buckets@.contains_key(other));
                }
            }
            assert(self@ =~= old(self)@.insert(hash@, id));
        }
        previous
    }

    /// Forgets what is recorded for `hash`, and returns it.
    pub fn remove(&mut self, hash: &BlobHash) -> (previous: Option<BlobID>)
        requires
            old(self).wf(),
        ensures
            final(self).wf(),
            final(self)@ == old(self)@.remove(hash@),
            previous == if old(self)@.contains_key(hash@) {
                Some(old(self)@[hash@])
            } else {
                None
            },
    {
        let key = prefix(hash);
        match self.buckets.remove(&key) {
            None => {
                assert(self.buckets@ =~= old(self).buckets@);
                assert(self@ =~= old(self)@.remove(hash@));
                None
            },
            Some(bucket) => {
                let mut bucket = bucket;
                let previous = bucket.remove(hash);
                if bucket.is_empty() {
                    proof {
                        let emptied = old(self).buckets@[key]@;
                        assert forall|digest: Seq<u8>| emptied.contains_key(digest) implies digest
                            == hash@ by {
                            if digest != hash@ {
                                assert(emptied.remove(hash@).contains_key(digest));
                            }
                        }
                        assert(self.buckets@ =~= old(self).buckets@.remove(key));
                        assert forall|other: u64| #[trigger]
                            self.buckets@.contains_key(other) implies {
                            &&& self.buckets@[other].wf()
                            &&& forall|digest: Seq<u8>| #[trigger]
                                self.buckets@[other]@.contains_key(digest) ==> prefix_of(digest)
                                    == other
                        } by {
                            assert(old(self).buckets@.contains_key(other));
                        }
                        assert(self@ =~= old(self)@.remove(hash@));
                    }
                } else {
                    self.buckets.insert(key, bucket);
                    proof {
                        assert(self.buckets@ =~= old(self).buckets@.insert(key, bucket));
                        assert forall|other: u64| #[trigger]
                            self.buckets@.contains_key(other) implies {
                            &&& self.buckets@[other].wf()
                            &&& forall|digest: Seq<u8>| #[trigger]
                                self.buckets@[other]@.contains_key(digest) ==> prefix_of(digest)
                                    == other
                        } by {
                            if other != key {
                                assert(old(self).buckets@.contains_key(other));
                            }
                        }
                        assert(self@ =~= old(self)@.remove(hash@));
                    }
                }
                previous
            },
        }
    }
}

} // verus!
