//! A map keyed by path.
//!
//! Two paths are the same key when they have the same canonical spelling. The
//! spellings are found again through a hash of their bytes.

use std::collections::HashMap;
use vstd::prelude::*;
use vstd::wrapping::u64_specs;

use crate::path::{canonical, canonicalize, same_bytes};

verus! {

broadcast use vstd::std_specs::hash::group_hash_axioms;

/// The 64-bit FNV-1a hash of some bytes.
spec fn fnv(bytes: Seq<u8>) -> u64
    decreases bytes.len(),
{
    if bytes.len() == 0 {
        0xcbf2_9ce4_8422_2325
    } else {
        u64_specs::wrapping_mul(fnv(bytes.drop_last()) ^ (bytes.last() as u64), 0x0000_0100_0000_01b3)
    }
}

/// Computes the hash of some bytes.
fn fnv_hash(bytes: &[u8]) -> (hash: u64)
    ensures
        hash == fnv(bytes@),
{
    let mut hash: u64 = 0xcbf2_9ce4_8422_2325;
    let mut i: usize = 0;
    assert(bytes@.take(0) =~= Seq::<u8>::empty());
    while i < bytes.len()
        invariant
            i <= bytes@.len(),
            hash == fnv(bytes@.take(i as int)),
        decreases bytes.len() - i,
    {
        assert(bytes@.take(i + 1).drop_last() =~= bytes@.take(i as int));
        hash = (hash ^ (bytes[i] as u64)).wrapping_mul(0x0000_0100_0000_01b3);
        i = i + 1;
    }
    assert(bytes@.take(i as int) =~= bytes@);
    hash
}

/// A map from paths to values.
pub struct PathMap<V> {
    /// Where the spellings with a given hash stand among the entries.
    buckets: HashMap<u64, Vec<usize>>,
    /// Spellings and their values. No spelling occurs twice.
    entries: Vec<(Vec<u8>, V)>,
}

impl<V> PathMap<V> {
    /// Whether entry `i` is the one for a spelling.
    spec fn is_at(self, key: Seq<u8>, i: int) -> bool {
        0 <= i < self.entries.len() && self.entries@[i].0@ == key
    }

    /// What every operation keeps.
    pub closed spec fn wf(self) -> bool {
        &&& forall|i: int, j: int|
            0 <= i < j < self.entries.len() ==> (#[trigger] self.entries@[i]).0@ != (
            #[trigger] self.entries@[j]).0@
        &&& forall|i: int|
            0 <= i < self.entries.len() ==> {
                let hash = fnv((#[trigger] self.entries@[i]).0@);
                &&& self.buckets@.contains_key(hash)
                &&& self.buckets@[hash]@.contains(i as usize)
            }
        &&& forall|hash: u64, k: int|
            self.buckets@.contains_key(hash) && 0 <= k < self.buckets@[hash].len()
                ==> #[trigger] self.buckets@[hash]@[k] < self.entries.len()
    }
}

impl<V> View for PathMap<V> {
    type V = Map<Seq<u8>, V>;

    closed spec fn view(&self) -> Map<Seq<u8>, V> {
        Map::new(
            |key: Seq<u8>| exists|i: int| self.is_at(key, i),
            |key: Seq<u8>| self.entries@[choose|i: int| self.is_at(key, i)].1,
        )
    }
}

impl<V> PathMap<V> {
    /// An empty map.
    pub fn new() -> (map: Self)
        ensures
            map.wf(),
            map@ == Map::<Seq<u8>, V>::empty(),
    {
        let map = PathMap { buckets: HashMap::new(), entries: Vec::new() };
        assert(map@ =~= Map::<Seq<u8>, V>::empty());
        map
    }

    /// Finds the entry for a spelling.
    fn position(&self, key: &[u8], hash: u64) -> (found: Option<usize>)
        requires
            self.wf(),
            hash == fnv(key@),
        ensures
            match found {
                Some(i) => self.is_at(key@, i as int),
                None => forall|i: int| !self.is_at(key@, i),
            },
    {
        match self.buckets.get(&hash) {
            None => None,
            Some(bucket) => {
                let mut k: usize = 0;
                while k < bucket.len()
                    invariant
                        self.wf(),
                        hash == fnv(key@),
                        self.buckets@.contains_key(hash),
                        *bucket == self.buckets@[hash],
                        k <= bucket.len(),
                        forall|j: int|
                            0 <= j < k ==> !self.is_at(key@, #[trigger] bucket@[j] as int),
                    decreases bucket.len() - k,
                {
                    let i: usize = bucket[k];
                    assert(self.buckets@[hash]@[k as int] < self.entries.len());
                    if same_bytes(self.entries[i].0.as_slice(), key) {
                        return Some(i);
                    }
                    k = k + 1;
                }
                assert forall|i: int| !self.is_at(key@, i) by {
                    if self.is_at(key@, i) {
                        assert(fnv(self.entries@[i].0@) == hash);
                        assert(bucket@.contains(i as usize));
                        let j = choose|j: int| 0 <= j < bucket@.len() && bucket@[j] == i as usize;
                        assert(!self.is_at(key@, bucket@[j] as int));
                    }
                }
                None
            },
        }
    }

    /// The value for a path.
    pub fn get(&self, path: &[u8]) -> (value: Option<&V>)
        requires
            self.wf(),
        ensures
            match value {
                Some(v) => self@.contains_key(canonical(path@)) && self@[canonical(path@)] == *v,
                None => !self@.contains_key(canonical(path@)),
            },
    {
        let key = canonicalize(path);
        let hash = fnv_hash(key.as_slice());
        match self.position(key.as_slice(), hash) {
            Some(i) => {
                proof {
                    self.lemma_at(key@, i as int);
                }
                Some(&self.entries[i].1)
            },
            None => None,
        }
    }

    /// The view at a spelling that has an entry.
    proof fn lemma_at(self, key: Seq<u8>, i: int)
        requires
            self.wf(),
            self.is_at(key, i),
        ensures
            self@.contains_key(key),
            self@[key] == self.entries@[i].1,
    {
        let j = choose|j: int| self.is_at(key, j);
        assert(self.is_at(key, j));
        if i < j {
            assert(self.entries@[i].0@ != self.entries@[j].0@);
        }
        if j < i {
            assert(self.entries@[j].0@ != self.entries@[i].0@);
        }
    }

    /// Sets the value for a path.
    pub fn insert(&mut self, path: &[u8], value: V)
        requires
            old(self).wf(),
        ensures
            final(self).wf(),
            final(self)@ == old(self)@.insert(canonical(path@), value),
    {
        let key = canonicalize(path);
        let hash = fnv_hash(key.as_slice());
        let ghost spelling = key@;
        let ghost before = *self;
        match self.position(key.as_slice(), hash) {
            Some(i) => {
                self.entries.set(i, (key, value));
                proof {
                    assert forall|j: int| 0 <= j < self.entries.len() implies self.entries@[j].0@
                        == (#[trigger] before.entries@[j]).0@ by {}
                    assert forall|j: int, k: int|
                        0 <= j < k < self.entries.len() implies (#[trigger] self.entries@[j]).0@ != (
                    #[trigger] self.entries@[k]).0@ by {
                        assert(before.entries@[j].0@ != before.entries@[k].0@);
                    }
                    assert forall|j: int| 0 <= j < self.entries.len() implies {
                        let h = fnv((#[trigger] self.entries@[j]).0@);
                        &&& self.buckets@.contains_key(h)
                        &&& self.buckets@[h]@.contains(j as usize)
                    } by {
                        assert(self.entries@[j].0@ == before.entries@[j].0@);
                    }
                    assert(self.wf());
                    self.lemma_set(before, spelling, i as int, value);
                }
            },
            None => {
                let i: usize = self.entries.len();
                let mut bucket: Vec<usize> = match self.buckets.remove(&hash) {
                    Some(bucket) => bucket,
                    None => Vec::new(),
                };
                let ghost listed = bucket@;
                bucket.push(i);
                self.buckets.insert(hash, bucket);
                self.entries.push((key, value));
                proof {
                    assert forall|j: int, k: int|
                        0 <= j < k < self.entries.len() implies (#[trigger] self.entries@[j]).0@ != (
                    #[trigger] self.entries@[k]).0@ by {
                        if k < i {
                            assert(before.entries@[j].0@ != before.entries@[k].0@);
                        } else {
                            assert(!before.is_at(spelling, j));
                        }
                    }
                    assert forall|j: int| 0 <= j < self.entries.len() implies {
                        let h = fnv((#[trigger] self.entries@[j]).0@);
                        &&& self.buckets@.contains_key(h)
                        &&& self.buckets@[h]@.contains(j as usize)
                    } by {
                        let h = fnv(self.entries@[j].0@);
                        if j < i {
                            assert(self.entries@[j] == before.entries@[j]);
                            assert(before.buckets@[h]@.contains(j as usize));
                            if h == hash {
                                assert(listed.contains(j as usize));
                                let k = choose|k: int|
                                    0 <= k < listed.len() && listed[k] == j as usize;
                                assert(self.buckets@[h]@[k] == j as usize);
                            }
                        } else {
                            assert(self.buckets@[h]@[listed.len() as int] == i);
                        }
                    }
                    assert forall|h: u64, k: int|
                        self.buckets@.contains_key(h) && 0 <= k
                            < self.buckets@[h].len() implies #[trigger] self.buckets@[h]@[k]
                        < self.entries.len() by {
                        if h == hash {
                            if k < listed.len() {
                                assert(before.buckets@[h]@[k] < before.entries.len());
                            }
                        } else {
                            assert(before.buckets@[h]@[k] < before.entries.len());
                        }
                    }
                    assert(self.wf());
                    self.lemma_set(before, spelling, i as int, value);
                }
            },
        }
    }

    /// The view after an entry was set or added.
    proof fn lemma_set(self, before: Self, key: Seq<u8>, at: int, value: V)
        requires
            self.wf(),
            before.wf(),
            self.is_at(key, at),
            self.entries@[at].1 == value,
            before.entries.len() <= self.entries.len() <= before.entries.len() + 1,
            at < before.entries.len() ==> self.entries.len() == before.entries.len(),
            forall|i: int|
                0 <= i < before.entries.len() && i != at ==> #[trigger] self.entries@[i]
                    == before.entries@[i],
            at < before.entries.len() ==> before.is_at(key, at),
            at >= before.entries.len() ==> forall|i: int| !before.is_at(key, i),
            at <= before.entries.len(),
        ensures
            self@ == before@.insert(key, value),
    {
        self.lemma_at(key, at);
        assert forall|other: Seq<u8>| #[trigger] self@.contains_key(other) <==> before@.insert(
            key,
            value,
        ).contains_key(other) by {
            if other != key {
                if self@.contains_key(other) {
                    let i = choose|i: int| self.is_at(other, i);
                    assert(before.is_at(other, i));
                }
                if before@.contains_key(other) {
                    let i = choose|i: int| before.is_at(other, i);
                    assert(self.is_at(other, i));
                }
            }
        }
        assert forall|other: Seq<u8>| #[trigger] self@.contains_key(other) implies self@[other]
            == before@.insert(key, value)[other] by {
            if other != key {
                let i = choose|i: int| self.is_at(other, i);
                assert(before.is_at(other, i));
                self.lemma_at(other, i);
                before.lemma_at(other, i);
            }
        }
        assert(self@ =~= before@.insert(key, value));
    }
}

} // verus!
