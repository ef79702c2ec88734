//! A registry holding, per symbol key, one ordered snapshot and one
//! price-keyed book state, kept mutually consistent through `upsert` and
//! `update` alone. It is a plain owned aggregate: callers that share it
//! across threads must wrap the single instance in one exclusive guard.

use vstd::prelude::*;
use crate::depth::Depth;
use crate::text::str_eq;
use crate::depthmap::{
    distinct_prices, seq_to_map, sorted_asc, sorted_desc, spec_merge_maps, DepthMap,
};

verus! {

/// A registry of depths for several symbols: for each key, the ordered
/// snapshot and the price-keyed book state.
pub struct Depths {
    vecs: Vec<(String, Depth)>,
    maps: Vec<(String, DepthMap)>,
}

impl Depths {
    /// The stored key/snapshot entries, in insertion order.
    pub closed spec fn entries(self) -> Seq<(String, Depth)> {
        self.vecs@
    }

    /// The stored key/book-state entries, in insertion order.
    pub closed spec fn map_entries(self) -> Seq<(String, DepthMap)> {
        self.maps@
    }

    /// Keys are distinct, both stores list the same keys in the same order,
    /// and every stored book state is well formed.
    pub open spec fn wf(self) -> bool {
        &&& self.map_entries().len() == self.entries().len()
        &&& forall|i: int|
            0 <= i < self.entries().len() ==> (#[trigger] self.map_entries()[i]).0@
                == self.entries()[i].0@
        &&& forall|i: int, j: int|
            0 <= i < j < self.entries().len() ==> self.entries()[i].0@ != self.entries()[j].0@
        &&& forall|i: int|
            0 <= i < self.map_entries().len() ==> (#[trigger] self.map_entries()[i]).1.wf()
    }

    /// Whether some entry is stored under `key`.
    pub open spec fn has_key(self, key: Seq<char>) -> bool {
        exists|i: int| 0 <= i < self.entries().len() && (#[trigger] self.entries()[i]).0@ == key
    }

    /// The index of the entry stored under `key`.
    pub open spec fn key_index(self, key: Seq<char>) -> int {
        choose|i: int| 0 <= i < self.entries().len() && (#[trigger] self.entries()[i]).0@ == key
    }

    /// The ordered snapshot stored under `key`.
    pub open spec fn spec_depth(self, key: Seq<char>) -> Depth {
        self.entries()[self.key_index(key)].1
    }

    /// The book state stored under `key`.
    pub open spec fn spec_map(self, key: Seq<char>) -> DepthMap {
        self.map_entries()[self.key_index(key)].1
    }

    /// An empty registry.
    pub fn new() -> (r: Depths)
        ensures
            r.wf(),
            r.entries().len() == 0,
            forall|k: Seq<char>| !r.has_key(k),
    {
        Depths { vecs: Vec::new(), maps: Vec::new() }
    }

    fn find_key(&self, key: &str) -> (r: Option<usize>)
        requires
            self.wf(),
        ensures
            match r {
                Some(i) => i < self.entries().len() && self.entries()[i as int].0@ == key@,
                None => !self.has_key(key@),
            },
    {
        let n: usize = self.vecs.len();
        let mut i: usize = 0;
        while i < n
            invariant
                i <= n,
                n == self.entries().len(),
                forall|j: int| 0 <= j < i ==> (#[trigger] self.entries()[j]).0@ != key@,
            decreases n - i,
        {
            if str_eq(self.vecs[i].0.as_str(), key) {
                return Some(i);
            }
            i += 1;
        }
        None
    }

    /// Installs a full snapshot under `key`: the stored book state is rebuilt
    /// from the snapshot and the stored ordered depth is the snapshot itself.
    /// Entries under other keys are untouched.
    pub fn upsert(&mut self, key: &str, depth: Depth)
        requires
            old(self).wf(),
        ensures
            final(self).wf(),
            final(self).has_key(key@),
            final(self).spec_depth(key@) == depth,
            final(self).spec_map(key@).wf(),
            final(self).spec_map(key@).asks_map() == seq_to_map(depth.asks@),
            final(self).spec_map(key@).bids_map() == seq_to_map(depth.bids@),
            forall|k: Seq<char>|
                k != key@ ==> #[trigger] final(self).has_key(k) == old(self).has_key(k),
            forall|k: Seq<char>|
                k != key@ && old(self).has_key(k) ==> #[trigger] final(self).spec_depth(k) == old(
                    self,
                ).spec_depth(k) && final(self).spec_map(k) == old(self).spec_map(k),
    {
        let m = DepthMap::build_from(&depth);
        let found = self.find_key(key);
        match found {
            Some(i) => {
                let ghost maps0 = self.maps@;
                let ghost vecs0 = self.vecs@;
                let (ka, _old_map) = self.maps.remove(i);
                let ghost maps1 = self.maps@;
                self.maps.insert(i, (ka, m));
                let (kv, _old_depth) = self.vecs.remove(i);
                let ghost vecs1 = self.vecs@;
                self.vecs.insert(i, (kv, depth));
                proof {
                    maps0.remove_ensures(i as int);
                    maps1.insert_ensures(i as int, (ka, m));
                    vecs0.remove_ensures(i as int);
                    vecs1.insert_ensures(i as int, (kv, depth));
                    assert(self.maps@ =~= maps0.update(i as int, (ka, m)));
                    assert(self.vecs@ =~= vecs0.update(i as int, (kv, depth)));
                    lemma_key_index_unique(*self, key@, i as int);
                    self.lemma_other_keys(*old(self), key@, i as int);
                }
            },
            None => {
                self.maps.push((key.to_owned(), m));
                self.vecs.push((key.to_owned(), depth));
                proof {
                    let n = old(self).entries().len() as int;
                    assert(self.entries()[n].0@ == key@);
                    lemma_key_index_unique(*self, key@, n);
                    self.lemma_other_keys(*old(self), key@, n);
                }
            },
        }
    }

    /// Merges a delta under `key`. When the key is already present the delta
    /// is merged into the stored book state (zero-amount levels delete) and
    /// the stored ordered depth is regenerated, sorted, from the merged
    /// state. On a first-ever delta for the key, the delta's book state is
    /// stored and the delta itself becomes the ordered depth, unsorted: the
    /// cold start deliberately skips the sort normalization.
    pub fn update(&mut self, key: &str, depth_change: Depth)
        requires
            old(self).wf(),
        ensures
            final(self).wf(),
            final(self).has_key(key@),
            final(self).spec_map(key@).wf(),
            old(self).has_key(key@) ==> {
                let m0 = old(self).spec_map(key@);
                let m1 = final(self).spec_map(key@);
                let d1 = final(self).spec_depth(key@);
                &&& m1.asks_map() == spec_merge_maps(m0.asks_map(), seq_to_map(depth_change.asks@))
                &&& m1.bids_map() == spec_merge_maps(m0.bids_map(), seq_to_map(depth_change.bids@))
                &&& sorted_asc(d1.asks@)
                &&& sorted_desc(d1.bids@)
                &&& distinct_prices(d1.asks@)
                &&& distinct_prices(d1.bids@)
                &&& seq_to_map(d1.asks@) == m1.asks_map()
                &&& seq_to_map(d1.bids@) == m1.bids_map()
            },
            !old(self).has_key(key@) ==> {
                let m1 = final(self).spec_map(key@);
                &&& final(self).spec_depth(key@) == depth_change
                &&& m1.asks_map() == seq_to_map(depth_change.asks@)
                &&& m1.bids_map() == seq_to_map(depth_change.bids@)
            },
            forall|k: Seq<char>|
                k != key@ ==> #[trigger] final(self).has_key(k) == old(self).has_key(k),
            forall|k: Seq<char>|
                k != key@ && old(self).has_key(k) ==> #[trigger] final(self).spec_depth(k) == old(
                    self,
                ).spec_depth(k) && final(self).spec_map(k) == old(self).spec_map(k),
    {
        let delta = DepthMap::build_from(&depth_change);
        let found = self.find_key(key);
        match found {
            Some(i) => {
                proof {
                    lemma_key_index_unique(*old(self), key@, i as int);
                }
                let ghost maps0 = self.maps@;
                let ghost vecs0 = self.vecs@;
                let (ka, mut merged) = self.maps.remove(i);
                merged.update(&delta);
                let regenerated = merged.to_depth();
                let ghost maps1 = self.maps@;
                self.maps.insert(i, (ka, merged));
                let (kv, _old_depth) = self.vecs.remove(i);
                let ghost vecs1 = self.vecs@;
                self.vecs.insert(i, (kv, regenerated));
                proof {
                    maps0.remove_ensures(i as int);
                    maps1.insert_ensures(i as int, (ka, merged));
                    vecs0.remove_ensures(i as int);
                    vecs1.insert_ensures(i as int, (kv, regenerated));
                    assert(self.maps@ =~= maps0.update(i as int, (ka, merged)));
                    assert(self.vecs@ =~= vecs0.update(i as int, (kv, regenerated)));
                    lemma_key_index_unique(*self, key@, i as int);
                    self.lemma_other_keys(*old(self), key@, i as int);
                }
            },
            None => {
                self.maps.push((key.to_owned(), delta));
                self.vecs.push((key.to_owned(), depth_change));
                proof {
                    let n = old(self).entries().len() as int;
                    assert(self.entries()[n].0@ == key@);
                    lemma_key_index_unique(*self, key@, n);
                    self.lemma_other_keys(*old(self), key@, n);
                }
            },
        }
    }

    /// The stored keys, in insertion order.
    pub fn keys(&self) -> (r: Vec<String>)
        ensures
            r@.len() == self.entries().len(),
            forall|i: int| 0 <= i < r@.len() ==> r@[i]@ == self.entries()[i].0@,
    {
        let mut out: Vec<String> = Vec::new();
        let n: usize = self.vecs.len();
        let mut i: usize = 0;
        while i < n
            invariant
                i <= n,
                n == self.entries().len(),
                out@.len() == i,
                forall|j: int| 0 <= j < i ==> out@[j]@ == self.entries()[j].0@,
            decreases n - i,
        {
            out.push(self.vecs[i].0.clone());
            i += 1;
        }
        out
    }

    /// The ordered snapshot stored under `key`, if any.
    pub fn depth_of(&self, key: &str) -> (r: Option<&Depth>)
        requires
            self.wf(),
        ensures
            match r {
                Some(d) => self.has_key(key@) && *d == self.spec_depth(key@),
                None => !self.has_key(key@),
            },
    {
        let found = self.find_key(key);
        match found {
            Some(i) => {
                proof {
                    lemma_key_index_unique(*self, key@, i as int);
                }
                Some(&self.vecs[i].1)
            },
            None => None,
        }
    }

    /// The book state stored under `key`, if any.
    pub fn map_of(&self, key: &str) -> (r: Option<&DepthMap>)
        requires
            self.wf(),
        ensures
            match r {
                Some(m) => self.has_key(key@) && *m == self.spec_map(key@),
                None => !self.has_key(key@),
            },
    {
        let found = self.find_key(key);
        match found {
            Some(i) => {
                proof {
                    lemma_key_index_unique(*self, key@, i as int);
                }
                Some(&self.maps[i].1)
            },
            None => None,
        }
    }

    /// Entries under keys other than the touched one are exactly what they
    /// were, provided the stores agree except at that one index.
    proof fn lemma_other_keys(self, older: Depths, key: Seq<char>, i: int)
        requires
            older.wf(),
            self.wf(),
            0 <= i < self.entries().len(),
            self.entries()[i].0@ == key,
            self.entries().len() == older.entries().len() || (self.entries().len()
                == older.entries().len() + 1 && i == older.entries().len()),
            self.entries().len() == older.entries().len() ==> older.entries()[i].0@ == key,
            forall|j: int|
                0 <= j < self.entries().len() && j != i ==> #[trigger] self.entries()[j]
                    == older.entries()[j],
            forall|j: int|
                0 <= j < self.map_entries().len() && j != i ==> #[trigger] self.map_entries()[j]
                    == older.map_entries()[j],
        ensures
            forall|k: Seq<char>| k != key ==> #[trigger] self.has_key(k) == older.has_key(k),
            forall|k: Seq<char>|
                k != key && older.has_key(k) ==> #[trigger] self.spec_depth(k) == older.spec_depth(
                    k,
                ) && self.spec_map(k) == older.spec_map(k),
    {
        assert forall|k: Seq<char>| k != key implies #[trigger] self.has_key(k) == older.has_key(
            k,
        ) by {
            if self.has_key(k) {
                let j = self.key_index(k);
                assert(j != i);
                assert(j < older.entries().len());
                assert(older.entries()[j].0@ == k);
            }
            if older.has_key(k) {
                let j = older.key_index(k);
                assert(older.entries()[j].0@ == k);
                assert(j != i) by {
                    if j == i {
                        assert(i < older.entries().len());
                        assert(self.entries().len() == older.entries().len());
                        assert(older.entries()[i].0@ == key);
                        assert(false);
                    }
                }
                assert(self.entries()[j].0@ == k);
            }
        }
        assert forall|k: Seq<char>| k != key && older.has_key(k) implies #[trigger] self.spec_depth(
            k,
        ) == older.spec_depth(k) && self.spec_map(k) == older.spec_map(k) by {
            let j = older.key_index(k);
            assert(older.entries()[j].0@ == k);
            assert(j != i) by {
                if j == i {
                    assert(i < older.entries().len());
                    assert(self.entries().len() == older.entries().len());
                    assert(older.entries()[i].0@ == key);
                    assert(false);
                }
            }
            assert(self.entries()[j].0@ == k);
            lemma_key_index_unique(self, k, j);
            lemma_key_index_unique(older, k, j);
        }
    }
}

/// The rebuild path round-trips: after `upsert` of a snapshot whose sides
/// hold distinct prices, converting the stored book state back to an ordered
/// depth yields exactly the snapshot's levels, re-ordered by the sort. The
/// hypotheses are precisely what `upsert` and `to_depth` ensure.
pub proof fn lemma_upsert_round_trip(
    registry: Depths,
    key: Seq<char>,
    snapshot: Depth,
    regenerated: Depth,
)
    requires
        distinct_prices(snapshot.asks@),
        distinct_prices(snapshot.bids@),
        registry.has_key(key),
        registry.spec_map(key).asks_map() == seq_to_map(snapshot.asks@),
        registry.spec_map(key).bids_map() == seq_to_map(snapshot.bids@),
        distinct_prices(regenerated.asks@),
        distinct_prices(regenerated.bids@),
        seq_to_map(regenerated.asks@) == registry.spec_map(key).asks_map(),
        seq_to_map(regenerated.bids@) == registry.spec_map(key).bids_map(),
    ensures
        regenerated.asks@.to_multiset() == snapshot.asks@.to_multiset(),
        regenerated.bids@.to_multiset() == snapshot.bids@.to_multiset(),
{
    crate::depthmap::lemma_map_round_trip(snapshot.asks@, regenerated.asks@);
    crate::depthmap::lemma_map_round_trip(snapshot.bids@, regenerated.bids@);
}

/// Under distinct keys, the entry index of a stored key is the unique index
/// whose entry carries it.
proof fn lemma_key_index_unique(d: Depths, key: Seq<char>, i: int)
    requires
        d.wf(),
        0 <= i < d.entries().len(),
        d.entries()[i].0@ == key,
    ensures
        d.has_key(key),
        d.key_index(key) == i,
{
    assert(d.has_key(key));
    let j = d.key_index(key);
    if j != i {
        assert(d.entries()[i].0@ != d.entries()[j].0@ || d.entries()[j].0@ != d.entries()[i].0@);
        assert(false);
    }
}

} // verus!
