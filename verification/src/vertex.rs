//! A single graph node and its outgoing edges.

use crate::key::GraphKey;
use vstd::prelude::*;

verus! {

/// One node: an immutable key plus the outgoing edges, kept as
/// `(target key, weight)` pairs in insertion order. Parallel edges (same
/// target, possibly different weights) are distinct entries.
pub struct Vertex<K> {
    key: K,
    neighbors: Vec<(K, i32)>,
}

/// True when some entry of `s` targets `k`.
pub open spec fn seq_has_key<K>(s: Seq<(K, i32)>, k: K) -> bool {
    exists|i: int| 0 <= i < s.len() && s[i].0 == k
}

/// The weight of the first entry of `s` that targets `k`, if any.
pub open spec fn first_weight<K>(s: Seq<(K, i32)>, k: K) -> Option<i32>
    decreases s.len(),
{
    if s.len() == 0 {
        None
    } else if s[0].0 == k {
        Some(s[0].1)
    } else {
        first_weight(s.drop_first(), k)
    }
}

/// `s` with every entry that targets `k` removed; the rest keep their order.
pub open spec fn drop_key<K>(s: Seq<(K, i32)>, k: K) -> Seq<(K, i32)>
    decreases s.len(),
{
    if s.len() == 0 {
        s
    } else if s[0].0 == k {
        drop_key(s.drop_first(), k)
    } else {
        seq![s[0]] + drop_key(s.drop_first(), k)
    }
}

/// Nothing in `drop_key(s, k)` targets `k`: the removal is complete.
pub proof fn lemma_drop_key_clears<K>(s: Seq<(K, i32)>, k: K)
    ensures
        forall|i: int| 0 <= i < drop_key(s, k).len() ==> drop_key(s, k)[i].0 != k,
        !seq_has_key(drop_key(s, k), k),
    decreases s.len(),
{
    if s.len() == 0 {
    } else {
        lemma_drop_key_clears(s.drop_first(), k);
        if s[0].0 == k {
        } else {
            let rest = drop_key(s.drop_first(), k);
            assert forall|i: int| 0 <= i < drop_key(s, k).len() implies drop_key(s, k)[i].0 != k by {
                if i == 0 {
                } else {
                    assert(drop_key(s, k)[i] == rest[i - 1]);
                }
            }
        }
    }
}

/// Removal never lengthens the sequence.
pub proof fn lemma_drop_key_len<K>(s: Seq<(K, i32)>, k: K)
    ensures
        drop_key(s, k).len() <= s.len(),
    decreases s.len(),
{
    if s.len() == 0 {
    } else {
        lemma_drop_key_len(s.drop_first(), k);
    }
}

impl<K> Vertex<K> {
    /// The key this vertex was created with.
    pub closed spec fn spec_key(self) -> K {
        self.key
    }

    /// The outgoing edges, in insertion order.
    pub closed spec fn spec_neighbors(self) -> Seq<(K, i32)> {
        self.neighbors@
    }

    /// True when this vertex has an outgoing edge to `k`.
    pub open spec fn spec_adjacent_key(self, k: K) -> bool {
        seq_has_key(self.spec_neighbors(), k)
    }
}

impl<K: GraphKey> Vertex<K> {
    /// A vertex with the given key and no outgoing edges.
    pub fn new(key: K) -> (v: Vertex<K>)
        ensures
            v.spec_key() == key,
            v.spec_neighbors() == Seq::<(K, i32)>::empty(),
    {
        Vertex { key, neighbors: Vec::new() }
    }

    /// The vertex's key, by reference.
    pub fn key(&self) -> (k: &K)
        ensures
            *k == self.spec_key(),
    {
        &self.key
    }

    /// The number of outgoing edges.
    pub fn neighbor_len(&self) -> (n: usize)
        ensures
            n == self.spec_neighbors().len(),
    {
        self.neighbors.len()
    }

    /// True when this vertex has an outgoing edge to `key`.
    pub fn adjacent_key(&self, key: &K) -> (r: bool)
        ensures
            r == self.spec_adjacent_key(*key),
    {
        let n = self.neighbors.len();
        let mut i: usize = 0;
        while i < n
            invariant
                n == self.neighbors@.len(),
                i <= n,
                forall|j: int| 0 <= j < i ==> self.neighbors@[j].0 != *key,
            decreases n - i,
        {
            if self.neighbors[i].0.key_eq(key) {
                return true;
            }
            i = i + 1;
        }
        false
    }

    /// Appends the edge `(nbr, wt)` unconditionally: no deduplication, and
    /// self-loops are permitted.
    pub fn add_neighbor(&mut self, nbr: K, wt: i32)
        ensures
            final(self).spec_key() == old(self).spec_key(),
            final(self).spec_neighbors() == old(self).spec_neighbors().push((nbr, wt)),
    {
        self.neighbors.push((nbr, wt));
    }

    /// The target keys of the outgoing edges, in insertion order, one entry
    /// per edge (so a parallel edge contributes its target twice).
    pub fn get_neighbors(&self) -> (r: Vec<K>)
        ensures
            r@.len() == self.spec_neighbors().len(),
            forall|i: int| 0 <= i < r@.len() ==> r@[i] == self.spec_neighbors()[i].0,
    {
        let n = self.neighbors.len();
        let mut out: Vec<K> = Vec::new();
        let mut i: usize = 0;
        while i < n
            invariant
                n == self.neighbors@.len(),
                i <= n,
                out@.len() == i,
                forall|j: int| 0 <= j < i ==> out@[j] == self.neighbors@[j].0,
            decreases n - i,
        {
            out.push(self.neighbors[i].0.key_clone());
            i = i + 1;
        }
        out
    }

    /// The weight of the first outgoing edge to `key` in insertion order, or
    /// `None` when there is no such edge. A miss is reported as `None`, never
    /// as a default weight, so it stays distinguishable from a stored zero.
    pub fn get_nbr_weight(&self, key: &K) -> (r: Option<i32>)
        ensures
            r == first_weight(self.spec_neighbors(), *key),
    {
        let n = self.neighbors.len();
        let mut i: usize = 0;
        proof {
            assert(self.neighbors@.skip(0) =~= self.neighbors@);
        }
        while i < n
            invariant
                n == self.neighbors@.len(),
                i <= n,
                first_weight(self.neighbors@, *key) == first_weight(
                    self.neighbors@.skip(i as int),
                    *key,
                ),
            decreases n - i,
        {
            proof {
                assert(self.neighbors@.skip(i as int)[0] == self.neighbors@[i as int]);
                assert(self.neighbors@.skip(i as int).drop_first() =~= self.neighbors@.skip(
                    i as int + 1,
                ));
            }
            if self.neighbors[i].0.key_eq(key) {
                return Some(self.neighbors[i].1);
            }
            i = i + 1;
        }
        proof {
            assert(self.neighbors@.skip(n as int) =~= Seq::<(K, i32)>::empty());
        }
        None
    }

    /// Removes every outgoing edge whose target equals `key` (not just the
    /// first), keeping the rest in order, and reports how many were removed.
    pub fn remove_neighbors_to(&mut self, key: &K) -> (removed: usize)
        ensures
            final(self).spec_key() == old(self).spec_key(),
            final(self).spec_neighbors() == drop_key(old(self).spec_neighbors(), *key),
            final(self).spec_neighbors().len() + removed == old(self).spec_neighbors().len(),
    {
        let n = self.neighbors.len();
        let mut kept: Vec<(K, i32)> = Vec::new();
        let mut removed: usize = 0;
        let mut i: usize = 0;
        proof {
            assert(self.neighbors@.skip(0) =~= self.neighbors@);
            assert(kept@ + drop_key(self.neighbors@, *key) =~= drop_key(self.neighbors@, *key));
        }
        while i < n
            invariant
                n == self.neighbors@.len(),
                i <= n,
                kept@.len() + removed == i,
                kept@ + drop_key(self.neighbors@.skip(i as int), *key) == drop_key(
                    self.neighbors@,
                    *key,
                ),
            decreases n - i,
        {
            proof {
                assert(self.neighbors@.skip(i as int)[0] == self.neighbors@[i as int]);
                assert(self.neighbors@.skip(i as int).drop_first() =~= self.neighbors@.skip(
                    i as int + 1,
                ));
            }
            let ghost kept0 = kept@;
            let ghost suffix = drop_key(self.neighbors@.skip(i as int + 1), *key);
            if self.neighbors[i].0.key_eq(key) {
                removed = removed + 1;
            } else {
                kept.push((self.neighbors[i].0.key_clone(), self.neighbors[i].1));
                proof {
                    assert(kept@ + suffix =~= kept0 + (seq![self.neighbors@[i as int]] + suffix));
                }
            }
            i = i + 1;
        }
        proof {
            assert(self.neighbors@.skip(n as int) =~= Seq::<(K, i32)>::empty());
            assert(kept@ + drop_key(self.neighbors@.skip(n as int), *key) =~= kept@);
        }
        self.neighbors = kept;
        removed
    }
}

} // verus!
