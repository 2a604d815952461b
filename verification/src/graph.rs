//! The graph container: keyed vertices plus exact vertex and edge counters.

use crate::key::GraphKey;
use crate::vertex::Vertex;
use vstd::prelude::*;

verus! {

/// The recoverable failures of graph operations.
#[derive(Clone, Copy, Debug, PartialEq, Eq, Structural)]
pub enum GraphError {
    /// An operation needed a vertex that is not in the graph.
    VertexNotFound,
    /// `add_vertex` was given a key that is already in the graph.
    DuplicateVertex,
}

/// A directed, weighted graph: a collection of vertices with distinct keys,
/// together with counters that always equal the number of vertices and the
/// total number of edge entries.
///
/// Vertices are stored in a vector whose keys are kept pairwise distinct;
/// lookups scan it. That representation keeps every operation, including the
/// cascading removal, fully provable for an arbitrary key type, at the cost of
/// linear-time key lookup.
pub struct Graph<K> {
    vertnums: usize,
    edgenums: usize,
    vertices: Vec<Vertex<K>>,
}

/// The total number of edge entries over a sequence of vertices.
pub open spec fn sum_out_degrees<K>(s: Seq<Vertex<K>>) -> nat
    decreases s.len(),
{
    if s.len() == 0 {
        0
    } else {
        s[0].spec_neighbors().len() + sum_out_degrees(s.drop_first())
    }
}

/// Appending a vertex adds its out-degree to the edge total.
pub proof fn lemma_sum_push<K>(s: Seq<Vertex<K>>, v: Vertex<K>)
    ensures
        sum_out_degrees(s.push(v)) == sum_out_degrees(s) + v.spec_neighbors().len(),
    decreases s.len(),
{
    if s.len() == 0 {
        assert(s.push(v).drop_first() =~= s);
    } else {
        assert(s.push(v).drop_first() =~= s.drop_first().push(v));
        lemma_sum_push(s.drop_first(), v);
    }
}

/// Replacing one vertex changes the edge total by the difference of the two
/// out-degrees.
pub proof fn lemma_sum_update<K>(s: Seq<Vertex<K>>, i: int, v: Vertex<K>)
    requires
        0 <= i < s.len(),
    ensures
        sum_out_degrees(s.update(i, v)) + s[i].spec_neighbors().len() == sum_out_degrees(s)
            + v.spec_neighbors().len(),
    decreases s.len(),
{
    if i == 0 {
        assert(s.update(0, v)[0] == v);
        assert(s.update(0, v).drop_first() =~= s.drop_first());
    } else {
        assert(s.update(i, v)[0] == s[0]);
        assert(s.update(i, v).drop_first() =~= s.drop_first().update(i - 1, v));
        lemma_sum_update(s.drop_first(), i - 1, v);
    }
}

/// Removing one vertex subtracts its out-degree from the edge total.
pub proof fn lemma_sum_remove<K>(s: Seq<Vertex<K>>, i: int)
    requires
        0 <= i < s.len(),
    ensures
        sum_out_degrees(s.remove(i)) + s[i].spec_neighbors().len() == sum_out_degrees(s),
    decreases s.len(),
{
    if i == 0 {
        assert(s.remove(0) =~= s.drop_first());
    } else {
        assert(s.remove(i)[0] == s[0]);
        assert(s.remove(i).drop_first() =~= s.drop_first().remove(i - 1));
        lemma_sum_remove(s.drop_first(), i - 1);
    }
}

/// Out-degrees that shrink pointwise can only shrink the edge total.
pub proof fn lemma_sum_pointwise_le<K>(s1: Seq<Vertex<K>>, s2: Seq<Vertex<K>>)
    requires
        s1.len() == s2.len(),
        forall|t: int|
            0 <= t < s1.len() ==> s1[t].spec_neighbors().len() <= s2[t].spec_neighbors().len(),
    ensures
        sum_out_degrees(s1) <= sum_out_degrees(s2),
    decreases s1.len(),
{
    if s1.len() == 0 {
    } else {
        lemma_sum_pointwise_le(s1.drop_first(), s2.drop_first());
    }
}

/// One vertex's out-degree never exceeds the edge total.
pub proof fn lemma_sum_index_bound<K>(s: Seq<Vertex<K>>, i: int)
    requires
        0 <= i < s.len(),
    ensures
        s[i].spec_neighbors().len() <= sum_out_degrees(s),
{
    lemma_sum_remove(s, i);
}

/// With distinct keys, the vertex stored at `i` is the one `key_index` finds
/// for its key, so `neighbors_of` reads exactly its edges.
pub proof fn lemma_key_index<K>(g: Graph<K>, i: int)
    requires
        g.keys_distinct(),
        0 <= i < g.rep().len(),
    ensures
        g.has_vertex(g.rep()[i].spec_key()),
        g.key_index(g.rep()[i].spec_key()) == i,
        g.neighbors_of(g.rep()[i].spec_key()) == g.rep()[i].spec_neighbors(),
{
    let k = g.rep()[i].spec_key();
    assert(g.has_vertex(k));
    let j = g.key_index(k);
    assert(0 <= j < g.rep().len() && g.rep()[j].spec_key() == k);
    if i < j {
        assert(g.rep()[i].spec_key() != g.rep()[j].spec_key());
    } else if j < i {
        assert(g.rep()[j].spec_key() != g.rep()[i].spec_key());
    }
}

impl<K> Graph<K> {
    /// The stored vertices, in storage order.
    pub closed spec fn rep(self) -> Seq<Vertex<K>> {
        self.vertices@
    }

    /// The maintained vertex counter.
    pub closed spec fn spec_vertex_count(self) -> usize {
        self.vertnums
    }

    /// The maintained edge counter.
    pub closed spec fn spec_edge_count(self) -> usize {
        self.edgenums
    }

    /// No two stored vertices share a key.
    pub open spec fn keys_distinct(self) -> bool {
        forall|i: int, j: int|
            0 <= i < j < self.rep().len() ==> self.rep()[i].spec_key() != self.rep()[j].spec_key()
    }

    /// Well-formedness: keys are distinct and both counters agree with the
    /// stored structure. Every operation of this type preserves it.
    pub open spec fn wf(self) -> bool {
        &&& self.keys_distinct()
        &&& self.spec_vertex_count() == self.rep().len()
        &&& self.spec_edge_count() == sum_out_degrees(self.rep())
    }

    /// True when a vertex with key `k` is in the graph.
    pub open spec fn has_vertex(self, k: K) -> bool {
        exists|i: int| 0 <= i < self.rep().len() && self.rep()[i].spec_key() == k
    }

    /// The storage index of the vertex with key `k` (meaningful when
    /// `has_vertex(k)` holds and keys are distinct).
    pub open spec fn key_index(self, k: K) -> int {
        choose|i: int| 0 <= i < self.rep().len() && self.rep()[i].spec_key() == k
    }

    /// The outgoing edges of the vertex with key `k`.
    pub open spec fn neighbors_of(self, k: K) -> Seq<(K, i32)> {
        self.rep()[self.key_index(k)].spec_neighbors()
    }

    /// True when `from` is present and has an outgoing edge to `to`. The
    /// target need not be present: an edge kept toward a later-removed key
    /// would still count (the cascade in `remove_vertex` prevents that state).
    pub open spec fn spec_adjacent(self, from: K, to: K) -> bool {
        self.has_vertex(from) && crate::vertex::seq_has_key(self.neighbors_of(from), to)
    }
}

impl<K: GraphKey> Graph<K> {
    /// An empty graph: no vertices, both counters zero.
    pub fn new() -> (g: Graph<K>)
        ensures
            g.wf(),
            g.rep() == Seq::<Vertex<K>>::empty(),
            g.spec_vertex_count() == 0,
            g.spec_edge_count() == 0,
    {
        Graph { vertnums: 0, edgenums: 0, vertices: Vec::new() }
    }

    /// True when the graph has no vertices.
    pub fn is_empty(&self) -> (r: bool)
        ensures
            r == (self.spec_vertex_count() == 0),
    {
        self.vertnums == 0
    }

    /// The number of vertices.
    pub fn vertex_num(&self) -> (n: usize)
        ensures
            n == self.spec_vertex_count(),
    {
        self.vertnums
    }

    /// The number of edges (parallel edges each counted).
    pub fn edge_num(&self) -> (n: usize)
        ensures
            n == self.spec_edge_count(),
    {
        self.edgenums
    }

    /// The storage index of the vertex keyed `key`, if present.
    fn find_index(&self, key: &K) -> (r: Option<usize>)
        ensures
            match r {
                Some(i) => i < self.rep().len() && self.rep()[i as int].spec_key() == *key,
                None => !self.has_vertex(*key),
            },
    {
        let n = self.vertices.len();
        let mut i: usize = 0;
        while i < n
            invariant
                n == self.rep().len(),
                i <= n,
                forall|j: int| 0 <= j < i ==> self.rep()[j].spec_key() != *key,
            decreases n - i,
        {
            if self.vertices[i].key().key_eq(key) {
                return Some(i);
            }
            i = i + 1;
        }
        None
    }

    /// True when a vertex with key `key` is in the graph.
    pub fn contains(&self, key: &K) -> (r: bool)
        ensures
            r == self.has_vertex(*key),
    {
        match self.find_index(key) {
            Some(_) => true,
            None => false,
        }
    }

    /// Inserts a fresh, edge-less vertex under `key`. A key that is already
    /// present is rejected with `DuplicateVertex` and the graph is unchanged:
    /// silently replacing the stored vertex would discard its edges.
    pub fn add_vertex(&mut self, key: &K) -> (r: Result<(), GraphError>)
        requires
            old(self).wf(),
        ensures
            final(self).wf(),
            (r is Err) <==> old(self).has_vertex(*key),
            old(self).has_vertex(*key) ==> r == Err::<(), GraphError>(GraphError::DuplicateVertex)
                && *final(self) == *old(self),
            forall|k2: K| #[trigger]
                final(self).has_vertex(k2) == (old(self).has_vertex(k2) || k2 == *key),
            !old(self).has_vertex(*key) ==> final(self).neighbors_of(*key) == Seq::<(K,
                i32,
            )>::empty(),
            forall|k2: K|
                old(self).has_vertex(k2) ==> #[trigger] final(self).neighbors_of(k2) == old(
                    self,
                ).neighbors_of(k2),
            final(self).spec_vertex_count() == old(self).spec_vertex_count() + (
            if old(self).has_vertex(*key) {
                0int
            } else {
                1int
            }),
            final(self).spec_edge_count() == old(self).spec_edge_count(),
    {
        if self.contains(key) {
            return Err(GraphError::DuplicateVertex);
        }
        let v = Vertex::new(key.key_clone());
        self.vertices.push(v);
        self.vertnums = self.vertices.len();
        proof {
            let r0 = old(self).rep();
            let r1 = self.rep();
            let vv = r1[r1.len() - 1];
            lemma_sum_push(r0, vv);
            assert forall|a: int, b: int| 0 <= a < b < r1.len() implies r1[a].spec_key()
                != r1[b].spec_key() by {
                if b == r1.len() - 1 {
                    assert(r1[a] == r0[a]);
                    if r1[a].spec_key() == *key {
                        assert(old(self).has_vertex(*key));
                    }
                } else {
                    assert(r1[a] == r0[a] && r1[b] == r0[b]);
                }
            }
            assert forall|k2: K| #[trigger]
                self.has_vertex(k2) == (old(self).has_vertex(k2) || k2 == *key) by {
                if old(self).has_vertex(k2) {
                    let w = choose|w: int| 0 <= w < r0.len() && r0[w].spec_key() == k2;
                    assert(r1[w].spec_key() == k2);
                }
                if k2 == *key {
                    assert(r1[r1.len() - 1].spec_key() == k2);
                }
                if self.has_vertex(k2) {
                    let w = choose|w: int| 0 <= w < r1.len() && r1[w].spec_key() == k2;
                    if w < r0.len() {
                        assert(r0[w].spec_key() == k2);
                    }
                }
            }
            assert forall|k2: K| old(self).has_vertex(k2) implies #[trigger] self.neighbors_of(k2)
                == old(self).neighbors_of(k2) by {
                let w = choose|w: int| 0 <= w < r0.len() && r0[w].spec_key() == k2;
                lemma_key_index(*old(self), w);
                assert(r1[w] == r0[w]);
                lemma_key_index(*self, w);
            }
            lemma_key_index(*self, r1.len() - 1);
        }
        Ok(())
    }

    /// A read-only view of the vertex keyed `key`, or `None` when absent.
    pub fn get_vertex(&self, key: &K) -> (r: Option<&Vertex<K>>)
        requires
            self.wf(),
        ensures
            match r {
                Some(v) => self.has_vertex(*key) && v.spec_key() == *key && v.spec_neighbors()
                    == self.neighbors_of(*key),
                None => !self.has_vertex(*key),
            },
    {
        match self.find_index(key) {
            Some(i) => {
                proof {
                    lemma_key_index(*self, i as int);
                }
                Some(&self.vertices[i])
            },
            None => None,
        }
    }

    /// The keys of all vertices, each exactly once; the order is the storage
    /// order and carries no meaning.
    pub fn vertex_keys(&self) -> (r: Vec<K>)
        ensures
            r@.len() == self.rep().len(),
            forall|i: int| 0 <= i < r@.len() ==> r@[i] == self.rep()[i].spec_key(),
            self.wf() ==> (forall|i: int, j: int| 0 <= i < j < r@.len() ==> r@[i] != r@[j]),
    {
        let n = self.vertices.len();
        let mut out: Vec<K> = Vec::new();
        let mut i: usize = 0;
        while i < n
            invariant
                n == self.rep().len(),
                i <= n,
                out@.len() == i,
                forall|j: int| 0 <= j < i ==> out@[j] == self.rep()[j].spec_key(),
            decreases n - i,
        {
            out.push(self.vertices[i].key().key_clone());
            i = i + 1;
        }
        out
    }

    /// Whether the graph stores an edge `from -> to`. A missing `from` is the
    /// error `VertexNotFound`; a missing `to` is not an error, the stored
    /// edges simply decide.
    pub fn adjacent(&self, from: &K, to: &K) -> (r: Result<bool, GraphError>)
        requires
            self.wf(),
        ensures
            self.has_vertex(*from) ==> r == Ok::<bool, GraphError>(
                self.spec_adjacent(*from, *to),
            ),
            !self.has_vertex(*from) ==> r == Err::<bool, GraphError>(GraphError::VertexNotFound),
    {
        match self.find_index(from) {
            Some(i) => {
                proof {
                    lemma_key_index(*self, i as int);
                }
                Ok(self.vertices[i].adjacent_key(to))
            },
            None => Err(GraphError::VertexNotFound),
        }
    }

    /// Appends the edge `from -> to` with weight `wt`. Either endpoint that is
    /// not yet present is created first as an edge-less vertex; self-loops and
    /// parallel edges are permitted and each counts as one edge.
    pub fn add_edge(&mut self, from: &K, to: &K, wt: i32)
        requires
            old(self).wf(),
            old(self).spec_edge_count() < usize::MAX,
        ensures
            final(self).wf(),
            forall|k2: K| #[trigger]
                final(self).has_vertex(k2) == (old(self).has_vertex(k2) || k2 == *from || k2
                    == *to),
            final(self).neighbors_of(*from) == (
            if old(self).has_vertex(*from) {
                old(self).neighbors_of(*from)
            } else {
                Seq::<(K, i32)>::empty()
            }).push((*to, wt)),
            forall|k2: K|
                old(self).has_vertex(k2) && k2 != *from ==> #[trigger] final(self).neighbors_of(k2)
                    == old(self).neighbors_of(k2),
            *to != *from && !old(self).has_vertex(*to) ==> final(self).neighbors_of(*to)
                == Seq::<(K, i32)>::empty(),
            final(self).spec_edge_count() == old(self).spec_edge_count() + 1,
            final(self).spec_vertex_count() == old(self).spec_vertex_count() + (
            if old(self).has_vertex(*from) {
                0int
            } else {
                1int
            }) + (
            if *to == *from || old(self).has_vertex(*to) {
                0int
            } else {
                1int
            }),
            final(self).spec_adjacent(*from, *to),
    {
        let ghost g0 = *old(self);
        if !self.contains(from) {
            let _ = self.add_vertex(from);
        }
        proof {
            assert(self.wf());
            assert(self.has_vertex(*from));
            assert(forall|k2: K| #[trigger]
                self.has_vertex(k2) == (g0.has_vertex(k2) || k2 == *from));
            assert(forall|k2: K|
                g0.has_vertex(k2) ==> #[trigger] self.neighbors_of(k2) == g0.neighbors_of(k2));
            assert(!g0.has_vertex(*from) ==> self.neighbors_of(*from) == Seq::<(K, i32)>::empty());
        }
        if !self.contains(to) {
            let _ = self.add_vertex(to);
        }
        let ghost g2 = *self;
        proof {
            assert(g2.wf());
            assert(g2.has_vertex(*from) && g2.has_vertex(*to));
            assert(forall|k2: K| #[trigger]
                g2.has_vertex(k2) == (g0.has_vertex(k2) || k2 == *from || k2 == *to));
            assert(forall|k2: K|
                g0.has_vertex(k2) ==> #[trigger] g2.neighbors_of(k2) == g0.neighbors_of(k2));
            assert(g2.neighbors_of(*from) == (
            if g0.has_vertex(*from) {
                g0.neighbors_of(*from)
            } else {
                Seq::<(K, i32)>::empty()
            }));
            assert(*to != *from && !g0.has_vertex(*to) ==> g2.neighbors_of(*to) == Seq::<(K,
                i32,
            )>::empty());
        }
        let i = self.find_index(from).unwrap();
        proof {
            lemma_key_index(g2, i as int);
        }
        let ghost r2 = self.rep();
        self.vertices[i].add_neighbor(to.key_clone(), wt);
        self.edgenums = self.edgenums + 1;
        proof {
            let r3 = self.rep();
            let vv = r3[i as int];
            assert(r3 == r2.update(i as int, vv));
            assert(vv.spec_key() == *from);
            assert(vv.spec_neighbors() == r2[i as int].spec_neighbors().push((*to, wt)));
            lemma_sum_update(r2, i as int, vv);
            // keys are unchanged index by index, so distinctness and membership carry over
            assert forall|a: int, b: int| 0 <= a < b < r3.len() implies r3[a].spec_key()
                != r3[b].spec_key() by {
                assert(r3[a].spec_key() == r2[a].spec_key());
                assert(r3[b].spec_key() == r2[b].spec_key());
            }
            assert forall|k2: K| #[trigger] self.has_vertex(k2) == g2.has_vertex(k2) by {
                if g2.has_vertex(k2) {
                    let w = choose|w: int| 0 <= w < r2.len() && r2[w].spec_key() == k2;
                    assert(r3[w].spec_key() == k2);
                }
                if self.has_vertex(k2) {
                    let w = choose|w: int| 0 <= w < r3.len() && r3[w].spec_key() == k2;
                    assert(r2[w].spec_key() == k2);
                }
            }
            assert forall|k2: K| g2.has_vertex(k2) && k2 != *from implies #[trigger] self
                .neighbors_of(k2) == g2.neighbors_of(k2) by {
                let w = choose|w: int| 0 <= w < r2.len() && r2[w].spec_key() == k2;
                lemma_key_index(g2, w);
                assert(w != i as int);
                assert(r3[w] == r2[w]);
                lemma_key_index(*self, w);
            }
            lemma_key_index(*self, i as int);
            assert(self.neighbors_of(*from)[self.neighbors_of(*from).len() - 1].0 == *to);
        }
    }

    /// Removes the vertex keyed `key` and returns its pre-removal state, or
    /// `None` (changing nothing) when the key is absent. The removal cascades:
    /// the vertex's own outgoing edges go with it, and every remaining
    /// vertex's edges to `key` are deleted too, so no dangling edge is left
    /// behind and both counters stay exact.
    pub fn remove_vertex(&mut self, key: &K) -> (r: Option<Vertex<K>>)
        requires
            old(self).wf(),
        ensures
            final(self).wf(),
            (r is Some) <==> old(self).has_vertex(*key),
            !old(self).has_vertex(*key) ==> *final(self) == *old(self),
            old(self).has_vertex(*key) ==> (r->0).spec_key() == *key && (r->0).spec_neighbors()
                == old(self).neighbors_of(*key),
            forall|k2: K| #[trigger]
                final(self).has_vertex(k2) == (old(self).has_vertex(k2) && k2 != *key),
            old(self).has_vertex(*key) ==> (forall|k2: K|
                k2 != *key && old(self).has_vertex(k2) ==> #[trigger] final(self).neighbors_of(k2)
                    == crate::vertex::drop_key(old(self).neighbors_of(k2), *key)),
            old(self).has_vertex(*key) ==> final(self).spec_vertex_count() == old(
                self,
            ).spec_vertex_count() - 1,
            old(self).has_vertex(*key) ==> final(self).spec_edge_count() + old(self).neighbors_of(
                *key,
            ).len() <= old(self).spec_edge_count(),
    {
        let found = self.find_index(key);
        if found.is_none() {
            return None;
        }
        let i = found.unwrap();
        let ghost r0 = old(self).rep();
        proof {
            lemma_key_index(*old(self), i as int);
            lemma_sum_remove(r0, i as int);
        }
        let v = self.vertices.remove(i);
        self.vertnums = self.vertices.len();
        let deg = v.neighbor_len();
        self.edgenums = self.edgenums - deg;
        let ghost m = self.rep();
        proof {
            assert(forall|t: int|
                0 <= t < m.len() ==> m[t] == (
                if t < i as int {
                    r0[t]
                } else {
                    r0[t + 1]
                }));
            assert forall|a: int, b: int| 0 <= a < b < m.len() implies m[a].spec_key()
                != m[b].spec_key() by {}
        }
        let n = self.vertices.len();
        let mut j: usize = 0;
        while j < n
            invariant
                n == m.len(),
                j <= n,
                self.rep().len() == m.len(),
                self.vertnums == self.rep().len(),
                self.edgenums == sum_out_degrees(self.rep()),
                forall|t: int|
                    0 <= t < j ==> #[trigger] self.rep()[t].spec_key() == m[t].spec_key()
                        && self.rep()[t].spec_neighbors() == crate::vertex::drop_key(
                        m[t].spec_neighbors(),
                        *key,
                    ),
                forall|t: int| j <= t < m.len() ==> self.rep()[t] == m[t],
            decreases n - j,
        {
            let ghost repj = self.rep();
            proof {
                lemma_sum_index_bound(repj, j as int);
            }
            let removed_cnt = self.vertices[j].remove_neighbors_to(key);
            proof {
                let vv = self.rep()[j as int];
                assert(self.rep() == repj.update(j as int, vv));
                lemma_sum_update(repj, j as int, vv);
            }
            self.edgenums = self.edgenums - removed_cnt;
            j = j + 1;
        }
        proof {
            let rf = self.rep();
            // keys survive unchanged, so distinctness and membership follow
            assert forall|a: int, b: int| 0 <= a < b < rf.len() implies rf[a].spec_key()
                != rf[b].spec_key() by {
                assert(rf[a].spec_key() == m[a].spec_key());
                assert(rf[b].spec_key() == m[b].spec_key());
            }
            assert(self.wf());
            assert forall|t: int| 0 <= t < rf.len() implies rf[t].spec_neighbors().len()
                <= m[t].spec_neighbors().len() by {
                assert(rf[t].spec_key() == m[t].spec_key());
                crate::vertex::lemma_drop_key_len(m[t].spec_neighbors(), *key);
            }
            lemma_sum_pointwise_le(rf, m);
            assert forall|k2: K| #[trigger]
                self.has_vertex(k2) == (old(self).has_vertex(k2) && k2 != *key) by {
                if self.has_vertex(k2) {
                    let w = choose|w: int| 0 <= w < rf.len() && rf[w].spec_key() == k2;
                    assert(rf[w].spec_key() == m[w].spec_key());
                    if w < i as int {
                        assert(r0[w].spec_key() == k2);
                        assert(r0[w].spec_key() != r0[i as int].spec_key());
                    } else {
                        assert(r0[w + 1].spec_key() == k2);
                        assert(r0[i as int].spec_key() != r0[w + 1].spec_key());
                    }
                }
                if old(self).has_vertex(k2) && k2 != *key {
                    let w = choose|w: int| 0 <= w < r0.len() && r0[w].spec_key() == k2;
                    assert(w != i as int);
                    if w < i as int {
                        assert(rf[w].spec_key() == m[w].spec_key() && m[w] == r0[w]);
                    } else {
                        assert(rf[w - 1].spec_key() == m[w - 1].spec_key() && m[w - 1] == r0[w]);
                    }
                }
            }
            assert forall|k2: K| k2 != *key && old(self).has_vertex(k2) implies #[trigger] self
                .neighbors_of(k2) == crate::vertex::drop_key(
                old(self).neighbors_of(k2),
                *key,
            ) by {
                let w = choose|w: int| 0 <= w < r0.len() && r0[w].spec_key() == k2;
                lemma_key_index(*old(self), w);
                assert(w != i as int);
                let wf_idx = if w < i as int {
                    w
                } else {
                    w - 1
                };
                assert(m[wf_idx] == r0[w]);
                assert(rf[wf_idx].spec_key() == k2);
                assert(rf[wf_idx].spec_neighbors() == crate::vertex::drop_key(
                    r0[w].spec_neighbors(),
                    *key,
                ));
                lemma_key_index(*self, wf_idx);
            }
        }
        Some(v)
    }
}

} // verus!
