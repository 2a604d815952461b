//! Properties of whole operations, proved once and for all.
//!
//! Each mutating method of [`crate::graph::Graph`] states in its `ensures` how
//! it moves the model — which keys are present, each vertex's edge sequence,
//! and both counters — and that well-formedness (`wf`) is preserved. The
//! lemmas here restate the guarantees that follow for any such transition, so
//! they hold after any sequence of operations starting from `Graph::new`.

use crate::graph::Graph;
use crate::graph::sum_out_degrees;
use crate::vertex::drop_key;
use crate::vertex::lemma_drop_key_clears;
use crate::vertex::seq_has_key;
use vstd::prelude::*;

verus! {

/// The maintained counters agree with the structure: `vertex_count` is the
/// number of stored vertices, whose keys are pairwise distinct (so it counts
/// the distinct keys present), and `edge_count` is the total number of
/// neighbor entries over all vertices. `Graph::new` establishes `wf` and every
/// operation preserves it, so this holds in every reachable state.
pub proof fn lemma_counters_match_structure<K>(g: Graph<K>)
    requires
        g.wf(),
    ensures
        g.spec_vertex_count() == g.rep().len(),
        g.keys_distinct(),
        g.spec_edge_count() == sum_out_degrees(g.rep()),
{
}

/// Adding a vertex under a fresh key makes exactly that key newly present:
/// it was absent before, it is present after, and no other key's presence
/// changes. The hypotheses are what `add_vertex` ensures on a fresh key.
pub proof fn lemma_add_then_contains<K>(pre: Graph<K>, post: Graph<K>, k: K)
    requires
        !pre.has_vertex(k),
        forall|k2: K| #[trigger] post.has_vertex(k2) == (pre.has_vertex(k2) || k2 == k),
    ensures
        post.has_vertex(k),
        forall|k2: K| k2 != k ==> #[trigger] post.has_vertex(k2) == pre.has_vertex(k2),
{
}

/// An edge added to an empty graph implicitly creates both (distinct)
/// endpoints: afterwards both are present, `from` is adjacent to `to`, and the
/// counters read two vertices and one edge. The hypotheses are what
/// `add_edge` ensures when the graph was empty.
pub proof fn lemma_edge_into_empty<K>(pre: Graph<K>, post: Graph<K>, a: K, b: K, w: i32)
    requires
        pre.wf(),
        pre.spec_vertex_count() == 0,
        a != b,
        forall|k2: K| #[trigger] post.has_vertex(k2) == (pre.has_vertex(k2) || k2 == a || k2 == b),
        post.neighbors_of(a) == (
        if pre.has_vertex(a) {
            pre.neighbors_of(a)
        } else {
            Seq::<(K, i32)>::empty()
        }).push((b, w)),
        post.spec_edge_count() == pre.spec_edge_count() + 1,
        post.spec_vertex_count() == pre.spec_vertex_count() + (
        if pre.has_vertex(a) {
            0int
        } else {
            1int
        }) + (
        if b == a || pre.has_vertex(b) {
            0int
        } else {
            1int
        }),
    ensures
        post.has_vertex(a),
        post.has_vertex(b),
        post.spec_adjacent(a, b),
        post.spec_vertex_count() == 2,
        post.spec_edge_count() == 1,
{
    assert(pre.rep().len() == 0);
    assert(!pre.has_vertex(a) && !pre.has_vertex(b));
    assert(post.neighbors_of(a)[0] == (b, w));
    assert(seq_has_key(post.neighbors_of(a), b));
}

/// Cascading removal is complete: once `k` is removed, `k` is no longer
/// present and no remaining vertex keeps an edge to `k`. The hypotheses are
/// what `remove_vertex` ensures on a present key.
pub proof fn lemma_removal_clears_incoming<K>(pre: Graph<K>, post: Graph<K>, k: K)
    requires
        pre.has_vertex(k),
        forall|k2: K| #[trigger] post.has_vertex(k2) == (pre.has_vertex(k2) && k2 != k),
        forall|k2: K|
            k2 != k && pre.has_vertex(k2) ==> #[trigger] post.neighbors_of(k2) == drop_key(
                pre.neighbors_of(k2),
                k,
            ),
    ensures
        !post.has_vertex(k),
        forall|k2: K| post.has_vertex(k2) ==> !(#[trigger] post.spec_adjacent(k2, k)),
{
    assert forall|k2: K| post.has_vertex(k2) implies !(#[trigger] post.spec_adjacent(k2, k)) by {
        lemma_drop_key_clears(pre.neighbors_of(k2), k);
    }
}

/// A self-loop is an ordinary edge: after `add_edge(a, a, w)` the vertex is
/// adjacent to itself (the edge counter rose by one by `add_edge`'s own
/// guarantee). The hypotheses are what `add_edge` ensures with both endpoints
/// equal.
pub proof fn lemma_self_loop<K>(pre: Graph<K>, post: Graph<K>, a: K, w: i32)
    requires
        post.has_vertex(a),
        post.neighbors_of(a) == (
        if pre.has_vertex(a) {
            pre.neighbors_of(a)
        } else {
            Seq::<(K, i32)>::empty()
        }).push((a, w)),
    ensures
        post.spec_adjacent(a, a),
{
    let nb = post.neighbors_of(a);
    assert(nb[nb.len() - 1].0 == a);
}

} // verus!
