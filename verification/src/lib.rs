//! A directed, weighted graph stored as adjacency lists.
//!
//! A [`graph::Graph`] maps keys to [`vertex::Vertex`] values; each vertex
//! carries its outgoing edges as a sequence of `(target key, weight)` pairs in
//! insertion order. Parallel edges and self-loops are permitted. Removing a
//! vertex cascades: every edge pointing at the removed key is deleted as well,
//! so the maintained vertex and edge counters stay exact.

pub mod graph;
pub mod key;
pub mod laws;
pub mod vertex;
