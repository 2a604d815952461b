use adjacency_graph::graph::Graph;
use adjacency_graph::graph::GraphError;
use adjacency_graph::vertex::Vertex;

#[test]
fn fresh_graph_is_empty() {
    let g: Graph<u64> = Graph::new();
    assert_eq!(g.vertex_num(), 0);
    assert_eq!(g.edge_num(), 0);
    assert!(g.is_empty());
}

#[test]
fn add_vertex_then_contains() {
    let mut g: Graph<u64> = Graph::new();
    assert!(!g.contains(&7));
    assert_eq!(g.add_vertex(&7), Ok(()));
    assert!(g.contains(&7));
    assert_eq!(g.vertex_num(), 1);
    assert_eq!(g.edge_num(), 0);
    assert!(!g.is_empty());
}

#[test]
fn duplicate_vertex_rejected_and_graph_unchanged() {
    let mut g: Graph<u64> = Graph::new();
    g.add_edge(&1, &2, 10);
    assert_eq!(g.add_vertex(&1), Err(GraphError::DuplicateVertex));
    // the rejected insertion changed nothing: the edge and counters survive
    assert_eq!(g.vertex_num(), 2);
    assert_eq!(g.edge_num(), 1);
    assert_eq!(g.adjacent(&1, &2), Ok(true));
    let v = g.get_vertex(&1).unwrap();
    assert_eq!(v.get_nbr_weight(&2), Some(10));
}

#[test]
fn edge_into_empty_graph_creates_both_vertices() {
    let mut g: Graph<u64> = Graph::new();
    g.add_edge(&1, &2, 5);
    assert!(g.contains(&1));
    assert!(g.contains(&2));
    assert_eq!(g.adjacent(&1, &2), Ok(true));
    assert_eq!(g.adjacent(&2, &1), Ok(false));
    assert_eq!(g.vertex_num(), 2);
    assert_eq!(g.edge_num(), 1);
}

#[test]
fn cascading_removal_strips_incoming_and_outgoing_edges() {
    let mut g: Graph<u64> = Graph::new();
    g.add_edge(&1, &2, 1); // a -> b
    g.add_edge(&3, &2, 2); // c -> b
    g.add_edge(&2, &1, 3); // b -> a
    assert_eq!(g.vertex_num(), 3);
    assert_eq!(g.edge_num(), 3);

    let removed = g.remove_vertex(&2).unwrap();
    assert_eq!(*removed.key(), 2);
    assert_eq!(removed.get_neighbors(), vec![1]);
    assert_eq!(removed.get_nbr_weight(&1), Some(3));

    // edge_count dropped by 3: b's one outgoing edge plus both incoming ones
    assert_eq!(g.edge_num(), 0);
    assert_eq!(g.vertex_num(), 2);
    assert_eq!(g.adjacent(&1, &2), Ok(false));
    assert_eq!(g.adjacent(&3, &2), Ok(false));
    assert!(g.contains(&1));
    assert!(g.contains(&3));
    assert!(!g.contains(&2));
}

#[test]
fn parallel_edges_are_counted_separately() {
    let mut g: Graph<u64> = Graph::new();
    g.add_edge(&1, &2, 1);
    g.add_edge(&1, &2, 2);
    assert_eq!(g.edge_num(), 2);
    let v = g.get_vertex(&1).unwrap();
    // the first matching entry in insertion order decides the weight
    assert_eq!(v.get_nbr_weight(&2), Some(1));
    assert_eq!(v.get_neighbors(), vec![2, 2]);
}

#[test]
fn self_loop_is_a_normal_edge() {
    let mut g: Graph<u64> = Graph::new();
    g.add_edge(&4, &4, 5);
    assert_eq!(g.adjacent(&4, &4), Ok(true));
    assert_eq!(g.edge_num(), 1);
    assert_eq!(g.vertex_num(), 1);
    let v = g.get_vertex(&4).unwrap();
    assert_eq!(v.get_nbr_weight(&4), Some(5));
}

#[test]
fn removing_an_absent_key_changes_nothing() {
    let mut g: Graph<u64> = Graph::new();
    g.add_edge(&1, &2, 5);
    assert!(g.remove_vertex(&9).is_none());
    assert_eq!(g.vertex_num(), 2);
    assert_eq!(g.edge_num(), 1);
    assert_eq!(g.adjacent(&1, &2), Ok(true));
}

#[test]
fn adjacency_with_missing_source_is_an_error() {
    let mut g: Graph<u64> = Graph::new();
    g.add_vertex(&1).unwrap();
    assert_eq!(g.adjacent(&9, &1), Err(GraphError::VertexNotFound));
    // a missing target is no error: the stored edges simply decide
    assert_eq!(g.adjacent(&1, &9), Ok(false));
}

#[test]
fn missing_neighbor_is_distinguishable_from_zero_weight() {
    let mut g: Graph<u64> = Graph::new();
    g.add_edge(&1, &2, 0);
    let v = g.get_vertex(&1).unwrap();
    assert_eq!(v.get_nbr_weight(&2), Some(0));
    assert_eq!(v.get_nbr_weight(&3), None);
}

#[test]
fn negative_weights_are_allowed() {
    let mut g: Graph<i64> = Graph::new();
    g.add_edge(&-1, &-2, -30);
    assert_eq!(g.adjacent(&-1, &-2), Ok(true));
    let v = g.get_vertex(&-1).unwrap();
    assert_eq!(v.get_nbr_weight(&-2), Some(-30));
}

#[test]
fn vertex_keys_lists_every_key_once() {
    let mut g: Graph<u64> = Graph::new();
    g.add_vertex(&3).unwrap();
    g.add_vertex(&1).unwrap();
    g.add_edge(&1, &2, 9);
    let mut keys = g.vertex_keys();
    keys.sort();
    assert_eq!(keys, vec![1, 2, 3]);
}

#[test]
fn get_vertex_absent_is_none() {
    let g: Graph<u64> = Graph::new();
    assert!(g.get_vertex(&5).is_none());
}

#[test]
fn vertex_api_stores_edges_in_insertion_order() {
    let mut v: Vertex<u64> = Vertex::new(1);
    assert_eq!(*v.key(), 1);
    assert!(!v.adjacent_key(&2));
    v.add_neighbor(2, 10);
    v.add_neighbor(3, 20);
    v.add_neighbor(2, 30);
    assert!(v.adjacent_key(&2));
    assert!(v.adjacent_key(&3));
    assert!(!v.adjacent_key(&4));
    assert_eq!(v.neighbor_len(), 3);
    assert_eq!(v.get_neighbors(), vec![2, 3, 2]);
    assert_eq!(v.get_nbr_weight(&2), Some(10));
    assert_eq!(v.get_nbr_weight(&3), Some(20));
}

#[test]
fn remove_neighbors_to_removes_every_match() {
    let mut v: Vertex<u64> = Vertex::new(1);
    v.add_neighbor(2, 10);
    v.add_neighbor(3, 20);
    v.add_neighbor(2, 30);
    let removed = v.remove_neighbors_to(&2);
    assert_eq!(removed, 2);
    assert_eq!(v.get_neighbors(), vec![3]);
    assert_eq!(*v.key(), 1);
}

#[test]
fn counters_stay_exact_over_a_mixed_sequence() {
    let mut g: Graph<u64> = Graph::new();
    g.add_vertex(&1).unwrap();
    assert_eq!((g.vertex_num(), g.edge_num()), (1, 0));
    g.add_edge(&1, &2, 1);
    assert_eq!((g.vertex_num(), g.edge_num()), (2, 1));
    g.add_edge(&2, &3, 2);
    g.add_edge(&3, &1, 3);
    g.add_edge(&1, &1, 4);
    assert_eq!((g.vertex_num(), g.edge_num()), (3, 4));
    g.remove_vertex(&1).unwrap();
    // removed: 1->2, 1->1 (outgoing) and 3->1 (incoming)
    assert_eq!((g.vertex_num(), g.edge_num()), (2, 1));
    g.remove_vertex(&2).unwrap();
    // removed: 2->3, the only remaining edge
    assert_eq!((g.vertex_num(), g.edge_num()), (1, 0));
    g.remove_vertex(&3).unwrap();
    assert_eq!((g.vertex_num(), g.edge_num()), (0, 0));
    assert!(g.is_empty());
}

#[test]
fn other_integer_key_types_work() {
    let mut gi: Graph<i32> = Graph::new();
    gi.add_edge(&-5, &6, 1);
    assert_eq!(gi.adjacent(&-5, &6), Ok(true));

    let mut gu: Graph<usize> = Graph::new();
    gu.add_edge(&5, &6, 1);
    assert_eq!(gu.vertex_num(), 2);
    assert_eq!(gu.adjacent(&5, &6), Ok(true));
}
