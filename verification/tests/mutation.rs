use badlgorithms::graph::{Graph, IdxCounter, Vertex, VertexIdx};
use std::collections::HashSet;

fn neighbor_set<V, E>(vertex: &Vertex<V, E>) -> HashSet<VertexIdx> {
    vertex.neighbors().into_iter().map(|(id, _)| id).collect()
}

fn diamond() -> (Graph<u32, u32>, [VertexIdx; 4]) {
    let mut graph = Graph::<u32, u32>::new();
    let a = graph.insert_vertex(10);
    let b = graph.insert_vertex(20);
    let c = graph.insert_vertex(30);
    let d = graph.insert_vertex(40);
    graph.insert_or_update_edges(vec![
        (a, b, 1),
        (a, c, 2),
        (b, d, 3),
        (c, d, 4),
        (d, a, 5),
        (d, d, 6),
    ]);
    (graph, [a, b, c, d])
}

#[test]
fn new_graph_is_empty() {
    let graph = Graph::<u8, u8>::new();
    assert_eq!(graph.len(), 0);
    assert!(graph.is_empty());
    let by_default: Graph<u8, u8> = Default::default();
    assert_eq!(by_default.len(), 0);
    assert!(by_default.is_empty());
}

#[test]
fn identifiers_count_up_from_zero() {
    let mut graph = Graph::<u8, u8>::new();
    let a = graph.insert_vertex(1);
    let b = graph.insert_vertex(2);
    let c = graph.insert_vertex(3);
    assert_eq!(a.index(), 0);
    assert_eq!(b.index(), 1);
    assert_eq!(c.index(), 2);
    assert!(a < b && b < c);
    assert_eq!(graph.len(), 3);
    assert!(!graph.is_empty());
}

#[test]
fn counter_hands_out_and_advances() {
    let mut counter = IdxCounter::new();
    assert_eq!(counter.position(), 0);
    let first = VertexIdx::new(&mut counter);
    assert_eq!(first.index(), 0);
    assert_eq!(counter.position(), 1);
    let second = VertexIdx::new(&mut counter);
    assert_eq!(second.index(), 1);
    assert_eq!(counter.position(), 2);
    assert_ne!(first, second);
}

#[test]
fn counter_wraps_to_zero() {
    let mut counter = IdxCounter::starting_at(usize::MAX - 1).expect("a counter position");
    let last = VertexIdx::new(&mut counter);
    assert_eq!(last.index(), usize::MAX - 1);
    assert_eq!(counter.position(), 0);
    let again = VertexIdx::new(&mut counter);
    assert_eq!(again.index(), 0);
    assert_eq!(counter.position(), 1);
}

#[test]
fn counter_does_not_start_at_max() {
    assert!(IdxCounter::starting_at(usize::MAX).is_none());
    let counter = IdxCounter::starting_at(7).expect("a counter position");
    assert_eq!(counter.position(), 7);
}

#[test]
fn graph_with_counter_starts_there() {
    let counter = IdxCounter::starting_at(41).expect("a counter position");
    let mut graph = Graph::<u8, u8>::with_counter(counter);
    assert!(graph.is_empty());
    let a = graph.insert_vertex(1);
    let b = graph.insert_vertex(2);
    assert_eq!(a.index(), 41);
    assert_eq!(b.index(), 42);
}

#[test]
fn insert_vertex_after_wrap_replaces_vertex() {
    let counter = IdxCounter::starting_at(usize::MAX - 2).expect("a counter position");
    let mut source = Graph::<u8, u8>::with_counter(counter);
    let a = source.insert_vertex(1);
    let b = source.insert_vertex(2);
    assert_eq!(a.index(), usize::MAX - 2);
    assert_eq!(b.index(), usize::MAX - 1);
    // the counter has wrapped: the next identifier is zero
    let c = source.insert_vertex(3);
    assert_eq!(c.index(), 0);
    assert_eq!(source.len(), 3);
}

#[test]
fn get_vertex_of_absent_id_is_none() {
    let mut graph = Graph::<u8, u8>::new();
    let a = graph.insert_vertex(1);
    let mut other = Graph::<u8, u8>::with_counter(IdxCounter::starting_at(100).unwrap());
    let foreign = other.insert_vertex(9);
    assert!(graph.get_vertex(a).is_some());
    assert!(graph.get_vertex(foreign).is_none());
    assert!(graph.get_mut_vertex(foreign).is_none());
    assert_eq!(graph.len(), 1);
}

#[test]
fn get_mut_vertex_changes_the_payload_in_place() {
    let (mut graph, [a, b, c, _]) = diamond();
    *graph.get_mut_vertex(a).expect("a").weight_mut() = 11;
    assert_eq!(*graph.get_vertex(a).expect("a").weight(), 11);
    assert_eq!(*graph.get_vertex(b).expect("b").weight(), 20);
    assert_eq!(neighbor_set(graph.get_vertex(a).expect("a")), HashSet::from([b, c]));
    assert_eq!(graph.len(), 4);
}

#[test]
fn removing_a_vertex_purges_the_edges_to_it() {
    let (mut graph, [a, b, c, d]) = diamond();
    let removed = graph.remove_vertex(d).expect("d");
    // the removed vertex has its own edges still
    assert_eq!(neighbor_set(&removed), HashSet::from([a, d]));
    assert_eq!(removed.into_weight(), 40);

    assert_eq!(graph.len(), 3);
    assert!(graph.get_vertex(d).is_none());
    for u in [a, b, c] {
        let vertex = graph.get_vertex(u).expect("a vertex that was not removed");
        assert!(!vertex.is_adjacent(d));
        assert!(neighbor_set(vertex).iter().all(|to| *to != d));
    }
    for u in [a, b, c, d] {
        assert_eq!(graph.remove_edge(u, d), None);
    }
    // the other edges are as they were
    assert_eq!(neighbor_set(graph.get_vertex(a).expect("a")), HashSet::from([b, c]));
    assert!(neighbor_set(graph.get_vertex(b).expect("b")).is_empty());
    assert!(neighbor_set(graph.get_vertex(c).expect("c")).is_empty());
}

#[test]
fn removing_an_absent_vertex_changes_nothing() {
    let (mut graph, [a, b, c, d]) = diamond();
    assert!(graph.remove_vertex(d).is_some());
    assert!(graph.remove_vertex(d).is_none());
    assert_eq!(graph.len(), 3);
    assert_eq!(neighbor_set(graph.get_vertex(a).expect("a")), HashSet::from([b, c]));
    assert!(graph.get_vertex(c).is_some());
}

#[test]
fn removed_id_can_be_used_again() {
    let (mut graph, [a, _, _, d]) = diamond();
    graph.remove_vertex(d);
    graph.insert_or_update_vertex(44, d);
    let back = graph.get_vertex(d).expect("d");
    assert_eq!(*back.weight(), 44);
    assert!(back.neighbors().is_empty());
    assert!(graph.insert_or_update_edge(a, d, 9).is_some());
    assert!(graph.get_vertex(a).expect("a").is_adjacent(d));
}

#[test]
fn edge_needs_its_target_in_the_graph() {
    let (mut graph, [a, b, _, d]) = diamond();
    graph.remove_vertex(d);
    // `to` is absent, `from` is there
    assert!(graph.insert_or_update_edge(a, d, 1).is_none());
    // both are absent
    assert!(graph.insert_or_update_edge(d, d, 1).is_none());
    // `from` is absent, `to` is there
    assert!(graph.insert_or_update_edge(d, a, 1).is_none());
    assert!(!graph.get_vertex(a).expect("a").is_adjacent(d));
    // both are there
    assert!(graph.insert_or_update_edge(b, a, 1).is_some());
    assert!(graph.get_vertex(b).expect("b").is_adjacent(a));
}

#[test]
fn edge_insertion_chains() {
    let (mut graph, [a, b, c, _]) = diamond();
    let chained = graph
        .insert_or_update_edge(b, a, 7)
        .and_then(|g| g.insert_or_update_edge(c, a, 8))
        .is_some();
    assert!(chained);
    assert_eq!(graph.remove_edge(b, a), Some(7));
    assert_eq!(graph.remove_edge(c, a), Some(8));
}

#[test]
fn inserting_an_edge_twice_overwrites_the_weight() {
    let mut graph = Graph::<u8, u16>::new();
    let a_idx = graph.insert_vertex(10);

    assert!(graph.insert_or_update_edge(a_idx, a_idx, 3).is_some());
    {
        let neighbors = graph.get_vertex(a_idx).expect("a").neighbors();
        assert_eq!(neighbors.len(), 1);
        assert_eq!(neighbors[0].0, a_idx);
        assert_eq!(*neighbors[0].1, 3);
    }

    assert!(graph.insert_or_update_edge(a_idx, a_idx, 50).is_some());
    let neighbors = graph.get_vertex(a_idx).expect("a").neighbors();
    assert_eq!(neighbors.len(), 1);
    assert_eq!(*neighbors[0].1, 50);
}

#[test]
fn batch_insertion_skips_edges_with_a_missing_end() {
    let mut graph = Graph::<u8, u8>::new();
    let a = graph.insert_vertex(1);
    let b = graph.insert_vertex(2);
    let gone = graph.insert_vertex(3);
    graph.remove_vertex(gone);
    graph
        .insert_or_update_edges(vec![(a, gone, 1), (gone, a, 2), (a, b, 3), (gone, gone, 4)])
        .insert_or_update_edges(vec![(b, a, 5), (a, b, 6)]);
    assert_eq!(graph.len(), 2);
    assert_eq!(neighbor_set(graph.get_vertex(a).expect("a")), HashSet::from([b]));
    assert_eq!(neighbor_set(graph.get_vertex(b).expect("b")), HashSet::from([a]));
    // the later edge between the same vertices has overwritten the earlier one
    assert_eq!(graph.remove_edge(a, b), Some(6));
    assert_eq!(graph.remove_edge(b, a), Some(5));
}

#[test]
fn remove_edge_returns_the_weight_once() {
    let (mut graph, [a, b, c, d]) = diamond();
    assert_eq!(graph.remove_edge(a, b), Some(1));
    assert_eq!(graph.remove_edge(a, b), None);
    // an edge that never was
    assert_eq!(graph.remove_edge(b, a), None);
    // the other edges of `a` are there still
    assert_eq!(neighbor_set(graph.get_vertex(a).expect("a")), HashSet::from([c]));
    // absent vertices
    graph.remove_vertex(d);
    assert_eq!(graph.remove_edge(d, a), None);
    assert_eq!(graph.remove_edge(c, d), None);
}

#[test]
fn upsert_of_existing_vertex_keeps_every_edge() {
    let (mut graph, [a, b, c, d]) = diamond();
    graph.insert_or_update_vertex(99, a);
    assert_eq!(graph.len(), 4);
    assert_eq!(*graph.get_vertex(a).expect("a").weight(), 99);
    assert_eq!(neighbor_set(graph.get_vertex(a).expect("a")), HashSet::from([b, c]));
    assert_eq!(neighbor_set(graph.get_vertex(b).expect("b")), HashSet::from([d]));
    assert_eq!(neighbor_set(graph.get_vertex(c).expect("c")), HashSet::from([d]));
    assert_eq!(neighbor_set(graph.get_vertex(d).expect("d")), HashSet::from([a, d]));
    assert_eq!(*graph.get_vertex(b).expect("b").weight(), 20);
    // the edge weights are as they were
    assert_eq!(graph.remove_edge(a, b), Some(1));
    assert_eq!(graph.remove_edge(a, c), Some(2));
    assert_eq!(graph.remove_edge(d, a), Some(5));
}

#[test]
fn upsert_of_new_id_makes_an_isolated_vertex() {
    let mut graph = Graph::<u8, u8>::new();
    let a = graph.insert_vertex(1);
    let mut other = Graph::<u8, u8>::with_counter(IdxCounter::starting_at(500).unwrap());
    let foreign = other.insert_vertex(0);
    graph.insert_or_update_vertex(7, foreign).insert_or_update_vertex(8, foreign);
    assert_eq!(graph.len(), 2);
    let vertex = graph.get_vertex(foreign).expect("the vertex that was upserted");
    assert_eq!(*vertex.weight(), 8);
    assert!(vertex.neighbors().is_empty());
    assert!(!graph.get_vertex(a).expect("a").is_adjacent(foreign));
}

#[test]
fn inserting_and_removing_all_leaves_nothing() {
    for n in [0usize, 1, 2, 17, 100] {
        let mut graph = Graph::<usize, ()>::new();
        let mut ids = Vec::new();
        for weight in 0..n {
            ids.push(graph.insert_vertex(weight));
        }
        assert_eq!(graph.len(), n);
        for (k, from) in ids.iter().enumerate() {
            let to = ids[(k + 1) % n];
            assert!(graph.insert_or_update_edge(*from, to, ()).is_some());
        }
        for (weight, idx) in ids.iter().enumerate() {
            let removed = graph.remove_vertex(*idx).expect("a vertex that was inserted");
            assert_eq!(removed.into_weight(), weight);
        }
        assert_eq!(graph.len(), 0);
        assert!(graph.is_empty());
        for idx in &ids {
            assert!(graph.get_vertex(*idx).is_none());
        }
    }
}

#[test]
fn vertex_accessors() {
    let (mut graph, [a, b, c, _]) = diamond();
    {
        let vertex = graph.get_vertex(a).expect("a");
        assert_eq!(*vertex.weight(), 10);
        assert!(vertex.is_adjacent(b));
        assert!(vertex.is_adjacent(c));
        assert!(!vertex.is_adjacent(a));
        let mut listed: Vec<(VertexIdx, u32)> =
            vertex.neighbors().into_iter().map(|(to, e)| (to, *e)).collect();
        listed.sort();
        assert_eq!(listed, vec![(b, 1), (c, 2)]);
    }
    let vertex = graph.remove_vertex(a).expect("a");
    let mut owned = vertex.into_neighbors();
    owned.sort();
    assert_eq!(owned, vec![(b, 1), (c, 2)]);
}

#[test]
fn neighbors_mut_changes_weights_and_keeps_targets() {
    let (mut graph, [a, b, c, d]) = diamond();
    {
        let vertex = graph.get_mut_vertex(a).expect("a");
        let edges = vertex.neighbors_mut();
        assert_eq!(edges.len(), 2);
        for (to, edge) in edges {
            assert!(to == b || to == c);
            *edge += 100;
        }
    }
    let mut listed: Vec<(VertexIdx, u32)> = graph
        .get_vertex(a)
        .expect("a")
        .neighbors()
        .into_iter()
        .map(|(to, e)| (to, *e))
        .collect();
    listed.sort();
    assert_eq!(listed, vec![(b, 101), (c, 102)]);
    // the other vertices are untouched
    assert_eq!(graph.remove_edge(b, d), Some(3));
    assert_eq!(*graph.get_vertex(a).expect("a").weight(), 10);
}

#[test]
fn neighbors_mut_of_isolated_vertex_is_empty() {
    let mut graph = Graph::<u8, u8>::new();
    let a = graph.insert_vertex(1);
    assert!(graph.get_mut_vertex(a).expect("a").neighbors_mut().is_empty());
    assert!(graph.get_vertex(a).expect("a").neighbors().is_empty());
}
