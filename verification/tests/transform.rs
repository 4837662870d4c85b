use badlgorithms::graph::{Graph, IdxCounter, VertexIdx};
use std::collections::HashSet;

fn sample() -> (Graph<u16, u8>, [VertexIdx; 3]) {
    let mut graph = Graph::<u16, u8>::new();
    let a = graph.insert_vertex(3);
    let b = graph.insert_vertex(6);
    let c = graph.insert_vertex(8);
    graph.insert_or_update_edges(vec![(b, c, 2), (c, b, 4), (a, c, 6), (c, a, 3), (b, b, 8)]);
    (graph, [a, b, c])
}

#[test]
fn filter_map_keeps_the_ids_of_surviving_vertices() {
    let (graph, [a, b, c]) = sample();
    let mapped: Graph<String, u8> = graph.filter_map(
        |idx| {
            if idx == a {
                None
            } else {
                Some(format!("v{}", graph.get_vertex(idx)?.weight()))
            }
        },
        |_, _, edge| Some(*edge),
    );
    assert_eq!(mapped.len(), 2);
    assert!(mapped.get_vertex(a).is_none());
    assert_eq!(mapped.get_vertex(b).expect("b").weight(), "v6");
    assert_eq!(mapped.get_vertex(c).expect("c").weight(), "v8");
    // the source is as it was
    assert_eq!(graph.len(), 3);
    assert_eq!(*graph.get_vertex(a).expect("a").weight(), 3);
}

#[test]
fn filter_map_identity_copies_the_graph() {
    let (graph, [a, b, c]) = sample();
    let mut copy: Graph<u16, u8> = graph.filter_map(
        |idx| graph.get_vertex(idx).map(|vertex| *vertex.weight()),
        |_, _, edge| Some(*edge),
    );
    assert_eq!(copy.len(), 3);
    for (idx, weight) in [(a, 3), (b, 6), (c, 8)] {
        assert_eq!(*copy.get_vertex(idx).expect("a vertex of the source").weight(), weight);
    }
    assert_eq!(copy.remove_edge(b, c), Some(2));
    assert_eq!(copy.remove_edge(c, b), Some(4));
    assert_eq!(copy.remove_edge(a, c), Some(6));
    assert_eq!(copy.remove_edge(c, a), Some(3));
    assert_eq!(copy.remove_edge(b, b), Some(8));
    assert_eq!(copy.remove_edge(a, b), None);
}

#[test]
fn filter_map_drops_edges_of_dropped_vertices() {
    let (graph, [a, b, c]) = sample();
    let mut calls = Vec::new();
    let mapped: Graph<(), u8> = graph.filter_map(
        |idx| if idx == c { None } else { Some(()) },
        |(from, _), (to, _), edge| {
            calls.push((from, to, *edge));
            Some(*edge)
        },
    );
    // only the edge between survivors was asked about
    assert_eq!(calls, vec![(b, b, 8)]);
    assert!(mapped.get_vertex(c).is_none());
    assert!(mapped.get_vertex(a).expect("a").neighbors().is_empty());
    let b_targets: HashSet<VertexIdx> =
        mapped.get_vertex(b).expect("b").neighbors().into_iter().map(|(to, _)| to).collect();
    assert_eq!(b_targets, HashSet::from([b]));
}

#[test]
fn filter_map_hands_the_mapped_vertices_to_edge_map() {
    let (graph, [_, b, c]) = sample();
    let mapped: Graph<u16, u16> = graph.filter_map(
        |idx| graph.get_vertex(idx).map(|vertex| vertex.weight() * 10),
        |(_, from), (_, to), edge| Some(from.weight() + to.weight() + u16::from(*edge)),
    );
    let mut mapped = mapped;
    assert_eq!(mapped.remove_edge(b, c), Some(60 + 80 + 2));
    assert_eq!(mapped.remove_edge(c, b), Some(80 + 60 + 4));
    assert_eq!(mapped.remove_edge(b, b), Some(60 + 60 + 8));
}

#[test]
fn filter_map_of_empty_graph_is_empty() {
    let graph = Graph::<u8, u8>::new();
    let mapped: Graph<u8, u8> = graph.filter_map(|_| Some(1), |_, _, edge| Some(*edge));
    assert!(mapped.is_empty());
}

#[test]
fn filter_map_result_counts_identifiers_on() {
    let counter = IdxCounter::starting_at(10).expect("a counter position");
    let mut graph = Graph::<u8, u8>::with_counter(counter);
    let a = graph.insert_vertex(1);
    let b = graph.insert_vertex(2);
    let mut mapped: Graph<u8, u8> = graph.filter_map(|_| Some(0), |_, _, edge| Some(*edge));
    let fresh = mapped.insert_vertex(3);
    assert_eq!(fresh.index(), 12);
    assert!(fresh != a && fresh != b);
    assert_eq!(mapped.len(), 3);
}
