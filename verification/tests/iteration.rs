use badlgorithms::graph::{Graph, VertexIdx};
use std::collections::HashSet;

fn triangle() -> (Graph<u32, u32>, [VertexIdx; 3]) {
    let mut graph = Graph::<u32, u32>::new();
    let a = graph.insert_vertex(10);
    let b = graph.insert_vertex(20);
    let c = graph.insert_vertex(30);
    graph.insert_or_update_edges(vec![(a, b, 1), (b, c, 2), (c, a, 3)]);
    (graph, [a, b, c])
}

#[test]
fn vertices_iter_visits_each_vertex_once() {
    let (graph, [a, b, c]) = triangle();
    let mut vertices = graph.vertices_iter();
    assert_eq!(vertices.len(), 3);
    let mut seen = Vec::new();
    while let Some((idx, vertex)) = vertices.next() {
        seen.push((idx, *vertex.weight()));
    }
    assert_eq!(vertices.len(), 0);
    assert!(vertices.next().is_none());
    seen.sort();
    assert_eq!(seen, vec![(a, 10), (b, 20), (c, 30)]);
    // the graph is as it was
    assert_eq!(graph.len(), 3);
}

#[test]
fn vertices_iter_of_empty_graph() {
    let graph = Graph::<u8, u8>::new();
    let mut vertices = graph.vertices_iter();
    assert_eq!(vertices.len(), 0);
    assert!(vertices.next().is_none());
}

#[test]
fn vertices_iter_len_counts_down() {
    let (graph, _) = triangle();
    let mut vertices = graph.vertices_iter();
    assert_eq!(vertices.len(), 3);
    assert!(vertices.next().is_some());
    assert_eq!(vertices.len(), 2);
    assert!(vertices.next().is_some());
    assert_eq!(vertices.len(), 1);
    assert!(vertices.next().is_some());
    assert_eq!(vertices.len(), 0);
}

#[test]
fn vertices_iter_mut_changes_every_vertex() {
    let (mut graph, [a, b, c]) = triangle();
    {
        let mut vertices = graph.vertices_iter_mut();
        assert_eq!(vertices.len(), 3);
        let mut ids = HashSet::new();
        while let Some((idx, vertex)) = vertices.next() {
            assert!(ids.insert(idx));
            *vertex.weight_mut() += 1;
            for (_, edge) in vertex.neighbors_mut() {
                *edge *= 10;
            }
        }
        assert_eq!(ids, HashSet::from([a, b, c]));
        assert_eq!(vertices.len(), 0);
    }
    assert_eq!(*graph.get_vertex(a).expect("a").weight(), 11);
    assert_eq!(*graph.get_vertex(b).expect("b").weight(), 21);
    assert_eq!(*graph.get_vertex(c).expect("c").weight(), 31);
    assert_eq!(graph.remove_edge(a, b), Some(10));
    assert_eq!(graph.remove_edge(b, c), Some(20));
    assert_eq!(graph.remove_edge(c, a), Some(30));
    assert_eq!(graph.len(), 3);
}

#[test]
fn into_vertices_iter_hands_the_vertices_over() {
    let (graph, [a, b, c]) = triangle();
    let mut vertices = graph.into_vertices_iter();
    assert_eq!(vertices.len(), 3);
    let mut seen = Vec::new();
    while let Some((idx, vertex)) = vertices.next() {
        let targets: Vec<(VertexIdx, u32)> =
            vertex.neighbors().into_iter().map(|(to, e)| (to, *e)).collect();
        seen.push((idx, targets, vertex.into_weight()));
    }
    assert!(vertices.next().is_none());
    seen.sort();
    assert_eq!(
        seen,
        vec![(a, vec![(b, 1)], 10), (b, vec![(c, 2)], 20), (c, vec![(a, 3)], 30)]
    );
}
