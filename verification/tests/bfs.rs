use badlgorithms::graph::algo::bfs::breadth_first_search;
use badlgorithms::graph::{Graph, VertexIdx};
use std::collections::HashSet;

#[test]
fn bfs_distances_and_parents() {
    let mut graph = Graph::<char, ()>::new();
    let a = graph.insert_vertex('A');
    let b = graph.insert_vertex('B');
    let c = graph.insert_vertex('C');
    let d = graph.insert_vertex('D');
    graph.insert_or_update_edges(vec![
        (a, b, ()),
        (a, c, ()),
        (c, a, ()),
        (d, a, ()),
        (d, b, ()),
        (d, d, ()),
    ]);

    let found = breadth_first_search(&graph, a).expect("the source is in the graph");
    assert_eq!(found.len(), 4);

    let at = |idx: VertexIdx| found.get_vertex(idx).expect("a vertex of the graph").weight();
    assert_eq!(at(a).distance(), 0);
    assert_eq!(at(b).distance(), 1);
    assert_eq!(at(c).distance(), 1);
    assert_eq!(at(d).distance(), u32::MAX);
    assert_eq!(at(a).parent(), None);
    assert_eq!(at(b).parent(), Some(a));
    assert_eq!(at(c).parent(), Some(a));
    assert_eq!(at(d).parent(), None);
    assert_eq!(**at(a).weight(), 'A');
    assert_eq!(**at(d).weight(), 'D');
}

#[test]
fn bfs_without_the_source_returns_none() {
    let mut graph = Graph::<u8, u8>::new();
    let a = graph.insert_vertex(1);
    let gone = graph.insert_vertex(2);
    graph.remove_vertex(gone);
    assert!(breadth_first_search(&graph, gone).is_none());
    assert!(breadth_first_search(&graph, a).is_some());
    let empty = Graph::<u8, u8>::new();
    assert!(breadth_first_search(&empty, a).is_none());
}

#[test]
fn bfs_leaves_isolated_vertex_at_the_sentinel() {
    let mut graph = Graph::<u8, u8>::new();
    let source = graph.insert_vertex(1);
    let near = graph.insert_vertex(2);
    let alone = graph.insert_vertex(3);
    let upstream = graph.insert_vertex(4);
    graph.insert_or_update_edges(vec![(source, near, 0), (upstream, source, 0)]);
    let found = breadth_first_search(&graph, source).expect("the source is in the graph");
    for idx in [alone, upstream] {
        let weight = found.get_vertex(idx).expect("a vertex of the graph").weight();
        assert_eq!(weight.distance(), u32::MAX);
        assert_eq!(weight.parent(), None);
    }
    assert_eq!(found.get_vertex(near).expect("near").weight().distance(), 1);
}

#[test]
fn bfs_takes_the_shortest_way() {
    // a chain 0 -> 1 -> 2 -> 3 -> 4 with a shortcut 0 -> 3
    let mut graph = Graph::<u8, u8>::new();
    let ids: Vec<VertexIdx> = (0..5).map(|weight| graph.insert_vertex(weight)).collect();
    graph.insert_or_update_edges(vec![
        (ids[0], ids[1], 0),
        (ids[1], ids[2], 0),
        (ids[2], ids[3], 0),
        (ids[3], ids[4], 0),
        (ids[0], ids[3], 0),
    ]);
    let found = breadth_first_search(&graph, ids[0]).expect("the source is in the graph");
    let distance = |k: usize| found.get_vertex(ids[k]).expect("a vertex").weight().distance();
    let parent = |k: usize| found.get_vertex(ids[k]).expect("a vertex").weight().parent();
    assert_eq!(distance(0), 0);
    assert_eq!(distance(1), 1);
    assert_eq!(distance(2), 2);
    assert_eq!(distance(3), 1);
    assert_eq!(distance(4), 2);
    assert_eq!(parent(1), Some(ids[0]));
    assert_eq!(parent(2), Some(ids[1]));
    assert_eq!(parent(3), Some(ids[0]));
    assert_eq!(parent(4), Some(ids[3]));
}

#[test]
fn bfs_parent_is_one_step_nearer() {
    // two ways of the same length from the source to `far`
    let mut graph = Graph::<u8, u8>::new();
    let source = graph.insert_vertex(0);
    let left = graph.insert_vertex(1);
    let right = graph.insert_vertex(2);
    let far = graph.insert_vertex(3);
    graph.insert_or_update_edges(vec![
        (source, left, 0),
        (source, right, 0),
        (left, far, 0),
        (right, far, 0),
    ]);
    let found = breadth_first_search(&graph, source).expect("the source is in the graph");
    let weight = found.get_vertex(far).expect("far").weight();
    assert_eq!(weight.distance(), 2);
    let parent = weight.parent().expect("a parent");
    assert!(parent == left || parent == right);
    assert_eq!(found.get_vertex(parent).expect("the parent").weight().distance(), 1);
}

#[test]
fn bfs_keeps_payloads_and_edges() {
    let mut graph = Graph::<String, u32>::new();
    let a = graph.insert_vertex("a".to_string());
    let b = graph.insert_vertex("b".to_string());
    let c = graph.insert_vertex("c".to_string());
    graph.insert_or_update_edges(vec![(a, b, 7), (b, a, 8), (c, c, 9)]);
    let found = breadth_first_search(&graph, a).expect("the source is in the graph");
    let payloads: HashSet<(VertexIdx, String)> = [a, b, c]
        .into_iter()
        .map(|idx| (idx, found.get_vertex(idx).expect("a vertex").weight().weight().to_string()))
        .collect();
    assert_eq!(
        payloads,
        HashSet::from([(a, "a".to_string()), (b, "b".to_string()), (c, "c".to_string())])
    );
    let edges = |idx: VertexIdx| -> Vec<(VertexIdx, u32)> {
        let vertex = found.get_vertex(idx).expect("a vertex");
        vertex.neighbors().into_iter().map(|(to, e)| (to, **e)).collect()
    };
    assert_eq!(edges(a), vec![(b, 7)]);
    assert_eq!(edges(b), vec![(a, 8)]);
    assert_eq!(edges(c), vec![(c, 9)]);
    // the graph that was searched is as it was
    assert_eq!(graph.len(), 3);
    assert_eq!(graph.get_vertex(a).expect("a").weight(), "a");
}

#[test]
fn bfs_into_weight_gives_the_payload() {
    let mut graph = Graph::<u8, u8>::new();
    let a = graph.insert_vertex(5);
    let mut found = breadth_first_search(&graph, a).expect("the source is in the graph");
    let vertex = found.remove_vertex(a).expect("a");
    assert_eq!(*vertex.into_weight().into_weight(), 5);
}

#[test]
fn bfs_from_a_vertex_with_a_loop() {
    let mut graph = Graph::<u8, u8>::new();
    let a = graph.insert_vertex(5);
    graph.insert_or_update_edge(a, a, 1);
    let found = breadth_first_search(&graph, a).expect("the source is in the graph");
    let weight = found.get_vertex(a).expect("a").weight();
    assert_eq!(weight.distance(), 0);
    assert_eq!(weight.parent(), None);
}
