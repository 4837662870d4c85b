use crate::graph::{has_edge, Graph, GraphView, Vertex, VertexIdx};
use std::collections::VecDeque;
use vstd::prelude::*;

verus! {

/// How far the search has come with a vertex.
#[derive(Clone, Copy, PartialEq, Eq, Debug, Structural)]
pub enum Color {
    /// Not reached.
    Unvisited,
    /// Reached and waiting in the queue.
    Frontier,
    /// Reached, with every edge that leaves it followed.
    Settled,
}

/// What the search knows of a vertex, mathematically.
pub struct EnhancedWeightView<V> {
    pub parent: Option<VertexIdx>,
    pub distance: u32,
    pub color: Color,
    pub weight: V,
}

/// The payload of a vertex together with what the search found out about the vertex.
pub struct EnhancedWeight<V> {
    parent: Option<VertexIdx>,
    distance: u32,
    color: Color,
    weight: V,
}

impl<V> View for EnhancedWeight<V> {
    type V = EnhancedWeightView<V>;

    closed spec fn view(&self) -> EnhancedWeightView<V> {
        EnhancedWeightView {
            parent: self.parent,
            distance: self.distance,
            color: self.color,
            weight: self.weight,
        }
    }
}

impl<V> EnhancedWeight<V> {
    /// The vertex from which this one was reached, if it was reached from another.
    pub fn parent(&self) -> (parent: Option<VertexIdx>)
        ensures
            parent == self@.parent,
    {
        self.parent
    }

    /// The number of edges on a shortest way from the source, or `u32::MAX` where there is no
    /// way.
    pub fn distance(&self) -> (distance: u32)
        ensures
            distance == self@.distance,
    {
        self.distance
    }

    pub fn weight(&self) -> (weight: &V)
        ensures
            *weight == self@.weight,
    {
        &self.weight
    }

    pub fn into_weight(self) -> (weight: V)
        ensures
            weight == self@.weight,
    {
        self.weight
    }
}

/// `walk` leads through `g` from vertex to vertex along its edges.
pub open spec fn is_walk<V, E>(g: GraphView<V, E>, walk: Seq<VertexIdx>) -> bool {
    &&& walk.len() > 0
    &&& forall|i: int| 0 <= i < walk.len() ==> g.contains_key(#[trigger] walk[i])
    &&& forall|i: int| 0 <= i < walk.len() - 1 ==> has_edge(g, #[trigger] walk[i], walk[i + 1])
}

/// There is a walk through `g` from `from` to `to` that takes `steps` edges.
pub open spec fn has_walk<V, E>(
    g: GraphView<V, E>,
    from: VertexIdx,
    to: VertexIdx,
    steps: int,
) -> bool {
    exists|walk: Seq<VertexIdx>|
        #[trigger] is_walk(g, walk) && walk.first() == from && walk.last() == to && walk.len()
            == steps + 1
}

/// `to` can be reached from `from` in `g`.
pub open spec fn reachable<V, E>(g: GraphView<V, E>, from: VertexIdx, to: VertexIdx) -> bool {
    exists|steps: int| #[trigger] has_walk(g, from, to, steps)
}

/// The shortest walks through `g` from `from` to `to` take `steps` edges.
pub open spec fn is_distance<V, E>(
    g: GraphView<V, E>,
    from: VertexIdx,
    to: VertexIdx,
    steps: int,
) -> bool {
    &&& has_walk(g, from, to, steps)
    &&& forall|fewer: int| fewer < steps ==> !#[trigger] has_walk(g, from, to, fewer)
}

/// The graph `found` of a search has the vertices of `g` with their payloads, and those edges
/// of `g` that lead to a vertex of `g`, with their weights.
pub open spec fn same_shape<'a, V, E>(
    g: GraphView<V, E>,
    found: GraphView<EnhancedWeight<&'a V>, &'a E>,
) -> bool {
    &&& found.dom() == g.dom()
    &&& forall|idx: VertexIdx| #[trigger]
        g.contains_key(idx) ==> *found[idx].weight@.weight == g[idx].weight
    &&& forall|from: VertexIdx, to: VertexIdx| #[trigger]
        has_edge(found, from, to) <==> has_edge(g, from, to) && g.contains_key(to)
    &&& forall|from: VertexIdx, to: VertexIdx| #[trigger]
        has_edge(found, from, to) ==> *found[from].edges[to] == g[from].edges[to]
}

/// What a vertex holds when the search begins: the source waits in the queue at distance
/// zero, every other vertex is unvisited at the distance that stands for "no way".
pub open spec fn initial_weight<'a, V>(weight: &'a V, is_source: bool) -> EnhancedWeightView<
    &'a V,
> {
    if is_source {
        EnhancedWeightView { parent: None, distance: 0, color: Color::Frontier, weight }
    } else {
        EnhancedWeightView { parent: None, distance: u32::MAX, color: Color::Unvisited, weight }
    }
}

/// What the search from `src` through `g` leaves at the vertex `idx` of `found`.
///
/// A vertex that can be reached is settled, at the number of edges of a shortest walk from
/// the source. The source has no parent; another vertex that can be reached has a parent one
/// edge nearer to the source, from which an edge leads to it. A vertex that cannot be reached
/// is as the search found it: unvisited, without a parent, at distance `u32::MAX`.
pub open spec fn searched_at<'a, V, E>(
    g: GraphView<V, E>,
    src: VertexIdx,
    found: GraphView<EnhancedWeight<&'a V>, &'a E>,
    idx: VertexIdx,
) -> bool {
    let at = found[idx].weight@;
    if reachable(g, src, idx) {
        &&& at.color == Color::Settled
        &&& at.distance < u32::MAX
        &&& is_distance(g, src, idx, at.distance as int)
        &&& idx == src ==> at.parent is None
        &&& idx != src ==> (at.parent matches Some(parent) && g.contains_key(parent) && has_edge(
            g,
            parent,
            idx,
        ) && found[parent].weight@.distance + 1 == at.distance)
    } else {
        &&& at.color == Color::Unvisited
        &&& at.distance == u32::MAX
        &&& at.parent is None
    }
}

/// `found` is what the search from `src` through `g` comes to.
pub open spec fn searched<'a, V, E>(
    g: GraphView<V, E>,
    src: VertexIdx,
    found: GraphView<EnhancedWeight<&'a V>, &'a E>,
) -> bool {
    &&& same_shape(g, found)
    &&& forall|idx: VertexIdx| #[trigger] g.contains_key(idx) ==> searched_at(g, src, found, idx)
}

/// Puts every vertex of `graph` into the state in which the search from `src_vertex_idx`
/// begins, and keeps the edges that lead to a vertex of `graph`.
fn prepare<'a, V, E>(graph: &'a Graph<V, E>, src_vertex_idx: VertexIdx) -> (prepared: Graph<
    EnhancedWeight<&'a V>,
    &'a E,
>)
    ensures
        prepared.counter() == graph.counter(),
        same_shape(graph@, prepared@),
        forall|idx: VertexIdx| #[trigger]
            graph@.contains_key(idx) ==> prepared@[idx].weight@ == initial_weight(
                &graph@[idx].weight,
                idx == src_vertex_idx,
            ),
{
    let vertex_map = |idx: VertexIdx| -> (weight: Option<EnhancedWeight<&'a V>>)
        ensures
            graph@.contains_key(idx) ==> weight is Some && weight->0@ == initial_weight(
                &graph@[idx].weight,
                idx == src_vertex_idx,
            ),
            !graph@.contains_key(idx) ==> weight is None,
        {
            match graph.get_vertex(idx) {
                Some(vertex) => Some(
                    if idx == src_vertex_idx {
                        EnhancedWeight {
                            weight: vertex.weight(),
                            color: Color::Frontier,
                            distance: 0,
                            parent: None,
                        }
                    } else {
                        EnhancedWeight {
                            weight: vertex.weight(),
                            color: Color::Unvisited,
                            distance: u32::MAX,
                            parent: None,
                        }
                    },
                ),
                None => None,
            }
        };
    let edge_map = |
        _from: (VertexIdx, &Vertex<EnhancedWeight<&'a V>, &'a E>),
        _to: (VertexIdx, &Vertex<EnhancedWeight<&'a V>, &'a E>),
        edge: &'a E,
    | -> (kept: Option<&'a E>)
        ensures
            kept == Some(edge),
        { Some(edge) };
    let prepared = graph.filter_map(vertex_map, edge_map);
    proof {
        let g = graph@;
        let found = prepared@;
        assert(found.dom() =~= g.dom());
        assert forall|from: VertexIdx, to: VertexIdx| #[trigger]
            has_edge(g, from, to) && g.contains_key(to) implies has_edge(found, from, to)
            && *found[from].edges[to] == g[from].edges[to] by {
            assert(found.contains_key(from) && found.contains_key(to));
        }
    }
    prepared
}

/// The distance that `found` holds for `idx`.
spec fn dist<'a, V, E>(found: GraphView<EnhancedWeight<&'a V>, &'a E>, idx: VertexIdx) -> int {
    found[idx].weight@.distance as int
}

/// A vertex of `found` that the search has reached has what it needs: the source stands at
/// distance zero without a parent, another vertex one edge behind its parent.
spec fn reached_well<'a, V, E>(
    g: GraphView<V, E>,
    src: VertexIdx,
    found: GraphView<EnhancedWeight<&'a V>, &'a E>,
    idx: VertexIdx,
) -> bool {
    let at = found[idx].weight@;
    &&& has_walk(g, src, idx, at.distance as int)
    &&& idx == src ==> at.parent is None && at.distance == 0
    &&& idx != src ==> (at.parent matches Some(parent) && g.contains_key(parent) && has_edge(
        g,
        parent,
        idx,
    ) && dist(found, parent) + 1 == at.distance)
}

/// What holds while the search runs. `order` lists the vertices that have been reached, in
/// the order in which they were reached; the first `settled` of them are settled, the others
/// wait in the queue.
#[verifier::opaque]
spec fn searching<'a, V, E>(
    g: GraphView<V, E>,
    src: VertexIdx,
    found: GraphView<EnhancedWeight<&'a V>, &'a E>,
    order: Seq<VertexIdx>,
    settled: int,
) -> bool {
    &&& same_shape(g, found)
    &&& 0 <= settled <= order.len()
    &&& order.len() > 0
    &&& order[0] == src
    &&& order.no_duplicates()
    &&& forall|i: int| 0 <= i < order.len() ==> g.contains_key(#[trigger] order[i])
    &&& forall|idx: VertexIdx|
        g.contains_key(idx) && !order.contains(idx) ==> (#[trigger] found[idx]).weight@
            == initial_weight(&g[idx].weight, false)
    &&& forall|i: int|
        0 <= i < order.len() ==> {
            &&& found[#[trigger] order[i]].weight@.color == if i < settled {
                Color::Settled
            } else {
                Color::Frontier
            }
            &&& dist(found, order[i]) <= i
            &&& reached_well(g, src, found, order[i])
        }
    &&& forall|i: int, j: int|
        0 <= i <= j < order.len() ==> dist(found, #[trigger] order[i]) <= dist(
            found,
            #[trigger] order[j],
        )
    &&& settled < order.len() ==> dist(found, order.last()) <= dist(found, order[settled]) + 1
    &&& forall|i: int, to: VertexIdx|
        0 <= i < settled && #[trigger] has_edge(g, order[i], to) && g.contains_key(to)
            ==> followed(found, order, order[i], to)
}

/// The edge from `from` to `to` has been followed: `to` has been reached, and stands no more
/// than one edge behind `from`.
spec fn followed<'a, V, E>(
    found: GraphView<EnhancedWeight<&'a V>, &'a E>,
    order: Seq<VertexIdx>,
    from: VertexIdx,
    to: VertexIdx,
) -> bool {
    order.contains(to) && dist(found, to) <= dist(found, from) + 1
}

/// A list without repetitions of vertices of a graph is no longer than the graph has
/// vertices.
proof fn lemma_order_fits<V, E>(g: GraphView<V, E>, order: Seq<VertexIdx>)
    requires
        g.dom().finite(),
        order.no_duplicates(),
        forall|i: int| 0 <= i < order.len() ==> g.contains_key(#[trigger] order[i]),
    ensures
        order.len() <= g.len(),
{
    order.unique_seq_to_set();
    assert(order.to_set().subset_of(g.dom())) by {
        assert forall|idx: VertexIdx| order.to_set().contains(idx) implies g.dom().contains(
            idx,
        ) by {
            let i = choose|i: int| 0 <= i < order.len() && order[i] == idx;
            assert(g.contains_key(order[i]));
        }
    }
    vstd::set_lib::lemma_len_subset(order.to_set(), g.dom());
}

/// A walk that has come to `from` in `steps` edges goes on over the edge to `to`.
proof fn lemma_walk_on<V, E>(
    g: GraphView<V, E>,
    src: VertexIdx,
    from: VertexIdx,
    to: VertexIdx,
    steps: int,
)
    requires
        has_walk(g, src, from, steps),
        has_edge(g, from, to),
        g.contains_key(to),
    ensures
        has_walk(g, src, to, steps + 1),
{
    let walk = choose|walk: Seq<VertexIdx>|
        #[trigger] is_walk(g, walk) && walk.first() == src && walk.last() == from && walk.len()
            == steps + 1;
    let longer = walk.push(to);
    assert forall|i: int| 0 <= i < longer.len() - 1 implies has_edge(
        g,
        #[trigger] longer[i],
        longer[i + 1],
    ) by {
        if i < walk.len() - 1 {
            assert(has_edge(g, walk[i], walk[i + 1]));
        }
    }
    assert forall|i: int| 0 <= i < longer.len() implies g.contains_key(#[trigger] longer[i]) by {
        if i < walk.len() {
            assert(g.contains_key(walk[i]));
        }
    }
    assert(is_walk(g, longer) && longer.first() == src && longer.last() == to);
}

/// The walk of no edge from a vertex to itself.
proof fn lemma_walk_none<V, E>(g: GraphView<V, E>, src: VertexIdx)
    requires
        g.contains_key(src),
    ensures
        has_walk(g, src, src, 0),
{
    let walk = seq![src];
    assert(is_walk(g, walk) && walk.first() == src && walk.last() == src);
}

/// Once every vertex that was reached is settled, the search has reached every vertex on a
/// walk from the source, and holds for it no more than the number of edges up to it.
proof fn lemma_walk_is_reached<'a, V, E>(
    g: GraphView<V, E>,
    src: VertexIdx,
    found: GraphView<EnhancedWeight<&'a V>, &'a E>,
    order: Seq<VertexIdx>,
    walk: Seq<VertexIdx>,
    k: int,
)
    requires
        searching(g, src, found, order, order.len() as int),
        is_walk(g, walk),
        walk.first() == src,
        0 <= k < walk.len(),
    ensures
        order.contains(walk[k]),
        dist(found, walk[k]) <= k,
    decreases k,
{
    reveal(searching);
    if k == 0 {
        assert(order[0] == src);
        assert(reached_well(g, src, found, order[0]));
    } else {
        lemma_walk_is_reached(g, src, found, order, walk, k - 1);
        let i = choose|i: int| 0 <= i < order.len() && order[i] == walk[k - 1];
        assert(has_edge(g, walk[k - 1], walk[k - 1 + 1]));
        assert(g.contains_key(walk[k]));
        assert(has_edge(g, order[i], walk[k]));
        assert(followed(found, order, order[i], walk[k]));
    }
}

/// Once every vertex that was reached is settled, the search is done.
proof fn lemma_search_done<'a, V, E>(
    g: GraphView<V, E>,
    src: VertexIdx,
    found: GraphView<EnhancedWeight<&'a V>, &'a E>,
    order: Seq<VertexIdx>,
)
    requires
        searching(g, src, found, order, order.len() as int),
        g.dom().finite(),
        g.len() < u32::MAX,
    ensures
        searched(g, src, found),
{
    reveal(searching);
    assert forall|idx: VertexIdx| #[trigger] g.contains_key(idx) implies searched_at(
        g,
        src,
        found,
        idx,
    ) by {
        let at = found[idx].weight@;
        if order.contains(idx) {
            let i = choose|i: int| 0 <= i < order.len() && order[i] == idx;
            assert(reached_well(g, src, found, order[i]));
            assert(reachable(g, src, idx)) by {
                assert(has_walk(g, src, idx, at.distance as int));
            }
            lemma_order_fits(g, order);
            assert(dist(found, order[i]) <= i);
            assert forall|fewer: int| fewer < at.distance implies !#[trigger] has_walk(
                g,
                src,
                idx,
                fewer,
            ) by {
                if has_walk(g, src, idx, fewer) {
                    let walk = choose|walk: Seq<VertexIdx>|
                        #[trigger] is_walk(g, walk) && walk.first() == src && walk.last() == idx
                            && walk.len() == fewer + 1;
                    lemma_walk_is_reached(g, src, found, order, walk, fewer);
                }
            }
        } else {
            if reachable(g, src, idx) {
                let steps = choose|steps: int| #[trigger] has_walk(g, src, idx, steps);
                let walk = choose|walk: Seq<VertexIdx>|
                    #[trigger] is_walk(g, walk) && walk.first() == src && walk.last() == idx
                        && walk.len() == steps + 1;
                lemma_walk_is_reached(g, src, found, order, walk, steps);
            }
        }
    }
}

/// `later` is `earlier` but for the vertex `idx`, whose edges and payload are as before and
/// at which the search now holds `parent`, `distance` and `color`.
spec fn marked<'a, V, E>(
    earlier: GraphView<EnhancedWeight<&'a V>, &'a E>,
    later: GraphView<EnhancedWeight<&'a V>, &'a E>,
    idx: VertexIdx,
    parent: Option<VertexIdx>,
    distance: u32,
    color: Color,
) -> bool {
    &&& earlier.contains_key(idx)
    &&& later.dom() == earlier.dom()
    &&& forall|other: VertexIdx|
        other != idx && earlier.contains_key(other) ==> #[trigger] later[other] == earlier[other]
    &&& later[idx].edges == earlier[idx].edges
    &&& later[idx].weight@ == (EnhancedWeightView {
        parent,
        distance,
        color,
        weight: earlier[idx].weight@.weight,
    })
}

/// Marking a vertex leaves the shape of the graph as it is.
proof fn lemma_marked_shape<'a, V, E>(
    g: GraphView<V, E>,
    earlier: GraphView<EnhancedWeight<&'a V>, &'a E>,
    later: GraphView<EnhancedWeight<&'a V>, &'a E>,
    idx: VertexIdx,
    parent: Option<VertexIdx>,
    distance: u32,
    color: Color,
)
    requires
        same_shape(g, earlier),
        marked(earlier, later, idx, parent, distance, color),
    ensures
        same_shape(g, later),
{
    assert forall|from: VertexIdx, to: VertexIdx| #[trigger]
        has_edge(later, from, to) <==> has_edge(g, from, to) && g.contains_key(to) by {
        assert(has_edge(later, from, to) == has_edge(earlier, from, to)) by {
            if from != idx && earlier.contains_key(from) {
                assert(later[from] == earlier[from]);
            }
        }
    }
    assert forall|from: VertexIdx, to: VertexIdx| #[trigger]
        has_edge(later, from, to) implies *later[from].edges[to] == g[from].edges[to] by {
        if from != idx {
            assert(later[from] == earlier[from]);
        }
        assert(has_edge(earlier, from, to));
    }
    assert forall|other: VertexIdx| #[trigger]
        g.contains_key(other) implies *later[other].weight@.weight == g[other].weight by {
        if other != idx {
            assert(later[other] == earlier[other]);
        }
    }
}

/// The search comes over the edge from the vertex `from`, which it is about to settle, to an
/// unvisited vertex `to`, and puts `to` at the end of the queue.
proof fn lemma_reach<'a, V, E>(
    g: GraphView<V, E>,
    src: VertexIdx,
    earlier: GraphView<EnhancedWeight<&'a V>, &'a E>,
    later: GraphView<EnhancedWeight<&'a V>, &'a E>,
    order: Seq<VertexIdx>,
    settled: int,
    to: VertexIdx,
)
    requires
        g.dom().finite(),
        g.len() < u32::MAX,
        searching(g, src, earlier, order, settled),
        settled < order.len(),
        has_edge(g, order[settled], to),
        g.contains_key(to),
        earlier[to].weight@.color == Color::Unvisited,
        dist(earlier, order[settled]) + 1 <= u32::MAX,
        marked(
            earlier,
            later,
            to,
            Some(order[settled]),
            (dist(earlier, order[settled]) + 1) as u32,
            Color::Frontier,
        ),
    ensures
        searching(g, src, later, order.push(to), settled),
        followed(later, order.push(to), order[settled], to),
        forall|other: VertexIdx| #[trigger]
            followed(earlier, order, order[settled], other) ==> followed(
                later,
                order.push(to),
                order[settled],
                other,
            ),
{
    reveal(searching);
    let from = order[settled];
    let longer = order.push(to);
    lemma_marked_shape(
        g,
        earlier,
        later,
        to,
        Some(from),
        (dist(earlier, from) + 1) as u32,
        Color::Frontier,
    );
    assert(!order.contains(to)) by {
        if order.contains(to) {
            let i = choose|i: int| 0 <= i < order.len() && order[i] == to;
            assert(earlier[order[i]].weight@.color != Color::Unvisited);
        }
    }
    assert forall|i: int| 0 <= i < order.len() implies later[#[trigger] order[i]]
        == earlier[order[i]] by {
        assert(order[i] != to);
        assert(earlier.contains_key(order[i]));
    }
    assert forall|i: int| 0 <= i < order.len() implies longer[i] == order[i] by {}
    assert(longer.no_duplicates());
    assert forall|idx: VertexIdx| g.contains_key(idx) && !longer.contains(idx) implies (
    #[trigger] later[idx]).weight@ == initial_weight(&g[idx].weight, false) by {
        assert(longer[order.len() as int] == to);
        assert(idx != to);
        assert(!order.contains(idx)) by {
            if order.contains(idx) {
                let i = choose|i: int| 0 <= i < order.len() && order[i] == idx;
                assert(longer[i] == idx);
            }
        }
        assert(later[idx] == earlier[idx]);
    }
    assert(dist(earlier, order[settled]) <= settled);
    assert(reached_well(g, src, earlier, order[settled]));
    lemma_walk_on(g, src, from, to, dist(earlier, from));
    assert(to != src);
    assert forall|i: int| 0 <= i < longer.len() implies {
        &&& later[#[trigger] longer[i]].weight@.color == if i < settled {
            Color::Settled
        } else {
            Color::Frontier
        }
        &&& dist(later, longer[i]) <= i
        &&& reached_well(g, src, later, longer[i])
    } by {
        if i < order.len() {
            assert(later[order[i]] == earlier[order[i]]);
            assert(reached_well(g, src, earlier, order[i]));
            if order[i] != src {
                let parent = earlier[order[i]].weight@.parent->0;
                assert(parent != to);
                assert(later[parent] == earlier[parent]);
            }
        } else {
            assert(longer[i] == to);
            assert(later[from] == earlier[from]);
        }
    }
    assert forall|i: int, j: int| 0 <= i <= j < longer.len() implies dist(
        later,
        #[trigger] longer[i],
    ) <= dist(later, #[trigger] longer[j]) by {
        if j < order.len() {
            assert(dist(earlier, order[i]) <= dist(earlier, order[j]));
        } else if i < order.len() {
            assert(dist(earlier, order[i]) <= dist(earlier, order[order.len() - 1]));
        }
    }
    assert forall|i: int, other: VertexIdx|
        0 <= i < settled && #[trigger] has_edge(g, longer[i], other) && g.contains_key(
            other,
        ) implies followed(later, longer, longer[i], other) by {
        assert(has_edge(g, order[i], other));
        assert(followed(earlier, order, order[i], other));
        let k = choose|k: int| 0 <= k < order.len() && order[k] == other;
        assert(longer[k] == other);
    }
    assert(longer[order.len() as int] == to);
    assert forall|other: VertexIdx| #[trigger]
        followed(earlier, order, order[settled], other) implies followed(
        later,
        longer,
        order[settled],
        other,
    ) by {
        let k = choose|k: int| 0 <= k < order.len() && order[k] == other;
        assert(longer[k] == other);
        assert(later[order[k]] == earlier[order[k]]);
    }
}

/// The search comes over the edge from the vertex `from`, which it is about to settle, to a
/// vertex that it has reached before.
proof fn lemma_seen<'a, V, E>(
    g: GraphView<V, E>,
    src: VertexIdx,
    found: GraphView<EnhancedWeight<&'a V>, &'a E>,
    order: Seq<VertexIdx>,
    settled: int,
    to: VertexIdx,
)
    requires
        searching(g, src, found, order, settled),
        settled < order.len(),
        g.contains_key(to),
        found[to].weight@.color != Color::Unvisited,
    ensures
        followed(found, order, order[settled], to),
{
    reveal(searching);
    if !order.contains(to) {
        assert(found[to].weight@ == initial_weight(&g[to].weight, false));
    }
    let k = choose|k: int| 0 <= k < order.len() && order[k] == to;
    assert(dist(found, order[k]) <= dist(found, order[order.len() - 1]));
}

/// The search has followed every edge that leaves the first vertex of the queue, and settles
/// it.
proof fn lemma_settle<'a, V, E>(
    g: GraphView<V, E>,
    src: VertexIdx,
    earlier: GraphView<EnhancedWeight<&'a V>, &'a E>,
    later: GraphView<EnhancedWeight<&'a V>, &'a E>,
    order: Seq<VertexIdx>,
    settled: int,
)
    requires
        searching(g, src, earlier, order, settled),
        settled < order.len(),
        forall|to: VertexIdx| #[trigger]
            has_edge(g, order[settled], to) && g.contains_key(to) ==> followed(
                earlier,
                order,
                order[settled],
                to,
            ),
        marked(
            earlier,
            later,
            order[settled],
            earlier[order[settled]].weight@.parent,
            earlier[order[settled]].weight@.distance,
            Color::Settled,
        ),
    ensures
        searching(g, src, later, order, settled + 1),
{
    reveal(searching);
    let at = order[settled];
    lemma_marked_shape(
        g,
        earlier,
        later,
        at,
        earlier[at].weight@.parent,
        earlier[at].weight@.distance,
        Color::Settled,
    );
    assert forall|idx: VertexIdx| g.contains_key(idx) implies dist(later, idx) == dist(
        earlier,
        idx,
    ) && (#[trigger] later[idx]).weight@.parent == earlier[idx].weight@.parent by {
        if idx != at {
            assert(later[idx] == earlier[idx]);
        }
    }
    assert forall|idx: VertexIdx| g.contains_key(idx) && !order.contains(idx) implies (
    #[trigger] later[idx]).weight@ == initial_weight(&g[idx].weight, false) by {
        assert(idx != at);
        assert(later[idx] == earlier[idx]);
    }
    assert forall|i: int| 0 <= i < order.len() implies {
        &&& later[#[trigger] order[i]].weight@.color == if i < settled + 1 {
            Color::Settled
        } else {
            Color::Frontier
        }
        &&& dist(later, order[i]) <= i
        &&& reached_well(g, src, later, order[i])
    } by {
        assert(reached_well(g, src, earlier, order[i]));
        if i != settled {
            assert(order[i] != at);
            assert(later[order[i]] == earlier[order[i]]);
        }
        if order[i] != src {
            let parent = earlier[order[i]].weight@.parent->0;
            assert(dist(later, parent) == dist(earlier, parent));
        }
    }
    assert forall|i: int, j: int| 0 <= i <= j < order.len() implies dist(
        later,
        #[trigger] order[i],
    ) <= dist(later, #[trigger] order[j]) by {
        assert(dist(earlier, order[i]) <= dist(earlier, order[j]));
    }
    if settled + 1 < order.len() {
        assert(dist(earlier, order[settled]) <= dist(earlier, order[settled + 1]));
    }
    assert forall|i: int, to: VertexIdx|
        0 <= i < settled + 1 && #[trigger] has_edge(g, order[i], to) && g.contains_key(
            to,
        ) implies followed(later, order, order[i], to) by {
        assert(followed(earlier, order, order[i], to));
    }
}

/// What the search can rely on for the vertex that waits first in the queue.
proof fn lemma_waiting<'a, V, E>(
    g: GraphView<V, E>,
    src: VertexIdx,
    found: GraphView<EnhancedWeight<&'a V>, &'a E>,
    order: Seq<VertexIdx>,
    settled: int,
)
    requires
        g.dom().finite(),
        searching(g, src, found, order, settled),
        settled < order.len(),
    ensures
        same_shape(g, found),
        g.contains_key(order[settled]),
        order.len() <= g.len(),
        forall|to: VertexIdx|
            found[order[settled]].edges.contains_key(to) ==> #[trigger] has_edge(
                g,
                order[settled],
                to,
            ) && g.contains_key(to),
        forall|to: VertexIdx| #[trigger]
            has_edge(g, order[settled], to) && g.contains_key(to)
                ==> found[order[settled]].edges.contains_key(to),
{
    reveal(searching);
    lemma_order_fits(g, order);
    let at = order[settled];
    assert forall|to: VertexIdx| found[at].edges.contains_key(to) implies #[trigger] has_edge(
        g,
        at,
        to,
    ) && g.contains_key(to) by {
        assert(has_edge(found, at, to));
    }
    assert forall|to: VertexIdx| #[trigger]
        has_edge(g, at, to) && g.contains_key(to) implies found[at].edges.contains_key(to) by {
        assert(has_edge(found, at, to));
    }
}

/// Where the search comes upon an unvisited vertex, the distance that it gives to the vertex
/// is below `u32::MAX`.
proof fn lemma_room<'a, V, E>(
    g: GraphView<V, E>,
    src: VertexIdx,
    found: GraphView<EnhancedWeight<&'a V>, &'a E>,
    order: Seq<VertexIdx>,
    settled: int,
    to: VertexIdx,
)
    requires
        g.dom().finite(),
        g.len() < u32::MAX,
        searching(g, src, found, order, settled),
        settled < order.len(),
        g.contains_key(to),
        found[to].weight@.color == Color::Unvisited,
    ensures
        dist(found, order[settled]) + 1 < u32::MAX,
        to != order[settled],
{
    reveal(searching);
    assert(found[order[settled]].weight@.color != Color::Unvisited);
    assert(!order.contains(to)) by {
        if order.contains(to) {
            let i = choose|i: int| 0 <= i < order.len() && order[i] == to;
            assert(found[order[i]].weight@.color != Color::Unvisited);
        }
    }
    assert(order.push(to).no_duplicates());
    lemma_order_fits(g, order.push(to));
    assert(dist(found, order[settled]) <= settled);
}

/// The state in which the search begins.
proof fn lemma_begin<'a, V, E>(
    g: GraphView<V, E>,
    src: VertexIdx,
    found: GraphView<EnhancedWeight<&'a V>, &'a E>,
)
    requires
        g.contains_key(src),
        same_shape(g, found),
        forall|idx: VertexIdx| #[trigger]
            g.contains_key(idx) ==> found[idx].weight@ == initial_weight(
                &g[idx].weight,
                idx == src,
            ),
    ensures
        searching(g, src, found, seq![src], 0),
{
    reveal(searching);
    let order = seq![src];
    lemma_walk_none(g, src);
    assert(order[0] == src);
    assert forall|idx: VertexIdx| g.contains_key(idx) && !order.contains(idx) implies (
    #[trigger] found[idx]).weight@ == initial_weight(&g[idx].weight, false) by {
        assert(idx != src);
    }
}

/// Performs BFS on a graph `graph` with source vertex `src_vertex_idx`.
///
/// Returns `None` if the source vertex doesn't exist in the graph. Otherwise the graph that is
/// returned has every vertex of `graph`, under its ID, with its payload and with what the
/// search found; the graph counts identifiers on where `graph` stands.
///
/// A distance is kept in 32 bits, with `u32::MAX` set aside for "no way": the graph has fewer
/// vertices than that.
pub fn breadth_first_search<'a, V, E>(graph: &'a Graph<V, E>, src_vertex_idx: VertexIdx) -> (found:
    Option<Graph<EnhancedWeight<&'a V>, &'a E>>)
    requires
        graph@.len() < u32::MAX,
    ensures
        found is Some <==> graph@.contains_key(src_vertex_idx),
        found matches Some(result) ==> {
            &&& searched(graph@, src_vertex_idx, result@)
            &&& result.counter() == graph.counter()
            &&& result.wf()
        },
{
    broadcast use Graph::lemma_finite;

    let mut graph_found = prepare(graph, src_vertex_idx);
    let ghost g = graph@;

    if graph_found.get_vertex(src_vertex_idx).is_none() {
        return None;
    }
    let mut queue: VecDeque<VertexIdx> = VecDeque::new();
    queue.push_back(src_vertex_idx);
    let mut neighbors_cache: Vec<VertexIdx> = Vec::new();
    let ghost mut order: Seq<VertexIdx> = seq![src_vertex_idx];
    let ghost mut settled: int = 0;
    proof {
        lemma_begin(g, src_vertex_idx, graph_found@);
        assert(queue@ =~= order.subrange(settled, order.len() as int));
    }

    loop
        invariant
            g == graph@,
            g.dom().finite(),
            g.len() < u32::MAX,
            graph_found.counter() == graph.counter(),
            searching(g, src_vertex_idx, graph_found@, order, settled),
            0 <= settled <= order.len() <= g.len(),
            queue@ == order.subrange(settled, order.len() as int),
        ensures
            settled == order.len(),
        decreases g.len() - settled,
    {
        let vertex_idx = match queue.pop_front() {
            Some(vertex_idx) => vertex_idx,
            None => {
                break ;
            },
        };
        proof {
            assert(vertex_idx == order[settled]);
            lemma_waiting(g, src_vertex_idx, graph_found@, order, settled);
        }
        let vertex = graph_found.get_vertex(vertex_idx)?;
        let vertex_distance = vertex.weight().distance;

        // The neighbors are noted down by their identifiers before any of them is written to:
        // the vertex cannot be read while another is being changed.
        neighbors_cache.clear();
        let neighbors = vertex.neighbors();
        let mut n: usize = 0;
        while n < neighbors.len()
            invariant
                n <= neighbors.len(),
                neighbors_cache@ == neighbors@.map_values(
                    |neighbor: (VertexIdx, &&'a E)| neighbor.0,
                ).take(n as int),
            decreases neighbors.len() - n,
        {
            neighbors_cache.push(neighbors[n].0);
            proof {
                let ids = neighbors@.map_values(|neighbor: (VertexIdx, &&'a E)| neighbor.0);
                assert(ids.take(n + 1) =~= ids.take(n as int).push(ids[n as int]));
            }
            n += 1;
        }
        proof {
            let ids = neighbors@.map_values(|neighbor: (VertexIdx, &&'a E)| neighbor.0);
            assert(ids.take(ids.len() as int) =~= ids);
            assert(neighbors_cache@.to_set() == graph_found@[vertex_idx].edges.dom());
            assert forall|b: int| 0 <= b < neighbors_cache.len() implies has_edge(
                g,
                vertex_idx,
                #[trigger] neighbors_cache[b],
            ) && g.contains_key(neighbors_cache[b]) by {
                assert(neighbors_cache@.to_set().contains(neighbors_cache[b]));
            }
            assert forall|to: VertexIdx| #[trigger]
                has_edge(g, vertex_idx, to) && g.contains_key(to) implies neighbors_cache@.contains(
                to,
            ) by {
                assert(neighbors_cache@.to_set().contains(to));
            }
            assert(queue@ =~= order.subrange(settled + 1, order.len() as int));
        }

        let mut c: usize = 0;
        while c < neighbors_cache.len()
            invariant
                c <= neighbors_cache.len(),
                g == graph@,
                g.dom().finite(),
                g.len() < u32::MAX,
                graph_found.counter() == graph.counter(),
                searching(g, src_vertex_idx, graph_found@, order, settled),
                0 <= settled < order.len() <= g.len(),
                graph_found@.dom() == g.dom(),
                vertex_idx == order[settled],
                vertex_distance == dist(graph_found@, vertex_idx),
                queue@ == order.subrange(settled + 1, order.len() as int),
                forall|b: int|
                    0 <= b < neighbors_cache.len() ==> has_edge(
                        g,
                        vertex_idx,
                        #[trigger] neighbors_cache[b],
                    ) && g.contains_key(neighbors_cache[b]),
                forall|b: int|
                    0 <= b < c ==> followed(
                        graph_found@,
                        order,
                        vertex_idx,
                        #[trigger] neighbors_cache[b],
                    ),
            decreases neighbors_cache.len() - c,
        {
            let neighbor_idx = neighbors_cache[c];
            let ghost earlier = graph_found@;
            let ghost unvisited = earlier[neighbor_idx].weight@.color == Color::Unvisited;
            proof {
                assert(g.contains_key(neighbors_cache[c as int]));
                if unvisited {
                    lemma_room(g, src_vertex_idx, earlier, order, settled, neighbor_idx);
                }
            }
            let neighbor = graph_found.get_mut_vertex(neighbor_idx)?;
            let neighbor_weight = neighbor.weight_mut();

            if neighbor_weight.color == Color::Unvisited {
                neighbor_weight.distance = vertex_distance + 1;
                neighbor_weight.parent = Some(vertex_idx);
                neighbor_weight.color = Color::Frontier;

                queue.push_back(neighbor_idx);
            }
            proof {
                let later = graph_found@;
                if unvisited {
                    assert(later.dom() =~= earlier.dom());
                    assert(marked(
                        earlier,
                        later,
                        neighbor_idx,
                        Some(vertex_idx),
                        (vertex_distance + 1) as u32,
                        Color::Frontier,
                    ));
                    lemma_reach(g, src_vertex_idx, earlier, later, order, settled, neighbor_idx);
                    assert(order.push(neighbor_idx).subrange(
                        settled + 1,
                        order.len() as int + 1,
                    ) =~= order.subrange(settled + 1, order.len() as int).push(neighbor_idx));
                    assert(order.push(neighbor_idx)[settled] == order[settled]);
                    assert(neighbor_idx != vertex_idx);
                    assert(later[vertex_idx] == earlier[vertex_idx]);
                    lemma_waiting(g, src_vertex_idx, later, order.push(neighbor_idx), settled);
                    order = order.push(neighbor_idx);
                } else {
                    assert(later =~= earlier);
                    lemma_seen(g, src_vertex_idx, earlier, order, settled, neighbor_idx);
                }
            }
            c += 1;
        }

        let ghost earlier = graph_found@;
        graph_found.get_mut_vertex(vertex_idx)?.weight_mut().color = Color::Settled;
        proof {
            let later = graph_found@;
            assert forall|to: VertexIdx| #[trigger]
                has_edge(g, vertex_idx, to) && g.contains_key(to) implies followed(
                earlier,
                order,
                vertex_idx,
                to,
            ) by {
                let b = choose|b: int| 0 <= b < neighbors_cache.len() && neighbors_cache[b] == to;
                assert(followed(earlier, order, vertex_idx, neighbors_cache[b]));
            }
            assert(later.dom() =~= earlier.dom());
            assert(marked(
                earlier,
                later,
                vertex_idx,
                earlier[vertex_idx].weight@.parent,
                earlier[vertex_idx].weight@.distance,
                Color::Settled,
            ));
            lemma_settle(g, src_vertex_idx, earlier, later, order, settled);
            settled = settled + 1;
        }
    }
    proof {
        lemma_search_done(g, src_vertex_idx, graph_found@, order);
    }

    Some(graph_found)
}

} // verus!
