use std::collections::hash_map::Entry;
use std::collections::HashMap;
use vstd::prelude::*;
use vstd::set_lib::lemma_map_size;

use entries::{idxs_of, lists_each_once, values_mut};
use iter::{IntoVerticesIterator, VerticesIter, VerticesIterMut};
use vstd::std_specs::iter::IteratorSpec;

pub use vertex::{Vertex, VertexView};
pub use vertex_idx::{IdxCounter, VertexIdx};

pub mod algo;
pub mod entries;
pub mod iter;
pub mod laws;
pub mod vertex;
pub mod vertex_idx;

verus! {

broadcast use vstd::std_specs::hash::group_hash_axioms;

/// What a graph is, mathematically: its vertices by identifier.
pub type GraphView<V, E> = Map<VertexIdx, VertexView<V, E>>;

/// There is an edge from `from` to `to` in `g`.
pub open spec fn has_edge<V, E>(g: GraphView<V, E>, from: VertexIdx, to: VertexIdx) -> bool {
    g.contains_key(from) && g[from].edges.contains_key(to)
}

/// Every edge of `g` leads to a vertex of `g`.
pub open spec fn no_dangling_edges<V, E>(g: GraphView<V, E>) -> bool {
    forall|from: VertexIdx, to: VertexIdx| #[trigger] has_edge(g, from, to) ==> g.contains_key(to)
}

/// `g` with the vertex `idx` holding `weight`: a vertex that was there keeps its edges, a new one
/// has none.
pub open spec fn with_vertex<V, E>(g: GraphView<V, E>, idx: VertexIdx, weight: V) -> GraphView<
    V,
    E,
> {
    if g.contains_key(idx) {
        g.insert(idx, g[idx].with_weight(weight))
    } else {
        g.insert(idx, VertexView::isolated(weight))
    }
}

/// `g` without the vertex `idx` and without any edge that led to it.
pub open spec fn without_vertex<V, E>(g: GraphView<V, E>, idx: VertexIdx) -> GraphView<V, E> {
    Map::new(
        |other: VertexIdx| other != idx && g.contains_key(other),
        |other: VertexIdx| g[other].without_edge(idx),
    )
}

/// `g` with an edge from `from` to `to`, in place of the one that was there, if any.
pub open spec fn with_edge<V, E>(
    g: GraphView<V, E>,
    from: VertexIdx,
    to: VertexIdx,
    edge: E,
) -> GraphView<V, E> {
    g.insert(from, g[from].with_edge(to, edge))
}

/// `g` after each edge of `edges` in turn, given as the vertices that it leaves and enters and
/// its weight, has been put in place where both vertices are in `g`, and skipped where not.
pub open spec fn with_edges<V, E>(
    g: GraphView<V, E>,
    edges: Seq<(VertexIdx, VertexIdx, E)>,
) -> GraphView<V, E>
    decreases edges.len(),
{
    if edges.len() == 0 {
        g
    } else {
        let (from, to, edge) = edges.last();
        let before = with_edges(g, edges.drop_last());
        if before.contains_key(from) && before.contains_key(to) {
            with_edge(before, from, to, edge)
        } else {
            before
        }
    }
}

/// `g` without the edge from `from` to `to`.
pub open spec fn without_edge<V, E>(
    g: GraphView<V, E>,
    from: VertexIdx,
    to: VertexIdx,
) -> GraphView<V, E> {
    g.insert(from, g[from].without_edge(to))
}

/// `earlier` is `later` at an earlier stage: with the same payload and with edges of `later`,
/// not all of them perhaps.
pub open spec fn stage_of<V, E>(earlier: VertexView<V, E>, later: VertexView<V, E>) -> bool {
    earlier.weight == later.weight && earlier.edges.submap_of(later.edges)
}

/// The vertices of `mapped` are those vertices of `g` for which `vertex_map` returned a payload,
/// under the same identifiers and with what it returned; for the others it returned `None`.
pub open spec fn vertices_mapped<F, V, E, NV, NE>(
    g: GraphView<V, E>,
    mapped: GraphView<NV, NE>,
    vertex_map: F,
) -> bool where F: FnMut(VertexIdx) -> Option<NV> {
    &&& forall|idx: VertexIdx| #[trigger]
        mapped.contains_key(idx) ==> g.contains_key(idx) && call_ensures(
            vertex_map,
            (idx,),
            Some(mapped[idx].weight),
        )
    &&& forall|idx: VertexIdx| #[trigger]
        g.contains_key(idx) && !mapped.contains_key(idx) ==> call_ensures(
            vertex_map,
            (idx,),
            None,
        )
}

/// `edge_map` returned `result` for the edge `edge` from `from` to `to`, when called with these
/// two vertices as they stood in `mapped` at some stage.
pub open spec fn edge_mapped<'g, G, E, NV, NE>(
    edge_map: G,
    mapped: GraphView<NV, NE>,
    from: VertexIdx,
    to: VertexIdx,
    edge: &'g E,
    result: Option<NE>,
) -> bool where
    G: FnMut((VertexIdx, &Vertex<NV, NE>), (VertexIdx, &Vertex<NV, NE>), &'g E) -> Option<NE>,
 {
    exists|from_vertex: Vertex<NV, NE>, to_vertex: Vertex<NV, NE>|
        {
            &&& stage_of(from_vertex@, mapped[from])
            &&& stage_of(to_vertex@, mapped[to])
            &&& #[trigger] call_ensures(
                edge_map,
                ((from, &from_vertex), (to, &to_vertex), edge),
                result,
            )
        }
}

/// The edges of `mapped` are those edges of `g` between vertices of `mapped` for which
/// `edge_map` returned a weight, with what it returned; for the others between vertices of
/// `mapped` it returned `None`.
pub open spec fn edges_mapped<'g, G, V, E, NV, NE>(
    g: GraphView<V, E>,
    mapped: GraphView<NV, NE>,
    edge_map: G,
) -> bool where
    G: FnMut((VertexIdx, &Vertex<NV, NE>), (VertexIdx, &Vertex<NV, NE>), &'g E) -> Option<NE>,
 {
    &&& forall|from: VertexIdx, to: VertexIdx| #[trigger]
        has_edge(mapped, from, to) ==> has_edge(g, from, to) && mapped.contains_key(to)
    &&& forall|from: VertexIdx, to: VertexIdx| #[trigger]
        has_edge(g, from, to) && mapped.contains_key(from) && mapped.contains_key(to)
            ==> edge_mapped(
            edge_map,
            mapped,
            from,
            to,
            &g[from].edges[to],
            mapped[from].edges.get(to),
        )
}

/// What `edge_map` returned for an edge is what it returned for it at any later stage of the
/// graph that is being built.
proof fn lemma_edge_mapped_later<'g, G, E, NV, NE>(
    edge_map: G,
    before: GraphView<NV, NE>,
    after: GraphView<NV, NE>,
    from: VertexIdx,
    to: VertexIdx,
    edge: &'g E,
    result: Option<NE>,
) where
    G: FnMut((VertexIdx, &Vertex<NV, NE>), (VertexIdx, &Vertex<NV, NE>), &'g E) -> Option<NE>,

    requires
        edge_mapped(edge_map, before, from, to, edge, result),
        stage_of(before[from], after[from]),
        stage_of(before[to], after[to]),
    ensures
        edge_mapped(edge_map, after, from, to, edge, result),
{
    let (from_vertex, to_vertex) = choose|from_vertex: Vertex<NV, NE>, to_vertex: Vertex<NV, NE>|
        {
            &&& stage_of(from_vertex@, before[from])
            &&& stage_of(to_vertex@, before[to])
            &&& #[trigger] call_ensures(
                edge_map,
                ((from, &from_vertex), (to, &to_vertex), edge),
                result,
            )
        };
    lemma_stage_of_later(from_vertex@, before[from], after[from]);
    lemma_stage_of_later(to_vertex@, before[to], after[to]);
}

/// An earlier stage of an earlier stage is an earlier stage.
proof fn lemma_stage_of_later<V, E>(
    first: VertexView<V, E>,
    second: VertexView<V, E>,
    third: VertexView<V, E>,
)
    requires
        stage_of(first, second),
        stage_of(second, third),
    ensures
        stage_of(first, third),
{
    assert forall|k: VertexIdx| #[trigger]
        first.edges.dom().contains(k) implies #[trigger] third.edges.dom().contains(k)
        && first.edges[k] == third.edges[k] by {
        assert(first.edges.submap_of(second.edges));
        assert(second.edges.submap_of(third.edges));
        assert(second.edges.dom().contains(k));
        assert(third.edges.dom().contains(k));
    }
}

/// A directed graph: vertices with a payload each, found by their identifiers, and weighted
/// edges between them, at most one for each ordered pair of vertices.
#[derive(Debug)]
pub struct Graph<V, E> {
    pub(crate) vertices: HashMap<usize, Vertex<V, E>>,
    pub(crate) counter: IdxCounter,
}

impl<V, E> View for Graph<V, E> {
    type V = GraphView<V, E>;

    closed spec fn view(&self) -> GraphView<V, E> {
        vertices_view(self.vertices@)
    }
}

/// The graph that a map of stored vertices stands for.
pub(crate) closed spec fn vertices_view<V, E>(vertices: Map<usize, Vertex<V, E>>) -> GraphView<
    V,
    E,
> {
    Map::new(|idx: VertexIdx| vertices.contains_key(idx.0), |idx: VertexIdx| vertices[idx.0]@)
}

pub(crate) broadcast proof fn lemma_vertices_view_index<V, E>(
    vertices: Map<usize, Vertex<V, E>>,
    idx: VertexIdx,
)
    ensures
        #![trigger vertices_view(vertices).contains_key(idx)]
        #![trigger vertices_view(vertices)[idx]]
        vertices_view(vertices).contains_key(idx) == vertices.contains_key(idx.0),
        vertices.contains_key(idx.0) ==> vertices_view(vertices)[idx] == vertices[idx.0]@,
{
}

pub(crate) broadcast proof fn lemma_vertices_view_empty<V, E>()
    ensures
        #[trigger] vertices_view(Map::<usize, Vertex<V, E>>::empty()) == GraphView::<V, E>::empty(),
{
    assert(vertices_view(Map::<usize, Vertex<V, E>>::empty()) =~= GraphView::<V, E>::empty());
}

pub(crate) broadcast proof fn lemma_vertices_view_insert<V, E>(
    vertices: Map<usize, Vertex<V, E>>,
    k: usize,
    vertex: Vertex<V, E>,
)
    ensures
        #[trigger] vertices_view(vertices.insert(k, vertex)) == vertices_view(vertices).insert(
            VertexIdx(k),
            vertex@,
        ),
{
    assert(vertices_view(vertices.insert(k, vertex)) =~= vertices_view(vertices).insert(
        VertexIdx(k),
        vertex@,
    ));
}

pub(crate) broadcast proof fn lemma_vertices_view_remove<V, E>(
    vertices: Map<usize, Vertex<V, E>>,
    k: usize,
)
    ensures
        #[trigger] vertices_view(vertices.remove(k)) == vertices_view(vertices).remove(
            VertexIdx(k),
        ),
{
    assert(vertices_view(vertices.remove(k)) =~= vertices_view(vertices).remove(VertexIdx(k)));
}

pub(crate) broadcast group group_vertices_view {
    lemma_vertices_view_index,
    lemma_vertices_view_empty,
    lemma_vertices_view_insert,
    lemma_vertices_view_remove,
}

impl<V, E> Default for Graph<V, E> {
    fn default() -> (graph: Self)
        ensures
            graph@ == GraphView::<V, E>::empty(),
            graph.counter()@ == 0,
    {
        Graph::new()
    }
}

impl<V, E> Graph<V, E> {
    /// The counter that `insert_vertex` takes its identifiers from.
    pub closed spec fn counter(&self) -> IdxCounter {
        self.counter
    }

    /// Every vertex of this graph has an identifier that the graph's counter has passed, so
    /// that the next identifier of the counter is not in use.
    pub open spec fn ids_below_counter(&self) -> bool {
        forall|idx: VertexIdx| #[trigger] self@.contains_key(idx) ==> idx@ < self.counter()@
    }

    /// No edge of this graph leads to a vertex that is not in it.
    pub open spec fn wf(&self) -> bool {
        no_dangling_edges(self@)
    }

    /// The vertices are as many as the entries that hold them.
    proof fn lemma_len(&self)
        ensures
            self@.dom().finite(),
            self@.len() == self.vertices@.len(),
    {
        broadcast use group_vertices_view;

        let wrap = |k: usize| VertexIdx(k);
        assert(self.vertices@.dom().map(wrap) =~= self@.dom()) by {
            assert forall|idx: VertexIdx| self@.dom().contains(idx) implies self.vertices@.dom()
                .map(wrap).contains(idx) by {
                assert(self.vertices@.dom().contains(idx.0) && wrap(idx.0) == idx);
            }
        }
        lemma_map_size(self.vertices@.dom(), self@.dom(), wrap);
    }

    /// The vertices of a graph are finitely many.
    pub broadcast proof fn lemma_finite(&self)
        ensures
            #[trigger] self@.dom().finite(),
    {
        self.lemma_len();
    }

    pub fn new() -> (graph: Self)
        ensures
            graph@ == GraphView::<V, E>::empty(),
            graph.counter()@ == 0,
    {
        broadcast use group_vertices_view;

        Self { vertices: HashMap::new(), counter: IdxCounter::new() }
    }

    /// An empty graph that takes the identifiers of its vertices from `counter`.
    pub fn with_counter(counter: IdxCounter) -> (graph: Self)
        ensures
            graph@ == GraphView::<V, E>::empty(),
            graph.counter() == counter,
    {
        broadcast use group_vertices_view;

        Self { vertices: HashMap::new(), counter }
    }

    /// Retrieve an immutable reference to a vertex by its ID in `O(1)`.
    pub fn get_vertex(&self, vertex_idx: VertexIdx) -> (vertex: Option<&Vertex<V, E>>)
        ensures
            match vertex {
                Some(v) => self@.contains_key(vertex_idx) && v@ == self@[vertex_idx],
                None => !self@.contains_key(vertex_idx),
            },
    {
        broadcast use group_vertices_view;

        self.vertices.get(&vertex_idx.0)
    }

    /// Retrieve a mutable reference to a vertex by its ID in `O(1)`.
    ///
    /// Whatever the caller leaves behind the reference is the vertex from then on.
    pub fn get_mut_vertex(&mut self, vertex_idx: VertexIdx) -> (vertex: Option<&mut Vertex<V, E>>)
        ensures
            final(self).counter() == old(self).counter(),
            match vertex {
                Some(v) => {
                    &&& old(self)@.contains_key(vertex_idx)
                    &&& v@ == old(self)@[vertex_idx]
                    &&& final(self)@ == old(self)@.insert(vertex_idx, final(v)@)
                },
                None => !old(self)@.contains_key(vertex_idx) && final(self)@ == old(self)@,
            },
    {
        broadcast use group_vertices_view;

        match self.vertices.entry(vertex_idx.0) {
            Entry::Occupied(entry) => Some(entry.into_mut()),
            Entry::Vacant(_) => {
                assert(old(self).vertices@.remove(vertex_idx.0) =~= old(self).vertices@);
                None
            },
        }
    }

    /// Insert a vertex with weight `V` in `O(1)`. Returns its ID.
    ///
    /// The ID is the next one of the graph's counter. Use [`Self::insert_or_update_edge`] or
    /// [`Self::insert_or_update_edges`] to define its edges.
    pub fn insert_vertex(&mut self, weight: V) -> (idx: VertexIdx)
        ensures
            idx@ == old(self).counter()@,
            final(self).counter()@ == IdxCounter::following(old(self).counter()@),
            final(self)@ == old(self)@.insert(idx, VertexView::isolated(weight)),
            old(self).ids_below_counter() ==> !old(self)@.contains_key(idx),
            old(self).ids_below_counter() && idx@ + 1 < usize::MAX
                ==> final(self).ids_below_counter(),
            old(self).wf() ==> final(self).wf(),
    {
        broadcast use group_vertices_view;

        let idx = VertexIdx::new(&mut self.counter);
        self.vertices.insert(idx.0, Vertex::new(weight));
        proof {
            assert(idx == VertexIdx(idx.0));
            if old(self).wf() {
                assert forall|from: VertexIdx, to: VertexIdx| #[trigger]
                    has_edge(self@, from, to) implies self@.contains_key(to) by {
                    assert(from != idx);
                    assert(has_edge(old(self)@, from, to));
                }
            }
        }
        idx
    }

    /// Insert or update a vertex with weight `V` and a specified ID in `O(1)`. Returns `self`.
    ///
    /// A vertex that is there already keeps its edges.
    pub fn insert_or_update_vertex(&mut self, weight: V, idx: VertexIdx) -> (graph: &mut Self)
        ensures
            graph@ == with_vertex(old(self)@, idx, weight),
            graph.counter() == old(self).counter(),
            old(self).wf() ==> graph.wf(),
            *final(self) == *final(graph),
    {
        broadcast use group_vertices_view;

        match self.vertices.remove(&idx.0) {
            Some(mut vertex) => {
                *vertex.weight_mut() = weight;
                self.vertices.insert(idx.0, vertex);
            },
            None => {
                self.vertices.insert(idx.0, Vertex::new(weight));
            },
        }
        proof {
            assert(idx == VertexIdx(idx.0));
            assert(self@ =~= with_vertex(old(self)@, idx, weight));
            if old(self).wf() {
                assert forall|from: VertexIdx, to: VertexIdx| #[trigger]
                    has_edge(self@, from, to) implies self@.contains_key(to) by {
                    assert(has_edge(old(self)@, from, to));
                }
            }
        }
        self
    }

    /// Remove a vertex by its ID in `O(|V|)`. Returns the [`Vertex`] itself, if it exists.
    ///
    /// The edges that led to the vertex leave with it; the vertex that is returned has its own
    /// edges still.
    pub fn remove_vertex(&mut self, vertex_idx: VertexIdx) -> (removed: Option<Vertex<V, E>>)
        ensures
            final(self).counter() == old(self).counter(),
            match removed {
                Some(vertex) => {
                    &&& old(self)@.contains_key(vertex_idx)
                    &&& vertex@ == old(self)@[vertex_idx]
                    &&& final(self)@ == without_vertex(old(self)@, vertex_idx)
                },
                None => !old(self)@.contains_key(vertex_idx) && final(self)@ == old(self)@,
            },
            removed is Some ==> forall|from: VertexIdx| !has_edge(final(self)@, from, vertex_idx),
            old(self).wf() ==> final(self).wf(),
    {
        broadcast use group_vertices_view;

        let removed_vertex = match self.vertices.remove(&vertex_idx.0) {
            Some(vertex) => vertex,
            None => {
                assert(self.vertices@ =~= old(self).vertices@);
                return None;
            },
        };
        let ghost before = self@;
        let idxs = idxs_of(&self.vertices);
        proof {
            broadcast use entries::group_by_idx;

            assert(idxs@.to_set() =~= before.dom());
        }
        let mut i: usize = 0;
        while i < idxs.len()
            invariant
                i <= idxs.len(),
                self.counter() == old(self).counter(),
                lists_each_once(idxs@, before.dom()),
                self@.dom() == before.dom(),
                forall|j: int|
                    0 <= j < i ==> self@[#[trigger] idxs[j]] == before[idxs[j]].without_edge(
                        vertex_idx,
                    ),
                forall|j: int|
                    i <= j < idxs.len() ==> self@[#[trigger] idxs[j]] == before[idxs[j]],
            decreases idxs.len() - i,
        {
            match self.get_mut_vertex(idxs[i]) {
                Some(vertex) => {
                    vertex.remove_edge(vertex_idx);
                },
                None => {},
            }
            proof {
                assert(idxs@.to_set().contains(idxs[i as int]));
                assert(self@.dom() =~= before.dom());
            }
            i += 1;
        }
        proof {
            assert(vertex_idx == VertexIdx(vertex_idx.0));
            assert(before == old(self)@.remove(vertex_idx));
            assert forall|other: VertexIdx| before.contains_key(other) implies self@[other]
                == before[other].without_edge(vertex_idx) by {
                assert(idxs@.to_set().contains(other));
                let j = choose|j: int| 0 <= j < idxs.len() && idxs[j] == other;
                assert(self@[idxs[j]] == before[idxs[j]].without_edge(vertex_idx));
            }
            assert(self@ =~= without_vertex(old(self)@, vertex_idx));
            if old(self).wf() {
                assert forall|from: VertexIdx, to: VertexIdx| #[trigger]
                    has_edge(self@, from, to) implies self@.contains_key(to) by {
                    assert(has_edge(old(self)@, from, to));
                }
            }
        }
        Some(removed_vertex)
    }

    /// Insert or update an edge from a vertex `from` to a vertex `to` with weight `weight` in
    /// `O(1)`.
    ///
    /// Returns itself to allow for chaining, if the vertices specified exist in this graph.
    /// Where one of them does not, nothing changes and `None` is returned: no edge ever leads
    /// out of the graph.
    pub fn insert_or_update_edge(&mut self, from: VertexIdx, to: VertexIdx, weight: E) -> (graph:
        Option<&mut Self>)
        ensures
            graph is Some <==> old(self)@.contains_key(from) && old(self)@.contains_key(to),
            match graph {
                Some(g) => {
                    &&& g@ == with_edge(old(self)@, from, to, weight)
                    &&& g.counter() == old(self).counter()
                    &&& old(self).wf() ==> g.wf()
                    &&& *final(self) == *final(g)
                },
                None => final(self)@ == old(self)@ && final(self).counter() == old(self).counter(),
            },
    {
        broadcast use group_vertices_view;

        if !self.vertices.contains_key(&to.0) {
            return None;
        }
        match self.get_mut_vertex(from) {
            Some(vertex) => {
                vertex.insert_edge(to, weight);
            },
            None => {
                return None;
            },
        }
        proof {
            if old(self).wf() {
                assert forall|a: VertexIdx, b: VertexIdx| #[trigger]
                    has_edge(self@, a, b) implies self@.contains_key(b) by {
                    if !(a == from && b == to) {
                        assert(has_edge(old(self)@, a, b));
                    }
                }
            }
        }
        Some(self)
    }

    /// A convenient method to insert or update multiple edges of type `(from, to, weight)` in
    /// `O(n)`, where `n` is the length of `edges`.
    ///
    /// An edge between vertices of which one is not in the graph is passed over in silence.
    /// Returns itself to allow for chaining.
    pub fn insert_or_update_edges(&mut self, edges: Vec<(VertexIdx, VertexIdx, E)>) -> (graph:
        &mut Self)
        ensures
            graph@ == with_edges(old(self)@, edges@),
            graph@.dom() == old(self)@.dom(),
            graph.counter() == old(self).counter(),
            old(self).wf() ==> graph.wf(),
            *final(self) == *final(graph),
    {
        let ghost all = edges@;
        for edge in iter: edges
            invariant
                iter.seq() == all,
                self@ == with_edges(old(self)@, all.take(iter.index())),
                self@.dom() == old(self)@.dom(),
                self.counter() == old(self).counter(),
                old(self).wf() ==> self.wf(),
        {
            let ghost done = all.take(iter.index());
            let ghost before = self@;
            let (from, to, weight) = edge;
            let _ = self.insert_or_update_edge(from, to, weight);
            proof {
                let next = all.take(iter.index() + 1);
                assert(next.drop_last() =~= done);
                assert(next.last() == edge);
                assert(self@.dom() =~= before.dom());
            }
        }
        proof {
            assert(all.take(all.len() as int) =~= all);
        }
        self
    }

    /// Remove an edge from a vertex `from` to a vertex `to` in `O(1)`.
    ///
    /// Returns that edge's weight, if it exists.
    pub fn remove_edge(&mut self, from: VertexIdx, to: VertexIdx) -> (removed: Option<E>)
        ensures
            final(self).counter() == old(self).counter(),
            match removed {
                Some(edge) => {
                    &&& has_edge(old(self)@, from, to)
                    &&& edge == old(self)@[from].edges[to]
                    &&& final(self)@ == without_edge(old(self)@, from, to)
                },
                None => !has_edge(old(self)@, from, to) && final(self)@ == old(self)@,
            },
            old(self).wf() ==> final(self).wf(),
    {
        let removed = match self.get_mut_vertex(from) {
            Some(vertex) => vertex.remove_edge(to),
            None => None,
        };
        proof {
            if removed is None {
                if old(self)@.contains_key(from) {
                    assert(old(self)@[from].edges.remove(to) =~= old(self)@[from].edges);
                }
                assert(self@ =~= old(self)@);
            }
            if old(self).wf() {
                assert forall|a: VertexIdx, b: VertexIdx| #[trigger]
                    has_edge(self@, a, b) implies self@.contains_key(b) by {
                    assert(has_edge(old(self)@, a, b));
                }
            }
        }
        removed
    }

    /// Filter and optionally map to new types, vertices and edges of this graph in `O(|V|+|E|)`.
    ///
    /// - `vertex_map`: `|vertex_idx| -> Option<new_vertex_weight>`
    ///     - Return `None` to exclude the vertex with ID `vertex_idx`.
    ///     - The mapped vertex is guaranteed to have the same ID.
    /// - `edge_map`: `|(from_vertex_idx, from_vertex), (to_vertex_idx, to_vertex),
    ///   old_edge_weight| -> Option<new_edge_weight>`
    ///     - It is called only if `vertex_map` returned `Some(_)` for both `from_vertex_idx`
    ///       and `to_vertex_idx`.
    ///     - Return `None` to exclude the edge `(from_vertex_idx, to_vertex_idx)`.
    ///
    /// The new graph goes on counting identifiers where this one stands.
    pub fn filter_map<'g, F, G, NV, NE>(&'g self, mut vertex_map: F, mut edge_map: G) -> (mapped:
        Graph<NV, NE>) where
        F: FnMut(VertexIdx) -> Option<NV>,
        G: FnMut((VertexIdx, &Vertex<NV, NE>), (VertexIdx, &Vertex<NV, NE>), &'g E) -> Option<NE>,

        requires
            forall|idx: VertexIdx| #[trigger]
                self@.contains_key(idx) ==> call_requires(vertex_map, (idx,)),
            forall|
                from: VertexIdx,
                to: VertexIdx,
                from_vertex: Vertex<NV, NE>,
                to_vertex: Vertex<NV, NE>,
            |
                has_edge(self@, from, to) && call_ensures(
                    vertex_map,
                    (from,),
                    Some(from_vertex@.weight),
                ) && call_ensures(vertex_map, (to,), Some(to_vertex@.weight))
                    ==> #[trigger] call_requires(
                    edge_map,
                    ((from, &from_vertex), (to, &to_vertex), &self@[from].edges[to]),
                ),
        ensures
            mapped.counter() == self.counter(),
            vertices_mapped(self@, mapped@, vertex_map),
            edges_mapped(self@, mapped@, edge_map),
            mapped.wf(),
    {
        let ghost vertex_map_given = vertex_map;
        let ghost edge_map_given = edge_map;
        let mut graph: Graph<NV, NE> = Graph::with_counter(self.counter);
        let idxs = idxs_of(&self.vertices);
        proof {
            broadcast use {entries::group_by_idx, group_vertices_view};

            assert(idxs@.to_set() =~= self@.dom());
        }
        let mut i: usize = 0;
        while i < idxs.len()
            invariant
                i <= idxs.len(),
                lists_each_once(idxs@, self@.dom()),
                graph.counter() == self.counter(),
                vertex_map == vertex_map_given,
                forall|idx: VertexIdx| #[trigger]
                    self@.contains_key(idx) ==> call_requires(vertex_map, (idx,)),
                forall|idx: VertexIdx| #[trigger]
                    graph@.contains_key(idx) ==> graph@[idx].edges == Map::<VertexIdx, NE>::empty()
                        && call_ensures(vertex_map, (idx,), Some(graph@[idx].weight))
                        && exists|j: int| 0 <= j < i && idxs[j] == idx,
                forall|j: int|
                    0 <= j < i && !graph@.contains_key(#[trigger] idxs[j]) ==> call_ensures(
                        vertex_map,
                        (idxs[j],),
                        None,
                    ),
            decreases idxs.len() - i,
        {
            let idx = idxs[i];
            assert(idxs@.to_set().contains(idx));
            match vertex_map(idx) {
                Some(new_vertex_weight) => {
                    graph.insert_or_update_vertex(new_vertex_weight, idx);
                },
                None => {},
            }
            i += 1;
        }
        let ghost base = graph@;
        proof {
            assert forall|idx: VertexIdx| #[trigger]
                base.contains_key(idx) implies self@.contains_key(idx) by {
                let j = choose|j: int| 0 <= j < i && idxs[j] == idx;
                assert(idxs@.to_set().contains(idxs[j]));
            }
            assert forall|idx: VertexIdx| #[trigger]
                self@.contains_key(idx) && !base.contains_key(idx) implies call_ensures(
                vertex_map,
                (idx,),
                None,
            ) by {
                assert(idxs@.to_set().contains(idx));
                let j = choose|j: int| 0 <= j < idxs.len() && idxs[j] == idx;
                assert(!base.contains_key(idxs[j]));
            }
            assert(vertices_mapped(self@, base, vertex_map_given));
        }
        let mut i: usize = 0;
        while i < idxs.len()
            invariant
                i <= idxs.len(),
                lists_each_once(idxs@, self@.dom()),
                graph.counter() == self.counter(),
                edge_map == edge_map_given,
                vertices_mapped(self@, graph@, vertex_map_given),
                forall|
                    from: VertexIdx,
                    to: VertexIdx,
                    from_vertex: Vertex<NV, NE>,
                    to_vertex: Vertex<NV, NE>,
                |
                    has_edge(self@, from, to) && call_ensures(
                        vertex_map_given,
                        (from,),
                        Some(from_vertex@.weight),
                    ) && call_ensures(vertex_map_given, (to,), Some(to_vertex@.weight))
                        ==> #[trigger] call_requires(
                        edge_map,
                        ((from, &from_vertex), (to, &to_vertex), &self@[from].edges[to]),
                    ),
                forall|from: VertexIdx, to: VertexIdx| #[trigger]
                    has_edge(graph@, from, to) ==> has_edge(self@, from, to) && graph@.contains_key(
                        to,
                    ) && exists|a: int| 0 <= a < i && idxs[a] == from,
                forall|a: int, to: VertexIdx|
                    0 <= a < i && #[trigger] has_edge(self@, idxs[a], to) && graph@.contains_key(
                        idxs[a],
                    ) && graph@.contains_key(to) ==> edge_mapped(
                        edge_map,
                        graph@,
                        idxs[a],
                        to,
                        &self@[idxs[a]].edges[to],
                        graph@[idxs[a]].edges.get(to),
                    ),
            decreases idxs.len() - i,
        {
            let from_vertex_idx = idxs[i];
            assert(idxs@.to_set().contains(from_vertex_idx));
            if let Some(old_vertex) = self.get_vertex(from_vertex_idx) {
                let neighbors = old_vertex.neighbors();
                let ghost tos = neighbors@.map_values(|n: (VertexIdx, &E)| n.0);
                let mut j: usize = 0;
                while j < neighbors.len()
                    invariant
                        i < idxs.len(),
                        j <= neighbors.len(),
                        from_vertex_idx == idxs[i as int],
                        lists_each_once(idxs@, self@.dom()),
                        tos == neighbors@.map_values(|n: (VertexIdx, &E)| n.0),
                        lists_each_once(tos, self@[from_vertex_idx].edges.dom()),
                        self@.contains_key(from_vertex_idx),
                        forall|b: int|
                            0 <= b < neighbors.len() ==> *(#[trigger] neighbors[b]).1
                                == self@[from_vertex_idx].edges[neighbors[b].0],
                        graph.counter() == self.counter(),
                        edge_map == edge_map_given,
                        vertices_mapped(self@, graph@, vertex_map_given),
                        forall|
                            from: VertexIdx,
                            to: VertexIdx,
                            from_vertex: Vertex<NV, NE>,
                            to_vertex: Vertex<NV, NE>,
                        |
                            has_edge(self@, from, to) && call_ensures(
                                vertex_map_given,
                                (from,),
                                Some(from_vertex@.weight),
                            ) && call_ensures(vertex_map_given, (to,), Some(to_vertex@.weight))
                                ==> #[trigger] call_requires(
                                edge_map,
                                ((from, &from_vertex), (to, &to_vertex), &self@[from].edges[to]),
                            ),
                        forall|from: VertexIdx, to: VertexIdx| #[trigger]
                            has_edge(graph@, from, to) ==> has_edge(self@, from, to)
                                && graph@.contains_key(to) && ((exists|a: int|
                                0 <= a < i && idxs[a] == from) || (from == from_vertex_idx
                                && exists|b: int| 0 <= b < j && tos[b] == to)),
                        forall|a: int, to: VertexIdx|
                            0 <= a < i && #[trigger] has_edge(self@, idxs[a], to)
                                && graph@.contains_key(idxs[a]) && graph@.contains_key(to)
                                ==> edge_mapped(
                                edge_map,
                                graph@,
                                idxs[a],
                                to,
                                &self@[idxs[a]].edges[to],
                                graph@[idxs[a]].edges.get(to),
                            ),
                        forall|b: int|
                            0 <= b < j && graph@.contains_key(from_vertex_idx)
                                && graph@.contains_key(#[trigger] tos[b]) ==> edge_mapped(
                                edge_map,
                                graph@,
                                from_vertex_idx,
                                tos[b],
                                &self@[from_vertex_idx].edges[tos[b]],
                                graph@[from_vertex_idx].edges.get(tos[b]),
                            ),
                    ensures
                        forall|to: VertexIdx| #[trigger]
                            has_edge(self@, from_vertex_idx, to) && graph@.contains_key(
                                from_vertex_idx,
                            ) && graph@.contains_key(to) ==> edge_mapped(
                                edge_map,
                                graph@,
                                from_vertex_idx,
                                to,
                                &self@[from_vertex_idx].edges[to],
                                graph@[from_vertex_idx].edges.get(to),
                            ),
                    decreases neighbors.len() - j,
                {
                    let (to_vertex_idx, old_edge) = neighbors[j];
                    let ghost before = graph@;
                    proof {
                        assert(tos[j as int] == to_vertex_idx);
                        assert(tos.to_set().contains(to_vertex_idx));
                        assert(has_edge(self@, from_vertex_idx, to_vertex_idx));
                        // nothing has been said of this edge yet
                        if has_edge(before, from_vertex_idx, to_vertex_idx) {
                            if exists|a: int| 0 <= a < i && idxs[a] == from_vertex_idx {
                            } else {
                                let b = choose|b: int| 0 <= b < j && tos[b] == to_vertex_idx;
                                assert(tos[b] == tos[j as int]);
                            }
                            assert(false);
                        }
                    }
                    // Skip edges that their `from` part doesn't exist in the new graph
                    let from_vertex = match graph.get_vertex(from_vertex_idx) {
                        Some(vertex) => vertex,
                        None => {
                            break ;
                        },
                    };
                    // Skip edges that their `to` part doesn't exist in the new graph
                    if let Some(to_vertex) = graph.get_vertex(to_vertex_idx) {
                        let new_edge = edge_map(
                            (from_vertex_idx, from_vertex),
                            (to_vertex_idx, to_vertex),
                            old_edge,
                        );
                        let ghost from_then = *from_vertex;
                        let ghost to_then = *to_vertex;
                        proof {
                            assert(call_ensures(
                                edge_map_given,
                                (
                                    (from_vertex_idx, &from_then),
                                    (to_vertex_idx, &to_then),
                                    old_edge,
                                ),
                                new_edge,
                            ));
                        }
                        if let Some(new_edge_weight) = new_edge {
                            let _ = graph.insert_or_update_edge(
                                from_vertex_idx,
                                to_vertex_idx,
                                new_edge_weight,
                            );
                        }
                        proof {
                            let after = graph@;
                            assert(after.dom() =~= before.dom());
                            assert forall|idx: VertexIdx| before.contains_key(idx) implies stage_of(
                                before[idx],
                                #[trigger] after[idx],
                            ) by {}
                            assert(edge_mapped(
                                edge_map,
                                after,
                                from_vertex_idx,
                                to_vertex_idx,
                                old_edge,
                                after[from_vertex_idx].edges.get(to_vertex_idx),
                            ));
                            assert forall|a: int, to: VertexIdx|
                                0 <= a < i && #[trigger] has_edge(self@, idxs[a], to)
                                    && after.contains_key(idxs[a]) && after.contains_key(
                                    to,
                                ) implies edge_mapped(
                                edge_map,
                                after,
                                idxs[a],
                                to,
                                &self@[idxs[a]].edges[to],
                                after[idxs[a]].edges.get(to),
                            ) by {
                                assert(idxs[a] != idxs[i as int]);
                                lemma_edge_mapped_later(
                                    edge_map,
                                    before,
                                    after,
                                    idxs[a],
                                    to,
                                    &self@[idxs[a]].edges[to],
                                    before[idxs[a]].edges.get(to),
                                );
                            }
                            assert forall|b: int|
                                0 <= b < j + 1 && after.contains_key(from_vertex_idx)
                                    && after.contains_key(#[trigger] tos[b]) implies edge_mapped(
                                edge_map,
                                after,
                                from_vertex_idx,
                                tos[b],
                                &self@[from_vertex_idx].edges[tos[b]],
                                after[from_vertex_idx].edges.get(tos[b]),
                            ) by {
                                if b < j {
                                    assert(tos[b] != tos[j as int]);
                                    lemma_edge_mapped_later(
                                        edge_map,
                                        before,
                                        after,
                                        from_vertex_idx,
                                        tos[b],
                                        &self@[from_vertex_idx].edges[tos[b]],
                                        before[from_vertex_idx].edges.get(tos[b]),
                                    );
                                }
                            }
                            assert forall|from: VertexIdx, to: VertexIdx| #[trigger]
                                has_edge(after, from, to) implies has_edge(self@, from, to)
                                && after.contains_key(to) && ((exists|a: int|
                                0 <= a < i && idxs[a] == from) || (from == from_vertex_idx
                                && exists|b: int| 0 <= b < j + 1 && tos[b] == to)) by {
                                if from == from_vertex_idx && to == to_vertex_idx {
                                    assert(tos[j as int] == to);
                                } else {
                                    assert(has_edge(before, from, to));
                                    if from == from_vertex_idx && !(exists|a: int|
                                        0 <= a < i && idxs[a] == from) {
                                        let b = choose|b: int| 0 <= b < j && tos[b] == to;
                                        assert(0 <= b < j + 1 && tos[b] == to);
                                    }
                                }
                            }
                        }
                    }
                    j += 1;
                }
            }
            i += 1;
        }
        graph
    }

    /// The vertices with their identifiers, each once and in no particular order, handed
    /// over.
    pub fn into_vertices_iter(self) -> (vertices: IntoVerticesIterator<V, E>)
        ensures
            lists_each_once(
                vertices.0@.map_values(|entry: (VertexIdx, Vertex<V, E>)| entry.0),
                self@.dom(),
            ),
            forall|i: int|
                0 <= i < vertices.0.len() ==> (#[trigger] vertices.0[i]).1@
                    == self@[vertices.0[i].0],
    {
        broadcast use {entries::group_by_idx, group_vertices_view};

        let mut stored = self.vertices;
        let idxs = idxs_of(&stored);
        proof {
            assert(idxs@.to_set() =~= self@.dom());
            assert forall|j: int| 0 <= j < idxs.len() implies self@.contains_key(
                #[trigger] idxs[j],
            ) by {
                assert(idxs@.to_set().contains(idxs[j]));
            }
        }
        let mut vertices: Vec<(VertexIdx, Vertex<V, E>)> = Vec::new();
        let mut i: usize = 0;
        while i < idxs.len()
            invariant
                i <= idxs.len(),
                idxs@.no_duplicates(),
                forall|j: int| 0 <= j < idxs.len() ==> self@.contains_key(#[trigger] idxs[j]),
                vertices.len() == i,
                forall|j: int| 0 <= j < i ==> (#[trigger] vertices[j]).0 == idxs[j],
                forall|j: int| 0 <= j < i ==> (#[trigger] vertices[j]).1@ == self@[idxs[j]],
                forall|j: int|
                    i <= j < idxs.len() ==> stored@.contains_key((#[trigger] idxs[j]).0)
                        && stored@[idxs[j].0]@ == self@[idxs[j]],
            decreases idxs.len() - i,
        {
            let idx = idxs[i];
            match stored.remove(&idx.0) {
                Some(vertex) => {
                    vertices.push((idx, vertex));
                },
                None => {
                    assert(false);
                },
            }
            i += 1;
        }
        proof {
            assert(idxs@.to_set() =~= self@.dom());
            assert(vertices@.map_values(|entry: (VertexIdx, Vertex<V, E>)| entry.0) =~= idxs@);
        }
        IntoVerticesIterator(vertices)
    }

    /// The vertices with their identifiers, each once and in no particular order.
    pub fn vertices_iter(&self) -> (vertices: VerticesIter<'_, V, E>)
        ensures
            lists_each_once(
                vertices.0@.map_values(|entry: (VertexIdx, &Vertex<V, E>)| entry.0),
                self@.dom(),
            ),
            forall|i: int|
                0 <= i < vertices.0.len() ==> (#[trigger] vertices.0[i]).1@
                    == self@[vertices.0[i].0],
    {
        broadcast use group_vertices_view;

        let mut vertices: Vec<(VertexIdx, &Vertex<V, E>)> = Vec::new();
        for entry in iter: self.vertices.iter()
            invariant
                iter.seq() == self.vertices.iter().remaining(),
                iter.seq().no_duplicates(),
                vertices.len() == iter.index(),
                forall|i: int|
                    0 <= i < vertices.len() ==> (#[trigger] vertices[i]).0.0 == *iter.seq()[i].0
                        && vertices[i].1 == iter.seq()[i].1,
        {
            vertices.push((VertexIdx(*entry.0), entry.1));
        }
        proof {
            let entries = self.vertices.iter().remaining();
            let ids = vertices@.map_values(|entry: (VertexIdx, &Vertex<V, E>)| entry.0);
            assert forall|i: int, j: int| 0 <= i < j < ids.len() implies ids[i] != ids[j] by {
                if ids[i] == ids[j] {
                    assert(self.vertices@.contains_key(*entries[i].0));
                    assert(self.vertices@.contains_key(*entries[j].0));
                    assert(entries[i].0 == entries[j].0);
                    assert(entries[i].1 == entries[j].1);
                    assert(entries[i] == entries[j]);
                }
            }
            assert forall|idx: VertexIdx| self@.contains_key(idx) implies ids.contains(idx) by {
                let entry = (&idx.0, &self.vertices@[idx.0]);
                assert(entries.contains(entry));
                let i = choose|i: int| 0 <= i < entries.len() && entries[i] == entry;
                assert(ids[i] == idx);
            }
            assert forall|i: int| 0 <= i < vertices.len() implies self.vertices@.contains_key(
                (#[trigger] vertices[i]).0.0,
            ) by {
                assert(self.vertices@.contains_key(*entries[i].0));
            }
            assert(ids.to_set() =~= self@.dom());
        }
        VerticesIter(vertices)
    }

    /// The vertices as `vertices_iter` gives them, each open to change. What is left behind a
    /// reference is the vertex under that identifier from then on.
    pub fn vertices_iter_mut(&mut self) -> (vertices: VerticesIterMut<'_, V, E>)
        ensures
            lists_each_once(
                vertices.0@.map_values(|entry: (VertexIdx, &mut Vertex<V, E>)| entry.0),
                old(self)@.dom(),
            ),
            forall|i: int|
                0 <= i < vertices.0.len() ==> (#[trigger] vertices.0[i]).1@
                    == old(self)@[vertices.0[i].0],
            final(self).counter() == old(self).counter(),
            final(self)@.dom() == old(self)@.dom(),
            forall|i: int|
                0 <= i < vertices.0.len() ==> final(self)@[(#[trigger] vertices.0[i]).0]
                    == final(vertices.0[i].1)@,
    {
        broadcast use group_vertices_view;

        let vertices = values_mut(&mut self.vertices);
        proof {
            let numbers = vertices@.map_values(|entry: (VertexIdx, &mut Vertex<V, E>)| entry.0.0);
            let ids = vertices@.map_values(|entry: (VertexIdx, &mut Vertex<V, E>)| entry.0);
            assert forall|i: int, j: int| 0 <= i < j < ids.len() implies ids[i] != ids[j] by {
                assert(numbers[i] != numbers[j]);
            }
            assert forall|idx: VertexIdx| old(self)@.contains_key(idx) implies ids.contains(
                idx,
            ) by {
                assert(numbers.to_set().contains(idx.0));
                let i = choose|i: int| 0 <= i < numbers.len() && numbers[i] == idx.0;
                assert(ids[i] == idx);
            }
            assert forall|idx: VertexIdx| ids.contains(idx) implies old(self)@.contains_key(
                idx,
            ) by {
                let i = choose|i: int| 0 <= i < ids.len() && ids[i] == idx;
                assert(numbers[i] == idx.0);
                assert(numbers.to_set().contains(idx.0));
            }
            assert(ids.to_set() =~= old(self)@.dom());
            assert forall|i: int| 0 <= i < vertices.len() implies old(self).vertices@.contains_key(
                (#[trigger] vertices[i]).0.0,
            ) by {
                assert(numbers[i] == vertices[i].0.0);
                assert(numbers.to_set().contains(numbers[i]));
            }
            assert(vertices_view(after_borrow(self.vertices)@).dom() =~= old(self)@.dom());
        }
        VerticesIterMut(vertices)
    }

    pub fn len(&self) -> (len: usize)
        ensures
            len == self@.len(),
    {
        proof {
            self.lemma_len();
        }
        self.vertices.len()
    }

    pub fn is_empty(&self) -> (empty: bool)
        ensures
            empty == (self@.len() == 0),
            empty == (self@ == GraphView::<V, E>::empty()),
    {
        proof {
            self.lemma_len();
            if self@.len() == 0 {
                assert(self@ =~= GraphView::<V, E>::empty());
            }
        }
        self.vertices.is_empty()
    }
}

} // verus!
