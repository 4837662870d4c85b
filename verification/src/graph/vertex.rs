use super::entries::{by_idx, idxs_of, lists_each_once, values_mut};
use super::VertexIdx;
use std::collections::HashMap;
use vstd::prelude::*;
use vstd::std_specs::iter::IteratorSpec;

verus! {

broadcast use {vstd::std_specs::hash::group_hash_axioms, super::entries::group_by_idx};

/// What a vertex is, mathematically: its payload and its outgoing edges, each edge keyed by
/// the vertex it leads to.
pub struct VertexView<V, E> {
    pub weight: V,
    pub edges: Map<VertexIdx, E>,
}

impl<V, E> VertexView<V, E> {
    /// A vertex with no outgoing edge.
    pub open spec fn isolated(weight: V) -> Self {
        VertexView { weight, edges: Map::empty() }
    }

    /// This vertex with another payload and the same edges.
    pub open spec fn with_weight(self, weight: V) -> Self {
        VertexView { weight, edges: self.edges }
    }

    /// This vertex with an edge to `to`, in place of the one it had there, if any.
    pub open spec fn with_edge(self, to: VertexIdx, edge: E) -> Self {
        VertexView { weight: self.weight, edges: self.edges.insert(to, edge) }
    }

    /// This vertex without its edge to `to`, if it had one.
    pub open spec fn without_edge(self, to: VertexIdx) -> Self {
        VertexView { weight: self.weight, edges: self.edges.remove(to) }
    }
}

/// A vertex: a payload and the outgoing edges, at most one to each neighbor.
#[derive(Debug)]
pub struct Vertex<V, E> {
    pub(crate) weight: V,
    /// Edges from `self` to the vertices/keys with weight the value of an entry
    pub(crate) edges: HashMap<usize, E>,
}

impl<V, E> View for Vertex<V, E> {
    type V = VertexView<V, E>;

    closed spec fn view(&self) -> VertexView<V, E> {
        VertexView { weight: self.weight, edges: by_idx(self.edges@) }
    }
}

impl<V, E> Vertex<V, E> {
    /// The edges of a vertex are finitely many.
    pub broadcast proof fn lemma_finite(&self)
        ensures
            #[trigger] self@.edges.dom().finite(),
    {
        super::entries::lemma_by_idx_len(self.edges@);
    }

    /// A vertex with no outgoing edge.
    pub(crate) fn new(weight: V) -> (vertex: Self)
        ensures
            vertex@ == VertexView::<V, E>::isolated(weight),
    {
        Vertex { weight, edges: HashMap::new() }
    }

    /// Puts an edge to `to` in place, and gives back the one that was there.
    pub(crate) fn insert_edge(&mut self, to: VertexIdx, edge: E) -> (replaced: Option<E>)
        ensures
            final(self)@ == old(self)@.with_edge(to, edge),
            replaced == old(self)@.edges.get(to),
    {
        self.edges.insert(to.0, edge)
    }

    /// Takes the edge to `to` away, and gives it back if there was one.
    pub(crate) fn remove_edge(&mut self, to: VertexIdx) -> (removed: Option<E>)
        ensures
            final(self)@ == old(self)@.without_edge(to),
            removed == old(self)@.edges.get(to),
    {
        self.edges.remove(&to.0)
    }

    pub fn weight(&self) -> (weight: &V)
        ensures
            *weight == self@.weight,
    {
        &self.weight
    }

    pub fn weight_mut(&mut self) -> (weight: &mut V)
        ensures
            *weight == old(self)@.weight,
            final(self)@ == old(self)@.with_weight(*final(weight)),
    {
        &mut self.weight
    }

    pub fn into_weight(self) -> (weight: V)
        ensures
            weight == self@.weight,
    {
        self.weight
    }

    /// The outgoing edges, each once, in no particular order: the neighbor that the edge leads
    /// to, and the edge's weight.
    pub fn neighbors(&self) -> (neighbors: Vec<(VertexIdx, &E)>)
        ensures
            lists_each_once(
                neighbors@.map_values(|n: (VertexIdx, &E)| n.0),
                self@.edges.dom(),
            ),
            forall|i: int|
                0 <= i < neighbors.len() ==> *(#[trigger] neighbors[i]).1
                    == self@.edges[neighbors[i].0],
    {
        let mut neighbors: Vec<(VertexIdx, &E)> = Vec::new();
        for entry in iter: self.edges.iter()
            invariant
                iter.seq() == self.edges.iter().remaining(),
                iter.seq().no_duplicates(),
                neighbors.len() == iter.index(),
                forall|i: int|
                    0 <= i < neighbors.len() ==> (#[trigger] neighbors[i]).0.0 == *iter.seq()[i].0
                        && neighbors[i].1 == iter.seq()[i].1,
        {
            neighbors.push((VertexIdx(*entry.0), entry.1));
        }
        proof {
            let entries = self.edges.iter().remaining();
            let ids = neighbors@.map_values(|n: (VertexIdx, &E)| n.0);
            assert forall|i: int, j: int| 0 <= i < j < ids.len() implies ids[i] != ids[j] by {
                if ids[i] == ids[j] {
                    assert(self.edges@.contains_key(*entries[i].0));
                    assert(self.edges@.contains_key(*entries[j].0));
                    assert(entries[i].0 == entries[j].0);
                    assert(entries[i].1 == entries[j].1);
                    assert(entries[i] == entries[j]);
                }
            }
            assert forall|to: VertexIdx| self@.edges.contains_key(to) implies ids.contains(
                to,
            ) by {
                let entry = (&to.0, &self.edges@[to.0]);
                assert(entries.contains(entry));
                let i = choose|i: int| 0 <= i < entries.len() && entries[i] == entry;
                assert(ids[i] == to);
            }
            assert(ids.to_set() =~= self@.edges.dom());
        }
        neighbors
    }

    /// The outgoing edges as `neighbors` gives them, with the weight of each open to change.
    /// The edges lead where they led before, whatever is done to their weights.
    pub fn neighbors_mut(&mut self) -> (neighbors: Vec<(VertexIdx, &mut E)>)
        ensures
            lists_each_once(
                neighbors@.map_values(|n: (VertexIdx, &mut E)| n.0),
                old(self)@.edges.dom(),
            ),
            forall|i: int|
                0 <= i < neighbors.len() ==> *(#[trigger] neighbors[i]).1
                    == old(self)@.edges[neighbors[i].0],
            final(self)@.weight == old(self)@.weight,
            final(self)@.edges.dom() == old(self)@.edges.dom(),
            forall|i: int|
                0 <= i < neighbors.len() ==> final(self)@.edges[(#[trigger] neighbors[i]).0]
                    == *final(neighbors[i].1),
    {
        let neighbors = values_mut(&mut self.edges);
        proof {
            let numbers = neighbors@.map_values(|n: (VertexIdx, &mut E)| n.0.0);
            let ids = neighbors@.map_values(|n: (VertexIdx, &mut E)| n.0);
            assert forall|i: int, j: int| 0 <= i < j < ids.len() implies ids[i] != ids[j] by {
                assert(numbers[i] != numbers[j]);
            }
            assert forall|to: VertexIdx| old(self)@.edges.contains_key(to) implies ids.contains(
                to,
            ) by {
                assert(numbers.to_set().contains(to.0));
                let i = choose|i: int| 0 <= i < numbers.len() && numbers[i] == to.0;
                assert(ids[i] == to);
            }
            assert forall|to: VertexIdx| ids.contains(to) implies old(self)@.edges.contains_key(
                to,
            ) by {
                let i = choose|i: int| 0 <= i < ids.len() && ids[i] == to;
                assert(numbers[i] == to.0);
                assert(numbers.to_set().contains(to.0));
            }
            assert(ids.to_set() =~= old(self)@.edges.dom());
            assert forall|i: int| 0 <= i < neighbors.len() implies old(self).edges@.contains_key(
                (#[trigger] neighbors[i]).0.0,
            ) by {
                assert(numbers[i] == neighbors[i].0.0);
                assert(numbers.to_set().contains(numbers[i]));
            }
            assert(by_idx(after_borrow(self.edges)@).dom() =~= old(self)@.edges.dom());
        }
        neighbors
    }

    /// The outgoing edges as `neighbors` gives them, handed over.
    pub fn into_neighbors(self) -> (neighbors: Vec<(VertexIdx, E)>)
        ensures
            lists_each_once(neighbors@.map_values(|n: (VertexIdx, E)| n.0), self@.edges.dom()),
            forall|i: int|
                0 <= i < neighbors.len() ==> (#[trigger] neighbors[i]).1
                    == self@.edges[neighbors[i].0],
    {
        let mut edges = self.edges;
        let idxs = idxs_of(&edges);
        let mut neighbors: Vec<(VertexIdx, E)> = Vec::new();
        let mut i: usize = 0;
        while i < idxs.len()
            invariant
                i <= idxs.len(),
                lists_each_once(idxs@, self@.edges.dom()),
                neighbors.len() == i,
                forall|j: int| 0 <= j < i ==> (#[trigger] neighbors[j]).0 == idxs[j],
                forall|j: int| 0 <= j < i ==> (#[trigger] neighbors[j]).1 == self@.edges[idxs[j]],
                forall|j: int|
                    i <= j < idxs.len() ==> by_idx(edges@).contains_key(#[trigger] idxs[j])
                        && by_idx(edges@)[idxs[j]] == self@.edges[idxs[j]],
            decreases idxs.len() - i,
        {
            let to = idxs[i];
            match edges.remove(&to.0) {
                Some(edge) => {
                    neighbors.push((to, edge));
                },
                None => {
                    assert(false);
                },
            }
            i += 1;
        }
        proof {
            assert(neighbors@.map_values(|n: (VertexIdx, E)| n.0) =~= idxs@);
        }
        neighbors
    }

    pub fn is_adjacent(&self, to: VertexIdx) -> (adjacent: bool)
        ensures
            adjacent == self@.edges.contains_key(to),
    {
        self.edges.contains_key(&to.0)
    }
}

} // verus!
