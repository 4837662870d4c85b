use super::algo::bfs::{has_walk, is_walk, reachable};
use super::{
    has_edge, no_dangling_edges, with_vertex, without_vertex, GraphView, VertexIdx, VertexView,
};
use vstd::prelude::*;

verus! {

/// `g` after a new vertex has been inserted for each of `weights` in turn, under the
/// identifier that stands at the same place in `idxs`.
pub open spec fn after_insertions<V, E>(
    g: GraphView<V, E>,
    idxs: Seq<VertexIdx>,
    weights: Seq<V>,
) -> GraphView<V, E>
    recommends
        idxs.len() == weights.len(),
    decreases idxs.len(),
{
    if idxs.len() == 0 {
        g
    } else {
        after_insertions(g, idxs.drop_last(), weights.drop_last()).insert(
            idxs.last(),
            VertexView::isolated(weights.last()),
        )
    }
}

/// `g` after the vertices `idxs` have been removed in turn; one that is no longer there, or
/// never was, is passed over.
pub open spec fn after_removals<V, E>(g: GraphView<V, E>, idxs: Seq<VertexIdx>) -> GraphView<V, E>
    decreases idxs.len(),
{
    if idxs.len() == 0 {
        g
    } else {
        let before = after_removals(g, idxs.drop_last());
        if before.contains_key(idxs.last()) {
            without_vertex(before, idxs.last())
        } else {
            before
        }
    }
}

/// Once a vertex has been removed, it is gone and no edge leads to it: no vertex that is left
/// is adjacent to it, and there is no edge to it to be found or removed.
pub proof fn lemma_removed_vertex_leaves_no_edge<V, E>(g: GraphView<V, E>, removed: VertexIdx)
    ensures
        !without_vertex(g, removed).contains_key(removed),
        forall|from: VertexIdx| #[trigger]
            without_vertex(g, removed).contains_key(from) ==> !without_vertex(
                g,
                removed,
            )[from].edges.contains_key(removed),
        forall|from: VertexIdx| !#[trigger] has_edge(without_vertex(g, removed), from, removed),
        no_dangling_edges(g) ==> no_dangling_edges(without_vertex(g, removed)),
{
    let after = without_vertex(g, removed);
    if no_dangling_edges(g) {
        assert forall|from: VertexIdx, to: VertexIdx| #[trigger]
            has_edge(after, from, to) implies after.contains_key(to) by {
            assert(has_edge(g, from, to));
        }
    }
}

/// Giving a vertex that is in the graph another payload changes that payload and nothing
/// else: the vertex keeps its edges, and every other vertex is as it was.
pub proof fn lemma_new_payload_keeps_edges<V, E>(g: GraphView<V, E>, idx: VertexIdx, weight: V)
    requires
        g.contains_key(idx),
    ensures
        with_vertex(g, idx, weight).dom() == g.dom(),
        with_vertex(g, idx, weight)[idx].weight == weight,
        with_vertex(g, idx, weight)[idx].edges == g[idx].edges,
        forall|other: VertexIdx|
            other != idx && g.contains_key(other) ==> #[trigger] with_vertex(g, idx, weight)[other]
                == g[other],
        forall|from: VertexIdx, to: VertexIdx|
            has_edge(with_vertex(g, idx, weight), from, to) == #[trigger] has_edge(g, from, to),
{
    assert(with_vertex(g, idx, weight).dom() =~= g.dom());
}

/// Removing them leaves nothing of the vertices that were listed for removal.
proof fn lemma_removals_take_away<V, E>(g: GraphView<V, E>, idxs: Seq<VertexIdx>)
    ensures
        forall|idx: VertexIdx| #[trigger]
            after_removals(g, idxs).contains_key(idx) ==> g.contains_key(idx) && !idxs.contains(
                idx,
            ),
    decreases idxs.len(),
{
    if idxs.len() > 0 {
        lemma_removals_take_away(g, idxs.drop_last());
        let before = after_removals(g, idxs.drop_last());
        assert forall|idx: VertexIdx| #[trigger]
            after_removals(g, idxs).contains_key(idx) implies g.contains_key(idx)
            && !idxs.contains(idx) by {
            assert(before.contains_key(idx));
            assert(idx != idxs.last());
            if idxs.contains(idx) {
                let i = choose|i: int| 0 <= i < idxs.len() && idxs[i] == idx;
                assert(idxs.drop_last()[i] == idx);
            }
        }
    }
}

/// The vertices of a graph after insertions are those that it had and those that were
/// inserted.
proof fn lemma_insertions_add<V, E>(g: GraphView<V, E>, idxs: Seq<VertexIdx>, weights: Seq<V>)
    requires
        idxs.len() == weights.len(),
    ensures
        forall|idx: VertexIdx| #[trigger]
            after_insertions(g, idxs, weights).contains_key(idx) ==> g.contains_key(idx)
                || idxs.contains(idx),
    decreases idxs.len(),
{
    if idxs.len() > 0 {
        lemma_insertions_add(g, idxs.drop_last(), weights.drop_last());
        let before = after_insertions(g, idxs.drop_last(), weights.drop_last());
        assert forall|idx: VertexIdx| #[trigger]
            after_insertions(g, idxs, weights).contains_key(idx) implies g.contains_key(idx)
            || idxs.contains(idx) by {
            if idx == idxs.last() {
                assert(idxs[idxs.len() - 1] == idx);
            } else {
                assert(before.contains_key(idx));
                if idxs.drop_last().contains(idx) {
                    let i = choose|i: int|
                        0 <= i < idxs.drop_last().len() && idxs.drop_last()[i] == idx;
                    assert(idxs[i] == idx);
                }
            }
        }
    }
}

/// A graph from which every vertex has been removed is empty.
pub proof fn lemma_remove_all<V, E>(g: GraphView<V, E>, idxs: Seq<VertexIdx>)
    requires
        forall|idx: VertexIdx| g.contains_key(idx) ==> idxs.contains(idx),
    ensures
        after_removals(g, idxs) == GraphView::<V, E>::empty(),
        after_removals(g, idxs).len() == 0,
        forall|idx: VertexIdx| !#[trigger] after_removals(g, idxs).contains_key(idx),
{
    lemma_removals_take_away(g, idxs);
    assert(after_removals(g, idxs) =~= GraphView::<V, E>::empty());
}

/// Inserting any number of vertices into an empty graph and then removing each of them
/// leaves the graph empty: it has no vertex, and no identifier finds one.
pub proof fn lemma_insert_then_remove_all<V, E>(idxs: Seq<VertexIdx>, weights: Seq<V>)
    requires
        idxs.len() == weights.len(),
    ensures
        after_removals(after_insertions(GraphView::<V, E>::empty(), idxs, weights), idxs)
            == GraphView::<V, E>::empty(),
        after_removals(after_insertions(GraphView::<V, E>::empty(), idxs, weights), idxs).len()
            == 0,
        forall|idx: VertexIdx|
            !#[trigger] after_removals(
                after_insertions(GraphView::<V, E>::empty(), idxs, weights),
                idxs,
            ).contains_key(idx),
{
    lemma_insertions_add(GraphView::<V, E>::empty(), idxs, weights);
    lemma_remove_all(after_insertions(GraphView::<V, E>::empty(), idxs, weights), idxs);
}

/// No walk leads into a vertex that only its own edge enters, if it has one, but the walks
/// that begin there: from anywhere else it cannot be reached.
pub proof fn lemma_no_way_in<V, E>(g: GraphView<V, E>, src: VertexIdx, idx: VertexIdx)
    requires
        idx != src,
        forall|from: VertexIdx| #[trigger] has_edge(g, from, idx) ==> from == idx,
    ensures
        !reachable(g, src, idx),
{
    if reachable(g, src, idx) {
        let steps = choose|steps: int| #[trigger] has_walk(g, src, idx, steps);
        let walk = choose|walk: Seq<VertexIdx>|
            #[trigger] is_walk(g, walk) && walk.first() == src && walk.last() == idx && walk.len()
                == steps + 1;
        lemma_walk_stays_out(g, idx, walk, steps);
    }
}

/// A walk that does not begin at a vertex that only its own edge enters does not come to it.
proof fn lemma_walk_stays_out<V, E>(
    g: GraphView<V, E>,
    idx: VertexIdx,
    walk: Seq<VertexIdx>,
    k: int,
)
    requires
        is_walk(g, walk),
        walk.first() != idx,
        forall|from: VertexIdx| #[trigger] has_edge(g, from, idx) ==> from == idx,
        0 <= k < walk.len(),
    ensures
        walk[k] != idx,
    decreases k,
{
    if k > 0 {
        lemma_walk_stays_out(g, idx, walk, k - 1);
        assert(has_edge(g, walk[k - 1], walk[k - 1 + 1]));
    }
}

} // verus!
