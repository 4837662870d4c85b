use super::VertexIdx;
use std::collections::HashMap;
use vstd::prelude::*;
use vstd::set_lib::lemma_map_size;
use vstd::std_specs::iter::IteratorSpec;

verus! {

broadcast use vstd::std_specs::hash::group_hash_axioms;

/// `ids` names every member of `of` exactly once.
pub open spec fn lists_each_once(ids: Seq<VertexIdx>, of: Set<VertexIdx>) -> bool {
    ids.no_duplicates() && ids.to_set() == of
}

/// A map that is stored under identifier numbers, seen under the identifiers themselves.
pub(crate) closed spec fn by_idx<T>(stored: Map<usize, T>) -> Map<VertexIdx, T> {
    Map::new(|idx: VertexIdx| stored.contains_key(idx.0), |idx: VertexIdx| stored[idx.0])
}

pub(crate) broadcast proof fn lemma_by_idx_index<T>(stored: Map<usize, T>, idx: VertexIdx)
    ensures
        #![trigger by_idx(stored).contains_key(idx)]
        #![trigger by_idx(stored)[idx]]
        by_idx(stored).contains_key(idx) == stored.contains_key(idx.0),
        stored.contains_key(idx.0) ==> by_idx(stored)[idx] == stored[idx.0],
{
}

pub(crate) broadcast proof fn lemma_by_idx_empty<T>()
    ensures
        #[trigger] by_idx(Map::<usize, T>::empty()) == Map::<VertexIdx, T>::empty(),
{
    assert(by_idx(Map::<usize, T>::empty()) =~= Map::<VertexIdx, T>::empty());
}

pub(crate) broadcast proof fn lemma_by_idx_insert<T>(stored: Map<usize, T>, k: usize, value: T)
    ensures
        #[trigger] by_idx(stored.insert(k, value)) == by_idx(stored).insert(VertexIdx(k), value),
{
    assert(by_idx(stored.insert(k, value)) =~= by_idx(stored).insert(VertexIdx(k), value));
}

pub(crate) broadcast proof fn lemma_by_idx_remove<T>(stored: Map<usize, T>, k: usize)
    ensures
        #[trigger] by_idx(stored.remove(k)) == by_idx(stored).remove(VertexIdx(k)),
{
    assert(by_idx(stored.remove(k)) =~= by_idx(stored).remove(VertexIdx(k)));
}

pub(crate) proof fn lemma_by_idx_len<T>(stored: Map<usize, T>)
    requires
        stored.dom().finite(),
    ensures
        by_idx(stored).dom().finite(),
        by_idx(stored).len() == stored.len(),
{
    let wrap = |k: usize| VertexIdx(k);
    assert(stored.dom().map(wrap) =~= by_idx(stored).dom()) by {
        assert forall|idx: VertexIdx| by_idx(stored).dom().contains(idx) implies stored.dom().map(
            wrap,
        ).contains(idx) by {
            assert(stored.dom().contains(idx.0) && wrap(idx.0) == idx);
        }
    }
    lemma_map_size(stored.dom(), by_idx(stored).dom(), wrap);
}

pub(crate) broadcast group group_by_idx {
    lemma_by_idx_index,
    lemma_by_idx_empty,
    lemma_by_idx_insert,
    lemma_by_idx_remove,
}

/// The identifiers under which `stored` holds an entry, each once, in the order in which the
/// map happens to walk them.
pub(crate) fn idxs_of<T>(stored: &HashMap<usize, T>) -> (idxs: Vec<VertexIdx>)
    ensures
        lists_each_once(idxs@, by_idx(stored@).dom()),
{
    broadcast use group_by_idx;

    let mut idxs: Vec<VertexIdx> = Vec::new();
    for k in iter: stored.keys()
        invariant
            iter.seq() == stored.keys().remaining(),
            idxs.len() == iter.index(),
            forall|i: int| 0 <= i < idxs.len() ==> (#[trigger] idxs[i]).0 == *iter.seq()[i],
    {
        idxs.push(VertexIdx(*k));
    }
    proof {
        let keys = stored.keys().remaining();
        assert(keys.unref().to_set() == stored@.dom());
        assert forall|i: int, j: int| 0 <= i < j < idxs.len() implies idxs[i] != idxs[j] by {
            assert(keys[i] != keys[j]);
        }
        assert forall|idx: VertexIdx| by_idx(stored@).contains_key(idx) implies idxs@.contains(
            idx,
        ) by {
            assert(keys.unref().to_set().contains(idx.0));
            let i = choose|i: int| 0 <= i < keys.len() && keys.unref()[i] == idx.0;
            assert(idxs[i] == idx);
        }
        assert forall|idx: VertexIdx| idxs@.contains(idx) implies by_idx(stored@).contains_key(
            idx,
        ) by {
            let i = choose|i: int| 0 <= i < idxs.len() && idxs[i] == idx;
            assert(keys.unref()[i] == idx.0);
            assert(keys.unref().to_set().contains(idx.0));
        }
        assert(idxs@.to_set() =~= by_idx(stored@).dom());
    }
    idxs
}

/// `HashMap::iter_mut`, collected into a vector: one entry for each key of the map, in the
/// order in which the map happens to walk them, with the key as an identifier and a mutable
/// reference to the value that the map holds under it. The keys of the map stay as they are,
/// and what is left behind a reference is the map's value under that key from then on.
#[verifier::external_body]
pub(crate) fn values_mut<T>(stored: &mut HashMap<usize, T>) -> (entries: Vec<(VertexIdx, &mut T)>)
    ensures
        entries@.map_values(|entry: (VertexIdx, &mut T)| entry.0.0).no_duplicates(),
        entries@.map_values(|entry: (VertexIdx, &mut T)| entry.0.0).to_set() == old(stored)@.dom(),
        forall|i: int|
            0 <= i < entries.len() ==> *(#[trigger] entries[i]).1 == old(stored)@[entries[i].0.0],
        final(stored)@.dom() == old(stored)@.dom(),
        forall|i: int|
            0 <= i < entries.len() ==> final(stored)@[(#[trigger] entries[i]).0.0]
                == *final(entries[i].1),
{
    stored.iter_mut().map(|(k, value)| (VertexIdx(*k), value)).collect()
}

} // verus!
