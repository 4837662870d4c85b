use super::{Vertex, VertexIdx};
use vstd::prelude::*;

verus! {

/// The vertices of a graph that has been taken apart, each with its identifier. `next` hands
/// them out from the end of the list.
pub struct IntoVerticesIterator<V, E>(pub Vec<(VertexIdx, Vertex<V, E>)>);

impl<V, E> IntoVerticesIterator<V, E> {
    /// The next vertex, or `None` when every vertex has been handed out.
    pub fn next(&mut self) -> (item: Option<(VertexIdx, Vertex<V, E>)>)
        ensures
            match item {
                Some(entry) => {
                    &&& old(self).0@.len() > 0
                    &&& entry == old(self).0@.last()
                    &&& final(self).0@ == old(self).0@.drop_last()
                },
                None => old(self).0@.len() == 0 && final(self).0@ == old(self).0@,
            },
    {
        self.0.pop()
    }

    /// The number of vertices that are still to come.
    pub fn len(&self) -> (len: usize)
        ensures
            len == self.0@.len(),
    {
        self.0.len()
    }
}

/// The vertices of a graph, each with its identifier. `next` hands them out from the end of
/// the list.
pub struct VerticesIter<'a, V, E>(pub Vec<(VertexIdx, &'a Vertex<V, E>)>);

impl<'a, V, E> VerticesIter<'a, V, E> {
    /// The next vertex, or `None` when every vertex has been handed out.
    pub fn next(&mut self) -> (item: Option<(VertexIdx, &'a Vertex<V, E>)>)
        ensures
            match item {
                Some(entry) => {
                    &&& old(self).0@.len() > 0
                    &&& entry == old(self).0@.last()
                    &&& final(self).0@ == old(self).0@.drop_last()
                },
                None => old(self).0@.len() == 0 && final(self).0@ == old(self).0@,
            },
    {
        self.0.pop()
    }

    /// The number of vertices that are still to come.
    pub fn len(&self) -> (len: usize)
        ensures
            len == self.0@.len(),
    {
        self.0.len()
    }
}

/// The vertices of a graph, each with its identifier and open to change. `next` hands them
/// out from the end of the list.
pub struct VerticesIterMut<'a, V, E>(pub Vec<(VertexIdx, &'a mut Vertex<V, E>)>);

impl<'a, V, E> VerticesIterMut<'a, V, E> {
    /// The next vertex, or `None` when every vertex has been handed out.
    pub fn next(&mut self) -> (item: Option<(VertexIdx, &'a mut Vertex<V, E>)>)
        ensures
            match item {
                Some(entry) => {
                    &&& old(self).0@.len() > 0
                    &&& entry == old(self).0@.last()
                    &&& final(self).0@ == old(self).0@.drop_last()
                },
                None => old(self).0@.len() == 0 && final(self).0@ == old(self).0@,
            },
    {
        self.0.pop()
    }

    /// The number of vertices that are still to come.
    pub fn len(&self) -> (len: usize)
        ensures
            len == self.0@.len(),
    {
        self.0.len()
    }
}

} // verus!
