//! Vertex values of [`CMap2`].

use crate::attributes::{count_some, AttributeUpdate};
use crate::cmap2::structure::CMap2;
use crate::ids::VertexIdType;
use vstd::prelude::*;

verus! {

impl<V: AttributeUpdate> CMap2<V> {
    /// Current number of stored vertex values.
    pub fn n_vertices(&self) -> (r: usize)
        requires
            self.wf(),
        ensures
            r == count_some(self.vertices.slots()),
    {
        self.vertices.n_attributes()
    }

    /// Vertex value of identifier `vertex_id`, if any.
    pub fn read_vertex(&self, vertex_id: VertexIdType) -> (r: Option<V>)
        requires
            self.wf(),
            (vertex_id as int) < self.n(),
        ensures
            r == self.vertex(vertex_id as int),
    {
        self.vertices.read(vertex_id)
    }

    /// Replace the vertex value of identifier `vertex_id`; return the previous value, if any.
    pub fn write_vertex(&mut self, vertex_id: VertexIdType, vertex: V) -> (r: Option<V>)
        requires
            old(self).wf(),
            (vertex_id as int) < old(self).n(),
        ensures
            final(self).wf(),
            r == old(self).vertex(vertex_id as int),
            final(self).betas == old(self).betas,
            final(self).unused_darts == old(self).unused_darts,
            final(self).vertices.slots() == old(self).vertices.slots().update(vertex_id as int, Some(vertex)),
    {
        self.vertices.write(vertex_id, vertex)
    }

    /// Remove the vertex value of identifier `vertex_id`; return it, if any.
    pub fn remove_vertex(&mut self, vertex_id: VertexIdType) -> (r: Option<V>)
        requires
            old(self).wf(),
            (vertex_id as int) < old(self).n(),
        ensures
            final(self).wf(),
            r == old(self).vertex(vertex_id as int),
            final(self).betas == old(self).betas,
            final(self).unused_darts == old(self).unused_darts,
            final(self).vertices.slots() == old(self).vertices.slots().update(vertex_id as int, None),
    {
        self.vertices.remove(vertex_id)
    }

    /// Vertex value of identifier `vertex_id`; the map has a single owner, so this is
    /// [`Self::read_vertex`].
    pub fn force_read_vertex(&self, vertex_id: VertexIdType) -> (r: Option<V>)
        requires
            self.wf(),
            (vertex_id as int) < self.n(),
        ensures
            r == self.vertex(vertex_id as int),
    {
        self.read_vertex(vertex_id)
    }

    /// Replace the vertex value of identifier `vertex_id`; this is [`Self::write_vertex`].
    pub fn force_write_vertex(&mut self, vertex_id: VertexIdType, vertex: V) -> (r: Option<V>)
        requires
            old(self).wf(),
            (vertex_id as int) < old(self).n(),
        ensures
            final(self).wf(),
            r == old(self).vertex(vertex_id as int),
            final(self).betas == old(self).betas,
            final(self).unused_darts == old(self).unused_darts,
            final(self).vertices.slots() == old(self).vertices.slots().update(vertex_id as int, Some(vertex)),
    {
        self.write_vertex(vertex_id, vertex)
    }

    /// Remove the vertex value of identifier `vertex_id`; this is [`Self::remove_vertex`].
    pub fn force_remove_vertex(&mut self, vertex_id: VertexIdType) -> (r: Option<V>)
        requires
            old(self).wf(),
            (vertex_id as int) < old(self).n(),
        ensures
            final(self).wf(),
            r == old(self).vertex(vertex_id as int),
            final(self).betas == old(self).betas,
            final(self).unused_darts == old(self).unused_darts,
            final(self).vertices.slots() == old(self).vertices.slots().update(vertex_id as int, None),
    {
        self.remove_vertex(vertex_id)
    }
}

} // verus!
