//! Beta functions, cell identifiers and orbits of [`CMap2`].

use crate::attributes::AttributeUpdate;
use crate::cmap2::structure::CMap2;
use crate::ids::{DartIdType, EdgeIdType, FaceIdType, VertexIdType, NULL_DART_ID};
use crate::orbits::{
    bfs_orbit, is_orbit_of, orbit_bfs, orbit_id, orbit_min, policy_ok_2d, policy_steps_2d, steps_2d, OrbitPolicy,
};
use vstd::prelude::*;

verus! {

impl<V: AttributeUpdate> CMap2<V> {
    /// Vertex identifier of `d`: the smallest dart of its vertex orbit.
    pub open spec fn vid(&self, d: int) -> VertexIdType {
        orbit_id(self.betas, steps_2d(OrbitPolicy::Vertex), d as DartIdType)
    }

    /// Face identifier of `d`: the smallest dart of its face orbit.
    pub open spec fn fid(&self, d: int) -> FaceIdType {
        orbit_id(self.betas, steps_2d(OrbitPolicy::Face), d as DartIdType)
    }

    /// Edge identifier of `d`: the smaller of `d` and *β<sub>2</sub>(d)*, or `d` when it is 2-free.
    pub open spec fn eid(&self, d: int) -> EdgeIdType {
        let b2 = self.img(2, d);
        if b2 == NULL_DART_ID {
            d as EdgeIdType
        } else if b2 < d as DartIdType {
            b2
        } else {
            d as EdgeIdType
        }
    }

    /// *β<sub>I</sub>(dart_id)*.
    pub fn beta<const I: u8>(&self, dart_id: DartIdType) -> (r: DartIdType)
        requires
            self.wf(),
            I < 3,
            (dart_id as int) < self.n(),
        ensures
            r == self.img(I as int, dart_id as int),
            (r as int) < self.n(),
    {
        self.betas.get(I, dart_id)
    }

    /// *β<sub>i</sub>(dart_id)*.
    pub fn beta_rt(&self, i: u8, dart_id: DartIdType) -> (r: DartIdType)
        requires
            self.wf(),
            i < 3,
            (dart_id as int) < self.n(),
        ensures
            r == self.img(i as int, dart_id as int),
            (r as int) < self.n(),
    {
        self.betas.get(i, dart_id)
    }

    /// Whether `dart_id` is `I`-free: *β<sub>I</sub>(dart_id)* is null.
    pub fn is_i_free<const I: u8>(&self, dart_id: DartIdType) -> (r: bool)
        requires
            self.wf(),
            I < 3,
            (dart_id as int) < self.n(),
        ensures
            r == (self.img(I as int, dart_id as int) == NULL_DART_ID),
    {
        self.betas.get(I, dart_id) == NULL_DART_ID
    }

    /// Whether `dart_id` is 0-free, 1-free and 2-free.
    pub fn is_free(&self, dart_id: DartIdType) -> (r: bool)
        requires
            self.wf(),
            (dart_id as int) < self.n(),
        ensures
            r == self.free(dart_id as int),
    {
        self.betas.get(0, dart_id) == NULL_DART_ID && self.betas.get(1, dart_id) == NULL_DART_ID
            && self.betas.get(2, dart_id) == NULL_DART_ID
    }

    /// Identifier of the vertex of `dart_id`: the smallest dart of its vertex orbit.
    pub fn vertex_id(&self, dart_id: DartIdType) -> (r: VertexIdType)
        requires
            self.wf(),
            (dart_id as int) < self.n(),
        ensures
            r == self.vid(dart_id as int),
            r <= dart_id,
    {
        let steps = policy_steps_2d(&OrbitPolicy::Vertex);
        orbit_min(&self.betas, &steps, dart_id)
    }

    /// Identifier of the edge of `dart_id`.
    pub fn edge_id(&self, dart_id: DartIdType) -> (r: EdgeIdType)
        requires
            self.wf(),
            (dart_id as int) < self.n(),
        ensures
            r == self.eid(dart_id as int),
    {
        let b2 = self.betas.get(2, dart_id);
        if b2 == NULL_DART_ID {
            dart_id as EdgeIdType
        } else if b2 < dart_id {
            b2 as EdgeIdType
        } else {
            dart_id as EdgeIdType
        }
    }

    /// Identifier of the face of `dart_id`: the smallest dart of its face orbit.
    pub fn face_id(&self, dart_id: DartIdType) -> (r: FaceIdType)
        requires
            self.wf(),
            (dart_id as int) < self.n(),
        ensures
            r == self.fid(dart_id as int),
            r <= dart_id,
    {
        let steps = policy_steps_2d(&OrbitPolicy::Face);
        orbit_min(&self.betas, &steps, dart_id)
    }

    /// Orbit of `dart_id` under `opolicy`, in breadth-first order, starting with `dart_id`.
    pub fn orbit(&self, opolicy: OrbitPolicy, dart_id: DartIdType) -> (r: Vec<DartIdType>)
        requires
            self.wf(),
            policy_ok_2d(opolicy),
            (dart_id as int) < self.n(),
        ensures
            is_orbit_of(self.betas, steps_2d(opolicy), dart_id, r@),
            r@ == bfs_orbit(self.betas, steps_2d(opolicy), dart_id),
            forall|j: int| 0 <= j < r@.len() ==> (#[trigger] r@[j] as int) < self.n(),
            r@.len() <= self.n(),
    {
        let steps = policy_steps_2d(&opolicy);
        orbit_bfs(&self.betas, &steps, dart_id)
    }

    /// Darts of the `I`-cell of `dart_id` (vertex, edge or face), `dart_id` first.
    pub fn i_cell<const I: u8>(&self, dart_id: DartIdType) -> (r: Vec<DartIdType>)
        requires
            self.wf(),
            I < 3,
            (dart_id as int) < self.n(),
        ensures
            is_orbit_of(
                self.betas,
                steps_2d(if I == 0 { OrbitPolicy::Vertex } else if I == 1 { OrbitPolicy::Edge } else { OrbitPolicy::Face }),
                dart_id,
                r@,
            ),
            r@ == bfs_orbit(
                self.betas,
                steps_2d(if I == 0 { OrbitPolicy::Vertex } else if I == 1 { OrbitPolicy::Edge } else { OrbitPolicy::Face }),
                dart_id,
            ),
    {
        if I == 0 {
            self.orbit(OrbitPolicy::Vertex, dart_id)
        } else if I == 1 {
            self.orbit(OrbitPolicy::Edge, dart_id)
        } else {
            self.orbit(OrbitPolicy::Face, dart_id)
        }
    }

    /// Whether `d` is a used dart identifying its cell (`kind` 0: vertex, 1: edge, 2: face).
    pub open spec fn is_rep(&self, kind: int, d: int) -> bool {
        !self.unused(d) && (if kind == 0 {
            self.vid(d)
        } else if kind == 1 {
            self.eid(d)
        } else {
            self.fid(d)
        }) == d as DartIdType
    }

    /// Darts of `1..hi` identifying their cell, in increasing order.
    pub open spec fn reps_below(&self, kind: int, hi: int) -> Seq<DartIdType>
        decreases hi,
    {
        if hi <= 1 {
            Seq::empty()
        } else {
            let prev = self.reps_below(kind, hi - 1);
            if self.is_rep(kind, hi - 1) { prev.push((hi - 1) as DartIdType) } else { prev }
        }
    }

    /// Used darts (null dart excluded) identifying their cell, in increasing order.
    pub open spec fn cell_reps(&self, kind: int) -> Seq<DartIdType> {
        self.reps_below(kind, self.n() as int)
    }

    fn iter_cells(&self, kind: u8) -> (r: Vec<DartIdType>)
        requires
            self.wf(),
            kind < 3,
        ensures
            r@ == self.cell_reps(kind as int),
    {
        let n = self.betas.len();
        let mut res: Vec<DartIdType> = Vec::new();
        let mut d: usize = 1;
        while d < n
            invariant
                self.wf(),
                kind < 3,
                n == self.n(),
                1 <= d <= n,
                res@ == self.reps_below(kind as int, d as int),
            decreases n - d,
        {
            let dd = d as DartIdType;
            let keep = if self.unused_darts.get(dd) {
                false
            } else if kind == 0 {
                self.vertex_id(dd) == dd
            } else if kind == 1 {
                self.edge_id(dd) == dd
            } else {
                self.face_id(dd) == dd
            };
            assert(keep == self.is_rep(kind as int, d as int));
            if keep {
                res.push(dd);
            }
            d = d + 1;
        }
        res
    }

    /// Identifiers of all the vertices of the map, in increasing order.
    pub fn iter_vertices(&self) -> (r: Vec<VertexIdType>)
        requires
            self.wf(),
        ensures
            r@ == self.cell_reps(0),
    {
        self.iter_cells(0)
    }

    /// Identifiers of all the edges of the map, in increasing order.
    pub fn iter_edges(&self) -> (r: Vec<EdgeIdType>)
        requires
            self.wf(),
        ensures
            r@ == self.cell_reps(1),
    {
        self.iter_cells(1)
    }

    /// Identifiers of all the faces of the map, in increasing order.
    pub fn iter_faces(&self) -> (r: Vec<FaceIdType>)
        requires
            self.wf(),
        ensures
            r@ == self.cell_reps(2),
    {
        self.iter_cells(2)
    }

    /// Set *β<sub>I</sub>(dart_id)* to `new_val`, without touching any other image.
    pub fn set_beta<const I: u8>(&mut self, dart_id: DartIdType, new_val: DartIdType)
        requires
            old(self).wf(),
            I < 3,
            dart_id != NULL_DART_ID,
            (dart_id as int) < old(self).n(),
            (new_val as int) < old(self).n(),
        ensures
            final(self).wf(),
            final(self).same_embedding(old(self)),
            final(self).img(I as int, dart_id as int) == new_val,
            forall|i: int, d: int| 0 <= i < 3 && 0 <= d < old(self).n() && (i != I || d != dart_id)
                ==> #[trigger] final(self).img(i, d) == old(self).img(i, d),
    {
        self.betas.set(I, dart_id, new_val);
    }

    /// Set the three images of `dart_id` to `[b0, b1, b2]`, without touching any other image.
    pub fn set_betas(&mut self, dart_id: DartIdType, betas: [DartIdType; 3])
        requires
            old(self).wf(),
            dart_id != NULL_DART_ID,
            (dart_id as int) < old(self).n(),
            forall|i: int| 0 <= i < 3 ==> (#[trigger] betas[i] as int) < old(self).n(),
        ensures
            final(self).wf(),
            final(self).same_embedding(old(self)),
            forall|i: int| 0 <= i < 3 ==> #[trigger] final(self).img(i, dart_id as int) == betas[i],
            forall|i: int, d: int| 0 <= i < 3 && 0 <= d < old(self).n() && d != dart_id
                ==> #[trigger] final(self).img(i, d) == old(self).img(i, d),
    {
        let b0 = betas[0];
        let b1 = betas[1];
        let b2 = betas[2];
        self.betas.set(0, dart_id, b0);
        self.betas.set(1, dart_id, b1);
        self.betas.set(2, dart_id, b2);
    }
}

} // verus!
