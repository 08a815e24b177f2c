//! Beta functions, cell identifiers and orbits of [`CMap3`].

use crate::attributes::AttributeUpdate;
use crate::cmap3::structure::CMap3;
use crate::ids::{DartIdType, EdgeIdType, FaceIdType, VertexIdType, VolumeIdType, NULL_DART_ID};
use crate::orbits::{
    bfs_orbit, is_orbit_of, orbit_bfs, orbit_id, orbit_min, policy_ok_3d, policy_steps_3d, steps_3d,
    vertex_id_steps_3d, vertex_id_steps_3d_exec, OrbitPolicy,
};
use vstd::prelude::*;

verus! {

impl<V: AttributeUpdate> CMap3<V> {
    /// Vertex identifier of `d`: the smallest dart reachable from it through the steps of
    /// [`vertex_id_steps_3d`].
    pub open spec fn vid(&self, d: int) -> VertexIdType {
        orbit_id(self.betas, vertex_id_steps_3d(), d as DartIdType)
    }

    /// Face identifier of `d`: the smallest dart of its face orbit.
    pub open spec fn fid(&self, d: int) -> FaceIdType {
        orbit_id(self.betas, steps_3d(OrbitPolicy::Face), d as DartIdType)
    }

    /// Volume identifier of `d`: the smallest dart of its volume orbit.
    pub open spec fn volid(&self, d: int) -> VolumeIdType {
        orbit_id(self.betas, steps_3d(OrbitPolicy::Volume), d as DartIdType)
    }

    /// Edge identifier of `d`: the smallest dart of its edge orbit.
    pub open spec fn eid(&self, d: int) -> EdgeIdType {
        orbit_id(self.betas, steps_3d(OrbitPolicy::Edge), d as DartIdType)
    }

    /// *β<sub>I</sub>(dart_id)*.
    pub fn beta<const I: u8>(&self, dart_id: DartIdType) -> (r: DartIdType)
        requires
            self.wf(),
            I < 4,
            (dart_id as int) < self.n(),
        ensures
            r == self.img(I as int, dart_id as int),
            (r as int) < self.n(),
    {
        self.betas.get(I, dart_id)
    }

    /// *β<sub>i</sub>(dart_id)*.
    pub fn beta_runtime(&self, i: u8, dart_id: DartIdType) -> (r: DartIdType)
        requires
            self.wf(),
            i < 4,
            (dart_id as int) < self.n(),
        ensures
            r == self.img(i as int, dart_id as int),
            (r as int) < self.n(),
    {
        self.betas.get(i, dart_id)
    }

    /// Whether `dart_id` is `I`-free: *β<sub>I</sub>(dart_id)* is null.
    pub fn is_i_free<const I: u8>(&self, dart_id: DartIdType) -> (r: bool)
        requires
            self.wf(),
            I < 4,
            (dart_id as int) < self.n(),
        ensures
            r == (self.img(I as int, dart_id as int) == NULL_DART_ID),
    {
        self.betas.get(I, dart_id) == NULL_DART_ID
    }

    /// Whether `dart_id` is 0-, 1-, 2- and 3-free.
    pub fn is_free(&self, dart_id: DartIdType) -> (r: bool)
        requires
            self.wf(),
            (dart_id as int) < self.n(),
        ensures
            r == self.free(dart_id as int),
    {
        self.betas.get(0, dart_id) == NULL_DART_ID && self.betas.get(1, dart_id) == NULL_DART_ID
            && self.betas.get(2, dart_id) == NULL_DART_ID && self.betas.get(3, dart_id) == NULL_DART_ID
    }

    /// Identifier of the vertex of `dart_id`: the smallest dart reachable from it through the
    /// steps of [`vertex_id_steps_3d`].
    pub fn vertex_id(&self, dart_id: DartIdType) -> (r: VertexIdType)
        requires
            self.wf(),
            (dart_id as int) < self.n(),
        ensures
            r == self.vid(dart_id as int),
            r <= dart_id,
    {
        let steps = vertex_id_steps_3d_exec();
        orbit_min(&self.betas, &steps, dart_id)
    }

    /// Identifier of the edge of `dart_id`: the smallest dart of its edge orbit.
    pub fn edge_id(&self, dart_id: DartIdType) -> (r: EdgeIdType)
        requires
            self.wf(),
            (dart_id as int) < self.n(),
        ensures
            r == self.eid(dart_id as int),
            r <= dart_id,
    {
        let steps = policy_steps_3d(&OrbitPolicy::Edge);
        orbit_min(&self.betas, &steps, dart_id)
    }

    /// Identifier of the face of `dart_id`: the smallest dart of its face orbit.
    pub fn face_id(&self, dart_id: DartIdType) -> (r: FaceIdType)
        requires
            self.wf(),
            (dart_id as int) < self.n(),
        ensures
            r == self.fid(dart_id as int),
            r <= dart_id,
    {
        let steps = policy_steps_3d(&OrbitPolicy::Face);
        orbit_min(&self.betas, &steps, dart_id)
    }

    /// Identifier of the volume of `dart_id`: the smallest dart of its volume orbit.
    pub fn volume_id(&self, dart_id: DartIdType) -> (r: VolumeIdType)
        requires
            self.wf(),
            (dart_id as int) < self.n(),
        ensures
            r == self.volid(dart_id as int),
            r <= dart_id,
    {
        let steps = policy_steps_3d(&OrbitPolicy::Volume);
        orbit_min(&self.betas, &steps, dart_id)
    }

    /// Orbit of `dart_id` under `opolicy`, in breadth-first order, starting with `dart_id`.
    pub fn orbit(&self, opolicy: OrbitPolicy, dart_id: DartIdType) -> (r: Vec<DartIdType>)
        requires
            self.wf(),
            policy_ok_3d(opolicy),
            (dart_id as int) < self.n(),
        ensures
            is_orbit_of(self.betas, steps_3d(opolicy), dart_id, r@),
            r@ == bfs_orbit(self.betas, steps_3d(opolicy), dart_id),
    {
        let steps = policy_steps_3d(&opolicy);
        orbit_bfs(&self.betas, &steps, dart_id)
    }

    /// Darts of the `I`-cell of `dart_id` (vertex, edge, face or volume), `dart_id` first.
    pub fn i_cell<const I: u8>(&self, dart_id: DartIdType) -> (r: Vec<DartIdType>)
        requires
            self.wf(),
            I < 4,
            (dart_id as int) < self.n(),
        ensures
            is_orbit_of(
                self.betas,
                steps_3d(
                    if I == 0 {
                        OrbitPolicy::Vertex
                    } else if I == 1 {
                        OrbitPolicy::Edge
                    } else if I == 2 {
                        OrbitPolicy::Face
                    } else {
                        OrbitPolicy::Volume
                    },
                ),
                dart_id,
                r@,
            ),
            r@ == bfs_orbit(
                self.betas,
                steps_3d(if I == 0 {
                        OrbitPolicy::Vertex
                    } else if I == 1 {
                        OrbitPolicy::Edge
                    } else if I == 2 {
                        OrbitPolicy::Face
                    } else {
                        OrbitPolicy::Volume
                    },),
                dart_id,
            ),
    {
        if I == 0 {
            self.orbit(OrbitPolicy::Vertex, dart_id)
        } else if I == 1 {
            self.orbit(OrbitPolicy::Edge, dart_id)
        } else if I == 2 {
            self.orbit(OrbitPolicy::Face, dart_id)
        } else {
            self.orbit(OrbitPolicy::Volume, dart_id)
        }
    }

    /// Whether `d` is a used dart identifying its cell (`kind` 0: vertex, 1: edge, 2: face, 3: volume).
    pub open spec fn is_rep(&self, kind: int, d: int) -> bool {
        !self.unused(d) && (if kind == 0 {
            self.vid(d)
        } else if kind == 1 {
            self.eid(d)
        } else if kind == 2 {
            self.fid(d)
        } else {
            self.volid(d)
        }) == d as DartIdType
    }

    /// Darts of `1..hi` identifying their cell, in increasing order.
    pub open spec fn reps_below(&self, kind: int, hi: int) -> Seq<DartIdType>
        decreases hi,
    {
        if hi <= 1 {
            Seq::empty()
        } else {
            let prev = self.reps_below(kind, hi - 1);
            if self.is_rep(kind, hi - 1) { prev.push((hi - 1) as DartIdType) } else { prev }
        }
    }

    /// Used darts (null dart excluded) identifying their cell, in increasing order.
    pub open spec fn cell_reps(&self, kind: int) -> Seq<DartIdType> {
        self.reps_below(kind, self.n() as int)
    }

    fn iter_cells(&self, kind: u8) -> (r: Vec<DartIdType>)
        requires
            self.wf(),
            kind < 4,
        ensures
            r@ == self.cell_reps(kind as int),
    {
        let n = self.betas.len();
        let mut res: Vec<DartIdType> = Vec::new();
        let mut d: usize = 1;
        while d < n
            invariant
                self.wf(),
                kind < 4,
                n == self.n(),
                1 <= d <= n,
                res@ == self.reps_below(kind as int, d as int),
            decreases n - d,
        {
            let dd = d as DartIdType;
            let keep = if self.unused_darts.get(dd) {
                false
            } else if kind == 0 {
                self.vertex_id(dd) == dd
            } else if kind == 1 {
                self.edge_id(dd) == dd
            } else if kind == 2 {
                self.face_id(dd) == dd
            } else {
                self.volume_id(dd) == dd
            };
            assert(keep == self.is_rep(kind as int, d as int));
            if keep {
                res.push(dd);
            }
            d = d + 1;
        }
        res
    }

    /// Identifiers of all the vertices of the map, in increasing order.
    pub fn fetch_vertices(&self) -> (r: Vec<VertexIdType>)
        requires
            self.wf(),
        ensures
            r@ == self.cell_reps(0),
    {
        self.iter_cells(0)
    }

    /// Identifiers of all the edges of the map, in increasing order.
    pub fn fetch_edges(&self) -> (r: Vec<EdgeIdType>)
        requires
            self.wf(),
        ensures
            r@ == self.cell_reps(1),
    {
        self.iter_cells(1)
    }

    /// Identifiers of all the faces of the map, in increasing order.
    pub fn fetch_faces(&self) -> (r: Vec<FaceIdType>)
        requires
            self.wf(),
        ensures
            r@ == self.cell_reps(2),
    {
        self.iter_cells(2)
    }

    /// Identifiers of all the volumes of the map, in increasing order.
    pub fn fetch_volumes(&self) -> (r: Vec<VolumeIdType>)
        requires
            self.wf(),
        ensures
            r@ == self.cell_reps(3),
    {
        self.iter_cells(3)
    }

    /// Set *β<sub>I</sub>(dart_id)* to `new_val`, without touching any other image.
    pub fn set_beta<const I: u8>(&mut self, dart_id: DartIdType, new_val: DartIdType)
        requires
            old(self).wf(),
            I < 4,
            dart_id != NULL_DART_ID,
            (dart_id as int) < old(self).n(),
            (new_val as int) < old(self).n(),
        ensures
            final(self).wf(),
            final(self).same_embedding(old(self)),
            final(self).img(I as int, dart_id as int) == new_val,
            forall|i: int, d: int| 0 <= i < 4 && 0 <= d < old(self).n() && (i != I || d != dart_id)
                ==> #[trigger] final(self).img(i, d) == old(self).img(i, d),
    {
        self.betas.set(I, dart_id, new_val);
    }

    /// Set the four images of `dart_id` to `[b0, b1, b2, b3]`, without touching any other image.
    pub fn set_betas(&mut self, dart_id: DartIdType, betas: [DartIdType; 4])
        requires
            old(self).wf(),
            dart_id != NULL_DART_ID,
            (dart_id as int) < old(self).n(),
            forall|i: int| 0 <= i < 4 ==> (#[trigger] betas[i] as int) < old(self).n(),
        ensures
            final(self).wf(),
            final(self).same_embedding(old(self)),
            forall|i: int| 0 <= i < 4 ==> #[trigger] final(self).img(i, dart_id as int) == betas[i],
            forall|i: int, d: int| 0 <= i < 4 && 0 <= d < old(self).n() && d != dart_id
                ==> #[trigger] final(self).img(i, d) == old(self).img(i, d),
    {
        let b0 = betas[0];
        let b1 = betas[1];
        let b2 = betas[2];
        let b3 = betas[3];
        self.betas.set(0, dart_id, b0);
        self.betas.set(1, dart_id, b1);
        self.betas.set(2, dart_id, b2);
        self.betas.set(3, dart_id, b3);
    }
}

} // verus!
