//! [`TwoMap`]: a 2D combinatorial map with cell identifiers stored per dart.

use crate::components::BetaFunctionsAt;
use crate::dart::{CellIdentifiers, DartData};
use crate::embed::{SewPolicy, UnsewPolicy};
use crate::ids::{DartIdType, NULL_DART_ID};
use crate::orbits::OrbitStep;
use vstd::prelude::*;

verus! {

/// Image of `x` through a step, for the image function `img` (`img(i, d)` is *β<sub>i</sub>(d)*).
pub open spec fn apply_step(img: spec_fn(int, int) -> DartIdType, s: OrbitStep, x: DartIdType) -> DartIdType {
    match s {
        OrbitStep::One(i) => img(i as int, x as int),
        OrbitStep::Two(i, j) => img(j as int, img(i as int, x as int) as int),
    }
}

/// `d` after `k` applications of the step `s`.
pub open spec fn iterate(img: spec_fn(int, int) -> DartIdType, s: OrbitStep, k: nat, d: DartIdType) -> DartIdType
    decreases k,
{
    if k == 0 {
        d
    } else {
        apply_step(img, s, iterate(img, s, (k - 1) as nat, d))
    }
}

/// A rotation from `d` stops at its `m`-th dart: the next one is `d` again, or the `m`-th
/// dart (`m >= 1`) is the null dart.
pub open spec fn stops_at(img: spec_fn(int, int) -> DartIdType, s: OrbitStep, d: DartIdType, m: nat) -> bool {
    iterate(img, s, m + 1, d) == d || (m >= 1 && iterate(img, s, m, d) == NULL_DART_ID)
}

/// The rotation from `d` stops.
pub open spec fn rotation_ends(img: spec_fn(int, int) -> DartIdType, s: OrbitStep, d: DartIdType) -> bool {
    exists|m: nat| #[trigger] stops_at(img, s, d, m)
}

/// `r` lists the rotation from `d`: `d` and its iterated images, up to the first stop.
pub open spec fn is_rotation(img: spec_fn(int, int) -> DartIdType, s: OrbitStep, d: DartIdType, r: Seq<DartIdType>) -> bool {
    &&& 1 <= r.len()
    &&& stops_at(img, s, d, (r.len() - 1) as nat)
    &&& forall|j: nat| j < r.len() - 1 ==> !#[trigger] stops_at(img, s, d, j)
    &&& forall|j: int| 0 <= j < r.len() ==> #[trigger] r[j] == iterate(img, s, j as nat, d)
}

/// Step rotating around a vertex (*β<sub>1</sub> ∘ β<sub>2</sub>*) for `I == 0`, along a face
/// (*β<sub>1</sub>*) otherwise.
pub open spec fn rotation_step(i: usize) -> OrbitStep {
    if i == 0 { OrbitStep::Two(2, 1) } else { OrbitStep::One(1) }
}

/// Iterated images stay below `n` when the image function does.
pub proof fn lemma_iterate_below(img: spec_fn(int, int) -> DartIdType, s: OrbitStep, k: nat, d: DartIdType, n: int)
    requires
        (d as int) < n,
        forall|i: int, e: int| (#[trigger] img(i, e) as int) < n,
    ensures
        (iterate(img, s, k, d) as int) < n,
    decreases k,
{
    if k > 0 {
        lemma_iterate_below(img, s, (k - 1) as nat, d, n);
    }
}

/// 2D combinatorial map with per-dart cell identifiers.
///
/// *β<sub>0</sub>* is the inverse of *β<sub>1</sub>*; there are no 0-sew or 0-unsew operations.
/// `V` is the type of vertex values; `N_MARKS` is the number of dart marks.
pub struct TwoMap<V, const N_MARKS: usize> {
    /// Vertices of the represented mesh.
    pub vertices: Vec<V>,
    /// Cell identifiers of each dart.
    pub dart_data: DartData,
    /// Identifiers of removed darts, available for insertion.
    pub free_darts: Vec<DartIdType>,
    /// Beta functions.
    pub betas: BetaFunctionsAt<3>,
}

impl<V: Copy, const N_MARKS: usize> TwoMap<V, N_MARKS> {
    /// Number of darts, the null dart included.
    #[verifier::inline]
    pub open spec fn n(&self) -> nat {
        self.betas.n()
    }

    /// *β<sub>i</sub>(d)*.
    #[verifier::inline]
    pub open spec fn img(&self, i: int, d: int) -> DartIdType {
        self.betas.img(i, d)
    }

    /// The image function of the map.
    pub open spec fn images(&self) -> spec_fn(int, int) -> DartIdType {
        |i: int, d: int| if 0 <= i < 3 && 0 <= d < self.betas.n() { self.betas.img(i, d) } else { NULL_DART_ID }
    }

    /// Whether dart `d` is free.
    pub open spec fn free(&self, d: int) -> bool {
        self.img(0, d) == NULL_DART_ID && self.img(1, d) == NULL_DART_ID && self.img(2, d) == NULL_DART_ID
    }

    /// Well-formedness: images are darts of the map, the null dart has null images, every dart
    /// has an entry of cell identifiers, and removed darts are darts of the map.
    pub open spec fn wf(&self) -> bool {
        &&& self.betas.wf()
        &&& self.dart_data.n() == self.n()
        &&& self.n() <= u32::MAX
        &&& forall|j: int| 0 <= j < self.free_darts@.len() ==> (#[trigger] self.free_darts@[j] as int) < self.n()
    }

    /// Creates a map of `n_darts` free darts (plus the null dart), with null cell identifiers,
    /// no vertex and no removed dart.
    pub fn new(n_darts: usize) -> (r: Self)
        requires
            n_darts < u32::MAX,
        ensures
            r.wf(),
            r.n() == n_darts + 1,
            forall|i: int, d: int| 0 <= i < 3 && 0 <= d < r.n() ==> #[trigger] r.img(i, d) == NULL_DART_ID,
            forall|d: int| 0 <= d < r.n() ==> #[trigger] r.dart_data.cells(d) == (CellIdentifiers { vertex_id: 0, face_id: 0 }),
            r.vertices@.len() == 0,
            r.free_darts@.len() == 0,
    {
        let r = TwoMap {
            dart_data: DartData::new(n_darts),
            betas: BetaFunctionsAt::new(n_darts),
            vertices: Vec::with_capacity(n_darts),
            free_darts: Vec::with_capacity(n_darts + 1),
        };
        assert(r.betas.null_from(0));
        r
    }

    /// *β<sub>I</sub>(dart_id)*; the null dart means that `dart_id` is `I`-free.
    pub fn beta<const I: u8>(&self, dart_id: DartIdType) -> (r: DartIdType)
        requires
            self.wf(),
            I < 3,
            (dart_id as int) < self.n(),
        ensures
            r == self.img(I as int, dart_id as int),
            (r as int) < self.n(),
    {
        self.betas.get(I, dart_id)
    }

    /// Cell identifiers of `dart_id`.
    pub fn cell_of(&self, dart_id: DartIdType) -> (r: CellIdentifiers)
        requires
            self.wf(),
            (dart_id as int) < self.n(),
        ensures
            r == self.dart_data.cells(dart_id as int),
    {
        self.dart_data.associated_cells[dart_id as usize]
    }

    /// Whether `dart_id` is `I`-free.
    pub fn is_i_free<const I: u8>(&self, dart_id: DartIdType) -> (r: bool)
        requires
            self.wf(),
            I < 3,
            (dart_id as int) < self.n(),
        ensures
            r == (self.img(I as int, dart_id as int) == NULL_DART_ID),
    {
        self.beta::<I>(dart_id) == NULL_DART_ID
    }

    /// Whether `dart_id` is 0-free, 1-free and 2-free.
    pub fn is_free(&self, dart_id: DartIdType) -> (r: bool)
        requires
            self.wf(),
            (dart_id as int) < self.n(),
        ensures
            r == self.free(dart_id as int),
    {
        self.beta::<0>(dart_id) == NULL_DART_ID && self.beta::<1>(dart_id) == NULL_DART_ID && self.beta::<2>(dart_id)
            == NULL_DART_ID
    }

    fn step(&self, s: OrbitStep, d: DartIdType) -> (r: DartIdType)
        requires
            self.wf(),
            (d as int) < self.n(),
            s == OrbitStep::Two(2, 1) || s == OrbitStep::One(1),
        ensures
            r == apply_step(self.images(), s, d),
            (r as int) < self.n(),
    {
        match s {
            OrbitStep::One(i) => self.betas.get(1, d),
            OrbitStep::Two(i, j) => {
                let e = self.betas.get(2, d);
                self.betas.get(1, e)
            },
        }
    }

    /// Darts of the `I`-cell of `dart_id`, `dart_id` first.
    ///
    /// For `I == 1`, the edge `[dart_id, β2(dart_id)]`. For `I == 0` (resp. `I == 2`), the
    /// darts met rotating around the vertex with *β<sub>1</sub> ∘ β<sub>2</sub>* (resp. along the
    /// face with *β<sub>1</sub>*), until the rotation comes back to `dart_id` or lands on the
    /// null dart (which is then listed last).
    pub fn i_cell_of<const I: usize>(&self, dart_id: DartIdType) -> (r: Vec<DartIdType>)
        requires
            self.wf(),
            I < 3,
            (dart_id as int) < self.n(),
            I != 1 ==> rotation_ends(self.images(), rotation_step(I), dart_id),
        ensures
            I == 1 ==> r@ == seq![dart_id, self.img(2, dart_id as int)],
            I != 1 ==> is_rotation(self.images(), rotation_step(I), dart_id, r@),
    {
        if I == 1 {
            let b2 = self.betas.get(2, dart_id);
            return vec![dart_id, b2];
        }
        let s = if I == 0 { OrbitStep::Two(2, 1) } else { OrbitStep::One(1) };
        let ghost img = self.images();
        let ghost m = choose|m: nat| #[trigger] stops_at(img, s, dart_id, m);
        let mut cell: Vec<DartIdType> = vec![dart_id];
        let mut curr = dart_id;
        let ghost mut j: nat = 0;
        let mut done = false;
        while !done
            invariant
                self.wf(),
                img == self.images(),
                s == rotation_step(I),
                s == OrbitStep::Two(2, 1) || s == OrbitStep::One(1),
                stops_at(img, s, dart_id, m),
                (curr as int) < self.n(),
                j <= m,
                curr == iterate(img, s, j, dart_id),
                cell@.len() == j + 1,
                forall|k: int| 0 <= k <= j ==> #[trigger] cell@[k] == iterate(img, s, k as nat, dart_id),
                forall|k: nat| k < j ==> !#[trigger] stops_at(img, s, dart_id, k),
                !done ==> (j >= 1 ==> curr != NULL_DART_ID),
                done ==> stops_at(img, s, dart_id, j),
            decreases m - j, if done { 0int } else { 1int },
        {
            let next = self.step(s, curr);
            assert(iterate(img, s, j + 1, dart_id) == next);
            if next == dart_id {
                done = true;
            } else {
                assert(!stops_at(img, s, dart_id, j));
                curr = next;
                proof {
                    j = j + 1;
                }
                cell.push(curr);
                if curr == NULL_DART_ID {
                    done = true;
                }
            }
        }
        cell
    }

    /// Add a new free dart at the end of the dart list; return its identifier.
    pub fn add_free_dart(&mut self) -> (r: DartIdType)
        requires
            old(self).wf(),
            old(self).n() < u32::MAX,
        ensures
            final(self).wf(),
            r == old(self).n(),
            final(self).n() == old(self).n() + 1,
            forall|i: int, d: int| 0 <= i < 3 && 0 <= d < old(self).n() ==> #[trigger] final(self).img(i, d) == old(self).img(i, d),
            final(self).free(r as int),
            final(self).dart_data.associated_cells@ == old(self).dart_data.associated_cells@.push(
                CellIdentifiers { vertex_id: 0, face_id: 0 },
            ),
            final(self).vertices@ == old(self).vertices@,
            final(self).free_darts@ == old(self).free_darts@,
    {
        let new_id = self.dart_data.associated_cells.len() as DartIdType;
        self.dart_data.add_entry();
        self.betas.extend(1);
        assert(self.betas.null_from(old(self).n() as int));
        assert(self.betas.wf()) by {
            assert forall|d: int, i: int| 0 <= d < self.betas.n() && 0 <= i < 3 implies #[trigger] self.betas.img(i, d) < self.betas.n() by {
                if d >= old(self).n() {
                    assert(self.betas.null_from(old(self).n() as int));
                }
            }
        }
        new_id
    }

    /// Insert a new free dart, reusing the last removed identifier if there is one; return its
    /// identifier.
    pub fn insert_free_dart(&mut self) -> (r: DartIdType)
        requires
            old(self).wf(),
            old(self).free_darts@.len() == 0 ==> old(self).n() < u32::MAX,
        ensures
            final(self).wf(),
            final(self).free(r as int),
            old(self).free_darts@.len() > 0 ==> {
                &&& r == old(self).free_darts@.last()
                &&& final(self).free_darts@ == old(self).free_darts@.drop_last()
                &&& final(self).n() == old(self).n()
                &&& forall|i: int, d: int| 0 <= i < 3 && 0 <= d < old(self).n() && d != r
                    ==> #[trigger] final(self).img(i, d) == old(self).img(i, d)
                &&& final(self).dart_data.associated_cells@ == old(self).dart_data.associated_cells@.update(
                    r as int,
                    CellIdentifiers { vertex_id: 0, face_id: 0 },
                )
            },
            old(self).free_darts@.len() == 0 ==> {
                &&& r == old(self).n()
                &&& final(self).n() == old(self).n() + 1
                &&& final(self).free_darts@ == old(self).free_darts@
                &&& forall|i: int, d: int| 0 <= i < 3 && 0 <= d < old(self).n()
                    ==> #[trigger] final(self).img(i, d) == old(self).img(i, d)
                &&& final(self).dart_data.associated_cells@ == old(self).dart_data.associated_cells@.push(
                    CellIdentifiers { vertex_id: 0, face_id: 0 },
                )
            },
            final(self).vertices@ == old(self).vertices@,
    {
        if let Some(new_id) = self.free_darts.pop() {
            assert(old(self).free_darts@[old(self).free_darts@.len() - 1] == new_id);
            self.dart_data.reset_entry(new_id);
            self.betas.set(0, new_id, NULL_DART_ID);
            self.betas.set(1, new_id, NULL_DART_ID);
            self.betas.set(2, new_id, NULL_DART_ID);
            assert forall|j: int| 0 <= j < self.free_darts@.len() implies (#[trigger] self.free_darts@[j] as int) < self.n() by {
                assert(self.free_darts@[j] == old(self).free_darts@[j]);
            }
            new_id
        } else {
            self.add_free_dart()
        }
    }

    /// Remove a free dart: its identifier becomes available for insertion, its images and cell
    /// identifiers are reset.
    pub fn remove_free_dart(&mut self, dart_id: DartIdType)
        requires
            old(self).wf(),
            (dart_id as int) < old(self).n(),
            old(self).free(dart_id as int),
        ensures
            final(self).wf(),
            final(self).n() == old(self).n(),
            final(self).free_darts@ == old(self).free_darts@.push(dart_id),
            forall|i: int, d: int| 0 <= i < 3 && 0 <= d < old(self).n() ==> #[trigger] final(self).img(i, d) == old(self).img(i, d),
            final(self).dart_data.associated_cells@ == old(self).dart_data.associated_cells@.update(
                dart_id as int,
                CellIdentifiers { vertex_id: 0, face_id: 0 },
            ),
            final(self).vertices@ == old(self).vertices@,
    {
        self.free_darts.push(dart_id);
        self.dart_data.reset_entry(dart_id);
        assert forall|j: int| 0 <= j < self.free_darts@.len() implies (#[trigger] self.free_darts@[j] as int) < self.n() by {
            if j < old(self).free_darts@.len() {
                assert(self.free_darts@[j] == old(self).free_darts@[j]);
            }
        }
    }

    /// Set the three images of `dart_id` to `betas` = *[β<sub>0</sub>, β<sub>1</sub>, β<sub>2</sub>]*.
    pub fn set_d_betas(&mut self, dart_id: DartIdType, betas: [DartIdType; 3])
        requires
            old(self).wf(),
            dart_id != NULL_DART_ID,
            (dart_id as int) < old(self).n(),
            forall|i: int| 0 <= i < 3 ==> (#[trigger] betas[i] as int) < old(self).n(),
        ensures
            final(self).wf(),
            final(self).n() == old(self).n(),
            forall|i: int| 0 <= i < 3 ==> #[trigger] final(self).img(i, dart_id as int) == betas[i],
            forall|i: int, d: int| 0 <= i < 3 && 0 <= d < old(self).n() && d != dart_id
                ==> #[trigger] final(self).img(i, d) == old(self).img(i, d),
            final(self).dart_data == old(self).dart_data,
            final(self).vertices == old(self).vertices,
            final(self).free_darts == old(self).free_darts,
    {
        let b0 = betas[0];
        let b1 = betas[1];
        let b2 = betas[2];
        self.betas.set(0, dart_id, b0);
        self.betas.set(1, dart_id, b1);
        self.betas.set(2, dart_id, b2);
    }

    /// Set the vertex identifier of `dart_id`.
    pub fn set_d_vertex(&mut self, dart_id: DartIdType, vertex_id: usize)
        requires
            old(self).wf(),
            (dart_id as int) < old(self).n(),
        ensures
            final(self).wf(),
            final(self).dart_data.associated_cells@ == old(self).dart_data.associated_cells@.update(
                dart_id as int,
                CellIdentifiers { vertex_id, face_id: old(self).dart_data.cells(dart_id as int).face_id },
            ),
            final(self).betas == old(self).betas,
            final(self).vertices == old(self).vertices,
            final(self).free_darts == old(self).free_darts,
    {
        let mut c = self.dart_data.associated_cells[dart_id as usize];
        c.vertex_id = vertex_id;
        self.dart_data.associated_cells.set(dart_id as usize, c);
    }

    /// Set the face identifier of `dart_id`.
    pub fn set_d_face(&mut self, dart_id: DartIdType, face_id: usize)
        requires
            old(self).wf(),
            (dart_id as int) < old(self).n(),
        ensures
            final(self).wf(),
            final(self).dart_data.associated_cells@ == old(self).dart_data.associated_cells@.update(
                dart_id as int,
                CellIdentifiers { vertex_id: old(self).dart_data.cells(dart_id as int).vertex_id, face_id },
            ),
            final(self).betas == old(self).betas,
            final(self).vertices == old(self).vertices,
            final(self).free_darts == old(self).free_darts,
    {
        let mut c = self.dart_data.associated_cells[dart_id as usize];
        c.face_id = face_id;
        self.dart_data.associated_cells.set(dart_id as usize, c);
    }

    /// Images after *β<sub>1</sub>(ld)* and *β<sub>0</sub>* of its former image are reset.
    pub open spec fn one_unlinked_images(&self, old: &Self, ld: DartIdType) -> bool {
        let rd = old.img(1, ld as int);
        &&& self.n() == old.n()
        &&& self.img(1, ld as int) == NULL_DART_ID
        &&& self.img(0, rd as int) == NULL_DART_ID
        &&& forall|i: int, d: int| 0 <= i < 3 && 0 <= d < old.n() && !(i == 1 && d == ld) && !(i == 0 && d == rd)
            ==> #[trigger] self.img(i, d) == old.img(i, d)
    }

    /// Images after `ld` and `rd` are 2-linked.
    pub open spec fn two_linked_images(&self, old: &Self, ld: DartIdType, rd: DartIdType) -> bool {
        &&& self.n() == old.n()
        &&& self.img(2, ld as int) == rd
        &&& self.img(2, rd as int) == ld
        &&& forall|i: int, d: int| 0 <= i < 3 && 0 <= d < old.n() && !(i == 2 && (d == ld || d == rd))
            ==> #[trigger] self.img(i, d) == old.img(i, d)
    }

    /// Images after *β<sub>2</sub>(ld)* and *β<sub>2</sub>* of its former image are reset.
    pub open spec fn two_unlinked_images(&self, old: &Self, ld: DartIdType) -> bool {
        let opp = old.img(2, ld as int);
        &&& self.n() == old.n()
        &&& self.img(2, ld as int) == NULL_DART_ID
        &&& self.img(2, opp as int) == NULL_DART_ID
        &&& forall|i: int, d: int| 0 <= i < 3 && 0 <= d < old.n() && !(i == 2 && (d == ld || d == opp))
            ==> #[trigger] self.img(i, d) == old.img(i, d)
    }

    /// Image function of the map once `ld` is 1-linked to `rd`.
    pub open spec fn images_one_linked(&self, ld: DartIdType, rd: DartIdType) -> spec_fn(int, int) -> DartIdType {
        |i: int, d: int|
            if !(0 <= i < 3 && 0 <= d < self.betas.n()) {
                NULL_DART_ID
            } else if i == 1 && d == ld as int {
                rd
            } else if i == 0 && d == rd as int {
                ld
            } else {
                self.betas.img(i, d)
            }
    }

    /// i-sew (`I` is 1 or 2): set *β<sub>I</sub>(lhs_dart_id) = rhs_dart_id* coherently.
    ///
    /// For `I == 1`, *β<sub>0</sub>(rhs_dart_id)* is set to `lhs_dart_id`; then, if the vertex
    /// rotation of `rhs_dart_id` holds another dart, `rhs_dart_id` takes the vertex identifier of
    /// that dart. For `I == 2`, *β<sub>2</sub>(rhs_dart_id)* is set to `lhs_dart_id`.
    pub fn i_sew<const I: u8>(&mut self, lhs_dart_id: DartIdType, rhs_dart_id: DartIdType, policy: SewPolicy)
        requires
            old(self).wf(),
            I == 1 || I == 2,
            lhs_dart_id != NULL_DART_ID,
            rhs_dart_id != NULL_DART_ID,
            (lhs_dart_id as int) < old(self).n(),
            (rhs_dart_id as int) < old(self).n(),
            I == 1 ==> old(self).img(1, lhs_dart_id as int) == NULL_DART_ID,
            I == 1 ==> old(self).img(0, rhs_dart_id as int) == NULL_DART_ID,
            I == 1 ==> rotation_ends(old(self).images_one_linked(lhs_dart_id, rhs_dart_id), OrbitStep::Two(2, 1), rhs_dart_id),
            I == 2 ==> old(self).img(2, lhs_dart_id as int) == NULL_DART_ID,
            I == 2 ==> old(self).img(2, rhs_dart_id as int) == NULL_DART_ID,
        ensures
            final(self).wf(),
            final(self).n() == old(self).n(),
            final(self).vertices == old(self).vertices,
            final(self).free_darts == old(self).free_darts,
            I == 1 ==> final(self).images() =~= old(self).images_one_linked(lhs_dart_id, rhs_dart_id),
            I == 1 ==> ({
                let img = old(self).images_one_linked(lhs_dart_id, rhs_dart_id);
                let s = OrbitStep::Two(2, 1);
                if stops_at(img, s, rhs_dart_id, 0) {
                    final(self).dart_data == old(self).dart_data
                } else {
                    final(self).dart_data.associated_cells@ == old(self).dart_data.associated_cells@.update(
                        rhs_dart_id as int,
                        CellIdentifiers {
                            vertex_id: old(self).dart_data.cells(iterate(img, s, 1, rhs_dart_id) as int).vertex_id,
                            face_id: old(self).dart_data.cells(rhs_dart_id as int).face_id,
                        },
                    )
                }
            }),
            I == 2 ==> final(self).two_linked_images(old(self), lhs_dart_id, rhs_dart_id),
            I == 2 ==> final(self).dart_data == old(self).dart_data,
    {
        if I == 1 {
            self.betas.set(1, lhs_dart_id, rhs_dart_id);
            self.betas.set(0, rhs_dart_id, lhs_dart_id);
            assert(self.images() =~= old(self).images_one_linked(lhs_dart_id, rhs_dart_id));
            let zero_cell = self.i_cell_of::<0>(rhs_dart_id);
            if zero_cell.len() > 1 {
                match policy {
                    SewPolicy::StretchLeft | SewPolicy::StretchRight | SewPolicy::StretchAverage => {
                        let other = zero_cell[1];
                        assert(other == iterate(self.images(), OrbitStep::Two(2, 1), 1, rhs_dart_id));
                        proof {
                            lemma_iterate_below(self.images(), OrbitStep::Two(2, 1), 1, rhs_dart_id, self.n() as int);
                        }
                        let vid = self.cell_of(other).vertex_id;
                        self.set_d_vertex(rhs_dart_id, vid);
                    },
                }
            } else {
                assert(stops_at(self.images(), OrbitStep::Two(2, 1), rhs_dart_id, 0));
            }
        } else {
            self.betas.set(2, lhs_dart_id, rhs_dart_id);
            self.betas.set(2, rhs_dart_id, lhs_dart_id);
        }
    }

    /// i-unsew (`I` is 1 or 2): reset *β<sub>I</sub>(lhs_dart_id)* and the matching image of
    /// its former image.
    ///
    /// For `I == 1`, with the `Duplicate` policy, the vertex of the former
    /// *β<sub>1</sub>(lhs_dart_id)* is copied at the end of the vertex list and that dart takes
    /// the new vertex identifier.
    pub fn i_unsew<const I: u8>(&mut self, lhs_dart_id: DartIdType, policy: UnsewPolicy)
        requires
            old(self).wf(),
            I == 1 || I == 2,
            (lhs_dart_id as int) < old(self).n(),
            I == 1 && policy == UnsewPolicy::Duplicate ==> old(self).dart_data.cells(
                old(self).img(1, lhs_dart_id as int) as int,
            ).vertex_id < old(self).vertices@.len(),
        ensures
            final(self).wf(),
            final(self).n() == old(self).n(),
            final(self).free_darts == old(self).free_darts,
            I == 1 ==> ({
                let rd = old(self).img(1, lhs_dart_id as int);
                &&& final(self).one_unlinked_images(old(self), lhs_dart_id)
                &&& policy == UnsewPolicy::Duplicate ==> {
                    &&& final(self).vertices@ == old(self).vertices@.push(
                        old(self).vertices@[old(self).dart_data.cells(rd as int).vertex_id as int],
                    )
                    &&& final(self).dart_data.associated_cells@ == old(self).dart_data.associated_cells@.update(
                        rd as int,
                        CellIdentifiers {
                            vertex_id: old(self).vertices@.len() as usize,
                            face_id: old(self).dart_data.cells(rd as int).face_id,
                        },
                    )
                }
                &&& policy == UnsewPolicy::DoNothing ==> final(self).vertices == old(self).vertices
                    && final(self).dart_data == old(self).dart_data
            }),
            I == 2 ==> ({
                &&& final(self).two_unlinked_images(old(self), lhs_dart_id)
                &&& final(self).vertices == old(self).vertices
                &&& final(self).dart_data == old(self).dart_data
            }),
    {
        if I == 1 {
            let rhs_dart_id = self.betas.get(1, lhs_dart_id);
            self.betas.set(1, lhs_dart_id, NULL_DART_ID);
            self.betas.set(0, rhs_dart_id, NULL_DART_ID);
            match policy {
                UnsewPolicy::Duplicate => {
                    let old_vertex = self.vertices[self.cell_of(rhs_dart_id).vertex_id];
                    self.vertices.push(old_vertex);
                    let new_vid = self.vertices.len() - 1;
                    self.set_d_vertex(rhs_dart_id, new_vid);
                },
                UnsewPolicy::DoNothing => {},
            }
        } else {
            let opp = self.betas.get(2, lhs_dart_id);
            self.betas.set(2, lhs_dart_id, NULL_DART_ID);
            self.betas.set(2, opp, NULL_DART_ID);
        }
    }
}

/// 1-unsewing `ld` right after 1-sewing it to `rd` gives back the images of the map.
pub proof fn lemma_one_sew_unsew<V: Copy, const N_MARKS: usize>(
    m0: TwoMap<V, N_MARKS>,
    m1: TwoMap<V, N_MARKS>,
    m2: TwoMap<V, N_MARKS>,
    ld: DartIdType,
    rd: DartIdType,
)
    requires
        m0.wf(),
        (ld as int) < m0.n(),
        (rd as int) < m0.n(),
        m0.img(1, ld as int) == NULL_DART_ID,
        m0.img(0, rd as int) == NULL_DART_ID,
        m1.n() == m0.n(),
        m1.images() =~= m0.images_one_linked(ld, rd),
        m2.one_unlinked_images(&m1, ld),
    ensures
        m2.n() == m0.n(),
        forall|i: int, d: int| 0 <= i < 3 && 0 <= d < m0.n() ==> #[trigger] m2.img(i, d) == m0.img(i, d),
{
    assert forall|i: int, d: int| 0 <= i < 3 && 0 <= d < m0.n() implies #[trigger] m2.img(i, d) == m0.img(i, d) by {
        assert(m1.images()(i, d) == m0.images_one_linked(ld, rd)(i, d));
        assert(m1.images()(1, ld as int) == m0.images_one_linked(ld, rd)(1, ld as int));
        if i == 1 && d == ld {
        } else if i == 0 && d == rd {
        } else {
            assert(m2.img(i, d) == m1.img(i, d));
        }
    }
}

/// 2-unsewing `ld` right after 2-sewing it to `rd` gives back the images of the map.
pub proof fn lemma_two_sew_unsew<V: Copy, const N_MARKS: usize>(
    m0: TwoMap<V, N_MARKS>,
    m1: TwoMap<V, N_MARKS>,
    m2: TwoMap<V, N_MARKS>,
    ld: DartIdType,
    rd: DartIdType,
)
    requires
        m0.wf(),
        (ld as int) < m0.n(),
        (rd as int) < m0.n(),
        m0.img(2, ld as int) == NULL_DART_ID,
        m0.img(2, rd as int) == NULL_DART_ID,
        m1.two_linked_images(&m0, ld, rd),
        m2.two_unlinked_images(&m1, ld),
    ensures
        m2.n() == m0.n(),
        forall|i: int, d: int| 0 <= i < 3 && 0 <= d < m0.n() ==> #[trigger] m2.img(i, d) == m0.img(i, d),
{
    assert forall|i: int, d: int| 0 <= i < 3 && 0 <= d < m0.n() implies #[trigger] m2.img(i, d) == m0.img(i, d) by {
        if i == 2 && (d == ld || d == rd) {
        } else {
            assert(m2.img(i, d) == m1.img(i, d));
        }
    }
}

} // verus!
