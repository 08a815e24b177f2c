//! Properties of [`CMap3`] that relate several operations.

use crate::attributes::AttributeUpdate;
use crate::cmap3::structure::CMap3;
use crate::cmap3::links::{count_null, lemma_link3_count, link3, three_link_from, three_unlink_from, unlink3};
use crate::ids::{DartIdType, NULL_DART_ID};
use crate::orbits::{
    in_orbit, is_next, lemma_orbit_id_constant, step_img, steps_3d, steps_below, steps_invertible, vertex_id_steps_3d,
    OrbitPolicy,
};
use vstd::prelude::*;

verus! {

impl<V: AttributeUpdate> CMap3<V> {
    /// The images are consistent: *β<sub>0</sub>* is the inverse of *β<sub>1</sub>*, and
    /// *β<sub>2</sub>* and *β<sub>3</sub>* are involutions, on the linked darts of the map.
    pub open spec fn consistent(&self) -> bool {
        &&& forall|d: int| 0 < d < self.n() && #[trigger] self.img(1, d) != NULL_DART_ID
            ==> self.img(0, self.img(1, d) as int) == d
        &&& forall|d: int| 0 < d < self.n() && #[trigger] self.img(0, d) != NULL_DART_ID
            ==> self.img(1, self.img(0, d) as int) == d
        &&& forall|d: int| 0 < d < self.n() && #[trigger] self.img(2, d) != NULL_DART_ID
            ==> self.img(2, self.img(2, d) as int) == d
        &&& forall|d: int| 0 < d < self.n() && #[trigger] self.img(3, d) != NULL_DART_ID
            ==> self.img(3, self.img(3, d) as int) == d
    }
}

/// 1-unlinking `ld` right after 1-linking it to `rd` succeeds and gives back the former
/// images, on both sides of the face.
pub proof fn lemma_one_link_unlink<V: AttributeUpdate>(o: CMap3<V>, m: CMap3<V>, ld: DartIdType, rd: DartIdType)
    requires
        o.wf(),
        ld != NULL_DART_ID,
        rd != NULL_DART_ID,
        (ld as int) < o.n(),
        (rd as int) < o.n(),
        o.one_link_outcome(ld, rd) is Ok,
        m.n() == o.n(),
        m.imgs() =~= o.one_link_outcome(ld, rd)->Ok_0,
    ensures
        m.one_unlink_outcome(ld) is Ok,
        m.one_unlink_outcome(ld)->Ok_0 =~= o.imgs(),
{
    let f0 = o.imgs();
    let g = o.one_link_outcome(ld, rd)->Ok_0;
    assert(m.imgs()(1, ld as int) == g(1, ld as int));
    assert(m.imgs()(3, ld as int) == g(3, ld as int));
    assert(m.imgs()(3, rd as int) == g(3, rd as int));
    let b3l = f0(3, ld as int);
    let b3r = f0(3, rd as int);
    if b3l != NULL_DART_ID && b3r != NULL_DART_ID {
        assert(m.imgs()(1, b3r as int) == g(1, b3r as int));
    }
    let h = m.one_unlink_outcome(ld)->Ok_0;
    assert forall|i: int, d: int| #[trigger] h(i, d) == f0(i, d) by {
        assert(m.imgs()(i, d) == g(i, d));
    }
}

/// 2-unlinking `ld` right after 2-linking it to `rd` succeeds and gives back the former
/// images.
pub proof fn lemma_two_link_unlink<V: AttributeUpdate>(o: CMap3<V>, m: CMap3<V>, ld: DartIdType, rd: DartIdType)
    requires
        o.wf(),
        ld != NULL_DART_ID,
        rd != NULL_DART_ID,
        (ld as int) < o.n(),
        (rd as int) < o.n(),
        o.two_link_outcome(ld, rd) is Ok,
        m.n() == o.n(),
        m.imgs() =~= o.two_link_outcome(ld, rd)->Ok_0,
    ensures
        m.two_unlink_outcome(ld) is Ok,
        m.two_unlink_outcome(ld)->Ok_0 =~= o.imgs(),
{
    let f0 = o.imgs();
    let g = o.two_link_outcome(ld, rd)->Ok_0;
    assert(m.imgs()(2, ld as int) == g(2, ld as int));
    let h = m.two_unlink_outcome(ld)->Ok_0;
    assert forall|i: int, d: int| #[trigger] h(i, d) == f0(i, d) by {
        assert(m.imgs()(i, d) == g(i, d));
    }
}

/// On a consistent map, 2-linking `ld` back to its former *β<sub>2</sub>* image right after
/// 2-unlinking it succeeds and gives back the former images.
pub proof fn lemma_two_unlink_link<V: AttributeUpdate>(o: CMap3<V>, m: CMap3<V>, ld: DartIdType)
    requires
        o.wf(),
        o.consistent(),
        (ld as int) < o.n(),
        o.img(2, ld as int) != NULL_DART_ID,
        m.n() == o.n(),
        m.imgs() =~= o.two_unlink_outcome(ld)->Ok_0,
    ensures
        m.two_link_outcome(ld, o.img(2, ld as int)) is Ok,
        m.two_link_outcome(ld, o.img(2, ld as int))->Ok_0 =~= o.imgs(),
{
    let f0 = o.imgs();
    let rd = o.img(2, ld as int);
    assert(ld != NULL_DART_ID);
    assert(o.img(2, rd as int) == ld);
    let g = o.two_unlink_outcome(ld)->Ok_0;
    assert(m.imgs()(2, ld as int) == g(2, ld as int));
    assert(m.imgs()(2, rd as int) == g(2, rd as int));
    let h = m.two_link_outcome(ld, rd)->Ok_0;
    assert forall|i: int, d: int| #[trigger] h(i, d) == f0(i, d) by {
        assert(m.imgs()(i, d) == g(i, d));
    }
}

/// On a consistent map, each step of a face orbit is undone by another one.
pub proof fn lemma_face_steps_invertible<V: AttributeUpdate>(m: CMap3<V>)
    requires
        m.wf(),
        m.consistent(),
    ensures
        steps_invertible(m.betas, steps_3d(OrbitPolicy::Face)),
{
    let b = m.betas;
    let steps = steps_3d(OrbitPolicy::Face);
    assert forall|k: int, a: DartIdType| 0 <= k < steps.len() && a != NULL_DART_ID && (a as int) < b.n()
        && #[trigger] step_img(b, steps[k], a) != NULL_DART_ID implies is_next(b, steps, step_img(b, steps[k], a), a) by {
        let x = step_img(b, steps[k], a);
        if k == 0 {
            assert(step_img(b, steps[1], x) == a);
        } else if k == 1 {
            assert(step_img(b, steps[0], x) == a);
        } else {
            assert(step_img(b, steps[2], x) == a);
        }
    }
}

/// On a consistent map, each step of an edge orbit undoes itself.
pub proof fn lemma_edge_steps_invertible<V: AttributeUpdate>(m: CMap3<V>)
    requires
        m.wf(),
        m.consistent(),
    ensures
        steps_invertible(m.betas, steps_3d(OrbitPolicy::Edge)),
{
    let b = m.betas;
    let steps = steps_3d(OrbitPolicy::Edge);
    assert forall|k: int, a: DartIdType| 0 <= k < steps.len() && a != NULL_DART_ID && (a as int) < b.n()
        && #[trigger] step_img(b, steps[k], a) != NULL_DART_ID implies is_next(b, steps, step_img(b, steps[k], a), a) by {
        let x = step_img(b, steps[k], a);
        assert(step_img(b, steps[k], x) == a);
    }
}

/// Face identifiers identify faces: on a consistent map, all the darts of the face orbit of a
/// dart have its face identifier.
pub proof fn lemma_face_id_constant<V: AttributeUpdate>(m: CMap3<V>, d: DartIdType, x: DartIdType)
    requires
        m.wf(),
        m.consistent(),
        d != NULL_DART_ID,
        x != NULL_DART_ID,
        (d as int) < m.n(),
        in_orbit(m.betas, steps_3d(OrbitPolicy::Face), d, x),
    ensures
        m.fid(x as int) == m.fid(d as int),
{
    lemma_face_steps_invertible(m);
    assert(steps_below(steps_3d(OrbitPolicy::Face), 4));
    lemma_orbit_id_constant(m.betas, steps_3d(OrbitPolicy::Face), d, x);
}

/// Edge identifiers identify edges: on a consistent map, all the darts of the edge orbit of a
/// dart have its edge identifier.
pub proof fn lemma_edge_id_constant<V: AttributeUpdate>(m: CMap3<V>, d: DartIdType, x: DartIdType)
    requires
        m.wf(),
        m.consistent(),
        d != NULL_DART_ID,
        x != NULL_DART_ID,
        (d as int) < m.n(),
        in_orbit(m.betas, steps_3d(OrbitPolicy::Edge), d, x),
    ensures
        m.eid(x as int) == m.eid(d as int),
{
    lemma_edge_steps_invertible(m);
    assert(steps_below(steps_3d(OrbitPolicy::Edge), 4));
    lemma_orbit_id_constant(m.betas, steps_3d(OrbitPolicy::Edge), d, x);
}

/// On a consistent map, each step that identifies a vertex is undone by another one.
pub proof fn lemma_vertex_steps_invertible<V: AttributeUpdate>(m: CMap3<V>)
    requires
        m.wf(),
        m.consistent(),
    ensures
        steps_invertible(m.betas, vertex_id_steps_3d()),
{
    let b = m.betas;
    let steps = vertex_id_steps_3d();
    assert forall|k: int, a: DartIdType| 0 <= k < steps.len() && a != NULL_DART_ID && (a as int) < b.n()
        && #[trigger] step_img(b, steps[k], a) != NULL_DART_ID implies is_next(b, steps, step_img(b, steps[k], a), a) by {
        let x = step_img(b, steps[k], a);
        if k == 0 {
            let y = m.img(2, a as int);
            assert(y != NULL_DART_ID);
            assert(m.img(3, x as int) == y);
            assert(step_img(b, steps[5], x) == a);
        } else if k == 1 {
            let y = m.img(3, a as int);
            assert(y != NULL_DART_ID);
            assert(m.img(0, x as int) == y);
            assert(step_img(b, steps[3], x) == a);
        } else if k == 2 {
            let y = m.img(2, a as int);
            assert(y != NULL_DART_ID);
            assert(m.img(0, x as int) == y);
            assert(step_img(b, steps[4], x) == a);
        } else if k == 3 {
            let y = m.img(0, a as int);
            assert(y != NULL_DART_ID);
            assert(m.img(3, x as int) == y);
            assert(step_img(b, steps[1], x) == a);
        } else if k == 4 {
            let y = m.img(0, a as int);
            assert(y != NULL_DART_ID);
            assert(m.img(2, x as int) == y);
            assert(step_img(b, steps[2], x) == a);
        } else {
            let y = m.img(3, a as int);
            assert(y != NULL_DART_ID);
            assert(m.img(2, x as int) == y);
            assert(step_img(b, steps[0], x) == a);
        }
    }
}

/// Vertex identifiers identify vertices: on a consistent map, all the darts reachable from a
/// dart through the steps of [`vertex_id_steps_3d`], its vertex orbit among them, have its
/// vertex identifier.
pub proof fn lemma_vertex_id_constant<V: AttributeUpdate>(m: CMap3<V>, d: DartIdType, x: DartIdType)
    requires
        m.wf(),
        m.consistent(),
        d != NULL_DART_ID,
        x != NULL_DART_ID,
        (d as int) < m.n(),
        in_orbit(m.betas, vertex_id_steps_3d(), d, x),
    ensures
        m.vid(x as int) == m.vid(d as int),
{
    lemma_vertex_steps_invertible(m);
    assert(steps_below(vertex_id_steps_3d(), 4));
    lemma_orbit_id_constant(m.betas, vertex_id_steps_3d(), d, x);
}

/// On a consistent map, each step of a volume orbit is undone by another one.
pub proof fn lemma_volume_steps_invertible<V: AttributeUpdate>(m: CMap3<V>)
    requires
        m.wf(),
        m.consistent(),
    ensures
        steps_invertible(m.betas, steps_3d(OrbitPolicy::Volume)),
{
    let b = m.betas;
    let steps = steps_3d(OrbitPolicy::Volume);
    assert forall|k: int, a: DartIdType| 0 <= k < steps.len() && a != NULL_DART_ID && (a as int) < b.n()
        && #[trigger] step_img(b, steps[k], a) != NULL_DART_ID implies is_next(b, steps, step_img(b, steps[k], a), a) by {
        let x = step_img(b, steps[k], a);
        if k == 0 {
            assert(step_img(b, steps[1], x) == a);
        } else if k == 1 {
            assert(step_img(b, steps[0], x) == a);
        } else {
            assert(step_img(b, steps[2], x) == a);
        }
    }
}

/// Volume identifiers identify volumes: on a consistent map, all the darts of the volume orbit
/// of a dart have its volume identifier.
pub proof fn lemma_volume_id_constant<V: AttributeUpdate>(m: CMap3<V>, d: DartIdType, x: DartIdType)
    requires
        m.wf(),
        m.consistent(),
        d != NULL_DART_ID,
        x != NULL_DART_ID,
        (d as int) < m.n(),
        in_orbit(m.betas, steps_3d(OrbitPolicy::Volume), d, x),
    ensures
        m.volid(x as int) == m.volid(d as int),
{
    lemma_volume_steps_invertible(m);
    assert(steps_below(steps_3d(OrbitPolicy::Volume), 4));
    lemma_orbit_id_constant(m.betas, steps_3d(OrbitPolicy::Volume), d, x);
}

/// Column `b3` with the entries that differ from `o3` reset to those of `o3`, the others
/// taken from `fin`.
pub open spec fn revert_col(o3: Seq<DartIdType>, b3: Seq<DartIdType>, fin: Seq<DartIdType>) -> Seq<DartIdType> {
    Seq::new(o3.len(), |d: int| if b3[d] != o3[d] { o3[d] } else { fin[d] })
}

/// Every entry of the column is an index of the column.
pub open spec fn col_closed(b: Seq<DartIdType>) -> bool {
    forall|d: int| 0 <= d < b.len() ==> (#[trigger] b[d] as int) < b.len()
}

/// A 3-link that succeeds from some state only fills null entries, keeps the column closed,
/// and the 3-unlink from the same state, started on the column where the entries filled so far
/// are reset, succeeds and gives back the column before the links.
proof fn lemma_link_unlink_from(
    b0: Seq<DartIdType>,
    b1: Seq<DartIdType>,
    ld: DartIdType,
    rd: DartIdType,
    o3: Seq<DartIdType>,
    b3: Seq<DartIdType>,
    back: bool,
    l: DartIdType,
    r: DartIdType,
    acc_l: Seq<DartIdType>,
    acc_r: Seq<DartIdType>,
)
    requires
        three_link_from(b0, b1, ld, rd, b3, back, l, r) is Ok,
        b3.len() == o3.len(),
        b0.len() == b3.len(),
        b1.len() == b3.len(),
        col_closed(b0),
        col_closed(b1),
        col_closed(o3),
        col_closed(b3),
        forall|d: int| 0 <= d < b3.len() ==> #[trigger] b3[d] == o3[d] || o3[d] == NULL_DART_ID,
    ensures
        ({
            let fin = three_link_from(b0, b1, ld, rd, b3, back, l, r)->Ok_0;
            &&& fin.len() == b3.len()
            &&& col_closed(fin)
            &&& forall|d: int| 0 <= d < b3.len() && #[trigger] b3[d] != NULL_DART_ID ==> fin[d] == b3[d]
            &&& three_unlink_from(b0, b1, ld, rd, revert_col(o3, b3, fin), back, l, r, acc_l, acc_r) is Ok
            &&& three_unlink_from(b0, b1, ld, rd, revert_col(o3, b3, fin), back, l, r, acc_l, acc_r)->Ok_0.0 =~= o3
        }),
    decreases count_null(b3), if back { 0int } else { 1int },
{
    let fin = three_link_from(b0, b1, ld, rd, b3, back, l, r)->Ok_0;
    let u = revert_col(o3, b3, fin);
    if !back && l == ld || back && l == NULL_DART_ID {
        assert(fin == b3);
        assert(u =~= o3);
        assert(col_closed(u));
    } else if !back && l == NULL_DART_ID {
        lemma_link_unlink_from(b0, b1, ld, rd, o3, b3, true, b0[ld as int], b1[rd as int], acc_l, acc_r);
        assert(col_closed(u));
    } else {
        let nb3 = link3(b3, l, r);
        lemma_link3_count(b3, l, r);
        assert(col_closed(nb3));
        assert forall|d: int| 0 <= d < nb3.len() implies #[trigger] nb3[d] == o3[d] || o3[d] == NULL_DART_ID by {
            if d == l as int || d == r as int {
                assert(b3[d] == NULL_DART_ID);
            }
        }
        let (nl, nr) = if back { (b0[l as int], b1[r as int]) } else { (b1[l as int], b0[r as int]) };
        lemma_link_unlink_from(b0, b1, ld, rd, o3, nb3, back, nl, nr, acc_l.push(l), acc_r.push(r));
        assert(fin == three_link_from(b0, b1, ld, rd, nb3, back, nl, nr)->Ok_0);
        assert(fin[l as int] == nb3[l as int]);
        assert(fin[r as int] == nb3[r as int]);
        assert(u[r as int] == l);
        assert(u[l as int] != NULL_DART_ID);
        assert(unlink3(u, l) =~= revert_col(o3, nb3, fin));
        assert(col_closed(u));
        assert forall|d: int| 0 <= d < b3.len() && #[trigger] b3[d] != NULL_DART_ID implies fin[d] == b3[d] by {
            assert(nb3[d] == b3[d]);
        }
    }
}

/// Undoing a 3-link: 3-unlinking `ld` right after 3-linking its face to the face of `rd`
/// (by a 3-link or the link of a 3-sew) succeeds and gives back the former
/// *β<sub>3</sub>* images.
pub proof fn lemma_three_link_unlink<V: AttributeUpdate>(o: CMap3<V>, m: CMap3<V>, ld: DartIdType, rd: DartIdType)
    requires
        o.wf(),
        m.wf(),
        ld != NULL_DART_ID,
        rd != NULL_DART_ID,
        (ld as int) < o.n(),
        (rd as int) < o.n(),
        o.three_link_outcome(ld, rd) is Ok,
        m.betas_col3(&o, o.three_link_outcome(ld, rd)->Ok_0),
    ensures
        m.three_unlink_outcome(ld) is Ok,
        m.three_unlink_outcome(ld)->Ok_0.0 =~= o.col(3),
        m.img(3, ld as int) == rd,
{
    let o3 = o.col(3);
    let b0 = o.col(0);
    let b1 = o.col(1);
    assert(m.col(0) =~= b0);
    assert(m.col(1) =~= b1);
    let l0 = link3(o3, ld, rd);
    assert(col_closed(b0));
    assert(col_closed(b1));
    assert(col_closed(o3));
    assert(col_closed(l0));
    assert forall|d: int| 0 <= d < l0.len() implies #[trigger] l0[d] == o3[d] || o3[d] == NULL_DART_ID by {
    }
    lemma_link_unlink_from(b0, b1, ld, rd, o3, l0, false, o.img(1, ld as int), o.img(0, rd as int), seq![ld], seq![rd]);
    let fin = o.three_link_outcome(ld, rd)->Ok_0;
    assert(m.col(3) =~= fin);
    assert(fin[ld as int] == l0[ld as int]);
    assert(fin[ld as int] == rd);
    assert(unlink3(fin, ld) =~= revert_col(o3, l0, fin));
    assert(m.img(1, ld as int) == o.img(1, ld as int));
    assert(m.img(0, rd as int) == o.img(0, rd as int));
}

} // verus!

verus! {

/// Reading a vertex value gives back the last value written for that identifier, and writing
/// or removing one leaves the other identifiers' values as they were.
pub proof fn lemma_vertex_read_after_write<V: AttributeUpdate>(m0: CMap3<V>, m1: CMap3<V>, id: int, val: Option<V>)
    requires
        0 <= id < m0.n(),
        m0.vertices.slots().len() == m0.n(),
        m1.vertices.slots() == m0.vertices.slots().update(id, val),
    ensures
        m1.vertex(id) == val,
        forall|other: int| 0 <= other < m0.n() && other != id ==> #[trigger] m1.vertex(other) == m0.vertex(other),
{
}

} // verus!

verus! {

/// The representatives below `hi` are the darts of `1..hi` that identify their cell, in
/// strictly increasing order.
proof fn lemma_reps_below_members<V: AttributeUpdate>(m: CMap3<V>, kind: int, hi: int)
    requires
        hi <= u32::MAX,
    ensures
        forall|x: DartIdType| #[trigger] m.reps_below(kind, hi).contains(x) <==> 1 <= x < hi && m.is_rep(kind, x as int),
        forall|i: int, j: int| 0 <= i < j < m.reps_below(kind, hi).len()
            ==> m.reps_below(kind, hi)[i] < m.reps_below(kind, hi)[j],
    decreases hi,
{
    if hi > 1 {
        lemma_reps_below_members(m, kind, hi - 1);
        let prev = m.reps_below(kind, hi - 1);
        let cur = m.reps_below(kind, hi);
        if m.is_rep(kind, hi - 1) {
            let y = (hi - 1) as DartIdType;
            assert(cur == prev.push(y));
            assert forall|x: DartIdType| cur.contains(x) <==> 1 <= x < hi && m.is_rep(kind, x as int) by {
                if x == y {
                    assert(cur[prev.len() as int] == y);
                } else {
                    if cur.contains(x) {
                        let i = choose|i: int| 0 <= i < cur.len() && cur[i] == x;
                        assert(i < prev.len());
                        assert(prev[i] == x);
                        assert(prev.contains(x));
                    }
                    if 1 <= x < hi && m.is_rep(kind, x as int) {
                        assert(prev.contains(x));
                        let i = choose|i: int| 0 <= i < prev.len() && prev[i] == x;
                        assert(cur[i] == x);
                    }
                }
            }
            assert forall|i: int, j: int| 0 <= i < j < cur.len() implies cur[i] < cur[j] by {
                assert(cur[i] == prev[i]);
                assert(prev.contains(prev[i]));
                if j < prev.len() {
                    assert(cur[j] == prev[j]);
                } else {
                    assert(cur[j] == y);
                    assert(prev[i] < hi - 1);
                }
            }
        } else {
            assert(cur == prev);
        }
    }
}

/// The vertices, edges, faces and volumes that a 3-map lists are named by their identifiers:
/// the used darts (the null dart aside) that are their own vertex (edge, face, volume)
/// identifier, each once, in strictly increasing order.
pub proof fn lemma_cell_reps_members<V: AttributeUpdate>(m: CMap3<V>)
    requires
        m.wf(),
    ensures
        forall|x: DartIdType| #[trigger] m.cell_reps(0).contains(x)
            <==> 1 <= x < m.n() && !m.unused(x as int) && m.vid(x as int) == x,
        forall|x: DartIdType| #[trigger] m.cell_reps(1).contains(x)
            <==> 1 <= x < m.n() && !m.unused(x as int) && m.eid(x as int) == x,
        forall|x: DartIdType| #[trigger] m.cell_reps(2).contains(x)
            <==> 1 <= x < m.n() && !m.unused(x as int) && m.fid(x as int) == x,
        forall|x: DartIdType| #[trigger] m.cell_reps(3).contains(x)
            <==> 1 <= x < m.n() && !m.unused(x as int) && m.volid(x as int) == x,
        forall|k: int, i: int, j: int| 0 <= k < 4 && 0 <= i < j < m.cell_reps(k).len()
            ==> #[trigger] m.cell_reps(k)[i] < #[trigger] m.cell_reps(k)[j],
{
    lemma_reps_below_members(m, 0, m.n() as int);
    lemma_reps_below_members(m, 1, m.n() as int);
    lemma_reps_below_members(m, 2, m.n() as int);
    lemma_reps_below_members(m, 3, m.n() as int);
    assert forall|x: DartIdType| #[trigger] m.cell_reps(3).contains(x)
        <==> 1 <= x < m.n() && !m.unused(x as int) && m.volid(x as int) == x by {
        assert(m.cell_reps(3) == m.reps_below(3, m.n() as int));
    }
    assert forall|x: DartIdType| #[trigger] m.cell_reps(0).contains(x)
        <==> 1 <= x < m.n() && !m.unused(x as int) && m.vid(x as int) == x by {
        assert(m.cell_reps(0) == m.reps_below(0, m.n() as int));
    }
    assert forall|x: DartIdType| #[trigger] m.cell_reps(1).contains(x)
        <==> 1 <= x < m.n() && !m.unused(x as int) && m.eid(x as int) == x by {
        assert(m.cell_reps(1) == m.reps_below(1, m.n() as int));
    }
    assert forall|x: DartIdType| #[trigger] m.cell_reps(2).contains(x)
        <==> 1 <= x < m.n() && !m.unused(x as int) && m.fid(x as int) == x by {
        assert(m.cell_reps(2) == m.reps_below(2, m.n() as int));
    }
    assert forall|k: int, i: int, j: int| 0 <= k < 4 && 0 <= i < j < m.cell_reps(k).len()
        implies #[trigger] m.cell_reps(k)[i] < #[trigger] m.cell_reps(k)[j] by {
        lemma_reps_below_members(m, k, m.n() as int);
    }
}

} // verus!
