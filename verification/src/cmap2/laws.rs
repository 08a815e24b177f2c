//! Properties of [`CMap2`] that relate several operations.

use crate::attributes::{merge_rel, split_rel, AttributeUpdate, VertexAttribute};
use crate::cmap2::sews::min_id;
use crate::error::SewError;
use crate::cmap2::structure::CMap2;
use crate::ids::{DartIdType, NULL_DART_ID};
use crate::orbits::{
    extends, in_orbit, is_next, is_orbit_min, is_walk, lemma_closed_contains_walk_end, lemma_orbit_id_constant,
    lemma_orbit_id_extend, lemma_orbit_id_unique, orbit_id, step_img, steps_2d, steps_below, steps_invertible, OrbitPolicy,
};
use vstd::prelude::*;

verus! {

impl<V: AttributeUpdate> CMap2<V> {
    /// The images are consistent: *β<sub>0</sub>* is the inverse of *β<sub>1</sub>*, and
    /// *β<sub>2</sub>* is an involution, on the linked darts of the map.
    pub open spec fn consistent(&self) -> bool {
        &&& forall|d: int| 0 < d < self.n() && #[trigger] self.img(1, d) != NULL_DART_ID
            ==> self.img(0, self.img(1, d) as int) == d
        &&& forall|d: int| 0 < d < self.n() && #[trigger] self.img(0, d) != NULL_DART_ID
            ==> self.img(1, self.img(0, d) as int) == d
        &&& forall|d: int| 0 < d < self.n() && #[trigger] self.img(2, d) != NULL_DART_ID
            ==> self.img(2, self.img(2, d) as int) == d
    }
}

/// A fresh map is consistent.
pub proof fn lemma_new_consistent<V: AttributeUpdate>(m: CMap2<V>)
    requires
        forall|i: int, d: int| 0 <= i < 3 && 0 <= d < m.n() ==> #[trigger] m.img(i, d) == NULL_DART_ID,
    ensures
        m.consistent(),
{
}

/// Undoing a 1-link: 1-unlinking `ld` right after 1-linking it to `rd` gives back the
/// former images.
pub proof fn lemma_one_link_unlink_topo<V: AttributeUpdate>(
    m0: CMap2<V>,
    m1: CMap2<V>,
    m2: CMap2<V>,
    ld: DartIdType,
    rd: DartIdType,
)
    requires
        m0.wf(),
        (ld as int) < m0.n(),
        (rd as int) < m0.n(),
        m0.one_link_error(ld, rd) is None,
        m1.one_linked_topo(&m0, ld, rd),
        m2.one_unlinked_topo(&m1, ld, m1.img(1, ld as int)),
    ensures
        m2.same_betas(&m0),
{
    assert forall|i: int, d: int| 0 <= i < 3 && 0 <= d < m2.n() implies #[trigger] m2.img(i, d) == m0.img(i, d) by {
        if i == 1 && d == ld {
        } else if i == 0 && d == rd {
        } else {
            assert(m1.img(i, d) == m0.img(i, d));
        }
    }
}

/// 1-unlinking `ld` right after 1-linking it to `rd` gives back the map it started from.
pub proof fn lemma_one_link_unlink<V: AttributeUpdate>(
    m0: CMap2<V>,
    m1: CMap2<V>,
    m2: CMap2<V>,
    ld: DartIdType,
    rd: DartIdType,
)
    requires
        m0.wf(),
        (ld as int) < m0.n(),
        (rd as int) < m0.n(),
        m0.one_link_error(ld, rd) is None,
        m1.one_linked(&m0, ld, rd),
        m2.one_unlinked(&m1, ld, m1.img(1, ld as int)),
    ensures
        m2.same_map(&m0),
{
    lemma_one_link_unlink_topo(m0, m1, m2, ld, rd);
}

/// Undoing a 1-unlink: on a consistent map, 1-linking `ld` back to its former
/// *β<sub>1</sub>* image after 1-unlinking it succeeds and gives back the former images.
pub proof fn lemma_one_unlink_link_topo<V: AttributeUpdate>(
    m0: CMap2<V>,
    m1: CMap2<V>,
    m2: CMap2<V>,
    ld: DartIdType,
)
    requires
        m0.wf(),
        m0.consistent(),
        (ld as int) < m0.n(),
        m0.img(1, ld as int) != NULL_DART_ID,
        m1.one_unlinked_topo(&m0, ld, m0.img(1, ld as int)),
        m2.one_linked_topo(&m1, ld, m0.img(1, ld as int)),
    ensures
        m1.one_link_error(ld, m0.img(1, ld as int)) is None,
        m2.same_betas(&m0),
{
    let rd = m0.img(1, ld as int);
    assert(ld != NULL_DART_ID);
    assert(m0.img(0, rd as int) == ld);
    assert forall|i: int, d: int| 0 <= i < 3 && 0 <= d < m2.n() implies #[trigger] m2.img(i, d) == m0.img(i, d) by {
        if i == 1 && d == ld {
        } else if i == 0 && d == rd {
        } else {
            assert(m1.img(i, d) == m0.img(i, d));
        }
    }
}

/// On a consistent map, 1-linking `ld` back to its former *β<sub>1</sub>* image right after
/// 1-unlinking it succeeds and gives back the map it started from.
pub proof fn lemma_one_unlink_link<V: AttributeUpdate>(
    m0: CMap2<V>,
    m1: CMap2<V>,
    m2: CMap2<V>,
    ld: DartIdType,
)
    requires
        m0.wf(),
        m0.consistent(),
        (ld as int) < m0.n(),
        m0.img(1, ld as int) != NULL_DART_ID,
        m1.one_unlinked(&m0, ld, m0.img(1, ld as int)),
        m2.one_linked(&m1, ld, m0.img(1, ld as int)),
    ensures
        m1.one_link_error(ld, m0.img(1, ld as int)) is None,
        m2.same_map(&m0),
{
    lemma_one_unlink_link_topo(m0, m1, m2, ld);
}

/// Undoing a 2-link: 2-unlinking `ld` right after 2-linking it to `rd` gives back the
/// former images.
pub proof fn lemma_two_link_unlink_topo<V: AttributeUpdate>(
    m0: CMap2<V>,
    m1: CMap2<V>,
    m2: CMap2<V>,
    ld: DartIdType,
    rd: DartIdType,
)
    requires
        m0.wf(),
        (ld as int) < m0.n(),
        (rd as int) < m0.n(),
        m0.two_link_error(ld, rd) is None,
        m1.two_linked_topo(&m0, ld, rd),
        m2.two_unlinked_topo(&m1, ld, m1.img(2, ld as int)),
    ensures
        m2.same_betas(&m0),
{
    assert forall|i: int, d: int| 0 <= i < 3 && 0 <= d < m2.n() implies #[trigger] m2.img(i, d) == m0.img(i, d) by {
        if i == 2 && (d == ld || d == rd) {
        } else {
            assert(m1.img(i, d) == m0.img(i, d));
        }
    }
}

/// 2-unlinking `ld` right after 2-linking it to `rd` gives back the map it started from.
pub proof fn lemma_two_link_unlink<V: AttributeUpdate>(
    m0: CMap2<V>,
    m1: CMap2<V>,
    m2: CMap2<V>,
    ld: DartIdType,
    rd: DartIdType,
)
    requires
        m0.wf(),
        (ld as int) < m0.n(),
        (rd as int) < m0.n(),
        m0.two_link_error(ld, rd) is None,
        m1.two_linked(&m0, ld, rd),
        m2.two_unlinked(&m1, ld, m1.img(2, ld as int)),
    ensures
        m2.same_map(&m0),
{
    lemma_two_link_unlink_topo(m0, m1, m2, ld, rd);
}

/// Undoing a 2-unlink: on a consistent map, 2-linking `ld` back to its former
/// *β<sub>2</sub>* image after 2-unlinking it succeeds and gives back the former images.
pub proof fn lemma_two_unlink_link_topo<V: AttributeUpdate>(
    m0: CMap2<V>,
    m1: CMap2<V>,
    m2: CMap2<V>,
    ld: DartIdType,
)
    requires
        m0.wf(),
        m0.consistent(),
        (ld as int) < m0.n(),
        m0.img(2, ld as int) != NULL_DART_ID,
        m1.two_unlinked_topo(&m0, ld, m0.img(2, ld as int)),
        m2.two_linked_topo(&m1, ld, m0.img(2, ld as int)),
    ensures
        m1.two_link_error(ld, m0.img(2, ld as int)) is None,
        m2.same_betas(&m0),
{
    let rd = m0.img(2, ld as int);
    assert(ld != NULL_DART_ID);
    assert(m0.img(2, rd as int) == ld);
    assert forall|i: int, d: int| 0 <= i < 3 && 0 <= d < m2.n() implies #[trigger] m2.img(i, d) == m0.img(i, d) by {
        if i == 2 && (d == ld || d == rd) {
        } else {
            assert(m1.img(i, d) == m0.img(i, d));
        }
    }
}

/// On a consistent map, 2-linking `ld` back to its former *β<sub>2</sub>* image right after
/// 2-unlinking it succeeds and gives back the map it started from.
pub proof fn lemma_two_unlink_link<V: AttributeUpdate>(
    m0: CMap2<V>,
    m1: CMap2<V>,
    m2: CMap2<V>,
    ld: DartIdType,
)
    requires
        m0.wf(),
        m0.consistent(),
        (ld as int) < m0.n(),
        m0.img(2, ld as int) != NULL_DART_ID,
        m1.two_unlinked(&m0, ld, m0.img(2, ld as int)),
        m2.two_linked(&m1, ld, m0.img(2, ld as int)),
    ensures
        m1.two_link_error(ld, m0.img(2, ld as int)) is None,
        m2.same_map(&m0),
{
    lemma_two_unlink_link_topo(m0, m1, m2, ld);
}

/// A successful 1-link (or the link of a 1-sew) keeps the map consistent.
pub proof fn lemma_one_link_consistent<V: AttributeUpdate>(m0: CMap2<V>, m1: CMap2<V>, ld: DartIdType, rd: DartIdType)
    requires
        m0.wf(),
        m0.consistent(),
        ld != NULL_DART_ID,
        rd != NULL_DART_ID,
        (ld as int) < m0.n(),
        (rd as int) < m0.n(),
        m0.one_link_error(ld, rd) is None,
        m1.one_linked_topo(&m0, ld, rd),
    ensures
        m1.consistent(),
{
    assert forall|d: int| 0 < d < m1.n() && #[trigger] m1.img(1, d) != NULL_DART_ID
        implies m1.img(0, m1.img(1, d) as int) == d by {
        if d != ld {
            let x = m0.img(1, d);
            assert(m1.img(1, d) == x);
            assert(m0.img(0, x as int) == d);
            assert(x != rd);
        }
    }
    assert forall|d: int| 0 < d < m1.n() && #[trigger] m1.img(0, d) != NULL_DART_ID
        implies m1.img(1, m1.img(0, d) as int) == d by {
        if d != rd {
            let x = m0.img(0, d);
            assert(m1.img(0, d) == x);
            assert(m0.img(1, x as int) == d);
            assert(x != ld);
        }
    }
    assert forall|d: int| 0 < d < m1.n() && #[trigger] m1.img(2, d) != NULL_DART_ID
        implies m1.img(2, m1.img(2, d) as int) == d by {
        assert(m1.img(2, d) == m0.img(2, d));
        assert(m0.img(2, m0.img(2, d) as int) == d);
    }
}

/// A successful 1-unlink (or the unlink of a 1-unsew) keeps the map consistent.
pub proof fn lemma_one_unlink_consistent<V: AttributeUpdate>(m0: CMap2<V>, m1: CMap2<V>, ld: DartIdType)
    requires
        m0.wf(),
        m0.consistent(),
        (ld as int) < m0.n(),
        m0.img(1, ld as int) != NULL_DART_ID,
        m1.one_unlinked_topo(&m0, ld, m0.img(1, ld as int)),
    ensures
        m1.consistent(),
{
    let rd = m0.img(1, ld as int);
    assert(ld != NULL_DART_ID);
    assert(m0.img(0, rd as int) == ld);
    assert forall|d: int| 0 < d < m1.n() && #[trigger] m1.img(1, d) != NULL_DART_ID
        implies m1.img(0, m1.img(1, d) as int) == d by {
        let x = m0.img(1, d);
        assert(m1.img(1, d) == x);
        assert(m0.img(0, x as int) == d);
        assert(x != rd);
    }
    assert forall|d: int| 0 < d < m1.n() && #[trigger] m1.img(0, d) != NULL_DART_ID
        implies m1.img(1, m1.img(0, d) as int) == d by {
        let x = m0.img(0, d);
        assert(m1.img(0, d) == x);
        assert(m0.img(1, x as int) == d);
        assert(x != ld);
    }
    assert forall|d: int| 0 < d < m1.n() && #[trigger] m1.img(2, d) != NULL_DART_ID
        implies m1.img(2, m1.img(2, d) as int) == d by {
        assert(m1.img(2, d) == m0.img(2, d));
        assert(m0.img(2, m0.img(2, d) as int) == d);
    }
}

/// A successful 2-link (or the link of a 2-sew) keeps the map consistent.
pub proof fn lemma_two_link_consistent<V: AttributeUpdate>(m0: CMap2<V>, m1: CMap2<V>, ld: DartIdType, rd: DartIdType)
    requires
        m0.wf(),
        m0.consistent(),
        ld != NULL_DART_ID,
        rd != NULL_DART_ID,
        (ld as int) < m0.n(),
        (rd as int) < m0.n(),
        m0.two_link_error(ld, rd) is None,
        m1.two_linked_topo(&m0, ld, rd),
    ensures
        m1.consistent(),
{
    assert forall|d: int| 0 < d < m1.n() && #[trigger] m1.img(1, d) != NULL_DART_ID
        implies m1.img(0, m1.img(1, d) as int) == d by {
        assert(m1.img(1, d) == m0.img(1, d));
        assert(m0.img(0, m0.img(1, d) as int) == d);
    }
    assert forall|d: int| 0 < d < m1.n() && #[trigger] m1.img(0, d) != NULL_DART_ID
        implies m1.img(1, m1.img(0, d) as int) == d by {
        assert(m1.img(0, d) == m0.img(0, d));
        assert(m0.img(1, m0.img(0, d) as int) == d);
    }
    assert forall|d: int| 0 < d < m1.n() && #[trigger] m1.img(2, d) != NULL_DART_ID
        implies m1.img(2, m1.img(2, d) as int) == d by {
        if d != ld && d != rd {
            let x = m0.img(2, d);
            assert(m1.img(2, d) == x);
            assert(m0.img(2, x as int) == d);
            assert(x != ld && x != rd);
        }
    }
}

/// A successful 2-unlink (or the unlink of a 2-unsew) keeps the map consistent.
pub proof fn lemma_two_unlink_consistent<V: AttributeUpdate>(m0: CMap2<V>, m1: CMap2<V>, ld: DartIdType)
    requires
        m0.wf(),
        m0.consistent(),
        (ld as int) < m0.n(),
        m0.img(2, ld as int) != NULL_DART_ID,
        m1.two_unlinked_topo(&m0, ld, m0.img(2, ld as int)),
    ensures
        m1.consistent(),
{
    let rd = m0.img(2, ld as int);
    assert(ld != NULL_DART_ID);
    assert(m0.img(2, rd as int) == ld);
    assert forall|d: int| 0 < d < m1.n() && #[trigger] m1.img(1, d) != NULL_DART_ID
        implies m1.img(0, m1.img(1, d) as int) == d by {
        assert(m1.img(1, d) == m0.img(1, d));
        assert(m0.img(0, m0.img(1, d) as int) == d);
    }
    assert forall|d: int| 0 < d < m1.n() && #[trigger] m1.img(0, d) != NULL_DART_ID
        implies m1.img(1, m1.img(0, d) as int) == d by {
        assert(m1.img(0, d) == m0.img(0, d));
        assert(m0.img(1, m0.img(0, d) as int) == d);
    }
    assert forall|d: int| 0 < d < m1.n() && #[trigger] m1.img(2, d) != NULL_DART_ID
        implies m1.img(2, m1.img(2, d) as int) == d by {
        let x = m0.img(2, d);
        assert(m1.img(2, d) == x);
        assert(m0.img(2, x as int) == d);
        assert(x != ld && x != rd);
    }
}

/// On a consistent map, each step of a vertex orbit is undone by the other one.
pub proof fn lemma_vertex_steps_invertible<V: AttributeUpdate>(m: CMap2<V>)
    requires
        m.wf(),
        m.consistent(),
    ensures
        steps_invertible(m.betas, steps_2d(OrbitPolicy::Vertex)),
{
    let b = m.betas;
    let steps = steps_2d(OrbitPolicy::Vertex);
    assert forall|k: int, a: DartIdType| 0 <= k < steps.len() && a != NULL_DART_ID && (a as int) < b.n()
        && #[trigger] step_img(b, steps[k], a) != NULL_DART_ID implies is_next(b, steps, step_img(b, steps[k], a), a) by {
        let x = step_img(b, steps[k], a);
        if k == 0 {
            let y = m.img(2, a as int);
            assert(y != NULL_DART_ID);
            assert(m.img(0, x as int) == y);
            assert(m.img(2, y as int) == a);
            assert(step_img(b, steps[1], x) == a);
        } else {
            let y = m.img(0, a as int);
            assert(y != NULL_DART_ID);
            assert(m.img(1, y as int) == a);
            assert(m.img(2, y as int) == x);
            assert(m.img(2, x as int) == y);
            assert(step_img(b, steps[0], x) == a);
        }
    }
}

/// On a consistent map, each step of a face orbit is undone by the other one.
pub proof fn lemma_face_steps_invertible<V: AttributeUpdate>(m: CMap2<V>)
    requires
        m.wf(),
        m.consistent(),
    ensures
        steps_invertible(m.betas, steps_2d(OrbitPolicy::Face)),
{
    let b = m.betas;
    let steps = steps_2d(OrbitPolicy::Face);
    assert forall|k: int, a: DartIdType| 0 <= k < steps.len() && a != NULL_DART_ID && (a as int) < b.n()
        && #[trigger] step_img(b, steps[k], a) != NULL_DART_ID implies is_next(b, steps, step_img(b, steps[k], a), a) by {
        let x = step_img(b, steps[k], a);
        if k == 0 {
            assert(step_img(b, steps[1], x) == a);
        } else {
            assert(step_img(b, steps[0], x) == a);
        }
    }
}

/// Vertex identifiers identify vertices: on a consistent map, all the darts of the vertex
/// orbit of a dart have its vertex identifier.
pub proof fn lemma_vertex_id_constant<V: AttributeUpdate>(m: CMap2<V>, d: DartIdType, x: DartIdType)
    requires
        m.wf(),
        m.consistent(),
        d != NULL_DART_ID,
        x != NULL_DART_ID,
        (d as int) < m.n(),
        in_orbit(m.betas, steps_2d(OrbitPolicy::Vertex), d, x),
    ensures
        m.vid(x as int) == m.vid(d as int),
{
    lemma_vertex_steps_invertible(m);
    assert(steps_below(steps_2d(OrbitPolicy::Vertex), 3));
    lemma_orbit_id_constant(m.betas, steps_2d(OrbitPolicy::Vertex), d, x);
}

/// Face identifiers identify faces: on a consistent map, all the darts of the face orbit of a
/// dart have its face identifier.
pub proof fn lemma_face_id_constant<V: AttributeUpdate>(m: CMap2<V>, d: DartIdType, x: DartIdType)
    requires
        m.wf(),
        m.consistent(),
        d != NULL_DART_ID,
        x != NULL_DART_ID,
        (d as int) < m.n(),
        in_orbit(m.betas, steps_2d(OrbitPolicy::Face), d, x),
    ensures
        m.fid(x as int) == m.fid(d as int),
{
    lemma_face_steps_invertible(m);
    assert(steps_below(steps_2d(OrbitPolicy::Face), 3));
    lemma_orbit_id_constant(m.betas, steps_2d(OrbitPolicy::Face), d, x);
}

/// Edge identifiers identify edges: on a consistent map, the edge identifier of a dart is the
/// smallest dart of its edge orbit.
pub proof fn lemma_edge_id_is_orbit_id<V: AttributeUpdate>(m: CMap2<V>, d: DartIdType)
    requires
        m.wf(),
        m.consistent(),
        d != NULL_DART_ID,
        (d as int) < m.n(),
    ensures
        m.eid(d as int) == orbit_id(m.betas, steps_2d(OrbitPolicy::Edge), d),
{
    let b = m.betas;
    let steps = steps_2d(OrbitPolicy::Edge);
    let y = m.img(2, d as int);
    let r = seq![d, y];
    assert(r.contains(d)) by {
        assert(r[0] == d);
    }
    assert forall|j: int, k: int| 0 <= j < r.len() && 0 <= k < steps.len() && r[j] != NULL_DART_ID implies {
        let z = #[trigger] step_img(b, steps[k], r[j]);
        z == NULL_DART_ID || r.contains(z)
    } by {
        if j == 0 {
            assert(r[1] == y);
        } else {
            assert(m.img(2, y as int) == d);
            assert(r[0] == d);
        }
    }
    let e = m.eid(d as int);
    if y != NULL_DART_ID {
        let p = seq![d, y];
        assert(is_walk(b, steps, d, p)) by {
            assert(step_img(b, steps[0], d) == y);
            assert(is_next(b, steps, p[0], p[1]));
        }
    }
    assert(in_orbit(b, steps, d, e));
    assert forall|x: DartIdType| #[trigger] in_orbit(b, steps, d, x) implies e <= x by {
        if x != d {
            let p = choose|p: Seq<DartIdType>| #[trigger] is_walk(b, steps, d, p) && p.last() == x;
            lemma_closed_contains_walk_end(b, steps, d, r, p);
            let j = choose|j: int| 0 <= j < r.len() && r[j] == x;
        }
    }
    assert(is_orbit_min(b, steps, d, e));
    lemma_orbit_id_unique(b, steps, d, e);
}

} // verus!

verus! {

/// Undoing a 1-sew: a successful 1-unsew of `ld` right after a successful 1-sew of `ld` and
/// `rd` gives back the former images and dart flags (not the vertex values: a merge followed
/// by a split need not give them back).
pub proof fn lemma_one_sew_unsew_topo<V: AttributeUpdate>(
    m0: CMap2<V>,
    m1: CMap2<V>,
    m2: CMap2<V>,
    ld: DartIdType,
    rd: DartIdType,
)
    requires
        m0.wf(),
        (ld as int) < m0.n(),
        (rd as int) < m0.n(),
        CMap2::one_sew_post(&m0, &m1, ld, rd, Ok(())),
        CMap2::one_unsew_post(&m1, &m2, ld, Ok(())),
    ensures
        m2.same_betas(&m0),
        m2.unused_darts == m0.unused_darts,
{
    lemma_one_link_unlink_topo(m0, m1, m2, ld, rd);
}

/// Undoing a 2-sew: a successful 2-unsew of `ld` right after a successful 2-sew of `ld` and
/// `rd` gives back the former images and dart flags.
pub proof fn lemma_two_sew_unsew_topo<V: VertexAttribute>(
    m0: CMap2<V>,
    m1: CMap2<V>,
    m2: CMap2<V>,
    ld: DartIdType,
    rd: DartIdType,
)
    requires
        m0.wf(),
        (ld as int) < m0.n(),
        (rd as int) < m0.n(),
        CMap2::two_sew_post(&m0, &m1, ld, rd, Ok(())),
        CMap2::two_unsew_post(&m1, &m2, ld, Ok(())),
    ensures
        m2.same_betas(&m0),
        m2.unused_darts == m0.unused_darts,
{
    lemma_two_link_unlink_topo(m0, m1, m2, ld, rd);
}

/// Whatever their outcome, 1-sews and 1-unsews keep a map consistent.
pub proof fn lemma_one_sew_unsew_consistent<V: AttributeUpdate>(
    m0: CMap2<V>,
    m1: CMap2<V>,
    ld: DartIdType,
    rd: DartIdType,
    r: Result<(), SewError>,
)
    requires
        m0.wf(),
        m0.consistent(),
        ld != NULL_DART_ID,
        rd != NULL_DART_ID,
        (ld as int) < m0.n(),
        (rd as int) < m0.n(),
        CMap2::one_sew_post(&m0, &m1, ld, rd, r) || CMap2::one_unsew_post(&m0, &m1, ld, r),
    ensures
        m1.consistent(),
{
    if CMap2::one_sew_post(&m0, &m1, ld, rd, r) {
        if m0.one_link_error(ld, rd) is None && r is Ok {
            lemma_one_link_consistent(m0, m1, ld, rd);
        } else {
            lemma_same_betas_consistent(m0, m1);
        }
    } else {
        let b1 = m0.img(1, ld as int);
        if b1 != NULL_DART_ID && r is Ok {
            lemma_one_unlink_consistent(m0, m1, ld);
        } else {
            lemma_same_betas_consistent(m0, m1);
        }
    }
}

/// Whatever their outcome, 2-sews and 2-unsews keep a map consistent.
pub proof fn lemma_two_sew_unsew_consistent<V: VertexAttribute>(
    m0: CMap2<V>,
    m1: CMap2<V>,
    ld: DartIdType,
    rd: DartIdType,
    r: Result<(), SewError>,
)
    requires
        m0.wf(),
        m0.consistent(),
        ld != NULL_DART_ID,
        rd != NULL_DART_ID,
        (ld as int) < m0.n(),
        (rd as int) < m0.n(),
        CMap2::two_sew_post(&m0, &m1, ld, rd, r) || CMap2::two_unsew_post(&m0, &m1, ld, r),
    ensures
        m1.consistent(),
{
    if CMap2::two_sew_post(&m0, &m1, ld, rd, r) {
        if r is Ok {
            lemma_two_link_consistent(m0, m1, ld, rd);
        } else {
            lemma_same_betas_consistent(m0, m1);
        }
    } else {
        let b2 = m0.img(2, ld as int);
        if b2 != NULL_DART_ID && r is Ok {
            lemma_two_unlink_consistent(m0, m1, ld);
        } else {
            lemma_same_betas_consistent(m0, m1);
        }
    }
}

/// Maps with the same images are consistent together.
proof fn lemma_same_betas_consistent<V: AttributeUpdate>(m0: CMap2<V>, m1: CMap2<V>)
    requires
        m0.wf(),
        m0.consistent(),
        m1.same_betas(&m0),
    ensures
        m1.consistent(),
{
    assert forall|d: int| 0 < d < m1.n() && #[trigger] m1.img(1, d) != NULL_DART_ID
        implies m1.img(0, m1.img(1, d) as int) == d by {
        assert(m0.img(1, d) == m1.img(1, d));
        assert(m0.img(0, m0.img(1, d) as int) == d);
    }
    assert forall|d: int| 0 < d < m1.n() && #[trigger] m1.img(0, d) != NULL_DART_ID
        implies m1.img(1, m1.img(0, d) as int) == d by {
        assert(m0.img(0, d) == m1.img(0, d));
        assert(m0.img(1, m0.img(0, d) as int) == d);
    }
    assert forall|d: int| 0 < d < m1.n() && #[trigger] m1.img(2, d) != NULL_DART_ID
        implies m1.img(2, m1.img(2, d) as int) == d by {
        assert(m0.img(2, d) == m1.img(2, d));
        assert(m0.img(2, m0.img(2, d) as int) == d);
    }
}

} // verus!

verus! {

/// Reading a vertex value gives back the last value written for that identifier, and writing
/// or removing one leaves the other identifiers' values as they were.
pub proof fn lemma_vertex_read_after_write<V: AttributeUpdate>(m0: CMap2<V>, m1: CMap2<V>, id: int, val: Option<V>)
    requires
        0 <= id < m0.n(),
        m0.vertices.slots().len() == m0.n(),
        m1.vertices.slots() == m0.vertices.slots().update(id, val),
    ensures
        m1.vertex(id) == val,
        forall|other: int| 0 <= other < m0.n() && other != id ==> #[trigger] m1.vertex(other) == m0.vertex(other),
{
}

} // verus!

verus! {

/// Undoing a 1-sew, on the vertex values: after a successful 1-sew of `ld` and `rd` and a
/// successful 1-unsew of `ld`, the slots that hold a value are those that held one before
/// (when the two merged vertices both held one), the vertices other than the two merged ones
/// keep their values, and the two vertices get the values that `split` gives of the value that
/// `merge` gave of their former values. Without a *β<sub>2</sub>* image of `ld`, nothing is
/// merged or split.
pub proof fn lemma_one_sew_unsew_vertices<V: AttributeUpdate>(
    m0: CMap2<V>,
    m1: CMap2<V>,
    m2: CMap2<V>,
    ld: DartIdType,
    rd: DartIdType,
)
    requires
        m0.wf(),
        (ld as int) < m0.n(),
        (rd as int) < m0.n(),
        CMap2::one_sew_post(&m0, &m1, ld, rd, Ok(())),
        CMap2::one_unsew_post(&m1, &m2, ld, Ok(())),
        m0.img(2, ld as int) != NULL_DART_ID ==> {
            &&& m0.vertex(m0.vid(m0.img(2, ld as int) as int) as int) is Some
            &&& m0.vertex(m0.vid(rd as int) as int) is Some
        },
    ensures
        m0.img(2, ld as int) == NULL_DART_ID ==> m2.vertices.slots() == m0.vertices.slots(),
        forall|id: int| 0 <= id < m0.n() ==> (#[trigger] m2.vertex(id) is Some <==> m0.vertex(id) is Some),
        ({
            let lv = m0.vid(m0.img(2, ld as int) as int) as int;
            let rv = m0.vid(rd as int) as int;
            &&& forall|id: int| 0 <= id < m0.n() && id != lv && id != rv ==> #[trigger] m2.vertex(id) == m0.vertex(id)
            &&& (m0.img(2, ld as int) != NULL_DART_ID && lv != rv) ==> exists|w: V|
                call_ensures(V::merge, (m0.vertex(lv)->Some_0, m0.vertex(rv)->Some_0), w)
                && #[trigger] call_ensures(V::split, (w,), (m2.vertex(lv)->Some_0, m2.vertex(rv)->Some_0))
        }),
{
    let b2ld = m0.img(2, ld as int);
    lemma_one_link_unlink_topo(m0, m1, m2, ld, rd);
    assert(m1.img(2, ld as int) == b2ld);
    assert(m1.img(1, ld as int) == rd);
    let steps = steps_2d(OrbitPolicy::Vertex);
    assert(steps_below(steps, 3));
    assert(extends(m2.betas, m0.betas)) by {
        assert forall|i: int, x: int| 0 <= i < 3 && 0 <= x < m0.betas.n() implies #[trigger] m2.betas.img(i, x) == m0.betas.img(i, x) by {
            assert(m2.img(i, x) == m0.img(i, x));
        }
    }
    lemma_orbit_id_extend(m0.betas, m2.betas, steps, b2ld);
    lemma_orbit_id_extend(m0.betas, m2.betas, steps, rd);
    let lv = m0.vid(b2ld as int) as int;
    let rv = m0.vid(rd as int) as int;
    assert(m2.vid(b2ld as int) == lv);
    assert(m2.vid(rd as int) == rv);
    let s0 = m0.vertices.slots();
    let s1 = m1.vertices.slots();
    let s2 = m2.vertices.slots();
    if b2ld != NULL_DART_ID {
        let out = min_id(lv as u32, rv as u32) as int;
        assert(merge_rel(s0, s1, out, lv, rv));
        assert(split_rel(s1, s2, lv, rv, out));
        assert forall|id: int| 0 <= id < m0.n() implies (#[trigger] m2.vertex(id) is Some <==> m0.vertex(id) is Some) by {
            if id != lv && id != rv {
                assert(s2[id] == s1[id]);
                assert(s1[id] == s0[id]);
            }
        }
        assert forall|id: int| 0 <= id < m0.n() && id != lv && id != rv implies #[trigger] m2.vertex(id) == m0.vertex(id) by {
            assert(s2[id] == s1[id]);
            assert(s1[id] == s0[id]);
        }
        if lv != rv {
            let w = s1[out]->Some_0;
            assert(call_ensures(V::merge, (m0.vertex(lv)->Some_0, m0.vertex(rv)->Some_0), w));
            assert(call_ensures(V::split, (w,), (m2.vertex(lv)->Some_0, m2.vertex(rv)->Some_0)));
        }
    }
}

} // verus!

verus! {

/// A successful 2-sew of `ld` and `rd` on a consistent map joins their vertices: `ld` and
/// *β<sub>1</sub>(rd)* get the same vertex identifier, and so do *β<sub>1</sub>(ld)* and
/// `rd`.
pub proof fn lemma_two_sew_joins_vertices<V: VertexAttribute>(m0: CMap2<V>, m1: CMap2<V>, ld: DartIdType, rd: DartIdType)
    requires
        m0.wf(),
        m0.consistent(),
        m1.wf(),
        ld != NULL_DART_ID,
        rd != NULL_DART_ID,
        (ld as int) < m0.n(),
        (rd as int) < m0.n(),
        CMap2::two_sew_post(&m0, &m1, ld, rd, Ok(())),
    ensures
        m1.img(1, rd as int) != NULL_DART_ID ==> m1.vid(ld as int) == m1.vid(m1.img(1, rd as int) as int),
        m1.img(1, ld as int) != NULL_DART_ID ==> m1.vid(m1.img(1, ld as int) as int) == m1.vid(rd as int),
{
    lemma_two_sew_unsew_consistent(m0, m1, ld, rd, Ok(()));
    let steps = steps_2d(OrbitPolicy::Vertex);
    let b = m1.betas;
    assert(m1.img(2, ld as int) == rd);
    assert(m1.img(2, rd as int) == ld);
    let b1rd = m1.img(1, rd as int);
    if b1rd != NULL_DART_ID {
        let p = seq![ld, b1rd];
        assert(step_img(b, steps[0], ld) == b1rd);
        assert(is_next(b, steps, ld, b1rd));
        assert(is_walk(b, steps, ld, p));
        assert(in_orbit(b, steps, ld, b1rd));
        lemma_vertex_id_constant(m1, ld, b1rd);
    }
    let b1ld = m1.img(1, ld as int);
    if b1ld != NULL_DART_ID {
        let p = seq![rd, b1ld];
        assert(step_img(b, steps[0], rd) == b1ld);
        assert(is_next(b, steps, rd, b1ld));
        assert(is_walk(b, steps, rd, p));
        assert(in_orbit(b, steps, rd, b1ld));
        lemma_vertex_id_constant(m1, rd, b1ld);
    }
}

} // verus!

verus! {

/// The representatives below `hi` are the darts of `1..hi` that identify their cell, in
/// strictly increasing order.
proof fn lemma_reps_below_members<V: AttributeUpdate>(m: CMap2<V>, kind: int, hi: int)
    requires
        hi <= u32::MAX,
    ensures
        forall|x: DartIdType| #[trigger] m.reps_below(kind, hi).contains(x) <==> 1 <= x < hi && m.is_rep(kind, x as int),
        forall|i: int, j: int| 0 <= i < j < m.reps_below(kind, hi).len()
            ==> m.reps_below(kind, hi)[i] < m.reps_below(kind, hi)[j],
    decreases hi,
{
    if hi > 1 {
        lemma_reps_below_members(m, kind, hi - 1);
        let prev = m.reps_below(kind, hi - 1);
        let cur = m.reps_below(kind, hi);
        if m.is_rep(kind, hi - 1) {
            let y = (hi - 1) as DartIdType;
            assert(cur == prev.push(y));
            assert forall|x: DartIdType| cur.contains(x) <==> 1 <= x < hi && m.is_rep(kind, x as int) by {
                if x == y {
                    assert(cur[prev.len() as int] == y);
                } else {
                    if cur.contains(x) {
                        let i = choose|i: int| 0 <= i < cur.len() && cur[i] == x;
                        assert(i < prev.len());
                        assert(prev[i] == x);
                        assert(prev.contains(x));
                    }
                    if 1 <= x < hi && m.is_rep(kind, x as int) {
                        assert(prev.contains(x));
                        let i = choose|i: int| 0 <= i < prev.len() && prev[i] == x;
                        assert(cur[i] == x);
                    }
                }
            }
            assert forall|i: int, j: int| 0 <= i < j < cur.len() implies cur[i] < cur[j] by {
                assert(cur[i] == prev[i]);
                assert(prev.contains(prev[i]));
                if j < prev.len() {
                    assert(cur[j] == prev[j]);
                } else {
                    assert(cur[j] == y);
                    assert(prev[i] < hi - 1);
                }
            }
        } else {
            assert(cur == prev);
        }
    }
}

/// The vertices, edges and faces that a 2-map lists are named by their identifiers: the used
/// darts (the null dart aside) that are their own vertex (edge, face) identifier, each once,
/// in strictly increasing order.
pub proof fn lemma_cell_reps_members<V: AttributeUpdate>(m: CMap2<V>)
    requires
        m.wf(),
    ensures
        forall|x: DartIdType| #[trigger] m.cell_reps(0).contains(x)
            <==> 1 <= x < m.n() && !m.unused(x as int) && m.vid(x as int) == x,
        forall|x: DartIdType| #[trigger] m.cell_reps(1).contains(x)
            <==> 1 <= x < m.n() && !m.unused(x as int) && m.eid(x as int) == x,
        forall|x: DartIdType| #[trigger] m.cell_reps(2).contains(x)
            <==> 1 <= x < m.n() && !m.unused(x as int) && m.fid(x as int) == x,
        forall|k: int, i: int, j: int| 0 <= k < 3 && 0 <= i < j < m.cell_reps(k).len()
            ==> #[trigger] m.cell_reps(k)[i] < #[trigger] m.cell_reps(k)[j],
{
    lemma_reps_below_members(m, 0, m.n() as int);
    lemma_reps_below_members(m, 1, m.n() as int);
    lemma_reps_below_members(m, 2, m.n() as int);
    assert forall|x: DartIdType| #[trigger] m.cell_reps(0).contains(x)
        <==> 1 <= x < m.n() && !m.unused(x as int) && m.vid(x as int) == x by {
        assert(m.cell_reps(0) == m.reps_below(0, m.n() as int));
    }
    assert forall|x: DartIdType| #[trigger] m.cell_reps(1).contains(x)
        <==> 1 <= x < m.n() && !m.unused(x as int) && m.eid(x as int) == x by {
        assert(m.cell_reps(1) == m.reps_below(1, m.n() as int));
    }
    assert forall|x: DartIdType| #[trigger] m.cell_reps(2).contains(x)
        <==> 1 <= x < m.n() && !m.unused(x as int) && m.fid(x as int) == x by {
        assert(m.cell_reps(2) == m.reps_below(2, m.n() as int));
    }
    assert forall|k: int, i: int, j: int| 0 <= k < 3 && 0 <= i < j < m.cell_reps(k).len()
        implies #[trigger] m.cell_reps(k)[i] < #[trigger] m.cell_reps(k)[j] by {
        lemma_reps_below_members(m, k, m.n() as int);
    }
}

} // verus!
