//! Properties of the sews and unsews of [`CMap3`]: what an unsew undoes, and what every
//! outcome keeps.

use crate::attributes::{merge_rel, split_rel, AttributeUpdate};
use crate::cmap2::sews::min_id;
use crate::cmap3::sews::max_id;
use crate::orbits::{extends, lemma_orbit_id_extend, steps_below, vertex_id_steps_3d};
use crate::cmap3::consistency::{
    lemma_one_link_consistent, lemma_one_unlink_consistent, lemma_three_link_consistent,
    lemma_three_unlink_consistent, lemma_two_link_consistent, lemma_two_unlink_consistent,
};
use crate::cmap3::laws::{lemma_one_link_unlink, lemma_three_link_unlink, lemma_two_link_unlink};
use crate::cmap3::structure::CMap3;
use crate::error::SewError;
use crate::ids::{DartIdType, NULL_DART_ID};
use vstd::prelude::*;

verus! {

/// Maps with the same images are equally consistent.
proof fn lemma_same_betas_consistent<V: AttributeUpdate>(m0: CMap3<V>, m1: CMap3<V>)
    requires
        m0.wf(),
        m0.consistent(),
        m1.same_betas(&m0),
    ensures
        m1.consistent(),
{
    assert forall|d: int| 0 < d < m1.n() && #[trigger] m1.img(1, d) != NULL_DART_ID
        implies m1.img(0, m1.img(1, d) as int) == d by {
        assert(m0.img(1, d) == m1.img(1, d));
        assert(m0.img(0, m0.img(1, d) as int) == d);
    }
    assert forall|d: int| 0 < d < m1.n() && #[trigger] m1.img(0, d) != NULL_DART_ID
        implies m1.img(1, m1.img(0, d) as int) == d by {
        assert(m0.img(0, d) == m1.img(0, d));
        assert(m0.img(1, m0.img(0, d) as int) == d);
    }
    assert forall|d: int| 0 < d < m1.n() && #[trigger] m1.img(2, d) != NULL_DART_ID
        implies m1.img(2, m1.img(2, d) as int) == d by {
        assert(m0.img(2, d) == m1.img(2, d));
        assert(m0.img(2, m0.img(2, d) as int) == d);
    }
    assert forall|d: int| 0 < d < m1.n() && #[trigger] m1.img(3, d) != NULL_DART_ID
        implies m1.img(3, m1.img(3, d) as int) == d by {
        assert(m0.img(3, d) == m1.img(3, d));
        assert(m0.img(3, m0.img(3, d) as int) == d);
    }
}

/// The images of two maps of the same size agree when their image functions do.
proof fn lemma_imgs_same_betas<V: AttributeUpdate>(m0: CMap3<V>, m1: CMap3<V>)
    requires
        m1.n() == m0.n(),
        m1.imgs() == m0.imgs(),
    ensures
        m1.same_betas(&m0),
{
    assert forall|i: int, d: int| 0 <= i < 4 && 0 <= d < m1.n() implies #[trigger] m1.img(i, d) == m0.img(i, d) by {
        let f1 = m1.imgs();
        let f0 = m0.imgs();
        assert(f1(i, d) == f0(i, d));
        assert(f1(i, d) == m1.img(i, d));
        assert(f0(i, d) == m0.img(i, d));
    }
}

/// Undoing a 1-sew: a successful 1-unsew of `ld` right after a successful 1-sew of `ld` and
/// `rd` gives back the former images and dart flags (not the vertex values: a merge followed
/// by a split need not give them back).
pub proof fn lemma_one_sew_unsew_topo<V: AttributeUpdate>(
    m0: CMap3<V>,
    m1: CMap3<V>,
    m2: CMap3<V>,
    ld: DartIdType,
    rd: DartIdType,
)
    requires
        m0.wf(),
        ld != NULL_DART_ID,
        rd != NULL_DART_ID,
        (ld as int) < m0.n(),
        (rd as int) < m0.n(),
        CMap3::one_sew_post(&m0, &m1, ld, rd, Ok(())),
        CMap3::one_unsew_post(&m1, &m2, ld, Ok(())),
    ensures
        m2.same_betas(&m0),
        m2.unused_darts == m0.unused_darts,
{
    assert(m0.one_link_outcome(ld, rd) is Ok);
    lemma_one_link_unlink(m0, m1, ld, rd);
    lemma_imgs_same_betas(m0, m2);
}

/// Undoing a 2-sew: a successful 2-unsew of `ld` right after a successful 2-sew of `ld` and
/// `rd` gives back the former images and dart flags.
pub proof fn lemma_two_sew_unsew_topo<V: AttributeUpdate>(
    m0: CMap3<V>,
    m1: CMap3<V>,
    m2: CMap3<V>,
    ld: DartIdType,
    rd: DartIdType,
)
    requires
        m0.wf(),
        ld != NULL_DART_ID,
        rd != NULL_DART_ID,
        (ld as int) < m0.n(),
        (rd as int) < m0.n(),
        CMap3::two_sew_post(&m0, &m1, ld, rd, Ok(())),
        CMap3::two_unsew_post(&m1, &m2, ld, Ok(())),
    ensures
        m2.same_betas(&m0),
        m2.unused_darts == m0.unused_darts,
{
    lemma_two_link_unlink(m0, m1, ld, rd);
    lemma_imgs_same_betas(m0, m2);
}

/// Undoing a 3-sew: a successful 3-unsew of `ld` right after a successful 3-sew of `ld` and
/// `rd` gives back the former images and dart flags.
pub proof fn lemma_three_sew_unsew_topo<V: AttributeUpdate>(
    m0: CMap3<V>,
    m1: CMap3<V>,
    m2: CMap3<V>,
    ld: DartIdType,
    rd: DartIdType,
)
    requires
        m0.wf(),
        m1.wf(),
        ld != NULL_DART_ID,
        rd != NULL_DART_ID,
        (ld as int) < m0.n(),
        (rd as int) < m0.n(),
        CMap3::three_sew_post(&m0, &m1, ld, rd, Ok(())),
        CMap3::three_unsew_post(&m1, &m2, ld, Ok(())),
    ensures
        m2.same_betas(&m0),
        m2.unused_darts == m0.unused_darts,
{
    lemma_three_link_unlink(m0, m1, ld, rd);
    let c3 = m1.three_unlink_outcome(ld)->Ok_0.0;
    assert forall|i: int, d: int| 0 <= i < 4 && 0 <= d < m2.n() implies #[trigger] m2.img(i, d) == m0.img(i, d) by {
        if i == 3 {
            assert(m2.col(3)[d] == c3[d]);
            assert(m0.col(3)[d] == m0.img(3, d));
        } else {
            assert(m2.img(i, d) == m1.img(i, d));
        }
    }
}

/// Whatever their outcome, 1-sews and 1-unsews keep a map consistent.
pub proof fn lemma_one_sew_unsew_consistent<V: AttributeUpdate>(
    m0: CMap3<V>,
    m1: CMap3<V>,
    ld: DartIdType,
    rd: DartIdType,
    r: Result<(), SewError>,
)
    requires
        m0.wf(),
        m0.consistent(),
        ld != NULL_DART_ID,
        rd != NULL_DART_ID,
        (ld as int) < m0.n(),
        (rd as int) < m0.n(),
        CMap3::one_sew_post(&m0, &m1, ld, rd, r) || CMap3::one_unsew_post(&m0, &m1, ld, r),
    ensures
        m1.consistent(),
{
    if CMap3::one_sew_post(&m0, &m1, ld, rd, r) {
        if m0.one_link_outcome(ld, rd) is Ok && r is Ok {
            lemma_one_link_consistent(m0, m1, ld, rd);
        } else {
            lemma_same_betas_consistent(m0, m1);
        }
    } else {
        if m0.one_unlink_outcome(ld) is Ok && r is Ok {
            lemma_one_unlink_consistent(m0, m1, ld);
        } else {
            lemma_same_betas_consistent(m0, m1);
        }
    }
}

/// Whatever their outcome, 2-sews and 2-unsews keep a map consistent.
pub proof fn lemma_two_sew_unsew_consistent<V: AttributeUpdate>(
    m0: CMap3<V>,
    m1: CMap3<V>,
    ld: DartIdType,
    rd: DartIdType,
    r: Result<(), SewError>,
)
    requires
        m0.wf(),
        m0.consistent(),
        ld != NULL_DART_ID,
        rd != NULL_DART_ID,
        (ld as int) < m0.n(),
        (rd as int) < m0.n(),
        CMap3::two_sew_post(&m0, &m1, ld, rd, r) || CMap3::two_unsew_post(&m0, &m1, ld, r),
    ensures
        m1.consistent(),
{
    if CMap3::two_sew_post(&m0, &m1, ld, rd, r) {
        if r is Ok {
            lemma_two_link_consistent(m0, m1, ld, rd);
        } else {
            lemma_same_betas_consistent(m0, m1);
        }
    } else {
        if m0.two_unlink_outcome(ld) is Ok && r is Ok {
            lemma_two_unlink_consistent(m0, m1, ld);
        } else {
            lemma_same_betas_consistent(m0, m1);
        }
    }
}

/// Whatever their outcome, 3-sews and 3-unsews keep a map consistent.
pub proof fn lemma_three_sew_unsew_consistent<V: AttributeUpdate>(
    m0: CMap3<V>,
    m1: CMap3<V>,
    ld: DartIdType,
    rd: DartIdType,
    r: Result<(), SewError>,
)
    requires
        m0.wf(),
        m0.consistent(),
        m1.wf(),
        ld != NULL_DART_ID,
        rd != NULL_DART_ID,
        (ld as int) < m0.n(),
        (rd as int) < m0.n(),
        CMap3::three_sew_post(&m0, &m1, ld, rd, r) || CMap3::three_unsew_post(&m0, &m1, ld, r),
    ensures
        m1.consistent(),
{
    if CMap3::three_sew_post(&m0, &m1, ld, rd, r) {
        if !m0.sides_asym(ld, rd) && r is Ok {
            lemma_three_link_consistent(m0, m1, ld, rd);
        } else {
            lemma_same_betas_consistent(m0, m1);
        }
    } else {
        if m0.three_unlink_outcome(ld) is Ok && r is Ok {
            lemma_three_unlink_consistent(m0, m1, ld);
        } else {
            lemma_same_betas_consistent(m0, m1);
        }
    }
}

} // verus!

verus! {

/// Undoing a 1-sew, on the vertex values: after a successful 1-sew of `ld` and `rd` and a
/// successful 1-unsew of `ld`, the slots that hold a value are those that held one before
/// (when the two merged vertices both held one), the vertices other than the two merged ones
/// keep their values, and the two vertices get the values that `split` gives of the value that
/// `merge` gave of their former values. When nothing is merged (no *β<sub>3</sub>* or
/// *β<sub>2</sub>* image of `ld`, or a single vertex), nothing changes.
pub proof fn lemma_one_sew_unsew_vertices<V: AttributeUpdate>(
    m0: CMap3<V>,
    m1: CMap3<V>,
    m2: CMap3<V>,
    ld: DartIdType,
    rd: DartIdType,
)
    requires
        m0.wf(),
        ld != NULL_DART_ID,
        rd != NULL_DART_ID,
        (ld as int) < m0.n(),
        (rd as int) < m0.n(),
        CMap3::one_sew_post(&m0, &m1, ld, rd, Ok(())),
        CMap3::one_unsew_post(&m1, &m2, ld, Ok(())),
        ({
            let b3ld = max_id(m0.img(3, ld as int), m0.img(2, ld as int));
            (b3ld != NULL_DART_ID && m0.vid(b3ld as int) != m0.vid(rd as int)) ==> {
                &&& m0.vertex(m0.vid(b3ld as int) as int) is Some
                &&& m0.vertex(m0.vid(rd as int) as int) is Some
            }
        }),
    ensures
        ({
            let b3ld = max_id(m0.img(3, ld as int), m0.img(2, ld as int));
            let lv = m0.vid(b3ld as int) as int;
            let rv = m0.vid(rd as int) as int;
            &&& (b3ld == NULL_DART_ID || lv == rv) ==> m2.vertices.slots() == m0.vertices.slots()
            &&& forall|id: int| 0 <= id < m0.n() ==> (#[trigger] m2.vertex(id) is Some <==> m0.vertex(id) is Some)
            &&& forall|id: int| 0 <= id < m0.n() && id != lv && id != rv ==> #[trigger] m2.vertex(id) == m0.vertex(id)
            &&& (b3ld != NULL_DART_ID && lv != rv) ==> exists|w: V|
                call_ensures(V::merge, (m0.vertex(lv)->Some_0, m0.vertex(rv)->Some_0), w)
                && #[trigger] call_ensures(V::split, (w,), (m2.vertex(lv)->Some_0, m2.vertex(rv)->Some_0))
        }),
{
    let b3ld = max_id(m0.img(3, ld as int), m0.img(2, ld as int));
    lemma_one_sew_unsew_topo(m0, m1, m2, ld, rd);
    let g = m0.one_link_outcome(ld, rd)->Ok_0;
    assert((m1.imgs())(1, ld as int) == g(1, ld as int));
    assert((m1.imgs())(2, ld as int) == g(2, ld as int));
    assert((m1.imgs())(3, ld as int) == g(3, ld as int));
    assert(m1.img(1, ld as int) == rd);
    assert(m1.img(2, ld as int) == m0.img(2, ld as int));
    assert(m1.img(3, ld as int) == m0.img(3, ld as int));
    let steps = vertex_id_steps_3d();
    assert(steps_below(steps, 4));
    assert(extends(m2.betas, m0.betas)) by {
        assert forall|i: int, x: int| 0 <= i < 4 && 0 <= x < m0.betas.n() implies #[trigger] m2.betas.img(i, x) == m0.betas.img(i, x) by {
            assert(m2.img(i, x) == m0.img(i, x));
        }
    }
    lemma_orbit_id_extend(m0.betas, m2.betas, steps, b3ld);
    lemma_orbit_id_extend(m0.betas, m2.betas, steps, rd);
    let lv = m0.vid(b3ld as int) as int;
    let rv = m0.vid(rd as int) as int;
    assert(m2.vid(b3ld as int) == lv);
    assert(m2.vid(rd as int) == rv);
    let s0 = m0.vertices.slots();
    let s1 = m1.vertices.slots();
    let s2 = m2.vertices.slots();
    if b3ld != NULL_DART_ID && lv != rv {
        let out = min_id(lv as u32, rv as u32) as int;
        assert(merge_rel(s0, s1, out, lv, rv));
        assert(split_rel(s1, s2, lv, rv, out));
        assert forall|id: int| 0 <= id < m0.n() implies (#[trigger] m2.vertex(id) is Some <==> m0.vertex(id) is Some) by {
            if id != lv && id != rv {
                assert(s2[id] == s1[id]);
                assert(s1[id] == s0[id]);
            }
        }
        assert forall|id: int| 0 <= id < m0.n() && id != lv && id != rv implies #[trigger] m2.vertex(id) == m0.vertex(id) by {
            assert(s2[id] == s1[id]);
            assert(s1[id] == s0[id]);
        }
        let w = s1[out]->Some_0;
        assert(call_ensures(V::merge, (m0.vertex(lv)->Some_0, m0.vertex(rv)->Some_0), w));
        assert(call_ensures(V::split, (w,), (m2.vertex(lv)->Some_0, m2.vertex(rv)->Some_0)));
    } else {
        assert(s1 == s0);
        assert(s2 == s1);
    }
}

} // verus!
