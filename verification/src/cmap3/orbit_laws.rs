//! What each orbit policy of [`CMap3`] follows, stated over the beta functions.

use crate::attributes::AttributeUpdate;
use crate::cmap3::structure::CMap3;
use crate::ids::{DartIdType, NULL_DART_ID};
use crate::orbits::{is_orbit_of, lemma_orbit_least, lemma_orbit_step_closed, step_img, steps_3d, OrbitPolicy};
use vstd::prelude::*;

verus! {

/// The `Vertex` orbit of `d` in a 3-map follows *β<sub>3</sub>∘β<sub>2</sub>*, *β<sub>1</sub>∘β<sub>3</sub>*, *β<sub>1</sub>∘β<sub>2</sub>*, *β<sub>3</sub>∘β<sub>0</sub>*, *β<sub>2</sub>∘β<sub>0</sub>*: it holds `d` and the non-null
/// images of its non-null darts through these, and lies in every set of darts that does.
pub proof fn lemma_vertex_orbit<V: AttributeUpdate>(m: CMap3<V>, d: DartIdType, r: Seq<DartIdType>, s: Set<DartIdType>)
    requires
        is_orbit_of(m.betas, steps_3d(OrbitPolicy::Vertex), d, r),
    ensures
        r.contains(d),
        forall|x: DartIdType| #[trigger] r.contains(x) && x != NULL_DART_ID ==> {
            &&& m.img(3, m.img(2, x as int) as int) != NULL_DART_ID ==> r.contains(m.img(3, m.img(2, x as int) as int))
            &&& m.img(1, m.img(3, x as int) as int) != NULL_DART_ID ==> r.contains(m.img(1, m.img(3, x as int) as int))
            &&& m.img(1, m.img(2, x as int) as int) != NULL_DART_ID ==> r.contains(m.img(1, m.img(2, x as int) as int))
            &&& m.img(3, m.img(0, x as int) as int) != NULL_DART_ID ==> r.contains(m.img(3, m.img(0, x as int) as int))
            &&& m.img(2, m.img(0, x as int) as int) != NULL_DART_ID ==> r.contains(m.img(2, m.img(0, x as int) as int))
        },
        (s.contains(d) && forall|x: DartIdType| #[trigger] s.contains(x) && x != NULL_DART_ID ==> {
            &&& m.img(3, m.img(2, x as int) as int) != NULL_DART_ID ==> s.contains(m.img(3, m.img(2, x as int) as int))
            &&& m.img(1, m.img(3, x as int) as int) != NULL_DART_ID ==> s.contains(m.img(1, m.img(3, x as int) as int))
            &&& m.img(1, m.img(2, x as int) as int) != NULL_DART_ID ==> s.contains(m.img(1, m.img(2, x as int) as int))
            &&& m.img(3, m.img(0, x as int) as int) != NULL_DART_ID ==> s.contains(m.img(3, m.img(0, x as int) as int))
            &&& m.img(2, m.img(0, x as int) as int) != NULL_DART_ID ==> s.contains(m.img(2, m.img(0, x as int) as int))
        }) ==> forall|x: DartIdType| r.contains(x) ==> s.contains(x),
{
    let b = m.betas;
    let st = steps_3d(OrbitPolicy::Vertex);
    assert(r[0] == d);
    assert forall|x: DartIdType| #[trigger] r.contains(x) && x != NULL_DART_ID implies {
            &&& m.img(3, m.img(2, x as int) as int) != NULL_DART_ID ==> r.contains(m.img(3, m.img(2, x as int) as int))
            &&& m.img(1, m.img(3, x as int) as int) != NULL_DART_ID ==> r.contains(m.img(1, m.img(3, x as int) as int))
            &&& m.img(1, m.img(2, x as int) as int) != NULL_DART_ID ==> r.contains(m.img(1, m.img(2, x as int) as int))
            &&& m.img(3, m.img(0, x as int) as int) != NULL_DART_ID ==> r.contains(m.img(3, m.img(0, x as int) as int))
            &&& m.img(2, m.img(0, x as int) as int) != NULL_DART_ID ==> r.contains(m.img(2, m.img(0, x as int) as int))
    } by {
        if m.img(3, m.img(2, x as int) as int) != NULL_DART_ID {
            assert(step_img(b, st[0], x) == m.img(3, m.img(2, x as int) as int));
            lemma_orbit_step_closed(b, st, d, r, x, 0);
        }
        if m.img(1, m.img(3, x as int) as int) != NULL_DART_ID {
            assert(step_img(b, st[1], x) == m.img(1, m.img(3, x as int) as int));
            lemma_orbit_step_closed(b, st, d, r, x, 1);
        }
        if m.img(1, m.img(2, x as int) as int) != NULL_DART_ID {
            assert(step_img(b, st[2], x) == m.img(1, m.img(2, x as int) as int));
            lemma_orbit_step_closed(b, st, d, r, x, 2);
        }
        if m.img(3, m.img(0, x as int) as int) != NULL_DART_ID {
            assert(step_img(b, st[3], x) == m.img(3, m.img(0, x as int) as int));
            lemma_orbit_step_closed(b, st, d, r, x, 3);
        }
        if m.img(2, m.img(0, x as int) as int) != NULL_DART_ID {
            assert(step_img(b, st[4], x) == m.img(2, m.img(0, x as int) as int));
            lemma_orbit_step_closed(b, st, d, r, x, 4);
        }
    }
    if s.contains(d) && forall|x: DartIdType| #[trigger] s.contains(x) && x != NULL_DART_ID ==> {
            &&& m.img(3, m.img(2, x as int) as int) != NULL_DART_ID ==> s.contains(m.img(3, m.img(2, x as int) as int))
            &&& m.img(1, m.img(3, x as int) as int) != NULL_DART_ID ==> s.contains(m.img(1, m.img(3, x as int) as int))
            &&& m.img(1, m.img(2, x as int) as int) != NULL_DART_ID ==> s.contains(m.img(1, m.img(2, x as int) as int))
            &&& m.img(3, m.img(0, x as int) as int) != NULL_DART_ID ==> s.contains(m.img(3, m.img(0, x as int) as int))
            &&& m.img(2, m.img(0, x as int) as int) != NULL_DART_ID ==> s.contains(m.img(2, m.img(0, x as int) as int))
    } {
        assert forall|x: DartIdType, k: int| s.contains(x) && x != NULL_DART_ID && 0 <= k < st.len()
            && #[trigger] step_img(b, st[k], x) != NULL_DART_ID implies s.contains(step_img(b, st[k], x)) by {
            if k == 0 {
                assert(step_img(b, st[0], x) == m.img(3, m.img(2, x as int) as int));
            } else if k == 1 {
                assert(step_img(b, st[1], x) == m.img(1, m.img(3, x as int) as int));
            } else if k == 2 {
                assert(step_img(b, st[2], x) == m.img(1, m.img(2, x as int) as int));
            } else if k == 3 {
                assert(step_img(b, st[3], x) == m.img(3, m.img(0, x as int) as int));
            } else if k == 4 {
                assert(step_img(b, st[4], x) == m.img(2, m.img(0, x as int) as int));
            }
        }
        lemma_orbit_least(b, st, d, r, s);
    }
}

/// The `VertexLinear` orbit of `d` in a 3-map follows *β<sub>3</sub>∘β<sub>2</sub>*, *β<sub>1</sub>∘β<sub>3</sub>*, *β<sub>1</sub>∘β<sub>2</sub>*: it holds `d` and the non-null
/// images of its non-null darts through these, and lies in every set of darts that does.
pub proof fn lemma_vertex_linear_orbit<V: AttributeUpdate>(m: CMap3<V>, d: DartIdType, r: Seq<DartIdType>, s: Set<DartIdType>)
    requires
        is_orbit_of(m.betas, steps_3d(OrbitPolicy::VertexLinear), d, r),
    ensures
        r.contains(d),
        forall|x: DartIdType| #[trigger] r.contains(x) && x != NULL_DART_ID ==> {
            &&& m.img(3, m.img(2, x as int) as int) != NULL_DART_ID ==> r.contains(m.img(3, m.img(2, x as int) as int))
            &&& m.img(1, m.img(3, x as int) as int) != NULL_DART_ID ==> r.contains(m.img(1, m.img(3, x as int) as int))
            &&& m.img(1, m.img(2, x as int) as int) != NULL_DART_ID ==> r.contains(m.img(1, m.img(2, x as int) as int))
        },
        (s.contains(d) && forall|x: DartIdType| #[trigger] s.contains(x) && x != NULL_DART_ID ==> {
            &&& m.img(3, m.img(2, x as int) as int) != NULL_DART_ID ==> s.contains(m.img(3, m.img(2, x as int) as int))
            &&& m.img(1, m.img(3, x as int) as int) != NULL_DART_ID ==> s.contains(m.img(1, m.img(3, x as int) as int))
            &&& m.img(1, m.img(2, x as int) as int) != NULL_DART_ID ==> s.contains(m.img(1, m.img(2, x as int) as int))
        }) ==> forall|x: DartIdType| r.contains(x) ==> s.contains(x),
{
    let b = m.betas;
    let st = steps_3d(OrbitPolicy::VertexLinear);
    assert(r[0] == d);
    assert forall|x: DartIdType| #[trigger] r.contains(x) && x != NULL_DART_ID implies {
            &&& m.img(3, m.img(2, x as int) as int) != NULL_DART_ID ==> r.contains(m.img(3, m.img(2, x as int) as int))
            &&& m.img(1, m.img(3, x as int) as int) != NULL_DART_ID ==> r.contains(m.img(1, m.img(3, x as int) as int))
            &&& m.img(1, m.img(2, x as int) as int) != NULL_DART_ID ==> r.contains(m.img(1, m.img(2, x as int) as int))
    } by {
        if m.img(3, m.img(2, x as int) as int) != NULL_DART_ID {
            assert(step_img(b, st[0], x) == m.img(3, m.img(2, x as int) as int));
            lemma_orbit_step_closed(b, st, d, r, x, 0);
        }
        if m.img(1, m.img(3, x as int) as int) != NULL_DART_ID {
            assert(step_img(b, st[1], x) == m.img(1, m.img(3, x as int) as int));
            lemma_orbit_step_closed(b, st, d, r, x, 1);
        }
        if m.img(1, m.img(2, x as int) as int) != NULL_DART_ID {
            assert(step_img(b, st[2], x) == m.img(1, m.img(2, x as int) as int));
            lemma_orbit_step_closed(b, st, d, r, x, 2);
        }
    }
    if s.contains(d) && forall|x: DartIdType| #[trigger] s.contains(x) && x != NULL_DART_ID ==> {
            &&& m.img(3, m.img(2, x as int) as int) != NULL_DART_ID ==> s.contains(m.img(3, m.img(2, x as int) as int))
            &&& m.img(1, m.img(3, x as int) as int) != NULL_DART_ID ==> s.contains(m.img(1, m.img(3, x as int) as int))
            &&& m.img(1, m.img(2, x as int) as int) != NULL_DART_ID ==> s.contains(m.img(1, m.img(2, x as int) as int))
    } {
        assert forall|x: DartIdType, k: int| s.contains(x) && x != NULL_DART_ID && 0 <= k < st.len()
            && #[trigger] step_img(b, st[k], x) != NULL_DART_ID implies s.contains(step_img(b, st[k], x)) by {
            if k == 0 {
                assert(step_img(b, st[0], x) == m.img(3, m.img(2, x as int) as int));
            } else if k == 1 {
                assert(step_img(b, st[1], x) == m.img(1, m.img(3, x as int) as int));
            } else if k == 2 {
                assert(step_img(b, st[2], x) == m.img(1, m.img(2, x as int) as int));
            }
        }
        lemma_orbit_least(b, st, d, r, s);
    }
}

/// The `Edge` orbit of `d` in a 3-map follows *β<sub>2</sub>*, *β<sub>3</sub>*: it holds `d` and the non-null
/// images of its non-null darts through these, and lies in every set of darts that does.
pub proof fn lemma_edge_orbit<V: AttributeUpdate>(m: CMap3<V>, d: DartIdType, r: Seq<DartIdType>, s: Set<DartIdType>)
    requires
        is_orbit_of(m.betas, steps_3d(OrbitPolicy::Edge), d, r),
    ensures
        r.contains(d),
        forall|x: DartIdType| #[trigger] r.contains(x) && x != NULL_DART_ID ==> {
            &&& m.img(2, x as int) != NULL_DART_ID ==> r.contains(m.img(2, x as int))
            &&& m.img(3, x as int) != NULL_DART_ID ==> r.contains(m.img(3, x as int))
        },
        (s.contains(d) && forall|x: DartIdType| #[trigger] s.contains(x) && x != NULL_DART_ID ==> {
            &&& m.img(2, x as int) != NULL_DART_ID ==> s.contains(m.img(2, x as int))
            &&& m.img(3, x as int) != NULL_DART_ID ==> s.contains(m.img(3, x as int))
        }) ==> forall|x: DartIdType| r.contains(x) ==> s.contains(x),
{
    let b = m.betas;
    let st = steps_3d(OrbitPolicy::Edge);
    assert(r[0] == d);
    assert forall|x: DartIdType| #[trigger] r.contains(x) && x != NULL_DART_ID implies {
            &&& m.img(2, x as int) != NULL_DART_ID ==> r.contains(m.img(2, x as int))
            &&& m.img(3, x as int) != NULL_DART_ID ==> r.contains(m.img(3, x as int))
    } by {
        if m.img(2, x as int) != NULL_DART_ID {
            assert(step_img(b, st[0], x) == m.img(2, x as int));
            lemma_orbit_step_closed(b, st, d, r, x, 0);
        }
        if m.img(3, x as int) != NULL_DART_ID {
            assert(step_img(b, st[1], x) == m.img(3, x as int));
            lemma_orbit_step_closed(b, st, d, r, x, 1);
        }
    }
    if s.contains(d) && forall|x: DartIdType| #[trigger] s.contains(x) && x != NULL_DART_ID ==> {
            &&& m.img(2, x as int) != NULL_DART_ID ==> s.contains(m.img(2, x as int))
            &&& m.img(3, x as int) != NULL_DART_ID ==> s.contains(m.img(3, x as int))
    } {
        assert forall|x: DartIdType, k: int| s.contains(x) && x != NULL_DART_ID && 0 <= k < st.len()
            && #[trigger] step_img(b, st[k], x) != NULL_DART_ID implies s.contains(step_img(b, st[k], x)) by {
            if k == 0 {
                assert(step_img(b, st[0], x) == m.img(2, x as int));
            } else if k == 1 {
                assert(step_img(b, st[1], x) == m.img(3, x as int));
            }
        }
        lemma_orbit_least(b, st, d, r, s);
    }
}

/// The `Face` orbit of `d` in a 3-map follows *β<sub>1</sub>*, *β<sub>0</sub>*, *β<sub>3</sub>*: it holds `d` and the non-null
/// images of its non-null darts through these, and lies in every set of darts that does.
pub proof fn lemma_face_orbit<V: AttributeUpdate>(m: CMap3<V>, d: DartIdType, r: Seq<DartIdType>, s: Set<DartIdType>)
    requires
        is_orbit_of(m.betas, steps_3d(OrbitPolicy::Face), d, r),
    ensures
        r.contains(d),
        forall|x: DartIdType| #[trigger] r.contains(x) && x != NULL_DART_ID ==> {
            &&& m.img(1, x as int) != NULL_DART_ID ==> r.contains(m.img(1, x as int))
            &&& m.img(0, x as int) != NULL_DART_ID ==> r.contains(m.img(0, x as int))
            &&& m.img(3, x as int) != NULL_DART_ID ==> r.contains(m.img(3, x as int))
        },
        (s.contains(d) && forall|x: DartIdType| #[trigger] s.contains(x) && x != NULL_DART_ID ==> {
            &&& m.img(1, x as int) != NULL_DART_ID ==> s.contains(m.img(1, x as int))
            &&& m.img(0, x as int) != NULL_DART_ID ==> s.contains(m.img(0, x as int))
            &&& m.img(3, x as int) != NULL_DART_ID ==> s.contains(m.img(3, x as int))
        }) ==> forall|x: DartIdType| r.contains(x) ==> s.contains(x),
{
    let b = m.betas;
    let st = steps_3d(OrbitPolicy::Face);
    assert(r[0] == d);
    assert forall|x: DartIdType| #[trigger] r.contains(x) && x != NULL_DART_ID implies {
            &&& m.img(1, x as int) != NULL_DART_ID ==> r.contains(m.img(1, x as int))
            &&& m.img(0, x as int) != NULL_DART_ID ==> r.contains(m.img(0, x as int))
            &&& m.img(3, x as int) != NULL_DART_ID ==> r.contains(m.img(3, x as int))
    } by {
        if m.img(1, x as int) != NULL_DART_ID {
            assert(step_img(b, st[0], x) == m.img(1, x as int));
            lemma_orbit_step_closed(b, st, d, r, x, 0);
        }
        if m.img(0, x as int) != NULL_DART_ID {
            assert(step_img(b, st[1], x) == m.img(0, x as int));
            lemma_orbit_step_closed(b, st, d, r, x, 1);
        }
        if m.img(3, x as int) != NULL_DART_ID {
            assert(step_img(b, st[2], x) == m.img(3, x as int));
            lemma_orbit_step_closed(b, st, d, r, x, 2);
        }
    }
    if s.contains(d) && forall|x: DartIdType| #[trigger] s.contains(x) && x != NULL_DART_ID ==> {
            &&& m.img(1, x as int) != NULL_DART_ID ==> s.contains(m.img(1, x as int))
            &&& m.img(0, x as int) != NULL_DART_ID ==> s.contains(m.img(0, x as int))
            &&& m.img(3, x as int) != NULL_DART_ID ==> s.contains(m.img(3, x as int))
    } {
        assert forall|x: DartIdType, k: int| s.contains(x) && x != NULL_DART_ID && 0 <= k < st.len()
            && #[trigger] step_img(b, st[k], x) != NULL_DART_ID implies s.contains(step_img(b, st[k], x)) by {
            if k == 0 {
                assert(step_img(b, st[0], x) == m.img(1, x as int));
            } else if k == 1 {
                assert(step_img(b, st[1], x) == m.img(0, x as int));
            } else if k == 2 {
                assert(step_img(b, st[2], x) == m.img(3, x as int));
            }
        }
        lemma_orbit_least(b, st, d, r, s);
    }
}

/// The `FaceLinear` orbit of `d` in a 3-map follows *β<sub>1</sub>*, *β<sub>3</sub>*: it holds `d` and the non-null
/// images of its non-null darts through these, and lies in every set of darts that does.
pub proof fn lemma_face_linear_orbit<V: AttributeUpdate>(m: CMap3<V>, d: DartIdType, r: Seq<DartIdType>, s: Set<DartIdType>)
    requires
        is_orbit_of(m.betas, steps_3d(OrbitPolicy::FaceLinear), d, r),
    ensures
        r.contains(d),
        forall|x: DartIdType| #[trigger] r.contains(x) && x != NULL_DART_ID ==> {
            &&& m.img(1, x as int) != NULL_DART_ID ==> r.contains(m.img(1, x as int))
            &&& m.img(3, x as int) != NULL_DART_ID ==> r.contains(m.img(3, x as int))
        },
        (s.contains(d) && forall|x: DartIdType| #[trigger] s.contains(x) && x != NULL_DART_ID ==> {
            &&& m.img(1, x as int) != NULL_DART_ID ==> s.contains(m.img(1, x as int))
            &&& m.img(3, x as int) != NULL_DART_ID ==> s.contains(m.img(3, x as int))
        }) ==> forall|x: DartIdType| r.contains(x) ==> s.contains(x),
{
    let b = m.betas;
    let st = steps_3d(OrbitPolicy::FaceLinear);
    assert(r[0] == d);
    assert forall|x: DartIdType| #[trigger] r.contains(x) && x != NULL_DART_ID implies {
            &&& m.img(1, x as int) != NULL_DART_ID ==> r.contains(m.img(1, x as int))
            &&& m.img(3, x as int) != NULL_DART_ID ==> r.contains(m.img(3, x as int))
    } by {
        if m.img(1, x as int) != NULL_DART_ID {
            assert(step_img(b, st[0], x) == m.img(1, x as int));
            lemma_orbit_step_closed(b, st, d, r, x, 0);
        }
        if m.img(3, x as int) != NULL_DART_ID {
            assert(step_img(b, st[1], x) == m.img(3, x as int));
            lemma_orbit_step_closed(b, st, d, r, x, 1);
        }
    }
    if s.contains(d) && forall|x: DartIdType| #[trigger] s.contains(x) && x != NULL_DART_ID ==> {
            &&& m.img(1, x as int) != NULL_DART_ID ==> s.contains(m.img(1, x as int))
            &&& m.img(3, x as int) != NULL_DART_ID ==> s.contains(m.img(3, x as int))
    } {
        assert forall|x: DartIdType, k: int| s.contains(x) && x != NULL_DART_ID && 0 <= k < st.len()
            && #[trigger] step_img(b, st[k], x) != NULL_DART_ID implies s.contains(step_img(b, st[k], x)) by {
            if k == 0 {
                assert(step_img(b, st[0], x) == m.img(1, x as int));
            } else if k == 1 {
                assert(step_img(b, st[1], x) == m.img(3, x as int));
            }
        }
        lemma_orbit_least(b, st, d, r, s);
    }
}

/// The `Volume` orbit of `d` in a 3-map follows *β<sub>1</sub>*, *β<sub>0</sub>*, *β<sub>2</sub>*: it holds `d` and the non-null
/// images of its non-null darts through these, and lies in every set of darts that does.
pub proof fn lemma_volume_orbit<V: AttributeUpdate>(m: CMap3<V>, d: DartIdType, r: Seq<DartIdType>, s: Set<DartIdType>)
    requires
        is_orbit_of(m.betas, steps_3d(OrbitPolicy::Volume), d, r),
    ensures
        r.contains(d),
        forall|x: DartIdType| #[trigger] r.contains(x) && x != NULL_DART_ID ==> {
            &&& m.img(1, x as int) != NULL_DART_ID ==> r.contains(m.img(1, x as int))
            &&& m.img(0, x as int) != NULL_DART_ID ==> r.contains(m.img(0, x as int))
            &&& m.img(2, x as int) != NULL_DART_ID ==> r.contains(m.img(2, x as int))
        },
        (s.contains(d) && forall|x: DartIdType| #[trigger] s.contains(x) && x != NULL_DART_ID ==> {
            &&& m.img(1, x as int) != NULL_DART_ID ==> s.contains(m.img(1, x as int))
            &&& m.img(0, x as int) != NULL_DART_ID ==> s.contains(m.img(0, x as int))
            &&& m.img(2, x as int) != NULL_DART_ID ==> s.contains(m.img(2, x as int))
        }) ==> forall|x: DartIdType| r.contains(x) ==> s.contains(x),
{
    let b = m.betas;
    let st = steps_3d(OrbitPolicy::Volume);
    assert(r[0] == d);
    assert forall|x: DartIdType| #[trigger] r.contains(x) && x != NULL_DART_ID implies {
            &&& m.img(1, x as int) != NULL_DART_ID ==> r.contains(m.img(1, x as int))
            &&& m.img(0, x as int) != NULL_DART_ID ==> r.contains(m.img(0, x as int))
            &&& m.img(2, x as int) != NULL_DART_ID ==> r.contains(m.img(2, x as int))
    } by {
        if m.img(1, x as int) != NULL_DART_ID {
            assert(step_img(b, st[0], x) == m.img(1, x as int));
            lemma_orbit_step_closed(b, st, d, r, x, 0);
        }
        if m.img(0, x as int) != NULL_DART_ID {
            assert(step_img(b, st[1], x) == m.img(0, x as int));
            lemma_orbit_step_closed(b, st, d, r, x, 1);
        }
        if m.img(2, x as int) != NULL_DART_ID {
            assert(step_img(b, st[2], x) == m.img(2, x as int));
            lemma_orbit_step_closed(b, st, d, r, x, 2);
        }
    }
    if s.contains(d) && forall|x: DartIdType| #[trigger] s.contains(x) && x != NULL_DART_ID ==> {
            &&& m.img(1, x as int) != NULL_DART_ID ==> s.contains(m.img(1, x as int))
            &&& m.img(0, x as int) != NULL_DART_ID ==> s.contains(m.img(0, x as int))
            &&& m.img(2, x as int) != NULL_DART_ID ==> s.contains(m.img(2, x as int))
    } {
        assert forall|x: DartIdType, k: int| s.contains(x) && x != NULL_DART_ID && 0 <= k < st.len()
            && #[trigger] step_img(b, st[k], x) != NULL_DART_ID implies s.contains(step_img(b, st[k], x)) by {
            if k == 0 {
                assert(step_img(b, st[0], x) == m.img(1, x as int));
            } else if k == 1 {
                assert(step_img(b, st[1], x) == m.img(0, x as int));
            } else if k == 2 {
                assert(step_img(b, st[2], x) == m.img(2, x as int));
            }
        }
        lemma_orbit_least(b, st, d, r, s);
    }
}

/// The `VolumeLinear` orbit of `d` in a 3-map follows *β<sub>1</sub>*, *β<sub>2</sub>*: it holds `d` and the non-null
/// images of its non-null darts through these, and lies in every set of darts that does.
pub proof fn lemma_volume_linear_orbit<V: AttributeUpdate>(m: CMap3<V>, d: DartIdType, r: Seq<DartIdType>, s: Set<DartIdType>)
    requires
        is_orbit_of(m.betas, steps_3d(OrbitPolicy::VolumeLinear), d, r),
    ensures
        r.contains(d),
        forall|x: DartIdType| #[trigger] r.contains(x) && x != NULL_DART_ID ==> {
            &&& m.img(1, x as int) != NULL_DART_ID ==> r.contains(m.img(1, x as int))
            &&& m.img(2, x as int) != NULL_DART_ID ==> r.contains(m.img(2, x as int))
        },
        (s.contains(d) && forall|x: DartIdType| #[trigger] s.contains(x) && x != NULL_DART_ID ==> {
            &&& m.img(1, x as int) != NULL_DART_ID ==> s.contains(m.img(1, x as int))
            &&& m.img(2, x as int) != NULL_DART_ID ==> s.contains(m.img(2, x as int))
        }) ==> forall|x: DartIdType| r.contains(x) ==> s.contains(x),
{
    let b = m.betas;
    let st = steps_3d(OrbitPolicy::VolumeLinear);
    assert(r[0] == d);
    assert forall|x: DartIdType| #[trigger] r.contains(x) && x != NULL_DART_ID implies {
            &&& m.img(1, x as int) != NULL_DART_ID ==> r.contains(m.img(1, x as int))
            &&& m.img(2, x as int) != NULL_DART_ID ==> r.contains(m.img(2, x as int))
    } by {
        if m.img(1, x as int) != NULL_DART_ID {
            assert(step_img(b, st[0], x) == m.img(1, x as int));
            lemma_orbit_step_closed(b, st, d, r, x, 0);
        }
        if m.img(2, x as int) != NULL_DART_ID {
            assert(step_img(b, st[1], x) == m.img(2, x as int));
            lemma_orbit_step_closed(b, st, d, r, x, 1);
        }
    }
    if s.contains(d) && forall|x: DartIdType| #[trigger] s.contains(x) && x != NULL_DART_ID ==> {
            &&& m.img(1, x as int) != NULL_DART_ID ==> s.contains(m.img(1, x as int))
            &&& m.img(2, x as int) != NULL_DART_ID ==> s.contains(m.img(2, x as int))
    } {
        assert forall|x: DartIdType, k: int| s.contains(x) && x != NULL_DART_ID && 0 <= k < st.len()
            && #[trigger] step_img(b, st[k], x) != NULL_DART_ID implies s.contains(step_img(b, st[k], x)) by {
            if k == 0 {
                assert(step_img(b, st[0], x) == m.img(1, x as int));
            } else if k == 1 {
                assert(step_img(b, st[1], x) == m.img(2, x as int));
            }
        }
        lemma_orbit_least(b, st, d, r, s);
    }
}

/// A custom orbit of `d` in a 3-map follows the listed beta functions: it holds `d` and
/// the non-null images of its non-null darts through each of them, and lies in every set of
/// darts that does.
pub proof fn lemma_custom_orbit<V: AttributeUpdate>(
    m: CMap3<V>,
    betas: &'static [u8],
    d: DartIdType,
    r: Seq<DartIdType>,
    s: Set<DartIdType>,
)
    requires
        is_orbit_of(m.betas, steps_3d(OrbitPolicy::Custom(betas)), d, r),
    ensures
        r.contains(d),
        forall|x: DartIdType, k: int| r.contains(x) && x != NULL_DART_ID && 0 <= k < betas@.len()
            && #[trigger] m.img(betas@[k] as int, x as int) != NULL_DART_ID ==> r.contains(m.img(betas@[k] as int, x as int)),
        (s.contains(d) && forall|x: DartIdType, k: int| s.contains(x) && x != NULL_DART_ID && 0 <= k < betas@.len()
            && #[trigger] m.img(betas@[k] as int, x as int) != NULL_DART_ID ==> s.contains(m.img(betas@[k] as int, x as int)))
            ==> forall|x: DartIdType| r.contains(x) ==> s.contains(x),
{
    let b = m.betas;
    let st = steps_3d(OrbitPolicy::Custom(betas));
    assert(r[0] == d);
    assert forall|x: DartIdType, k: int| r.contains(x) && x != NULL_DART_ID && 0 <= k < betas@.len()
        && #[trigger] m.img(betas@[k] as int, x as int) != NULL_DART_ID implies r.contains(m.img(betas@[k] as int, x as int)) by {
        assert(step_img(b, st[k], x) == m.img(betas@[k] as int, x as int));
        lemma_orbit_step_closed(b, st, d, r, x, k);
    }
    if s.contains(d) && forall|x: DartIdType, k: int| s.contains(x) && x != NULL_DART_ID && 0 <= k < betas@.len()
        && #[trigger] m.img(betas@[k] as int, x as int) != NULL_DART_ID ==> s.contains(m.img(betas@[k] as int, x as int)) {
        assert forall|x: DartIdType, k: int| s.contains(x) && x != NULL_DART_ID && 0 <= k < st.len()
            && #[trigger] step_img(b, st[k], x) != NULL_DART_ID implies s.contains(step_img(b, st[k], x)) by {
            assert(step_img(b, st[k], x) == m.img(betas@[k] as int, x as int));
        }
        lemma_orbit_least(b, st, d, r, s);
    }
}

} // verus!
