//! Every link and unlink of [`CMap3`] (and so every sew and unsew) keeps a consistent map
//! consistent.

use crate::attributes::AttributeUpdate;
use crate::cmap3::links::{link3, three_link_from, three_unlink_from, unlink3};
use crate::cmap3::structure::CMap3;
use crate::ids::{DartIdType, NULL_DART_ID};
use vstd::prelude::*;

verus! {

/// A fresh map is consistent.
pub proof fn lemma_new_consistent<V: AttributeUpdate>(m: CMap3<V>)
    requires
        forall|i: int, d: int| 0 <= i < 4 && 0 <= d < m.n() ==> #[trigger] m.img(i, d) == NULL_DART_ID,
    ensures
        m.consistent(),
{
}

/// The column `b3` pairs its darts: the null dart has no partner, and each other non-null
/// entry is a dart of the column whose entry points back.
pub open spec fn pairs_darts(b3: Seq<DartIdType>) -> bool {
    &&& b3.len() > 0 ==> b3[0] == NULL_DART_ID
    &&& forall|d: int| 0 <= d < b3.len() && #[trigger] b3[d] != NULL_DART_ID
        ==> (b3[d] as int) < b3.len() && b3[b3[d] as int] == d
}

/// Linking two free darts keeps a column pairing its darts.
proof fn lemma_link3_pairs(b3: Seq<DartIdType>, l: DartIdType, r: DartIdType)
    requires
        pairs_darts(b3),
        (l as int) < b3.len(),
        (r as int) < b3.len(),
        l != NULL_DART_ID,
        r != NULL_DART_ID,
        b3[l as int] == NULL_DART_ID,
        b3[r as int] == NULL_DART_ID,
    ensures
        pairs_darts(link3(b3, l, r)),
{
    let c = link3(b3, l, r);
    assert forall|d: int| 0 <= d < c.len() && #[trigger] c[d] != NULL_DART_ID
        implies (c[d] as int) < c.len() && c[c[d] as int] == d by {
        if d != l && d != r {
            let x = b3[d];
            assert(c[d] == x);
            assert(b3[x as int] == d);
            assert(x != l && x != r);
            assert(c[x as int] == b3[x as int]);
        } else if d == r {
            assert(c[d] == l);
        } else {
            assert(c[d] == r);
            if l != r {
                assert(c[r as int] == l);
            }
        }
    }
}

/// Unlinking a dart from its partner keeps a column pairing its darts.
proof fn lemma_unlink3_pairs(b3: Seq<DartIdType>, l: DartIdType)
    requires
        pairs_darts(b3),
        (l as int) < b3.len(),
        b3[l as int] != NULL_DART_ID,
    ensures
        pairs_darts(unlink3(b3, l)),
{
    let x = b3[l as int];
    assert(b3[x as int] == l);
    let c = unlink3(b3, l);
    assert forall|d: int| 0 <= d < c.len() && #[trigger] c[d] != NULL_DART_ID
        implies (c[d] as int) < c.len() && c[c[d] as int] == d by {
        assert(d != l && d != x);
        assert(c[d] == b3[d]);
        assert(b3[b3[d] as int] == d);
    }
}

/// The faces linked along the walk of a 3-link keep a column pairing its darts.
proof fn lemma_three_link_from_pairs(
    b0: Seq<DartIdType>,
    b1: Seq<DartIdType>,
    ld: DartIdType,
    rd: DartIdType,
    b3: Seq<DartIdType>,
    back: bool,
    l: DartIdType,
    r: DartIdType,
)
    requires
        pairs_darts(b3),
        three_link_from(b0, b1, ld, rd, b3, back, l, r) is Ok,
    ensures
        pairs_darts(three_link_from(b0, b1, ld, rd, b3, back, l, r)->Ok_0),
    decreases crate::cmap3::links::count_null(b3), if back { 0int } else { 1int },
{
    if !((l as int) < b3.len() && (r as int) < b3.len() && b0.len() == b3.len() && b1.len() == b3.len()
        && (ld as int) < b3.len() && (rd as int) < b3.len()) {
    } else if !back && l == ld {
    } else if !back && l == NULL_DART_ID {
        if r == NULL_DART_ID {
            lemma_three_link_from_pairs(b0, b1, ld, rd, b3, true, b0[ld as int], b1[rd as int]);
        }
    } else if back && l == NULL_DART_ID {
    } else if r == NULL_DART_ID {
    } else if b3[l as int] != NULL_DART_ID {
    } else if b3[r as int] != NULL_DART_ID {
    } else {
        let nb3 = link3(b3, l, r);
        crate::cmap3::links::lemma_link3_count(b3, l, r);
        lemma_link3_pairs(b3, l, r);
        if back {
            lemma_three_link_from_pairs(b0, b1, ld, rd, nb3, true, b0[l as int], b1[r as int]);
        } else {
            lemma_three_link_from_pairs(b0, b1, ld, rd, nb3, false, b1[l as int], b0[r as int]);
        }
    }
}

/// The faces unlinked along the walk of a 3-unlink keep a column pairing its darts.
proof fn lemma_three_unlink_from_pairs(
    b0: Seq<DartIdType>,
    b1: Seq<DartIdType>,
    ld: DartIdType,
    rd: DartIdType,
    b3: Seq<DartIdType>,
    back: bool,
    l: DartIdType,
    r: DartIdType,
    acc_l: Seq<DartIdType>,
    acc_r: Seq<DartIdType>,
)
    requires
        pairs_darts(b3),
        three_unlink_from(b0, b1, ld, rd, b3, back, l, r, acc_l, acc_r) is Ok,
    ensures
        pairs_darts(three_unlink_from(b0, b1, ld, rd, b3, back, l, r, acc_l, acc_r)->Ok_0.0),
    decreases crate::cmap3::links::count_linked(b3), if back { 0int } else { 1int },
{
    if !((l as int) < b3.len() && (r as int) < b3.len() && b0.len() == b3.len() && b1.len() == b3.len()
        && (ld as int) < b3.len() && (rd as int) < b3.len() && forall|d: int| 0 <= d < b3.len() ==> (#[trigger] b3[d] as int) < b3.len()) {
    } else if !back && l == ld {
    } else if !back && l == NULL_DART_ID {
        if r == NULL_DART_ID {
            lemma_three_unlink_from_pairs(b0, b1, ld, rd, b3, true, b0[ld as int], b1[rd as int], acc_l, acc_r);
        }
    } else if back && l == NULL_DART_ID {
    } else if l != b3[r as int] {
    } else if b3[l as int] == NULL_DART_ID {
    } else {
        let nb3 = unlink3(b3, l);
        crate::cmap3::links::lemma_unlink3_count(b3, l);
        lemma_unlink3_pairs(b3, l);
        if back {
            lemma_three_unlink_from_pairs(b0, b1, ld, rd, nb3, true, b0[l as int], b1[r as int], acc_l.push(l), acc_r.push(r));
        } else {
            lemma_three_unlink_from_pairs(b0, b1, ld, rd, nb3, false, b1[l as int], b0[r as int], acc_l.push(l), acc_r.push(r));
        }
    }
}

/// On a map pairing its darts by *β<sub>3</sub>*, the column of *β<sub>3</sub>* pairs its
/// darts, and conversely.
proof fn lemma_col3_pairs<V: AttributeUpdate>(m: CMap3<V>)
    requires
        m.wf(),
    ensures
        pairs_darts(m.col(3)) <==> (forall|d: int| 0 < d < m.n() && #[trigger] m.img(3, d) != NULL_DART_ID
            ==> m.img(3, m.img(3, d) as int) == d),
{
    let c = m.col(3);
    if pairs_darts(c) {
        assert forall|d: int| 0 < d < m.n() && #[trigger] m.img(3, d) != NULL_DART_ID
            implies m.img(3, m.img(3, d) as int) == d by {
            assert(c[d] == m.img(3, d));
            assert(c[c[d] as int] == d);
        }
    }
    if forall|d: int| 0 < d < m.n() && #[trigger] m.img(3, d) != NULL_DART_ID ==> m.img(3, m.img(3, d) as int) == d {
        assert forall|d: int| 0 <= d < c.len() && #[trigger] c[d] != NULL_DART_ID
            implies (c[d] as int) < c.len() && c[c[d] as int] == d by {
            assert(c[d] == m.img(3, d));
            assert(d != 0);
        }
    }
}

/// A successful 3-link (or the link of a 3-sew) keeps the map consistent.
pub proof fn lemma_three_link_consistent<V: AttributeUpdate>(o: CMap3<V>, m: CMap3<V>, ld: DartIdType, rd: DartIdType)
    requires
        o.wf(),
        o.consistent(),
        m.wf(),
        ld != NULL_DART_ID,
        rd != NULL_DART_ID,
        (ld as int) < o.n(),
        (rd as int) < o.n(),
        o.three_link_outcome(ld, rd) is Ok,
        m.betas_col3(&o, o.three_link_outcome(ld, rd)->Ok_0),
    ensures
        m.consistent(),
{
    let b3 = o.col(3);
    lemma_col3_pairs(o);
    lemma_link3_pairs(b3, ld, rd);
    lemma_three_link_from_pairs(o.col(0), o.col(1), ld, rd, link3(b3, ld, rd), false, o.img(1, ld as int), o.img(0, rd as int));
    lemma_col3_pairs(m);
    assert forall|i: int, d: int| 0 <= i < 3 && 0 <= d < m.n() implies #[trigger] m.img(i, d) == o.img(i, d) by {}
}

/// A successful 3-unlink (or the unlink of a 3-unsew) keeps the map consistent.
pub proof fn lemma_three_unlink_consistent<V: AttributeUpdate>(o: CMap3<V>, m: CMap3<V>, ld: DartIdType)
    requires
        o.wf(),
        o.consistent(),
        m.wf(),
        (ld as int) < o.n(),
        o.three_unlink_outcome(ld) is Ok,
        m.betas_col3(&o, o.three_unlink_outcome(ld)->Ok_0.0),
    ensures
        m.consistent(),
{
    let b3 = o.col(3);
    let rd = b3[ld as int];
    lemma_col3_pairs(o);
    lemma_unlink3_pairs(b3, ld);
    lemma_three_unlink_from_pairs(o.col(0), o.col(1), ld, rd, unlink3(b3, ld), false, o.img(1, ld as int), o.img(0, rd as int), seq![ld], seq![rd]);
    lemma_col3_pairs(m);
    assert forall|i: int, d: int| 0 <= i < 3 && 0 <= d < m.n() implies #[trigger] m.img(i, d) == o.img(i, d) by {}
}

/// A successful 1-link (or the link of a 1-sew) keeps the map consistent.
pub proof fn lemma_one_link_consistent<V: AttributeUpdate>(o: CMap3<V>, m: CMap3<V>, ld: DartIdType, rd: DartIdType)
    requires
        o.wf(),
        o.consistent(),
        ld != NULL_DART_ID,
        rd != NULL_DART_ID,
        (ld as int) < o.n(),
        (rd as int) < o.n(),
        o.one_link_outcome(ld, rd) is Ok,
        m.n() == o.n(),
        m.imgs() =~= o.one_link_outcome(ld, rd)->Ok_0,
    ensures
        m.consistent(),
{
    let f0 = o.imgs();
    let g = o.one_link_outcome(ld, rd)->Ok_0;
    let b3l = f0(3, ld as int);
    let b3r = f0(3, rd as int);
    let both = b3l != NULL_DART_ID && b3r != NULL_DART_ID;
    assert forall|i: int, d: int| 0 <= i < 4 && 0 <= d < m.n() implies #[trigger] m.img(i, d) == g(i, d) by {
        assert(m.imgs()(i, d) == g(i, d));
    }
    if both {
        assert(o.img(3, b3l as int) == ld);
        assert(o.img(3, b3r as int) == rd);
    }
    assert forall|d: int| 0 < d < m.n() && #[trigger] m.img(1, d) != NULL_DART_ID
        implies m.img(0, m.img(1, d) as int) == d by {
        let e = m.img(1, d);
        assert(m.img(0, e as int) == g(0, e as int));
        if d != ld && !(both && d == b3r) {
            assert(o.img(0, o.img(1, d) as int) == d);
        }
    }
    assert forall|d: int| 0 < d < m.n() && #[trigger] m.img(0, d) != NULL_DART_ID
        implies m.img(1, m.img(0, d) as int) == d by {
        let e = m.img(0, d);
        assert(m.img(1, e as int) == g(1, e as int));
        if d != rd && !(both && d == b3l) {
            assert(o.img(1, o.img(0, d) as int) == d);
        }
    }
    assert forall|d: int| 0 < d < m.n() && #[trigger] m.img(2, d) != NULL_DART_ID
        implies m.img(2, m.img(2, d) as int) == d by {
        assert(m.img(2, m.img(2, d) as int) == g(2, m.img(2, d) as int));
        assert(o.img(2, o.img(2, d) as int) == d);
    }
    assert forall|d: int| 0 < d < m.n() && #[trigger] m.img(3, d) != NULL_DART_ID
        implies m.img(3, m.img(3, d) as int) == d by {
        assert(m.img(3, m.img(3, d) as int) == g(3, m.img(3, d) as int));
        assert(o.img(3, o.img(3, d) as int) == d);
    }
}

/// A successful 1-unlink (or the unlink of a 1-unsew) keeps the map consistent.
pub proof fn lemma_one_unlink_consistent<V: AttributeUpdate>(o: CMap3<V>, m: CMap3<V>, ld: DartIdType)
    requires
        o.wf(),
        o.consistent(),
        (ld as int) < o.n(),
        o.one_unlink_outcome(ld) is Ok,
        m.n() == o.n(),
        m.imgs() =~= o.one_unlink_outcome(ld)->Ok_0,
    ensures
        m.consistent(),
{
    let f0 = o.imgs();
    let g = o.one_unlink_outcome(ld)->Ok_0;
    let rd = f0(1, ld as int);
    let b3l = f0(3, ld as int);
    let b3r = f0(3, rd as int);
    let both = b3l != NULL_DART_ID && b3r != NULL_DART_ID;
    assert(ld != NULL_DART_ID);
    assert(o.img(0, rd as int) == ld);
    assert forall|i: int, d: int| 0 <= i < 4 && 0 <= d < m.n() implies #[trigger] m.img(i, d) == g(i, d) by {
        assert(m.imgs()(i, d) == g(i, d));
    }
    if both {
        assert(o.img(3, b3l as int) == ld);
        assert(o.img(3, b3r as int) == rd);
        assert(o.img(0, b3l as int) == b3r);
    }
    assert forall|d: int| 0 < d < m.n() && #[trigger] m.img(1, d) != NULL_DART_ID
        implies m.img(0, m.img(1, d) as int) == d by {
        let e = m.img(1, d);
        assert(m.img(0, e as int) == g(0, e as int));
        assert(o.img(0, o.img(1, d) as int) == d);
    }
    assert forall|d: int| 0 < d < m.n() && #[trigger] m.img(0, d) != NULL_DART_ID
        implies m.img(1, m.img(0, d) as int) == d by {
        let e = m.img(0, d);
        assert(m.img(1, e as int) == g(1, e as int));
        assert(o.img(1, o.img(0, d) as int) == d);
    }
    assert forall|d: int| 0 < d < m.n() && #[trigger] m.img(2, d) != NULL_DART_ID
        implies m.img(2, m.img(2, d) as int) == d by {
        assert(m.img(2, m.img(2, d) as int) == g(2, m.img(2, d) as int));
        assert(o.img(2, o.img(2, d) as int) == d);
    }
    assert forall|d: int| 0 < d < m.n() && #[trigger] m.img(3, d) != NULL_DART_ID
        implies m.img(3, m.img(3, d) as int) == d by {
        assert(m.img(3, m.img(3, d) as int) == g(3, m.img(3, d) as int));
        assert(o.img(3, o.img(3, d) as int) == d);
    }
}

/// A successful 2-link (or the link of a 2-sew) keeps the map consistent.
pub proof fn lemma_two_link_consistent<V: AttributeUpdate>(o: CMap3<V>, m: CMap3<V>, ld: DartIdType, rd: DartIdType)
    requires
        o.wf(),
        o.consistent(),
        ld != NULL_DART_ID,
        rd != NULL_DART_ID,
        (ld as int) < o.n(),
        (rd as int) < o.n(),
        o.two_link_outcome(ld, rd) is Ok,
        m.n() == o.n(),
        m.imgs() =~= o.two_link_outcome(ld, rd)->Ok_0,
    ensures
        m.consistent(),
{
    let g = o.two_link_outcome(ld, rd)->Ok_0;
    assert forall|i: int, d: int| 0 <= i < 4 && 0 <= d < m.n() implies #[trigger] m.img(i, d) == g(i, d) by {
        assert(m.imgs()(i, d) == g(i, d));
    }
    assert forall|d: int| 0 < d < m.n() && #[trigger] m.img(1, d) != NULL_DART_ID
        implies m.img(0, m.img(1, d) as int) == d by {
        assert(m.img(0, m.img(1, d) as int) == g(0, m.img(1, d) as int));
        assert(o.img(0, o.img(1, d) as int) == d);
    }
    assert forall|d: int| 0 < d < m.n() && #[trigger] m.img(0, d) != NULL_DART_ID
        implies m.img(1, m.img(0, d) as int) == d by {
        assert(m.img(1, m.img(0, d) as int) == g(1, m.img(0, d) as int));
        assert(o.img(1, o.img(0, d) as int) == d);
    }
    assert forall|d: int| 0 < d < m.n() && #[trigger] m.img(2, d) != NULL_DART_ID
        implies m.img(2, m.img(2, d) as int) == d by {
        let e = m.img(2, d);
        assert(m.img(2, e as int) == g(2, e as int));
        if d != ld && d != rd {
            assert(o.img(2, o.img(2, d) as int) == d);
        }
    }
    assert forall|d: int| 0 < d < m.n() && #[trigger] m.img(3, d) != NULL_DART_ID
        implies m.img(3, m.img(3, d) as int) == d by {
        assert(m.img(3, m.img(3, d) as int) == g(3, m.img(3, d) as int));
        assert(o.img(3, o.img(3, d) as int) == d);
    }
}

/// A successful 2-unlink (or the unlink of a 2-unsew) keeps the map consistent.
pub proof fn lemma_two_unlink_consistent<V: AttributeUpdate>(o: CMap3<V>, m: CMap3<V>, ld: DartIdType)
    requires
        o.wf(),
        o.consistent(),
        (ld as int) < o.n(),
        o.two_unlink_outcome(ld) is Ok,
        m.n() == o.n(),
        m.imgs() =~= o.two_unlink_outcome(ld)->Ok_0,
    ensures
        m.consistent(),
{
    let g = o.two_unlink_outcome(ld)->Ok_0;
    let rd = o.img(2, ld as int);
    assert(ld != NULL_DART_ID);
    assert(o.img(2, rd as int) == ld);
    assert forall|i: int, d: int| 0 <= i < 4 && 0 <= d < m.n() implies #[trigger] m.img(i, d) == g(i, d) by {
        assert(m.imgs()(i, d) == g(i, d));
    }
    assert forall|d: int| 0 < d < m.n() && #[trigger] m.img(1, d) != NULL_DART_ID
        implies m.img(0, m.img(1, d) as int) == d by {
        assert(m.img(0, m.img(1, d) as int) == g(0, m.img(1, d) as int));
        assert(o.img(0, o.img(1, d) as int) == d);
    }
    assert forall|d: int| 0 < d < m.n() && #[trigger] m.img(0, d) != NULL_DART_ID
        implies m.img(1, m.img(0, d) as int) == d by {
        assert(m.img(1, m.img(0, d) as int) == g(1, m.img(0, d) as int));
        assert(o.img(1, o.img(0, d) as int) == d);
    }
    assert forall|d: int| 0 < d < m.n() && #[trigger] m.img(2, d) != NULL_DART_ID
        implies m.img(2, m.img(2, d) as int) == d by {
        let e = m.img(2, d);
        assert(m.img(2, e as int) == g(2, e as int));
        assert(o.img(2, o.img(2, d) as int) == d);
    }
    assert forall|d: int| 0 < d < m.n() && #[trigger] m.img(3, d) != NULL_DART_ID
        implies m.img(3, m.img(3, d) as int) == d by {
        assert(m.img(3, m.img(3, d) as int) == g(3, m.img(3, d) as int));
        assert(o.img(3, o.img(3, d) as int) == d);
    }
}

} // verus!
