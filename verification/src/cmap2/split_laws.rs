//! Properties of edge splitting.

use crate::attributes::AttributeUpdate;
use crate::cmap2::advanced_ops::{
    back_writes, chain1_writes, chain_prev, cut1_writes, cut2_writes, images_after, link1_if, link1_to, link1_writes,
    link2_writes, written_img,
};
use crate::cmap2::structure::CMap2;
use crate::ids::{DartIdType, NULL_DART_ID};
use vstd::prelude::*;

verus! {

/// Writes in sequence: the writes of `b` land on top of those of `a`.
pub proof fn lemma_written_concat(a: Seq<(int, int, DartIdType)>, b: Seq<(int, int, DartIdType)>, i: int, x: int, base: DartIdType)
    ensures
        written_img(a + b, i, x, base) == written_img(b, i, x, written_img(a, i, x, base)),
    decreases b.len(),
{
    if b.len() == 0 {
        assert(a + b =~= a);
    } else {
        assert((a + b).drop_last() =~= a + b.drop_last());
        assert((a + b).last() == b.last());
        lemma_written_concat(a, b.drop_last(), i, x, base);
    }
}

/// Whether `x` is a free dart of `m`, or no dart of it yet.
pub open spec fn fresh_dart<V: AttributeUpdate>(m: CMap2<V>, x: DartIdType) -> bool {
    x as int >= m.n() || m.free(x as int)
}

/// Image of `x` in `m`, null beyond its darts.
pub open spec fn base_img<V: AttributeUpdate>(m: CMap2<V>, i: int, x: int) -> DartIdType {
    if x < m.n() { m.img(i, x) } else { NULL_DART_ID }
}

/// Images after splitting the edge of `d1` with the new darts `n1` and `n2`, as drawn: `n1`
/// follows `d1` on its face; when `d1` is not 2-free, `n2` follows *β<sub>2</sub>(d1)* on its
/// face, and the two halves of the edge are 2-linked crosswise.
pub open spec fn split_drawing<V: AttributeUpdate>(m: CMap2<V>, d1: DartIdType, n1: DartIdType, n2: DartIdType, i: int, x: int) -> DartIdType {
    let d2 = m.img(2, d1 as int);
    let o1 = m.img(1, d1 as int);
    let o2 = m.img(1, d2 as int);
    if d2 == NULL_DART_ID {
        if i == 1 && x == d1 {
            n1
        } else if i == 1 && x == n1 {
            o1
        } else if i == 0 && x == n1 {
            d1
        } else if i == 0 && x == o1 && o1 != NULL_DART_ID {
            n1
        } else {
            base_img(m, i, x)
        }
    } else {
        if i == 1 && x == d1 {
            n1
        } else if i == 1 && x == n1 {
            o1
        } else if i == 1 && x == d2 {
            n2
        } else if i == 1 && x == n2 {
            o2
        } else if i == 0 && x == n1 {
            d1
        } else if i == 0 && x == n2 {
            d2
        } else if i == 0 && x == o1 && o1 != NULL_DART_ID {
            n1
        } else if i == 0 && x == o2 && o2 != NULL_DART_ID {
            n2
        } else if i == 2 && x == d1 {
            n2
        } else if i == 2 && x == n2 {
            d1
        } else if i == 2 && x == d2 {
            n1
        } else if i == 2 && x == n1 {
            d2
        } else {
            base_img(m, i, x)
        }
    }
}

/// The darts of a split are distinct where the drawing needs it: the new darts are fresh and
/// distinct, and the edge is not 2-linked to itself.
pub open spec fn split_darts_ok<V: AttributeUpdate>(m: CMap2<V>, d1: DartIdType, n1: DartIdType, n2: DartIdType) -> bool {
    let d2 = m.img(2, d1 as int);
    &&& d1 != NULL_DART_ID
    &&& (d1 as int) < m.n()
    &&& n1 != NULL_DART_ID
    &&& fresh_dart(m, n1)
    &&& n1 != d1
    &&& d2 != NULL_DART_ID ==> {
        &&& d2 != d1
        &&& n2 != NULL_DART_ID
        &&& fresh_dart(m, n2)
        &&& n2 != n1
    }
}

/// On a consistent map, the writes of a split give the drawn images.
#[verifier::spinoff_prover]
#[verifier::rlimit(50)]
proof fn lemma_split_writes_drawing<V: AttributeUpdate>(m: CMap2<V>, d1: DartIdType, n1: DartIdType, n2: DartIdType, i: int, x: int)
    requires
        m.wf(),
        m.consistent(),
        split_darts_ok(m, d1, n1, n2),
    ensures
        written_img(m.split_writes(d1, n1, n2), i, x, base_img(m, i, x)) == split_drawing(m, d1, n1, n2, i, x),
{
    let d2 = m.img(2, d1 as int);
    let o1 = m.img(1, d1 as int);
    let o2 = m.img(1, d2 as int);
    let b = base_img(m, i, x);
    if o1 != NULL_DART_ID {
        assert(m.img(0, o1 as int) == d1);
    }
    if d2 != NULL_DART_ID {
        assert(m.img(2, d2 as int) == d1);
        if o2 != NULL_DART_ID {
            assert(m.img(0, o2 as int) == d2);
        }
    }
    reveal_with_fuel(written_img, 3);
    if d2 == NULL_DART_ID {
        let p1 = cut1_writes(d1, o1);
        let p2 = link1_writes(d1, n1);
        let p3 = link1_to(n1, o1);
        lemma_written_concat(p1 + p2, p3, i, x, b);
        lemma_written_concat(p1, p2, i, x, b);
    } else {
        let p1 = cut1_writes(d1, o1);
        let p2 = cut1_writes(d2, o2);
        let p3 = cut2_writes(d1, d2);
        let p4 = link1_writes(d1, n1);
        let p5 = link1_if(n1, o1);
        let p6 = link1_writes(d2, n2);
        let p7 = link1_if(n2, o2);
        let p8 = link2_writes(d1, n2);
        let p9 = link2_writes(d2, n1);
        let w1 = p1;
        let w2 = w1 + p2;
        let w3 = w2 + p3;
        let w4 = w3 + p4;
        let w5 = w4 + p5;
        let w6 = w5 + p6;
        let w7 = w6 + p7;
        let w8 = w7 + p8;
        let w9 = w8 + p9;
        lemma_written_concat(w8, p9, i, x, b);
        lemma_written_concat(w7, p8, i, x, b);
        lemma_written_concat(w6, p7, i, x, b);
        lemma_written_concat(w5, p6, i, x, b);
        lemma_written_concat(w4, p5, i, x, b);
        lemma_written_concat(w3, p4, i, x, b);
        lemma_written_concat(w2, p3, i, x, b);
        lemma_written_concat(w1, p2, i, x, b);
    }
}

/// Splitting an edge of a consistent map, with fresh distinct new darts, keeps the map
/// consistent.
pub proof fn lemma_split_edge_consistent<V: AttributeUpdate>(m0: CMap2<V>, m1: CMap2<V>, d1: DartIdType, n1: DartIdType, n2: DartIdType)
    requires
        m0.wf(),
        m0.consistent(),
        m1.wf(),
        m0.n() <= m1.n(),
        split_darts_ok(m0, d1, n1, n2),
        images_after(m1, m0, m0.split_writes(d1, n1, n2)),
    ensures
        m1.consistent(),
        forall|i: int, x: int| 0 <= i < 3 && 0 <= x < m1.n() ==> #[trigger] m1.img(i, x) == split_drawing(m0, d1, n1, n2, i, x),
{
    assert forall|i: int, x: int| 0 <= i < 3 && 0 <= x < m1.n() implies #[trigger] m1.img(i, x) == split_drawing(m0, d1, n1, n2, i, x) by {
        lemma_split_writes_drawing(m0, d1, n1, n2, i, x);
    }
    let d2 = m0.img(2, d1 as int);
    let o1 = m0.img(1, d1 as int);
    let o2 = m0.img(1, d2 as int);
    assert forall|d: int| 0 < d < m1.n() && #[trigger] m1.img(1, d) != NULL_DART_ID
        implies m1.img(0, m1.img(1, d) as int) == d by {
        let e = m1.img(1, d);
        assert(m1.img(0, e as int) == split_drawing(m0, d1, n1, n2, 0, e as int));
        if d < m0.n() && m0.img(1, d) != NULL_DART_ID {
            assert(m0.img(0, m0.img(1, d) as int) == d);
        }
    }
    assert forall|d: int| 0 < d < m1.n() && #[trigger] m1.img(0, d) != NULL_DART_ID
        implies m1.img(1, m1.img(0, d) as int) == d by {
        let e = m1.img(0, d);
        assert(m1.img(1, e as int) == split_drawing(m0, d1, n1, n2, 1, e as int));
        if d < m0.n() && m0.img(0, d) != NULL_DART_ID {
            assert(m0.img(1, m0.img(0, d) as int) == d);
        }
    }
    assert forall|d: int| 0 < d < m1.n() && #[trigger] m1.img(2, d) != NULL_DART_ID
        implies m1.img(2, m1.img(2, d) as int) == d by {
        let e = m1.img(2, d);
        assert(m1.img(2, e as int) == split_drawing(m0, d1, n1, n2, 2, e as int));
        if d < m0.n() && m0.img(2, d) != NULL_DART_ID {
            assert(m0.img(2, m0.img(2, d) as int) == d);
        }
    }
}

} // verus!

verus! {

/// Images of `m`, null beyond its darts, as a function.
pub open spec fn base_fn<V: AttributeUpdate>(m: CMap2<V>) -> spec_fn(int, int) -> DartIdType {
    |i: int, x: int| base_img(m, i, x)
}

/// The images `f` after the writes `ws`.
pub open spec fn apply_writes(f: spec_fn(int, int) -> DartIdType, ws: Seq<(int, int, DartIdType)>) -> spec_fn(int, int) -> DartIdType {
    |i: int, x: int| written_img(ws, i, x, f(i, x))
}

/// Images `f` of the darts `0..n` are consistent: the null dart has null images, every image is
/// a dart, *β<sub>0</sub>* is the inverse of *β<sub>1</sub>*, and *β<sub>2</sub>* an
/// involution, on the linked darts.
pub open spec fn fn_consistent(f: spec_fn(int, int) -> DartIdType, n: int) -> bool {
    &&& forall|i: int| 0 <= i < 3 ==> #[trigger] f(i, 0) == NULL_DART_ID
    &&& forall|i: int, d: int| 0 <= i < 3 && 0 <= d < n ==> (#[trigger] f(i, d) as int) < n
    &&& forall|d: int| 0 < d < n && #[trigger] f(1, d) != NULL_DART_ID ==> f(0, f(1, d) as int) == d
    &&& forall|d: int| 0 < d < n && #[trigger] f(0, d) != NULL_DART_ID ==> f(1, f(0, d) as int) == d
    &&& forall|d: int| 0 < d < n && #[trigger] f(2, d) != NULL_DART_ID ==> f(2, f(2, d) as int) == d
}

/// A 1-link of a 1-free dart to a dart without *β<sub>0</sub>* image keeps images consistent.
proof fn lemma_link1_step(f: spec_fn(int, int) -> DartIdType, a: DartIdType, b: DartIdType, n: int)
    requires
        fn_consistent(f, n),
        0 < a < n,
        0 < b < n,
        f(1, a as int) == NULL_DART_ID,
        f(0, b as int) == NULL_DART_ID,
    ensures
        fn_consistent(apply_writes(f, link1_writes(a, b)), n),
        forall|i: int, x: int| #[trigger] apply_writes(f, link1_writes(a, b))(i, x) == if i == 1 && x == a {
            b
        } else if i == 0 && x == b {
            a
        } else {
            f(i, x)
        },
{
    reveal_with_fuel(written_img, 3);
    let g = apply_writes(f, link1_writes(a, b));
    assert forall|i: int, x: int| #[trigger] g(i, x) == if i == 1 && x == a { b } else if i == 0 && x == b { a } else { f(i, x) } by {}
    assert forall|d: int| 0 < d < n && #[trigger] g(1, d) != NULL_DART_ID implies g(0, g(1, d) as int) == d by {
        if d != a {
            assert(f(0, f(1, d) as int) == d);
        }
    }
    assert forall|d: int| 0 < d < n && #[trigger] g(0, d) != NULL_DART_ID implies g(1, g(0, d) as int) == d by {
        if d != b {
            assert(f(1, f(0, d) as int) == d);
        }
    }
    assert forall|d: int| 0 < d < n && #[trigger] g(2, d) != NULL_DART_ID implies g(2, g(2, d) as int) == d by {
        assert(f(2, f(2, d) as int) == d);
    }
}

/// Cutting the 1-link of `a` keeps images consistent.
proof fn lemma_cut1_step(f: spec_fn(int, int) -> DartIdType, a: DartIdType, n: int)
    requires
        fn_consistent(f, n),
        0 < a < n,
    ensures
        fn_consistent(apply_writes(f, cut1_writes(a, f(1, a as int))), n),
        forall|i: int, x: int| #[trigger] apply_writes(f, cut1_writes(a, f(1, a as int)))(i, x) == if i == 1 && x == a {
            NULL_DART_ID
        } else if i == 0 && x == f(1, a as int) && x != NULL_DART_ID {
            NULL_DART_ID
        } else {
            f(i, x)
        },
{
    reveal_with_fuel(written_img, 3);
    let o = f(1, a as int);
    let g = apply_writes(f, cut1_writes(a, o));
    if o != NULL_DART_ID {
        assert(f(0, o as int) == a);
    }
    assert forall|i: int, x: int| #[trigger] g(i, x) == if i == 1 && x == a {
        NULL_DART_ID
    } else if i == 0 && x == o && x != NULL_DART_ID {
        NULL_DART_ID
    } else {
        f(i, x)
    } by {}
    assert forall|d: int| 0 < d < n && #[trigger] g(1, d) != NULL_DART_ID implies g(0, g(1, d) as int) == d by {
        assert(f(0, f(1, d) as int) == d);
    }
    assert forall|d: int| 0 < d < n && #[trigger] g(0, d) != NULL_DART_ID implies g(1, g(0, d) as int) == d by {
        assert(f(1, f(0, d) as int) == d);
    }
    assert forall|d: int| 0 < d < n && #[trigger] g(2, d) != NULL_DART_ID implies g(2, g(2, d) as int) == d by {
        assert(f(2, f(2, d) as int) == d);
    }
}

/// A 2-link of two 2-free darts keeps images consistent.
proof fn lemma_link2_step(f: spec_fn(int, int) -> DartIdType, a: DartIdType, b: DartIdType, n: int)
    requires
        fn_consistent(f, n),
        0 < a < n,
        0 < b < n,
        f(2, a as int) == NULL_DART_ID,
        f(2, b as int) == NULL_DART_ID,
    ensures
        fn_consistent(apply_writes(f, link2_writes(a, b)), n),
        forall|i: int, x: int| #[trigger] apply_writes(f, link2_writes(a, b))(i, x) == if i == 2 && x == b {
            a
        } else if i == 2 && x == a {
            b
        } else {
            f(i, x)
        },
{
    reveal_with_fuel(written_img, 3);
    let g = apply_writes(f, link2_writes(a, b));
    assert forall|i: int, x: int| #[trigger] g(i, x) == if i == 2 && x == b { a } else if i == 2 && x == a { b } else { f(i, x) } by {}
    assert forall|d: int| 0 < d < n && #[trigger] g(1, d) != NULL_DART_ID implies g(0, g(1, d) as int) == d by {
        assert(f(0, f(1, d) as int) == d);
    }
    assert forall|d: int| 0 < d < n && #[trigger] g(0, d) != NULL_DART_ID implies g(1, g(0, d) as int) == d by {
        assert(f(1, f(0, d) as int) == d);
    }
    assert forall|d: int| 0 < d < n && #[trigger] g(2, d) != NULL_DART_ID implies g(2, g(2, d) as int) == d by {
        if d != a && d != b {
            assert(f(2, f(2, d) as int) == d);
        }
    }
}

/// Cutting the 2-link of `a` keeps images consistent.
proof fn lemma_cut2_step(f: spec_fn(int, int) -> DartIdType, a: DartIdType, n: int)
    requires
        fn_consistent(f, n),
        0 < a < n,
        f(2, a as int) != NULL_DART_ID,
    ensures
        fn_consistent(apply_writes(f, cut2_writes(a, f(2, a as int))), n),
        forall|i: int, x: int| #[trigger] apply_writes(f, cut2_writes(a, f(2, a as int)))(i, x) == if i == 2 && (x == a
            || x == f(2, a as int)) {
            NULL_DART_ID
        } else {
            f(i, x)
        },
{
    reveal_with_fuel(written_img, 3);
    let b = f(2, a as int);
    let g = apply_writes(f, cut2_writes(a, b));
    assert(f(2, b as int) == a);
    assert forall|i: int, x: int| #[trigger] g(i, x) == if i == 2 && (x == a || x == b) { NULL_DART_ID } else { f(i, x) } by {}
    assert forall|d: int| 0 < d < n && #[trigger] g(1, d) != NULL_DART_ID implies g(0, g(1, d) as int) == d by {
        assert(f(0, f(1, d) as int) == d);
    }
    assert forall|d: int| 0 < d < n && #[trigger] g(0, d) != NULL_DART_ID implies g(1, g(0, d) as int) == d by {
        assert(f(1, f(0, d) as int) == d);
    }
    assert forall|d: int| 0 < d < n && #[trigger] g(2, d) != NULL_DART_ID implies g(2, g(2, d) as int) == d by {
        assert(f(2, f(2, d) as int) == d);
    }
}

/// Writes in sequence, on image functions.
proof fn lemma_apply_concat(f: spec_fn(int, int) -> DartIdType, a: Seq<(int, int, DartIdType)>, b: Seq<(int, int, DartIdType)>)
    ensures
        apply_writes(f, a + b) == apply_writes(apply_writes(f, a), b),
{
    assert forall|i: int, x: int| #[trigger] apply_writes(f, a + b)(i, x) == apply_writes(apply_writes(f, a), b)(i, x) by {
        lemma_written_concat(a, b, i, x, f(i, x));
    }
    assert(apply_writes(f, a + b) =~= apply_writes(apply_writes(f, a), b));
}

/// The chain of 1-links from `first` through `ds[..k]` keeps images consistent, when `first`
/// is 1-free and the darts of `ds` are free, distinct and not `first`; the last dart of the
/// chain is then 1-free, and no other image changes.
proof fn lemma_chain1_consistent(f: spec_fn(int, int) -> DartIdType, first: DartIdType, ds: Seq<DartIdType>, k: int, n: int)
    requires
        fn_consistent(f, n),
        0 < first < n,
        f(1, first as int) == NULL_DART_ID,
        0 <= k <= ds.len(),
        ds.no_duplicates(),
        forall|t: int| 0 <= t < ds.len() ==> 0 < #[trigger] ds[t] < n && ds[t] != first
            && f(0, ds[t] as int) == NULL_DART_ID && f(1, ds[t] as int) == NULL_DART_ID,
    ensures
        fn_consistent(apply_writes(f, chain1_writes(first, ds, k)), n),
        apply_writes(f, chain1_writes(first, ds, k))(1, chain_prev(first, ds, k) as int) == NULL_DART_ID,
        forall|i: int, x: int| !(i == 1 && (x == first || ds.take(k).contains(x as DartIdType)))
            && !(i == 0 && ds.take(k).contains(x as DartIdType))
            ==> #[trigger] apply_writes(f, chain1_writes(first, ds, k))(i, x) == f(i, x),
    decreases k,
{
    let g = apply_writes(f, chain1_writes(first, ds, k));
    if k == 0 {
        assert(g =~= f);
    } else {
        lemma_chain1_consistent(f, first, ds, k - 1, n);
        let g0 = apply_writes(f, chain1_writes(first, ds, k - 1));
        let p = chain_prev(first, ds, k - 1);
        let e = ds[k - 1];
        lemma_apply_concat(f, chain1_writes(first, ds, k - 1), link1_writes(p, e));
        assert(!ds.take(k - 1).contains(e)) by {
            if ds.take(k - 1).contains(e) {
                let t = choose|t: int| 0 <= t < k - 1 && #[trigger] ds.take(k - 1)[t] == e;
                assert(ds[t] == ds[k - 1]);
            }
        }
        assert(g0(0, e as int) == f(0, e as int));
        assert(g0(1, e as int) == f(1, e as int));
        if k - 1 > 0 {
            assert(ds.take(k - 1)[k - 2] == ds[k - 2]);
            assert(ds.take(k - 1).contains(ds[k - 2]));
        }
        lemma_link1_step(g0, p, e, n);
        assert forall|i: int, x: int| !(i == 1 && (x == first || ds.take(k).contains(x as DartIdType)))
            && !(i == 0 && ds.take(k).contains(x as DartIdType)) implies #[trigger] g(i, x) == f(i, x) by {
            if ds.take(k - 1).contains(x as DartIdType) {
                let t = choose|t: int| 0 <= t < k - 1 && #[trigger] ds.take(k - 1)[t] == x as DartIdType;
                assert(ds.take(k)[t] == x as DartIdType);
            }
            if x == e as int {
                assert(ds.take(k)[k - 1] == e);
            }
            if k - 1 > 0 && x == p as int {
                assert(ds.take(k)[k - 2] == p);
            }
        }
    }
}

/// The other side of a split into segments keeps images consistent, when `first` is 1-free and
/// 2-free, the darts of `sh` are free, distinct and not `first`, and the darts of `fh` are
/// 2-free, distinct, not `first` and not in `sh`; the last dart of the chain is then 1-free and
/// 2-free, and no other image changes.
proof fn lemma_back_consistent(
    f: spec_fn(int, int) -> DartIdType,
    first: DartIdType,
    fh: Seq<DartIdType>,
    sh: Seq<DartIdType>,
    k: int,
    n: int,
)
    requires
        fn_consistent(f, n),
        0 < first < n,
        f(1, first as int) == NULL_DART_ID,
        f(2, first as int) == NULL_DART_ID,
        fh.len() == sh.len(),
        0 <= k <= sh.len(),
        sh.no_duplicates(),
        fh.no_duplicates(),
        forall|t: int| 0 <= t < sh.len() ==> 0 < #[trigger] sh[t] < n && sh[t] != first
            && f(0, sh[t] as int) == NULL_DART_ID && f(1, sh[t] as int) == NULL_DART_ID
            && f(2, sh[t] as int) == NULL_DART_ID,
        forall|t: int| 0 <= t < fh.len() ==> 0 < #[trigger] fh[t] < n && fh[t] != first && !sh.contains(fh[t])
            && f(2, fh[t] as int) == NULL_DART_ID,
    ensures
        fn_consistent(apply_writes(f, back_writes(first, fh, sh, k)), n),
        apply_writes(f, back_writes(first, fh, sh, k))(1, chain_prev(first, sh, k) as int) == NULL_DART_ID,
        apply_writes(f, back_writes(first, fh, sh, k))(2, chain_prev(first, sh, k) as int) == NULL_DART_ID,
        forall|i: int, x: int| !(i == 1 && (x == first || sh.take(k).contains(x as DartIdType)))
            && !(i == 0 && sh.take(k).contains(x as DartIdType))
            && !(i == 2 && (x == first || sh.take(k).contains(x as DartIdType) || fh.skip(fh.len() - k).contains(x as DartIdType)))
            ==> #[trigger] apply_writes(f, back_writes(first, fh, sh, k))(i, x) == f(i, x),
    decreases k,
{
    let g = apply_writes(f, back_writes(first, fh, sh, k));
    if k == 0 {
        assert(g =~= f);
    } else {
        lemma_back_consistent(f, first, fh, sh, k - 1, n);
        let g0 = apply_writes(f, back_writes(first, fh, sh, k - 1));
        let p = chain_prev(first, sh, k - 1);
        let q = fh[fh.len() - k];
        let e = sh[k - 1];
        let w1 = link2_writes(p, q);
        let w2 = link1_writes(p, e);
        lemma_apply_concat(f, back_writes(first, fh, sh, k - 1) + w1, w2);
        lemma_apply_concat(f, back_writes(first, fh, sh, k - 1), w1);
        assert(back_writes(first, fh, sh, k) == back_writes(first, fh, sh, k - 1) + w1 + w2);
        assert(!sh.take(k - 1).contains(e)) by {
            if sh.take(k - 1).contains(e) {
                let t = choose|t: int| 0 <= t < k - 1 && #[trigger] sh.take(k - 1)[t] == e;
                assert(sh[t] == sh[k - 1]);
            }
        }
        assert(!fh.skip(fh.len() - (k - 1)).contains(q)) by {
            if fh.skip(fh.len() - (k - 1)).contains(q) {
                let t = choose|t: int| 0 <= t < k - 1 && #[trigger] fh.skip(fh.len() - (k - 1))[t] == q;
                assert(fh[fh.len() - (k - 1) + t] == fh[fh.len() - k]);
            }
        }
        assert(!sh.contains(q));
        if k - 1 > 0 {
            assert(sh.take(k - 1)[k - 2] == sh[k - 2]);
            assert(sh.take(k - 1).contains(sh[k - 2]));
            assert(sh.contains(p));
        }
        assert(q != p);
        assert(g0(2, q as int) == f(2, q as int));
        assert(g0(0, e as int) == f(0, e as int));
        assert(g0(1, e as int) == f(1, e as int));
        assert(g0(2, e as int) == f(2, e as int));
        lemma_link2_step(g0, p, q, n);
        let g1 = apply_writes(g0, w1);
        lemma_link1_step(g1, p, e, n);
        assert forall|i: int, x: int| !(i == 1 && (x == first || sh.take(k).contains(x as DartIdType)))
            && !(i == 0 && sh.take(k).contains(x as DartIdType))
            && !(i == 2 && (x == first || sh.take(k).contains(x as DartIdType) || fh.skip(fh.len() - k).contains(x as DartIdType)))
            implies #[trigger] g(i, x) == f(i, x) by {
            if sh.take(k - 1).contains(x as DartIdType) {
                let t = choose|t: int| 0 <= t < k - 1 && #[trigger] sh.take(k - 1)[t] == x as DartIdType;
                assert(sh.take(k)[t] == x as DartIdType);
            }
            if fh.skip(fh.len() - (k - 1)).contains(x as DartIdType) {
                let t = choose|t: int| 0 <= t < k - 1 && #[trigger] fh.skip(fh.len() - (k - 1))[t] == x as DartIdType;
                assert(fh.skip(fh.len() - k)[t + 1] == x as DartIdType);
            }
            if x == e as int {
                assert(sh.take(k)[k - 1] == e);
            }
            if x == q as int {
                assert(fh.skip(fh.len() - k)[0] == q);
            }
            if k - 1 > 0 && x == p as int {
                assert(sh.take(k)[k - 2] == p);
            }
        }
        assert(g(2, e as int) == NULL_DART_ID);
    }
}

/// Whether the new darts of a split of the edge of `d1` into segments, in a map of `n` darts,
/// are fit for it: fresh, non-null and distinct darts, the first ones not `d1`; and, when `d1`
/// is 2-linked (not to itself), the other ones not `d1` either, nor one of the first ones.
pub open spec fn splitn_darts_ok<V: AttributeUpdate>(m: CMap2<V>, d1: DartIdType, fh: Seq<DartIdType>, sh: Seq<DartIdType>, n: int) -> bool {
    let d2 = m.img(2, d1 as int);
    &&& d1 != NULL_DART_ID
    &&& (d1 as int) < m.n()
    &&& m.n() <= n
    &&& fh.len() == sh.len()
    &&& fh.no_duplicates()
    &&& forall|t: int| 0 <= t < fh.len() ==> #[trigger] fh[t] != NULL_DART_ID && (fh[t] as int) < n
        && fresh_dart(m, fh[t]) && fh[t] != d1
    &&& d2 != NULL_DART_ID ==> {
        &&& d2 != d1
        &&& sh.no_duplicates()
        &&& forall|t: int| 0 <= t < sh.len() ==> #[trigger] sh[t] != NULL_DART_ID && (sh[t] as int) < n
            && fresh_dart(m, sh[t]) && sh[t] != d1 && !fh.contains(sh[t])
    }
}

/// A consistent map has consistent images, null beyond its darts.
proof fn lemma_base_consistent<V: AttributeUpdate>(m: CMap2<V>, n: int)
    requires
        m.wf(),
        m.consistent(),
        m.n() <= n,
    ensures
        fn_consistent(base_fn(m), n),
{
    let f = base_fn(m);
    assert forall|i: int, d: int| 0 <= i < 3 && 0 <= d < n implies (#[trigger] f(i, d) as int) < n by {}
    assert forall|d: int| 0 < d < n && #[trigger] f(1, d) != NULL_DART_ID implies f(0, f(1, d) as int) == d by {
        assert(m.img(0, m.img(1, d) as int) == d);
    }
    assert forall|d: int| 0 < d < n && #[trigger] f(0, d) != NULL_DART_ID implies f(1, f(0, d) as int) == d by {
        assert(m.img(1, m.img(0, d) as int) == d);
    }
    assert forall|d: int| 0 < d < n && #[trigger] f(2, d) != NULL_DART_ID implies f(2, f(2, d) as int) == d by {
        assert(m.img(2, m.img(2, d) as int) == d);
    }
}

/// Setting *β<sub>1</sub>(a)* to the null dart when it already is changes nothing.
proof fn lemma_null_write(f: spec_fn(int, int) -> DartIdType, a: DartIdType)
    requires
        f(1, a as int) == NULL_DART_ID,
    ensures
        apply_writes(f, seq![(1int, a as int, NULL_DART_ID)]) == f,
{
    reveal_with_fuel(written_img, 2);
    assert(apply_writes(f, seq![(1int, a as int, NULL_DART_ID)]) =~= f);
}

/// Splitting an edge of a consistent map into segments, with fit new darts (see
/// [`splitn_darts_ok`]), keeps the map consistent.
#[verifier::spinoff_prover]
#[verifier::rlimit(60)]
pub proof fn lemma_splitn_edge_consistent<V: AttributeUpdate>(
    m0: CMap2<V>,
    m1: CMap2<V>,
    d1: DartIdType,
    fh: Seq<DartIdType>,
    sh: Seq<DartIdType>,
)
    requires
        m0.wf(),
        m0.consistent(),
        m1.wf(),
        splitn_darts_ok(m0, d1, fh, sh, m1.n() as int),
        images_after(m1, m0, m0.splitn_writes(d1, fh, sh)),
    ensures
        m1.consistent(),
{
    let n = m1.n() as int;
    let k = fh.len() as int;
    let f0 = base_fn(m0);
    lemma_base_consistent(m0, n);
    let d2 = m0.img(2, d1 as int);
    let o1 = m0.img(1, d1 as int);
    assert(f0(1, d1 as int) == o1);
    assert(f0(2, d1 as int) == d2);
    if o1 != NULL_DART_ID {
        assert(m0.img(0, o1 as int) == d1);
    }
    if d2 != NULL_DART_ID {
        assert(m0.img(2, d2 as int) == d1);
    }
    assert forall|t: int| 0 <= t < k implies #[trigger] fh[t] != d2 && fh[t] != o1
        && f0(0, fh[t] as int) == NULL_DART_ID && f0(1, fh[t] as int) == NULL_DART_ID && f0(2, fh[t] as int) == NULL_DART_ID by {
        assert(fresh_dart(m0, fh[t]));
    }
    // side of d1
    let w1 = cut1_writes(d1, o1);
    lemma_cut1_step(f0, d1, n);
    let f1 = apply_writes(f0, w1);
    let w2 = if d2 == NULL_DART_ID { Seq::<(int, int, DartIdType)>::empty() } else { cut2_writes(d1, d2) };
    if d2 != NULL_DART_ID {
        assert(f1(2, d1 as int) == d2);
        lemma_cut2_step(f1, d1, n);
    } else {
        assert(apply_writes(f1, w2) =~= f1);
    }
    let f2 = apply_writes(f1, w2);
    assert(f2(1, d1 as int) == NULL_DART_ID);
    assert forall|t: int| 0 <= t < k implies 0 < #[trigger] fh[t] < n && fh[t] != d1
        && f2(0, fh[t] as int) == NULL_DART_ID && f2(1, fh[t] as int) == NULL_DART_ID by {
        assert(fh[t] != d2 && fh[t] != o1);
    }
    let w3 = chain1_writes(d1, fh, k);
    lemma_chain1_consistent(f2, d1, fh, k, n);
    let f3 = apply_writes(f2, w3);
    let last1 = chain_prev(d1, fh, k);
    let w4 = link1_to(last1, o1);
    if o1 == NULL_DART_ID {
        lemma_null_write(f3, last1);
    } else {
        assert(!fh.take(k).contains(o1)) by {
            if fh.take(k).contains(o1) {
                let t = choose|t: int| 0 <= t < k && #[trigger] fh.take(k)[t] == o1;
                assert(fh[t] == o1);
            }
        }
        assert(f3(0, o1 as int) == f2(0, o1 as int));
        if k > 0 {
            assert(fh[k - 1] != NULL_DART_ID);
        }
        lemma_link1_step(f3, last1, o1, n);
    }
    let f4 = apply_writes(f3, w4);
    let front = w1 + w2 + w3 + w4;
    assert(front == m0.splitn_front_writes(d1, fh));
    lemma_apply_concat(f0, w1 + w2 + w3, w4);
    lemma_apply_concat(f0, w1 + w2, w3);
    lemma_apply_concat(f0, w1, w2);
    assert(apply_writes(f0, front) == f4);
    if d2 == NULL_DART_ID {
        assert(m0.splitn_writes(d1, fh, sh) == front);
        assert forall|i: int, x: int| 0 <= i < 3 && 0 <= x < n implies #[trigger] m1.img(i, x) == f4(i, x) by {}
    } else {
        // other side
        let o2 = f4(1, d2 as int);
        assert(o2 == written_img(front, 1, d2 as int, m0.img(1, d2 as int)));
        assert(!fh.take(k).contains(d2)) by {
            if fh.take(k).contains(d2) {
                let t = choose|t: int| 0 <= t < k && #[trigger] fh.take(k)[t] == d2;
                assert(fh[t] == d2);
            }
        }
        if k > 0 {
            assert(fh[k - 1] != d2);
        }
        assert(f3(1, d2 as int) == f2(1, d2 as int));
        assert(o2 == m0.img(1, d2 as int));
        if o2 != NULL_DART_ID {
            assert(m0.img(0, o2 as int) == d2);
        }
        assert forall|t: int| 0 <= t < k implies #[trigger] sh[t] != d2 && sh[t] != o1 && sh[t] != o2
            && f0(0, sh[t] as int) == NULL_DART_ID && f0(1, sh[t] as int) == NULL_DART_ID && f0(2, sh[t] as int) == NULL_DART_ID by {
            assert(fresh_dart(m0, sh[t]));
        }
        let w5 = cut1_writes(d2, o2);
        lemma_cut1_step(f4, d2, n);
        let f5 = apply_writes(f4, w5);
        assert(f3(2, d2 as int) == f2(2, d2 as int));
        assert(f5(2, d2 as int) == NULL_DART_ID);
        assert forall|t: int| 0 <= t < k implies 0 < #[trigger] sh[t] < n && sh[t] != d2
            && f5(0, sh[t] as int) == NULL_DART_ID && f5(1, sh[t] as int) == NULL_DART_ID
            && f5(2, sh[t] as int) == NULL_DART_ID by {
            assert(!fh.take(k).contains(sh[t])) by {
                if fh.take(k).contains(sh[t]) {
                    let u = choose|u: int| 0 <= u < k && #[trigger] fh.take(k)[u] == sh[t];
                    assert(fh[u] == sh[t]);
                    assert(fh.contains(sh[t]));
                }
            }
            if k > 0 {
                assert(sh[t] != fh[k - 1]) by {
                    assert(fh.contains(fh[k - 1]));
                }
            }
        }
        assert forall|t: int| 0 <= t < k implies 0 < #[trigger] fh[t] < n && fh[t] != d2 && !sh.contains(fh[t])
            && f5(2, fh[t] as int) == NULL_DART_ID by {
            if sh.contains(fh[t]) {
                let u = choose|u: int| 0 <= u < k && #[trigger] sh[u] == fh[t];
                assert(fh.contains(sh[u]));
            }
            assert(f2(2, fh[t] as int) == NULL_DART_ID);
        }
        let w6 = back_writes(d2, fh, sh, k);
        lemma_back_consistent(f5, d2, fh, sh, k, n);
        let f6 = apply_writes(f5, w6);
        let last2 = chain_prev(d2, sh, k);
        if k > 0 {
            assert(sh[k - 1] != NULL_DART_ID && sh[k - 1] != d1);
        }
        let w7 = link1_to(last2, o2);
        if o2 == NULL_DART_ID {
            lemma_null_write(f6, last2);
        } else {
            assert(!sh.take(k).contains(o2)) by {
                if sh.take(k).contains(o2) {
                    let t = choose|t: int| 0 <= t < k && #[trigger] sh.take(k)[t] == o2;
                    assert(sh[t] == o2);
                }
            }
            assert(f6(0, o2 as int) == f5(0, o2 as int));
            lemma_link1_step(f6, last2, o2, n);
        }
        let f7 = apply_writes(f6, w7);
        let w8 = link2_writes(last2, d1);
        assert(!sh.take(k).contains(d1)) by {
            if sh.take(k).contains(d1) {
                let t = choose|t: int| 0 <= t < k && #[trigger] sh.take(k)[t] == d1;
                assert(sh[t] == d1);
            }
        }
        assert(!fh.skip(0).contains(d1)) by {
            if fh.skip(0).contains(d1) {
                let t = choose|t: int| 0 <= t < k && #[trigger] fh.skip(0)[t] == d1;
                assert(fh[t] == d1);
            }
        }
        assert(fh.skip(fh.len() - k) == fh.skip(0));
        assert(f6(2, d1 as int) == f5(2, d1 as int));
        assert(f7(2, d1 as int) == NULL_DART_ID);
        assert(f7(2, last2 as int) == NULL_DART_ID);
        lemma_link2_step(f7, last2, d1, n);
        let f8 = apply_writes(f7, w8);
        let ws = front + w5 + w6 + w7 + w8;
        assert(ws == m0.splitn_writes(d1, fh, sh));
        lemma_apply_concat(f0, front + w5 + w6 + w7, w8);
        lemma_apply_concat(f0, front + w5 + w6, w7);
        lemma_apply_concat(f0, front + w5, w6);
        lemma_apply_concat(f0, front, w5);
        assert(apply_writes(f0, ws) == f8);
        assert forall|i: int, x: int| 0 <= i < 3 && 0 <= x < n implies #[trigger] m1.img(i, x) == f8(i, x) by {}
    }
    let g = apply_writes(f0, m0.splitn_writes(d1, fh, sh));
    assert(fn_consistent(g, n));
    assert forall|i: int, x: int| 0 <= i < 3 && 0 <= x < n implies #[trigger] m1.img(i, x) == g(i, x) by {}
    assert forall|d: int| 0 < d < m1.n() && #[trigger] m1.img(1, d) != NULL_DART_ID
        implies m1.img(0, m1.img(1, d) as int) == d by {
        assert(g(0, g(1, d) as int) == d);
    }
    assert forall|d: int| 0 < d < m1.n() && #[trigger] m1.img(0, d) != NULL_DART_ID
        implies m1.img(1, m1.img(0, d) as int) == d by {
        assert(g(1, g(0, d) as int) == d);
    }
    assert forall|d: int| 0 < d < m1.n() && #[trigger] m1.img(2, d) != NULL_DART_ID
        implies m1.img(2, m1.img(2, d) as int) == d by {
        assert(g(2, g(2, d) as int) == d);
    }
}

} // verus!
