//! What a 3-unsew right after a 3-sew gives back of the vertex values of [`CMap3`].

use crate::attributes::{AttributeUpdate, VertexAttribute};
use crate::cmap3::laws::lemma_three_link_unlink;
use crate::cmap3::sew_laws::lemma_three_sew_unsew_topo;
use crate::cmap3::sews::max_id;
use crate::cmap3::structure::CMap3;
use crate::orbits::{extends, lemma_orbit_id_extend, steps_below, vertex_id_steps_3d};
use crate::cmap3::links::{count_linked, lemma_unlink3_count, three_unlink_from, unlink3};
use crate::cmap3::three_sews::{is_first_null, is_first_stop, iter_col, merge_chain, merge_pair, split_chain, split_pair};
use crate::ids::{DartIdType, NULL_DART_ID};
use vstd::prelude::*;

verus! {

/// Darts met along the face of `ld` by a 3-sew or 3-unsew, for columns `b0` and `b1` (see
/// `CMap3::l_side`).
pub open spec fn side_l(b0: Seq<DartIdType>, b1: Seq<DartIdType>, ld: DartIdType) -> Seq<DartIdType> {
    let k = choose|k: nat| is_first_stop(b1, ld, k);
    Seq::new(k, |j: int| iter_col(b1, ld, j as nat)) + if iter_col(b1, ld, k) == NULL_DART_ID {
        Seq::new(((choose|m: nat| is_first_null(b0, ld, m)) - 1) as nat, |j: int| iter_col(b0, ld, (j + 1) as nat))
    } else {
        Seq::empty()
    }
}

/// Darts met along the face of `rd`, paired with those of [`side_l`] (see `CMap3::r_side`).
pub open spec fn side_r(b0: Seq<DartIdType>, b1: Seq<DartIdType>, ld: DartIdType, rd: DartIdType) -> Seq<DartIdType> {
    let k = choose|k: nat| is_first_stop(b1, ld, k);
    Seq::new(k, |j: int| iter_col(b0, rd, j as nat)) + if iter_col(b1, ld, k) == NULL_DART_ID {
        Seq::new(((choose|m: nat| is_first_null(b0, ld, m)) - 1) as nat, |j: int| iter_col(b1, rd, (j + 1) as nat))
    } else {
        Seq::empty()
    }
}

proof fn lemma_first_stop_unique(b1: Seq<DartIdType>, ld: DartIdType, k1: nat, k2: nat)
    requires
        is_first_stop(b1, ld, k1),
        is_first_stop(b1, ld, k2),
    ensures
        k1 == k2,
{
    if k1 < k2 {
        assert(iter_col(b1, ld, k1) != ld && iter_col(b1, ld, k1) != NULL_DART_ID);
    } else if k2 < k1 {
        assert(iter_col(b1, ld, k2) != ld && iter_col(b1, ld, k2) != NULL_DART_ID);
    }
}

proof fn lemma_first_null_unique(b0: Seq<DartIdType>, ld: DartIdType, k1: nat, k2: nat)
    requires
        is_first_null(b0, ld, k1),
        is_first_null(b0, ld, k2),
    ensures
        k1 == k2,
{
    if k1 < k2 {
        assert(iter_col(b0, ld, k1) != NULL_DART_ID);
    } else if k2 < k1 {
        assert(iter_col(b0, ld, k2) != NULL_DART_ID);
    }
}

/// A 3-unlink that succeeds unlinks, on each side, the darts of the sides of the faces.
proof fn lemma_unlink_walk(
    b0: Seq<DartIdType>,
    b1: Seq<DartIdType>,
    ld: DartIdType,
    rd: DartIdType,
    b3: Seq<DartIdType>,
    back: bool,
    l: DartIdType,
    r: DartIdType,
    acc_l: Seq<DartIdType>,
    acc_r: Seq<DartIdType>,
    j: nat,
    kf: nat,
)
    requires
        three_unlink_from(b0, b1, ld, rd, b3, back, l, r, acc_l, acc_r) is Ok,
        ld != NULL_DART_ID,
        j >= 1,
        !back ==> {
            &&& l == iter_col(b1, ld, j)
            &&& r == iter_col(b0, rd, j)
            &&& acc_l == Seq::new(j, |i: int| iter_col(b1, ld, i as nat))
            &&& acc_r == Seq::new(j, |i: int| iter_col(b0, rd, i as nat))
            &&& forall|i: nat| 1 <= i < j ==> #[trigger] iter_col(b1, ld, i) != ld && iter_col(b1, ld, i) != NULL_DART_ID
        },
        back ==> {
            &&& is_first_stop(b1, ld, kf)
            &&& iter_col(b1, ld, kf) == NULL_DART_ID
            &&& l == iter_col(b0, ld, j)
            &&& r == iter_col(b1, rd, j)
            &&& acc_l == Seq::new(kf, |i: int| iter_col(b1, ld, i as nat))
                + Seq::new((j - 1) as nat, |i: int| iter_col(b0, ld, (i + 1) as nat))
            &&& acc_r == Seq::new(kf, |i: int| iter_col(b0, rd, i as nat))
                + Seq::new((j - 1) as nat, |i: int| iter_col(b1, rd, (i + 1) as nat))
            &&& forall|i: nat| 1 <= i < j ==> #[trigger] iter_col(b0, ld, i) != NULL_DART_ID
        },
    ensures
        exists|k: nat| is_first_stop(b1, ld, k),
        three_unlink_from(b0, b1, ld, rd, b3, back, l, r, acc_l, acc_r)->Ok_0.1 == side_l(b0, b1, ld),
        three_unlink_from(b0, b1, ld, rd, b3, back, l, r, acc_l, acc_r)->Ok_0.2 == side_r(b0, b1, ld, rd),
    decreases count_linked(b3), if back { 0int } else { 1int },
{
    let res = three_unlink_from(b0, b1, ld, rd, b3, back, l, r, acc_l, acc_r);
    let k0 = choose|k: nat| is_first_stop(b1, ld, k);
    if !back && l == ld {
        assert(is_first_stop(b1, ld, j));
        lemma_first_stop_unique(b1, ld, j, k0);
        assert(res->Ok_0.1 =~= side_l(b0, b1, ld));
        assert(res->Ok_0.2 =~= side_r(b0, b1, ld, rd));
    } else if !back && l == NULL_DART_ID {
        assert(r == NULL_DART_ID);
        assert(is_first_stop(b1, ld, j));
        let nl = b0[ld as int];
        let nr = b1[rd as int];
        assert((ld as int) < b0.len() && (rd as int) < b1.len());
        assert(iter_col(b0, ld, 0) == ld);
        assert(iter_col(b1, rd, 0) == rd);
        assert(nl == iter_col(b0, ld, 1));
        assert(nr == iter_col(b1, rd, 1));
        assert(acc_l =~= Seq::new(j, |i: int| iter_col(b1, ld, i as nat))
            + Seq::new((1 - 1) as nat, |i: int| iter_col(b0, ld, (i + 1) as nat)));
        assert(acc_r =~= Seq::new(j, |i: int| iter_col(b0, rd, i as nat))
            + Seq::new((1 - 1) as nat, |i: int| iter_col(b1, rd, (i + 1) as nat)));
        lemma_unlink_walk(b0, b1, ld, rd, b3, true, nl, nr, acc_l, acc_r, 1, j);
    } else if back && l == NULL_DART_ID {
        assert(is_first_null(b0, ld, j));
        lemma_first_stop_unique(b1, ld, kf, k0);
        let m0 = choose|m: nat| is_first_null(b0, ld, m);
        lemma_first_null_unique(b0, ld, j, m0);
        assert(res->Ok_0.1 =~= side_l(b0, b1, ld));
        assert(res->Ok_0.2 =~= side_r(b0, b1, ld, rd));
    } else {
        let nb3 = unlink3(b3, l);
        lemma_unlink3_count(b3, l);
        if back {
            let nl = b0[l as int];
            let nr = b1[r as int];
            assert(nl == iter_col(b0, ld, j + 1));
            assert(nr == iter_col(b1, rd, j + 1));
            assert(acc_l.push(l) =~= Seq::new(kf, |i: int| iter_col(b1, ld, i as nat))
                + Seq::new(((j + 1) - 1) as nat, |i: int| iter_col(b0, ld, (i + 1) as nat)));
            assert(acc_r.push(r) =~= Seq::new(kf, |i: int| iter_col(b0, rd, i as nat))
                + Seq::new(((j + 1) - 1) as nat, |i: int| iter_col(b1, rd, (i + 1) as nat)));
            lemma_unlink_walk(b0, b1, ld, rd, nb3, true, nl, nr, acc_l.push(l), acc_r.push(r), j + 1, kf);
        } else {
            let nl = b1[l as int];
            let nr = b0[r as int];
            assert(nl == iter_col(b1, ld, j + 1));
            assert(nr == iter_col(b0, rd, j + 1));
            assert(acc_l.push(l) =~= Seq::new(j + 1, |i: int| iter_col(b1, ld, i as nat)));
            assert(acc_r.push(r) =~= Seq::new(j + 1, |i: int| iter_col(b0, rd, i as nat)));
            lemma_unlink_walk(b0, b1, ld, rd, nb3, false, nl, nr, acc_l.push(l), acc_r.push(r), j + 1, kf);
        }
    }
}

/// Some pair of `ps` with distinct identifiers names slot `x`.
pub open spec fn pair_touches(ps: Seq<(u32, u32)>, x: int) -> bool {
    exists|k: int| 0 <= k < ps.len() && (#[trigger] ps[k]).0 != ps[k].1 && (ps[k].0 == x || ps[k].1 == x)
}

/// Some of the first `k` pairs of `ps`, with distinct identifiers, names slot `x`.
pub open spec fn touched_before(ps: Seq<(u32, u32)>, x: int, k: int) -> bool {
    exists|t: int| 0 <= t < k && (#[trigger] ps[t]).0 != ps[t].1 && (ps[t].0 == x || ps[t].1 == x)
}

/// Merges leave the slots that no pair names as they were.
proof fn lemma_merge_chain_frame<A: AttributeUpdate>(c: Seq<Seq<Option<A>>>, ps: Seq<(u32, u32)>, k: int, x: int)
    requires
        0 <= k <= ps.len(),
        c.len() == ps.len() + 1,
        forall|t: int| 0 <= t < ps.len() ==> #[trigger] merge_pair(c[t], c[t + 1], ps[t].0, ps[t].1),
        0 <= x < c[0].len(),
        !pair_touches(ps, x),
    ensures
        c[k].len() == c[0].len(),
        c[k][x] == c[0][x],
    decreases k,
{
    if k > 0 {
        lemma_merge_chain_frame(c, ps, k - 1, x);
        let t = k - 1;
        assert(merge_pair(c[t], c[t + 1], ps[t].0, ps[t].1));
        if ps[t].0 != ps[t].1 && (ps[t].0 == x || ps[t].1 == x) {
            assert(pair_touches(ps, x));
        }
    }
}

/// Splits leave the slots that no pair names as they were, never empty a slot, and fill both
/// slots of each pair of distinct identifiers.
proof fn lemma_split_chain_fill<A: AttributeUpdate>(c: Seq<Seq<Option<A>>>, ps: Seq<(u32, u32)>, k: int, x: int)
    requires
        0 <= k <= ps.len(),
        c.len() == ps.len() + 1,
        forall|t: int| 0 <= t < ps.len() ==> #[trigger] split_pair(c[t], c[t + 1], ps[t].0, ps[t].1),
        0 <= x < c[0].len(),
    ensures
        c[k].len() == c[0].len(),
        !pair_touches(ps, x) ==> c[k][x] == c[0][x],
        (touched_before(ps, x, k) || c[0][x] is Some) ==> c[k][x] is Some,
    decreases k,
{
    if k > 0 {
        lemma_split_chain_fill(c, ps, k - 1, x);
        let t = k - 1;
        assert(split_pair(c[t], c[t + 1], ps[t].0, ps[t].1));
        let touches_t = ps[t].0 != ps[t].1 && (ps[t].0 == x || ps[t].1 == x);
        if touches_t {
            assert(pair_touches(ps, x));
        }
        if touched_before(ps, x, k) && !touches_t {
            let w = choose|w: int| 0 <= w < k && (#[trigger] ps[w]).0 != ps[w].1 && (ps[w].0 == x || ps[w].1 == x);
            assert(w < t);
            assert(touched_before(ps, x, k - 1));
        }
    }
}

/// A chain of merges followed by the chain of splits of the same pairs gives back which slots
/// hold a value, when both slots of each pair of distinct identifiers held one, and leaves
/// the slots that no pair names as they were.
proof fn lemma_chains_refill<A: AttributeUpdate>(s0: Seq<Option<A>>, s1: Seq<Option<A>>, s2: Seq<Option<A>>, ps: Seq<(u32, u32)>)
    requires
        merge_chain(s0, s1, ps),
        split_chain(s1, s2, ps),
        forall|k: int| 0 <= k < ps.len() && (#[trigger] ps[k]).0 != ps[k].1
            ==> s0[ps[k].0 as int] is Some && s0[ps[k].1 as int] is Some,
    ensures
        s2.len() == s0.len(),
        forall|x: int| 0 <= x < s0.len() ==> (#[trigger] s2[x] is Some <==> s0[x] is Some),
        forall|x: int| 0 <= x < s0.len() && !pair_touches(ps, x) ==> #[trigger] s2[x] == s0[x],
{
    let c = choose|c: Seq<Seq<Option<A>>>| {
        &&& c.len() == ps.len() + 1
        &&& c[0] == s0
        &&& c[ps.len() as int] == s1
        &&& forall|k: int| 0 <= k < ps.len() ==> #[trigger] merge_pair(c[k], c[k + 1], ps[k].0, ps[k].1)
    };
    let e = choose|e: Seq<Seq<Option<A>>>| {
        &&& e.len() == ps.len() + 1
        &&& e[0] == s1
        &&& e[ps.len() as int] == s2
        &&& forall|k: int| 0 <= k < ps.len() ==> #[trigger] split_pair(e[k], e[k + 1], ps[k].0, ps[k].1)
    };
    lemma_merge_chain_len(c, ps, ps.len() as int);
    lemma_split_chain_len(e, ps, ps.len() as int);
    assert forall|x: int| 0 <= x < s0.len() implies (#[trigger] s2[x] is Some <==> s0[x] is Some)
        && (!pair_touches(ps, x) ==> s2[x] == s0[x]) by {
        lemma_split_chain_fill(e, ps, ps.len() as int, x);
        if pair_touches(ps, x) {
            let k = choose|k: int| 0 <= k < ps.len() && (#[trigger] ps[k]).0 != ps[k].1 && (ps[k].0 == x || ps[k].1 == x);
            assert(touched_before(ps, x, ps.len() as int));
            assert(s0[ps[k].0 as int] is Some && s0[ps[k].1 as int] is Some);
            assert(s0[x] is Some);
        } else {
            lemma_merge_chain_frame(c, ps, ps.len() as int, x);
        }
    }
}

/// Merges keep the number of slots.
proof fn lemma_merge_chain_len<A: AttributeUpdate>(c: Seq<Seq<Option<A>>>, ps: Seq<(u32, u32)>, k: int)
    requires
        0 <= k <= ps.len(),
        c.len() == ps.len() + 1,
        forall|t: int| 0 <= t < ps.len() ==> #[trigger] merge_pair(c[t], c[t + 1], ps[t].0, ps[t].1),
    ensures
        c[k].len() == c[0].len(),
    decreases k,
{
    if k > 0 {
        lemma_merge_chain_len(c, ps, k - 1);
        let t = k - 1;
        assert(merge_pair(c[t], c[t + 1], ps[t].0, ps[t].1));
    }
}

/// Splits keep the number of slots.
proof fn lemma_split_chain_len<A: AttributeUpdate>(c: Seq<Seq<Option<A>>>, ps: Seq<(u32, u32)>, k: int)
    requires
        0 <= k <= ps.len(),
        c.len() == ps.len() + 1,
        forall|t: int| 0 <= t < ps.len() ==> #[trigger] split_pair(c[t], c[t + 1], ps[t].0, ps[t].1),
    ensures
        c[k].len() == c[0].len(),
    decreases k,
{
    if k > 0 {
        lemma_split_chain_len(c, ps, k - 1);
        let t = k - 1;
        assert(split_pair(c[t], c[t + 1], ps[t].0, ps[t].1));
    }
}

/// The walk along a column whose entries are its indices stays among its indices.
proof fn lemma_iter_below(b: Seq<DartIdType>, d: DartIdType, k: nat)
    requires
        (d as int) < b.len(),
        forall|x: int| 0 <= x < b.len() ==> (#[trigger] b[x] as int) < b.len(),
    ensures
        (iter_col(b, d, k) as int) < b.len(),
    decreases k,
{
    if k > 0 {
        lemma_iter_below(b, d, (k - 1) as nat);
    }
}

/// The darts of the sides of the faces of `ld` and `rd` are darts of the map.
proof fn lemma_sides_below<V: AttributeUpdate>(m: CMap3<V>, ld: DartIdType, rd: DartIdType)
    requires
        m.wf(),
        (ld as int) < m.n(),
        (rd as int) < m.n(),
    ensures
        forall|j: int| 0 <= j < m.l_side(ld).len() ==> (#[trigger] m.l_side(ld)[j] as int) < m.n(),
        forall|j: int| 0 <= j < m.r_side(ld, rd).len() ==> (#[trigger] m.r_side(ld, rd)[j] as int) < m.n(),
        m.l_side(ld).len() == m.r_side(ld, rd).len(),
{
    let b0 = m.col(0);
    let b1 = m.col(1);
    assert forall|x: int| 0 <= x < b0.len() implies (#[trigger] b0[x] as int) < b0.len() by {
        assert(b0[x] == m.img(0, x));
    }
    assert forall|x: int| 0 <= x < b1.len() implies (#[trigger] b1[x] as int) < b1.len() by {
        assert(b1[x] == m.img(1, x));
    }
    let k = m.walk_len(ld);
    let ls = m.l_side(ld);
    let rs = m.r_side(ld, rd);
    assert forall|j: int| 0 <= j < ls.len() implies (#[trigger] ls[j] as int) < m.n() by {
        if j < k {
            lemma_iter_below(b1, ld, j as nat);
        } else {
            lemma_iter_below(b0, ld, (j - k + 1) as nat);
        }
    }
    assert forall|j: int| 0 <= j < rs.len() implies (#[trigger] rs[j] as int) < m.n() by {
        if j < k {
            lemma_iter_below(b0, rd, j as nat);
        } else {
            lemma_iter_below(b1, rd, (j - k + 1) as nat);
        }
    }
}

/// Maps with the same images and the same vertex identifiers give the same vertex pairs along
/// two sides of faces.
proof fn lemma_side_pairs_same<V: AttributeUpdate>(a: CMap3<V>, b: CMap3<V>, ls: Seq<DartIdType>, rs: Seq<DartIdType>)
    requires
        a.wf(),
        b.n() == a.n(),
        forall|i: int, d: int| 0 <= i < 4 && 0 <= d < a.n() ==> #[trigger] b.img(i, d) == a.img(i, d),
        forall|x: int| 0 <= x < a.n() ==> #[trigger] b.vid(x) == a.vid(x),
        ls.len() <= rs.len(),
        forall|j: int| 0 <= j < ls.len() ==> (#[trigger] ls[j] as int) < a.n(),
        forall|j: int| 0 <= j < ls.len() ==> (#[trigger] rs[j] as int) < a.n(),
    ensures
        b.side_vertex_pairs(ls, rs) == a.side_vertex_pairs(ls, rs),
    decreases ls.len(),
{
    if ls.len() > 0 {
        let k = ls.len() - 1;
        lemma_side_pairs_same(a, b, ls.drop_last(), rs);
        let l = ls[k];
        let r = rs[k];
        let ml = max_id(a.img(1, l as int), a.img(2, l as int));
        let mr = max_id(a.img(1, r as int), a.img(2, r as int));
        assert(b.img(1, l as int) == a.img(1, l as int) && b.img(2, l as int) == a.img(2, l as int));
        assert(b.img(1, r as int) == a.img(1, r as int) && b.img(2, r as int) == a.img(2, r as int));
        assert(b.img(0, l as int) == a.img(0, l as int));
        assert((ml as int) < a.n() && (mr as int) < a.n());
        assert(b.vid(ml as int) == a.vid(ml as int));
        assert(b.vid(mr as int) == a.vid(mr as int));
        assert(b.vid(l as int) == a.vid(l as int));
        assert(b.vid(r as int) == a.vid(r as int));
    }
}

/// Undoing a 3-sew, on the vertex values: after a successful 3-sew of `ld` and `rd` and a
/// successful 3-unsew of `ld`, the slots that hold a value are those that held one before,
/// when every vertex of a pair merged along the faces (see `CMap3::side_vertex_pairs`) held
/// one; the vertices that no such pair names keep their values.
pub proof fn lemma_three_sew_unsew_vertices<V: VertexAttribute>(
    m0: CMap3<V>,
    m1: CMap3<V>,
    m2: CMap3<V>,
    ld: DartIdType,
    rd: DartIdType,
)
    requires
        m0.wf(),
        m1.wf(),
        ld != NULL_DART_ID,
        rd != NULL_DART_ID,
        (ld as int) < m0.n(),
        (rd as int) < m0.n(),
        CMap3::three_sew_post(&m0, &m1, ld, rd, Ok(())),
        CMap3::three_unsew_post(&m1, &m2, ld, Ok(())),
        ({
            let vp = m0.side_vertex_pairs(m0.l_side(ld), m0.r_side(ld, rd));
            forall|k: int| 0 <= k < vp.len() && (#[trigger] vp[k]).0 != vp[k].1
                ==> m0.vertex(vp[k].0 as int) is Some && m0.vertex(vp[k].1 as int) is Some
        }),
    ensures
        forall|id: int| 0 <= id < m0.n() ==> (#[trigger] m2.vertex(id) is Some <==> m0.vertex(id) is Some),
        forall|id: int| 0 <= id < m0.n()
            && !pair_touches(m0.side_vertex_pairs(m0.l_side(ld), m0.r_side(ld, rd)), id)
            ==> #[trigger] m2.vertex(id) == m0.vertex(id),
{
    let vp = m0.side_vertex_pairs(m0.l_side(ld), m0.r_side(ld, rd));
    lemma_three_sew_unsew_topo(m0, m1, m2, ld, rd);
    lemma_three_link_unlink(m0, m1, ld, rd);
    let res = m1.three_unlink_outcome(ld)->Ok_0;
    let b0 = m1.col(0);
    let b1 = m1.col(1);
    assert(b0 =~= m0.col(0));
    assert(b1 =~= m0.col(1));
    assert(m1.col(3)[ld as int] == rd);
    assert(iter_col(b1, ld, 0) == ld);
    assert(iter_col(b0, rd, 0) == rd);
    assert(m1.img(1, ld as int) == iter_col(b1, ld, 1));
    assert(m1.img(0, rd as int) == iter_col(b0, rd, 1));
    assert(seq![ld] =~= Seq::new(1, |i: int| iter_col(b1, ld, i as nat)));
    assert(seq![rd] =~= Seq::new(1, |i: int| iter_col(b0, rd, i as nat)));
    lemma_unlink_walk(b0, b1, ld, rd, unlink3(m1.col(3), ld), false, m1.img(1, ld as int), m1.img(0, rd as int),
        seq![ld], seq![rd], 1, 0);
    assert(res.1 =~= m0.l_side(ld));
    assert(res.2 =~= m0.r_side(ld, rd));
    // the final map has the images, so the vertex identifiers, of the first
    let steps = vertex_id_steps_3d();
    assert(steps_below(steps, 4));
    assert(extends(m2.betas, m0.betas)) by {
        assert forall|i: int, x: int| 0 <= i < 4 && 0 <= x < m0.betas.n() implies #[trigger] m2.betas.img(i, x) == m0.betas.img(i, x) by {
            assert(m2.img(i, x) == m0.img(i, x));
        }
    }
    assert forall|x: int| 0 <= x < m0.n() implies #[trigger] m2.vid(x) == m0.vid(x) by {
        lemma_orbit_id_extend(m0.betas, m2.betas, steps, x as DartIdType);
    }
    lemma_sides_below(m0, ld, rd);
    lemma_side_pairs_same(m0, m2, m0.l_side(ld), m0.r_side(ld, rd));
    assert(m2.side_vertex_pairs(res.1, res.2) == vp);
    let s0 = m0.vertices.slots();
    let s1 = m1.vertices.slots();
    let s2 = m2.vertices.slots();
    assert(merge_chain(s0, s1, vp));
    assert(split_chain(s1, s2, vp));
    assert forall|k: int| 0 <= k < vp.len() && (#[trigger] vp[k]).0 != vp[k].1
        implies s0[vp[k].0 as int] is Some && s0[vp[k].1 as int] is Some by {
        assert(m0.vertex(vp[k].0 as int) is Some && m0.vertex(vp[k].1 as int) is Some);
    }
    lemma_chains_refill(s0, s1, s2, vp);
    assert forall|id: int| 0 <= id < m0.n() implies (#[trigger] m2.vertex(id) is Some <==> m0.vertex(id) is Some) by {
        assert(s2[id] is Some <==> s0[id] is Some);
    }
    assert forall|id: int| 0 <= id < m0.n() && !pair_touches(vp, id) implies #[trigger] m2.vertex(id) == m0.vertex(id) by {
        assert(s2[id] == s0[id]);
    }
}

} // verus!
