//! 3-sew and 3-unsew operations of [`CMap3`]: face-to-face links that also merge or split the
//! vertex values along the faces.
//!
//! A failed operation leaves the map as it was.

use crate::attributes::{merge_rel, orientation_decides, split_rel, AttributeError, AttributeUpdate, VertexAttribute};
use crate::cmap2::sews::{min_id, min_u32};
use crate::cmap3::sews::{max_id, max_u32};
use crate::cmap3::structure::CMap3;
use crate::components::lemma_same_rows;
use crate::error::{LinkError, SewError};
use crate::ids::{DartIdType, VertexIdType, NULL_DART_ID};
use vstd::prelude::*;

verus! {

/// The dart reached from `d` by applying the function of column `b` `k` times; the null dart
/// outside the column.
pub open spec fn iter_col(b: Seq<DartIdType>, d: DartIdType, k: nat) -> DartIdType
    decreases k,
{
    if k == 0 {
        d
    } else {
        let p = iter_col(b, d, (k - 1) as nat);
        if (p as int) < b.len() { b[p as int] } else { NULL_DART_ID }
    }
}

/// `k` is where the walk along column `b1` from `ld` first comes back to `ld` or reaches the
/// null dart.
pub open spec fn is_first_stop(b1: Seq<DartIdType>, ld: DartIdType, k: nat) -> bool {
    &&& 1 <= k
    &&& (iter_col(b1, ld, k) == ld || iter_col(b1, ld, k) == NULL_DART_ID)
    &&& forall|j: nat| 1 <= j < k ==> #[trigger] iter_col(b1, ld, j) != ld && iter_col(b1, ld, j) != NULL_DART_ID
}

/// `k` is where the walk along column `b0` from `ld` first reaches the null dart.
pub open spec fn is_first_null(b0: Seq<DartIdType>, ld: DartIdType, k: nat) -> bool {
    &&& 1 <= k
    &&& iter_col(b0, ld, k) == NULL_DART_ID
    &&& forall|j: nat| 1 <= j < k ==> #[trigger] iter_col(b0, ld, j) != NULL_DART_ID
}

/// Merge of slots `l` and `r` into the smaller one, when they differ and neither is null.
pub open spec fn merge_pair<A: AttributeUpdate>(a: Seq<Option<A>>, b: Seq<Option<A>>, l: u32, r: u32) -> bool {
    if l != r && l != NULL_DART_ID && r != NULL_DART_ID {
        merge_rel(a, b, min_id(l, r) as int, l as int, r as int)
    } else {
        b == a
    }
}

/// Split of the smaller of slots `l` and `r` into both, when they differ.
pub open spec fn split_pair<A: AttributeUpdate>(a: Seq<Option<A>>, b: Seq<Option<A>>, l: u32, r: u32) -> bool {
    if l != r { split_rel(a, b, l as int, r as int, min_id(l, r) as int) } else { b == a }
}

/// Which slots hold a value.
pub open spec fn filled<A>(s: Seq<Option<A>>) -> Seq<bool> {
    s.map_values(|x: Option<A>| x is Some)
}

/// Which slots hold a value after the merges of the pairs `ps[..k]`, starting from `has`: a
/// merge of two distinct non-null slots leaves a value in the smaller one only.
pub open spec fn merged_fill(has: Seq<bool>, ps: Seq<(u32, u32)>, k: int) -> Seq<bool>
    decreases k,
{
    if k <= 0 {
        has
    } else {
        let m = merged_fill(has, ps, k - 1);
        let (l, r) = ps[k - 1];
        if l != r && l != NULL_DART_ID && r != NULL_DART_ID {
            m.update(l as int, false).update(r as int, false).update(min_id(l, r) as int, true)
        } else {
            m
        }
    }
}

/// Whether the `k`-th merge of the pairs of `ps` finds a value in one of its two slots.
pub open spec fn merge_finds_data(has: Seq<bool>, ps: Seq<(u32, u32)>, k: int) -> bool {
    let m = merged_fill(has, ps, k);
    let (l, r) = ps[k];
    (l != r && l != NULL_DART_ID && r != NULL_DART_ID) ==> (m[l as int] || m[r as int])
}

/// Which slots hold a value after the splits of the pairs `ps[..k]`, starting from `has`: a
/// split of two distinct slots leaves a value in both.
pub open spec fn split_fill(has: Seq<bool>, ps: Seq<(u32, u32)>, k: int) -> Seq<bool>
    decreases k,
{
    if k <= 0 {
        has
    } else {
        let m = split_fill(has, ps, k - 1);
        let (l, r) = ps[k - 1];
        if l != r { m.update(l as int, true).update(r as int, true) } else { m }
    }
}

/// Whether the `k`-th split of the pairs of `ps` finds a value in the smaller of its slots.
pub open spec fn split_finds_data(has: Seq<bool>, ps: Seq<(u32, u32)>, k: int) -> bool {
    let (l, r) = ps[k];
    l != r ==> split_fill(has, ps, k)[min_id(l, r) as int]
}

/// `b` is `a` after the merges of the pairs of `ps`, in order.
pub open spec fn merge_chain<A: AttributeUpdate>(a: Seq<Option<A>>, b: Seq<Option<A>>, ps: Seq<(u32, u32)>) -> bool {
    exists|c: Seq<Seq<Option<A>>>| {
        &&& c.len() == ps.len() + 1
        &&& c[0] == a
        &&& c[ps.len() as int] == b
        &&& forall|k: int| 0 <= k < ps.len() ==> #[trigger] merge_pair(c[k], c[k + 1], ps[k].0, ps[k].1)
    }
}

/// `b` is `a` after the splits of the pairs of `ps`, in order.
pub open spec fn split_chain<A: AttributeUpdate>(a: Seq<Option<A>>, b: Seq<Option<A>>, ps: Seq<(u32, u32)>) -> bool {
    exists|c: Seq<Seq<Option<A>>>| {
        &&& c.len() == ps.len() + 1
        &&& c[0] == a
        &&& c[ps.len() as int] == b
        &&& forall|k: int| 0 <= k < ps.len() ==> #[trigger] split_pair(c[k], c[k + 1], ps[k].0, ps[k].1)
    }
}

impl<V: AttributeUpdate> CMap3<V> {
    /// The walk along the face of `ld` ends: with *β<sub>1</sub>* from `ld`, it comes back to
    /// `ld` or reaches the null dart; in the second case, with *β<sub>0</sub>* from `ld`, it
    /// reaches the null dart.
    pub open spec fn face_walk_ends(&self, ld: DartIdType) -> bool {
        exists|k: nat| #[trigger] is_first_stop(self.col(1), ld, k) && (iter_col(self.col(1), ld, k) == NULL_DART_ID
            ==> exists|m: nat| #[trigger] is_first_null(self.col(0), ld, m))
    }

    /// Number of darts met with *β<sub>1</sub>* from `ld` (`ld` included) before the walk comes
    /// back or stops.
    pub open spec fn walk_len(&self, ld: DartIdType) -> nat {
        choose|k: nat| is_first_stop(self.col(1), ld, k)
    }

    /// Whether the face of `ld` is open: the *β<sub>1</sub>* walk reaches the null dart.
    pub open spec fn walk_open(&self, ld: DartIdType) -> bool {
        iter_col(self.col(1), ld, self.walk_len(ld)) == NULL_DART_ID
    }

    /// One more than the number of darts met with *β<sub>0</sub>* from `ld`, `ld` excluded.
    pub open spec fn back_len(&self, ld: DartIdType) -> nat {
        choose|m: nat| is_first_null(self.col(0), ld, m)
    }

    /// Darts of the face of `ld`, in the order of a 3-sew: with *β<sub>1</sub>* from `ld`,
    /// then, for an open face, with *β<sub>0</sub>* from *β<sub>0</sub>(ld)*.
    pub open spec fn l_side(&self, ld: DartIdType) -> Seq<DartIdType> {
        Seq::new(self.walk_len(ld), |j: int| iter_col(self.col(1), ld, j as nat)) + if self.walk_open(ld) {
            Seq::new((self.back_len(ld) - 1) as nat, |j: int| iter_col(self.col(0), ld, (j + 1) as nat))
        } else {
            Seq::empty()
        }
    }

    /// Darts of the face of `rd` paired with those of [`Self::l_side`]: with
    /// *β<sub>0</sub>* from `rd`, then, for an open face, with *β<sub>1</sub>* from
    /// *β<sub>1</sub>(rd)*.
    pub open spec fn r_side(&self, ld: DartIdType, rd: DartIdType) -> Seq<DartIdType> {
        Seq::new(self.walk_len(ld), |j: int| iter_col(self.col(0), rd, j as nat)) + if self.walk_open(ld) {
            Seq::new((self.back_len(ld) - 1) as nat, |j: int| iter_col(self.col(1), rd, (j + 1) as nat))
        } else {
            Seq::empty()
        }
    }

    /// The faces of `ld` and `rd` do not have the same structure: the walk on the side of `rd`
    /// reaches the null dart before the walk on the side of `ld` ends, or, for an open face,
    /// does not reach it when the other does.
    pub open spec fn sides_asym(&self, ld: DartIdType, rd: DartIdType) -> bool {
        let k = self.walk_len(ld);
        ||| exists|j: nat| 1 <= j < k && #[trigger] iter_col(self.col(0), rd, j) == NULL_DART_ID
        ||| self.walk_open(ld) && iter_col(self.col(0), rd, k) != NULL_DART_ID
        ||| self.walk_open(ld) && exists|j: nat| 1 <= j < self.back_len(ld) && #[trigger] iter_col(self.col(1), rd, j) == NULL_DART_ID
    }

    /// Walk the faces of `ld` and `rd` side by side (see [`Self::l_side`] and
    /// [`Self::r_side`]); `None` when they do not have the same structure.
    fn face_sides(&self, ld: DartIdType, rd: DartIdType) -> (r: Option<(Vec<DartIdType>, Vec<DartIdType>, bool)>)
        requires
            self.wf(),
            (ld as int) < self.n(),
            (rd as int) < self.n(),
            self.face_walk_ends(ld),
        ensures
            r is None <==> self.sides_asym(ld, rd),
            r is Some ==> r->Some_0.0@ == self.l_side(ld) && r->Some_0.1@ == self.r_side(ld, rd)
                && r->Some_0.2 == self.walk_open(ld),
            r is Some ==> r->Some_0.0@.len() == r->Some_0.1@.len() && 1 <= r->Some_0.0@.len(),
            r is Some ==> forall|j: int| 0 <= j < r->Some_0.0@.len() ==> (#[trigger] r->Some_0.0@[j] as int) < self.n(),
            r is Some ==> forall|j: int| 0 <= j < r->Some_0.1@.len() ==> (#[trigger] r->Some_0.1@[j] as int) < self.n(),
    {
        let ghost c0 = self.col(0);
        let ghost c1 = self.col(1);
        let ghost k = self.walk_len(ld);
        let ghost kk = choose|k: nat| #[trigger] is_first_stop(self.col(1), ld, k) && (iter_col(self.col(1), ld, k) == NULL_DART_ID
            ==> exists|m: nat| #[trigger] is_first_null(self.col(0), ld, m));
        assert(is_first_stop(c1, ld, kk));
        assert(is_first_stop(c1, ld, k));
        assert(k == kk) by {
            if k < kk {
                assert(iter_col(c1, ld, k) != ld && iter_col(c1, ld, k) != NULL_DART_ID);
            }
            if kk < k {
                assert(iter_col(c1, ld, kk) != ld && iter_col(c1, ld, kk) != NULL_DART_ID);
            }
        }
        let mut ls: Vec<DartIdType> = Vec::new();
        let mut rs: Vec<DartIdType> = Vec::new();
        ls.push(ld);
        rs.push(rd);
        let mut l = self.betas.get(1, ld);
        let mut r = self.betas.get(0, rd);
        let ghost mut j: nat = 1;
        assert(iter_col(c1, ld, 0) == ld);
        assert(iter_col(c0, rd, 0) == rd);
        assert(iter_col(c1, ld, 1) == l);
        assert(iter_col(c0, rd, 1) == r);
        assert(ls@ =~= Seq::new(j, |i: int| iter_col(c1, ld, i as nat)));
        assert(rs@ =~= Seq::new(j, |i: int| iter_col(c0, rd, i as nat)));
        while l != ld && l != NULL_DART_ID
            invariant
                self.wf(),
                c0 == self.col(0),
                c1 == self.col(1),
                (ld as int) < self.n(),
                (rd as int) < self.n(),
                is_first_stop(c1, ld, k),
                1 <= j <= k,
                l == iter_col(c1, ld, j),
                r == iter_col(c0, rd, j),
                (l as int) < self.n(),
                (r as int) < self.n(),
                ls@ == Seq::new(j, |i: int| iter_col(c1, ld, i as nat)),
                rs@ == Seq::new(j, |i: int| iter_col(c0, rd, i as nat)),
                forall|i: int| 0 <= i < ls@.len() ==> (#[trigger] ls@[i] as int) < self.n(),
                forall|i: int| 0 <= i < rs@.len() ==> (#[trigger] rs@[i] as int) < self.n(),
                forall|i: nat| 1 <= i < j ==> #[trigger] iter_col(c0, rd, i) != NULL_DART_ID,
            decreases k - j,
        {
            assert(j != k);
            if r == NULL_DART_ID {
                return None;
            }
            ls.push(l);
            rs.push(r);
            let nl = self.betas.get(1, l);
            let nr = self.betas.get(0, r);
            l = nl;
            r = nr;
            proof {
                j = j + 1;
                assert(iter_col(c1, ld, j) == l);
                assert(iter_col(c0, rd, j) == r);
                assert(ls@ =~= Seq::new(j, |i: int| iter_col(c1, ld, i as nat)));
                assert(rs@ =~= Seq::new(j, |i: int| iter_col(c0, rd, i as nat)));
            }
        }
        assert(j == k) by {
            if j < k {
                assert(iter_col(c1, ld, j) != ld && iter_col(c1, ld, j) != NULL_DART_ID);
            }
        }
        if l == NULL_DART_ID {
            assert(self.walk_open(ld));
            if r != NULL_DART_ID {
                return None;
            }
            let ghost m = self.back_len(ld);
            let ghost mm = choose|m: nat| #[trigger] is_first_null(self.col(0), ld, m);
            assert(is_first_null(c0, ld, mm));
            assert(is_first_null(c0, ld, m));
            let ghost first_l = ls@;
            let ghost first_r = rs@;
            let mut l2 = self.betas.get(0, ld);
            let mut r2 = self.betas.get(1, rd);
            let ghost mut j2: nat = 1;
            assert(iter_col(c0, ld, 0) == ld);
            assert(iter_col(c1, rd, 0) == rd);
            assert(iter_col(c0, ld, 1) == l2);
            assert(iter_col(c1, rd, 1) == r2);
            assert(ls@ =~= first_l + Seq::new((j2 - 1) as nat, |i: int| iter_col(c0, ld, (i + 1) as nat)));
            assert(rs@ =~= first_r + Seq::new((j2 - 1) as nat, |i: int| iter_col(c1, rd, (i + 1) as nat)));
            while l2 != NULL_DART_ID
                invariant
                    self.wf(),
                    c0 == self.col(0),
                    c1 == self.col(1),
                    (ld as int) < self.n(),
                    (rd as int) < self.n(),
                    is_first_null(c0, ld, m),
                    m == self.back_len(ld),
                    self.walk_open(ld),
                    1 <= j2 <= m,
                    l2 == iter_col(c0, ld, j2),
                    r2 == iter_col(c1, rd, j2),
                    (l2 as int) < self.n(),
                    (r2 as int) < self.n(),
                    ls@ == first_l + Seq::new((j2 - 1) as nat, |i: int| iter_col(c0, ld, (i + 1) as nat)),
                    rs@ == first_r + Seq::new((j2 - 1) as nat, |i: int| iter_col(c1, rd, (i + 1) as nat)),
                    first_l.len() == first_r.len(),
                    1 <= first_l.len(),
                    forall|i: int| 0 <= i < ls@.len() ==> (#[trigger] ls@[i] as int) < self.n(),
                    forall|i: int| 0 <= i < rs@.len() ==> (#[trigger] rs@[i] as int) < self.n(),
                    forall|i: nat| 1 <= i < j2 ==> #[trigger] iter_col(c1, rd, i) != NULL_DART_ID,
                decreases m - j2,
            {
                assert(j2 != m);
                if r2 == NULL_DART_ID {
                    return None;
                }
                ls.push(l2);
                rs.push(r2);
                let nl = self.betas.get(0, l2);
                let nr = self.betas.get(1, r2);
                l2 = nl;
                r2 = nr;
                proof {
                    j2 = j2 + 1;
                    assert(iter_col(c0, ld, j2) == l2);
                    assert(iter_col(c1, rd, j2) == r2);
                    assert(ls@ =~= first_l + Seq::new((j2 - 1) as nat, |i: int| iter_col(c0, ld, (i + 1) as nat)));
                    assert(rs@ =~= first_r + Seq::new((j2 - 1) as nat, |i: int| iter_col(c1, rd, (i + 1) as nat)));
                }
            }
            assert(j2 == m) by {
                if j2 < m {
                    assert(iter_col(c0, ld, j2) != NULL_DART_ID);
                }
            }
            assert(!self.sides_asym(ld, rd));
            Some((ls, rs, true))
        } else {
            assert(!self.walk_open(ld));
            assert(ls@ =~= self.l_side(ld));
            assert(rs@ =~= self.r_side(ld, rd));
            Some((ls, rs, false))
        }
    }
}

impl<V: AttributeUpdate> CMap3<V> {
    /// Vertex identifiers to merge (3-sew) or split (3-unsew) along two sides of faces, in
    /// order: for each pair `(l, r)`, the vertex of the larger of *β<sub>1</sub>(l)*,
    /// *β<sub>2</sub>(l)* with that of `r`; then, when `l` is 0-free, the vertex of `l` with
    /// that of the larger of *β<sub>1</sub>(r)*, *β<sub>2</sub>(r)*.
    pub open spec fn side_vertex_pairs(&self, ls: Seq<DartIdType>, rs: Seq<DartIdType>) -> Seq<(VertexIdType, VertexIdType)>
        decreases ls.len(),
    {
        if ls.len() == 0 {
            Seq::empty()
        } else {
            let k = ls.len() - 1;
            let prev = self.side_vertex_pairs(ls.drop_last(), rs);
            let l = ls[k];
            let r = rs[k];
            let p = prev.push((
                self.vid(max_id(self.img(1, l as int), self.img(2, l as int)) as int),
                self.vid(r as int),
            ));
            if self.img(0, l as int) == NULL_DART_ID {
                p.push((self.vid(l as int), self.vid(max_id(self.img(1, r as int), self.img(2, r as int)) as int)))
            } else {
                p
            }
        }
    }

    /// The vertex pairs of two sides depend on the images only.
    proof fn lemma_side_vertex_pairs_betas(a: Self, b: Self, ls: Seq<DartIdType>, rs: Seq<DartIdType>)
        requires
            a.betas == b.betas,
        ensures
            a.side_vertex_pairs(ls, rs) == b.side_vertex_pairs(ls, rs),
        decreases ls.len(),
    {
        if ls.len() > 0 {
            Self::lemma_side_vertex_pairs_betas(a, b, ls.drop_last(), rs);
        }
    }

    fn side_vertex_pairs_exec(&self, ls: &Vec<DartIdType>, rs: &Vec<DartIdType>) -> (r: Vec<(VertexIdType, VertexIdType)>)
        requires
            self.wf(),
            ls@.len() == rs@.len(),
            forall|j: int| 0 <= j < ls@.len() ==> (#[trigger] ls@[j] as int) < self.n(),
            forall|j: int| 0 <= j < rs@.len() ==> (#[trigger] rs@[j] as int) < self.n(),
        ensures
            r@ == self.side_vertex_pairs(ls@, rs@),
            forall|j: int| 0 <= j < r@.len() ==> (#[trigger] r@[j].0 as int) < self.n() && (r@[j].1 as int) < self.n(),
            ls@.len() >= 1 ==> r@.len() >= 1,
    {
        let mut res: Vec<(VertexIdType, VertexIdType)> = Vec::new();
        let mut k: usize = 0;
        assert(ls@.take(0) =~= Seq::<DartIdType>::empty());
        while k < ls.len()
            invariant
                self.wf(),
                ls@.len() == rs@.len(),
                forall|j: int| 0 <= j < ls@.len() ==> (#[trigger] ls@[j] as int) < self.n(),
                forall|j: int| 0 <= j < rs@.len() ==> (#[trigger] rs@[j] as int) < self.n(),
                k <= ls@.len(),
                res@ == self.side_vertex_pairs(ls@.take(k as int), rs@),
                forall|j: int| 0 <= j < res@.len() ==> (#[trigger] res@[j].0 as int) < self.n() && (res@[j].1 as int) < self.n(),
                k >= 1 ==> res@.len() >= 1,
            decreases ls@.len() - k,
        {
            let l = ls[k];
            let r = rs[k];
            assert(ls@.take(k + 1).drop_last() =~= ls@.take(k as int));
            assert(ls@.take(k + 1)[k as int] == l);
            let a = self.vertex_id(max_u32(self.betas.get(1, l), self.betas.get(2, l)));
            let b = self.vertex_id(r);
            res.push((a, b));
            if self.betas.get(0, l) == NULL_DART_ID {
                let c = self.vertex_id(l);
                let d = self.vertex_id(max_u32(self.betas.get(1, r), self.betas.get(2, r)));
                res.push((c, d));
            }
            k = k + 1;
        }
        assert(ls@.take(ls@.len() as int) =~= ls@);
        res
    }

    /// Vertex identifiers whose values decide the orientation check of a 3-sew, as
    /// `(l, r, b1l, b1r)`: for an open face, those of `ld`, `rd` and of the larger of their
    /// *β<sub>1</sub>* and *β<sub>2</sub>* images; else taken from the first and the last
    /// pairs of `vp`.
    pub open spec fn orientation_ids(&self, ld: DartIdType, rd: DartIdType, vp: Seq<(VertexIdType, VertexIdType)>) -> (VertexIdType, VertexIdType, VertexIdType, VertexIdType) {
        if self.walk_open(ld) {
            (
                self.vid(ld as int),
                self.vid(rd as int),
                self.vid(max_id(self.img(1, ld as int), self.img(2, ld as int)) as int),
                self.vid(max_id(self.img(1, rd as int), self.img(2, rd as int)) as int),
            )
        } else {
            (vp.last().0, vp[0].1, vp[0].0, vp.last().1)
        }
    }

    /// Outcome of [`Self::three_sew`].
    pub open spec fn three_sew_post(o: &Self, f: &Self, ld: DartIdType, rd: DartIdType, r: Result<(), SewError>) -> bool {
        if o.sides_asym(ld, rd) {
            r == Err::<(), SewError>(SewError::FailedLink(LinkError::AsymmetricalFaces(ld, rd))) && f.same_map(o)
        } else {
            let vp = o.side_vertex_pairs(o.l_side(ld), o.r_side(ld, rd));
            let ids = o.orientation_ids(ld, rd, vp);
            let all_defined = o.vertex(ids.0 as int) is Some && o.vertex(ids.1 as int) is Some
                && o.vertex(ids.2 as int) is Some && o.vertex(ids.3 as int) is Some;
            &&& match r {
                Ok(_) => {
                    &&& o.three_link_outcome(ld, rd) is Ok
                    &&& f.same_darts(o)
                    &&& f.betas_col3(o, o.three_link_outcome(ld, rd)->Ok_0)
                    &&& merge_chain(o.vertices.slots(), f.vertices.slots(), vp)
                },
                Err(SewError::BadGeometry(i, l, rr)) => {
                    &&& i == 3 && l == ld && rr == rd
                    &&& all_defined
                    &&& f.same_map(o)
                },
                Err(SewError::FailedLink(e)) => {
                    &&& o.three_link_outcome(ld, rd) == Err::<Seq<DartIdType>, _>(e)
                    &&& f.same_map(o)
                },
                Err(SewError::FailedAttributeOp(e)) => {
                    &&& e == AttributeError::InsufficientData("merge")
                    &&& o.three_link_outcome(ld, rd) is Ok
                    &&& f.same_map(o)
                },
            }
            &&& (o.three_link_outcome(ld, rd) is Err && !(r matches Err(SewError::BadGeometry(..))) ==> r == Err::<(), SewError>(
                SewError::FailedLink(o.three_link_outcome(ld, rd)->Err_0)))
            &&& (r matches Err(SewError::FailedAttributeOp(_))) ==> exists|k: int|
                0 <= k < vp.len() && !#[trigger] merge_finds_data(filled(o.vertices.slots()), vp, k)
        }
    }

    /// Outcome of [`Self::three_unsew`].
    pub open spec fn three_unsew_post(o: &Self, f: &Self, ld: DartIdType, r: Result<(), SewError>) -> bool {
        match o.three_unlink_outcome(ld) {
            Err(e) => r == Err::<(), SewError>(SewError::FailedLink(e)) && f.same_map(o),
            Ok(res) => match r {
                Ok(_) => {
                    &&& f.same_darts(o)
                    &&& f.betas_col3(o, res.0)
                    &&& split_chain(o.vertices.slots(), f.vertices.slots(), f.side_vertex_pairs(res.1, res.2))
                },
                Err(e) => {
                    &&& e == SewError::FailedAttributeOp(AttributeError::InsufficientData("split"))
                    &&& f.same_map(o)
                    &&& exists|u: CMap3<V>, k: int| #[trigger] u.betas_col3(o, res.0) && 0 <= k < u.side_vertex_pairs(res.1, res.2).len()
                        && !#[trigger] split_finds_data(filled(o.vertices.slots()), u.side_vertex_pairs(res.1, res.2), k)
                },
            },
        }
    }

    /// 3-unsew: 3-unlink the face of `ld` from the face of its *β<sub>3</sub>* image, then
    /// split the vertex values along the two faces (see [`Self::side_vertex_pairs`], with the
    /// identifiers of the unlinked map), each pair whose identifiers differ, in order.
    pub fn three_unsew(&mut self, ld: DartIdType) -> (r: Result<(), SewError>)
        requires
            old(self).wf(),
            (ld as int) < old(self).n(),
        ensures
            final(self).wf(),
            Self::three_unsew_post(old(self), final(self), ld, r),
    {
        let saved = self.betas.copy();
        let saved_v = self.vertices.copy();
        let (ls, rs) = match self.three_unlink_sides(ld) {
            Err(e) => return Err(SewError::FailedLink(e)),
            Ok(p) => p,
        };
        let vp = self.side_vertex_pairs_exec(&ls, &rs);
        let ghost mut chain: Seq<Seq<Option<V>>> = seq![self.vertices.slots()];
        let ghost mid = *self;
        let ghost res = old(self).three_unlink_outcome(ld);
        let mut k: usize = 0;
        while k < vp.len()
            invariant
                self.wf(),
                old(self).wf(),
                res == old(self).three_unlink_outcome(ld),
                res is Ok,
                mid.has_col3(old(self), res->Ok_0.0),
                self.betas == mid.betas,
                self.unused_darts == mid.unused_darts,
                self.n() == old(self).n(),
                saved.0@ == old(self).betas.0@,
                saved_v.slots() == old(self).vertices.slots(),
                forall|j: int| 0 <= j < vp@.len() ==> (#[trigger] vp@[j].0 as int) < self.n() && (vp@[j].1 as int) < self.n(),
                k <= vp@.len(),
                chain.len() == k + 1,
                chain[0] == mid.vertices.slots(),
                chain[k as int] == self.vertices.slots(),
                forall|j: int| 0 <= j < k ==> #[trigger] split_pair(chain[j], chain[j + 1], vp@[j].0, vp@[j].1),
                mid.vertices.slots() == old(self).vertices.slots(),
                vp@ == mid.side_vertex_pairs(ls@, rs@),
                ls@ == res->Ok_0.1,
                rs@ == res->Ok_0.2,
                filled(self.vertices.slots()) == split_fill(filled(mid.vertices.slots()), vp@, k as int),
            decreases vp@.len() - k,
        {
            let (a, b) = vp[k];
            assert(vp@[k as int] == (a, b));
            let ghost pre = self.vertices.slots();
            if a != b {
                let inp = min_u32(a, b);
                match self.vertices.split(a, b, inp) {
                    Err(e) => {
                        self.betas = saved;
                        self.vertices = saved_v;
                        proof {
                            lemma_same_rows(self.betas, old(self).betas);
                            assert(mid.betas_col3(old(self), res->Ok_0.0)
                                && !split_finds_data(filled(old(self).vertices.slots()), mid.side_vertex_pairs(res->Ok_0.1, res->Ok_0.2), k as int));
                        }
                        return Err(SewError::FailedAttributeOp(e));
                    },
                    Ok(()) => {},
                }
            }
            proof {
                let f0 = split_fill(filled(mid.vertices.slots()), vp@, k as int);
                assert(filled(self.vertices.slots()) =~= split_fill(filled(mid.vertices.slots()), vp@, k + 1)) by {
                    if a != b {
                        assert(filled(self.vertices.slots()) =~= f0.update(a as int, true).update(b as int, true));
                    }
                }
            }
            proof {
                chain = chain.push(self.vertices.slots());
                assert(split_pair(chain[k as int], chain[k + 1], vp@[k as int].0, vp@[k as int].1));
            }
            k = k + 1;
        }
        proof {
            assert(split_chain(mid.vertices.slots(), self.vertices.slots(), vp@));
            Self::lemma_side_vertex_pairs_betas(*self, mid, ls@, rs@);
        }
        Ok(())
    }
}

impl<V: VertexAttribute> CMap3<V> {
    /// What the orientation test of a 3-sew of `ld` and `rd` decides, once the two faces are
    /// found to match: it is made on the vertex values of [`Self::orientation_ids`] (see
    /// [`orientation_decides`]).
    pub open spec fn three_sew_orientation(o: &Self, ld: DartIdType, rd: DartIdType, r: Result<(), SewError>) -> bool {
        let vp = o.side_vertex_pairs(o.l_side(ld), o.r_side(ld, rd));
        let ids = o.orientation_ids(ld, rd, vp);
        !o.sides_asym(ld, rd) ==> orientation_decides(
            o.vertex(ids.0 as int),
            o.vertex(ids.2 as int),
            o.vertex(ids.1 as int),
            o.vertex(ids.3 as int),
            r matches Err(SewError::BadGeometry(..)),
        )
    }
}

impl<V: VertexAttribute> CMap3<V> {
    /// 3-sew: pair the darts of the face of `ld` with those of the face of `rd` (see
    /// [`Self::l_side`] and [`Self::r_side`]), check the orientation, 3-link the faces, then
    /// merge the vertex values along them (see [`Self::side_vertex_pairs`], identifiers taken
    /// before the link), each pair of distinct non-null identifiers, in order.
    ///
    /// The orientation check applies when the four vertex values of
    /// [`Self::orientation_ids`] are defined: the darts must run in opposite directions.
    pub fn three_sew(&mut self, ld: DartIdType, rd: DartIdType) -> (r: Result<(), SewError>)
        requires
            old(self).wf(),
            ld != NULL_DART_ID,
            rd != NULL_DART_ID,
            (ld as int) < old(self).n(),
            (rd as int) < old(self).n(),
            old(self).face_walk_ends(ld),
        ensures
            final(self).wf(),
            Self::three_sew_post(old(self), final(self), ld, rd, r),
            Self::three_sew_orientation(old(self), ld, rd, r),
    {
        let (ls, rs, open) = match self.face_sides(ld, rd) {
            None => return Err(SewError::FailedLink(LinkError::AsymmetricalFaces(ld, rd))),
            Some(p) => p,
        };
        let vp = self.side_vertex_pairs_exec(&ls, &rs);
        let (vid_l, vid_r, vid_b1l, vid_b1r) = if open {
            (
                self.vertex_id(ld),
                self.vertex_id(rd),
                self.vertex_id(max_u32(self.betas.get(1, ld), self.betas.get(2, ld))),
                self.vertex_id(max_u32(self.betas.get(1, rd), self.betas.get(2, rd))),
            )
        } else {
            let first = vp[0];
            let last = vp[vp.len() - 1];
            (last.0, first.1, first.0, last.1)
        };
        assert((vid_l, vid_r, vid_b1l, vid_b1r) == old(self).orientation_ids(ld, rd, vp@));
        if let (Some(l_vertex), Some(b1r_vertex), Some(b1l_vertex), Some(r_vertex)) = (
            self.vertices.read(vid_l),
            self.vertices.read(vid_b1r),
            self.vertices.read(vid_b1l),
            self.vertices.read(vid_r),
        ) {
            if !V::opposite_directions(l_vertex, b1l_vertex, r_vertex, b1r_vertex) {
                return Err(SewError::BadGeometry(3, ld, rd));
            }
        }
        let saved = self.betas.copy();
        let saved_v = self.vertices.copy();
        match self.three_link(ld, rd) {
            Err(e) => return Err(SewError::FailedLink(e)),
            Ok(()) => {},
        }
        let ghost mut chain: Seq<Seq<Option<V>>> = seq![self.vertices.slots()];
        let ghost mid = *self;
        let ghost res = old(self).three_link_outcome(ld, rd);
        assert(Self::three_sew_orientation(old(self), ld, rd, Ok(())));
        let mut k: usize = 0;
        while k < vp.len()
            invariant
                Self::three_sew_orientation(old(self), ld, rd, Ok(())),
                self.wf(),
                old(self).wf(),
                res == old(self).three_link_outcome(ld, rd),
                res is Ok,
                !old(self).sides_asym(ld, rd),
                mid.has_col3(old(self), res->Ok_0),
                self.betas == mid.betas,
                self.unused_darts == mid.unused_darts,
                self.n() == old(self).n(),
                saved.0@ == old(self).betas.0@,
                saved_v.slots() == old(self).vertices.slots(),
                forall|j: int| 0 <= j < vp@.len() ==> (#[trigger] vp@[j].0 as int) < self.n() && (vp@[j].1 as int) < self.n(),
                k <= vp@.len(),
                chain.len() == k + 1,
                chain[0] == mid.vertices.slots(),
                chain[k as int] == self.vertices.slots(),
                forall|j: int| 0 <= j < k ==> #[trigger] merge_pair(chain[j], chain[j + 1], vp@[j].0, vp@[j].1),
                mid.vertices.slots() == old(self).vertices.slots(),
                vp@ == old(self).side_vertex_pairs(old(self).l_side(ld), old(self).r_side(ld, rd)),
                filled(self.vertices.slots()) == merged_fill(filled(mid.vertices.slots()), vp@, k as int),
            decreases vp@.len() - k,
        {
            let (a, b) = vp[k];
            assert(vp@[k as int] == (a, b));
            if a != b && a != NULL_DART_ID && b != NULL_DART_ID {
                let out = min_u32(a, b);
                match self.vertices.merge(out, a, b) {
                    Err(e) => {
                        self.betas = saved;
                        self.vertices = saved_v;
                        proof {
                            lemma_same_rows(self.betas, old(self).betas);
                            assert(!merge_finds_data(filled(old(self).vertices.slots()), vp@, k as int));
                        }
                        return Err(SewError::FailedAttributeOp(e));
                    },
                    Ok(()) => {},
                }
            }
            proof {
                let f0 = merged_fill(filled(mid.vertices.slots()), vp@, k as int);
                assert(filled(self.vertices.slots()) =~= merged_fill(filled(mid.vertices.slots()), vp@, k + 1)) by {
                    if a != b && a != NULL_DART_ID && b != NULL_DART_ID {
                        assert(filled(self.vertices.slots()) =~= f0.update(a as int, false).update(b as int, false).update(
                            min_id(a, b) as int,
                            true,
                        ));
                    }
                }
            }
            proof {
                chain = chain.push(self.vertices.slots());
                assert(merge_pair(chain[k as int], chain[k + 1], vp@[k as int].0, vp@[k as int].1));
            }
            k = k + 1;
        }
        proof {
            assert(merge_chain(mid.vertices.slots(), self.vertices.slots(), vp@));
        }
        Ok(())
    }
}

impl<V: VertexAttribute> CMap3<V> {
    /// Outcome of an `i`-sew (`i` is 1, 2 or 3) from map `o` to map `f`.
    pub open spec fn sew_post(o: &Self, f: &Self, i: u8, ld: DartIdType, rd: DartIdType, r: Result<(), SewError>) -> bool {
        if i == 1 {
            Self::one_sew_post(o, f, ld, rd, r)
        } else if i == 2 {
            Self::two_sew_post(o, f, ld, rd, r) && Self::two_sew_orientation(o, ld, rd, r)
        } else {
            Self::three_sew_post(o, f, ld, rd, r) && Self::three_sew_orientation(o, ld, rd, r)
        }
    }

    /// Outcome of an `i`-unsew (`i` is 1, 2 or 3) from map `o` to map `f`.
    pub open spec fn unsew_post(o: &Self, f: &Self, i: u8, ld: DartIdType, r: Result<(), SewError>) -> bool {
        if i == 1 {
            Self::one_unsew_post(o, f, ld, r)
        } else if i == 2 {
            Self::two_unsew_post(o, f, ld, r)
        } else {
            Self::three_unsew_post(o, f, ld, r)
        }
    }

    /// `I`-sew operator (`I` is 1, 2 or 3).
    pub fn sew<const I: u8>(&mut self, ld: DartIdType, rd: DartIdType) -> (r: Result<(), SewError>)
        requires
            old(self).wf(),
            1 <= I <= 3,
            ld != NULL_DART_ID,
            rd != NULL_DART_ID,
            (ld as int) < old(self).n(),
            (rd as int) < old(self).n(),
            I == 3 ==> old(self).face_walk_ends(ld),
        ensures
            final(self).wf(),
            Self::sew_post(old(self), final(self), I, ld, rd, r),
    {
        if I == 1 {
            self.one_sew(ld, rd)
        } else if I == 2 {
            self.two_sew(ld, rd)
        } else {
            self.three_sew(ld, rd)
        }
    }

    /// `I`-unsew operator (`I` is 1, 2 or 3).
    pub fn unsew<const I: u8>(&mut self, ld: DartIdType) -> (r: Result<(), SewError>)
        requires
            old(self).wf(),
            1 <= I <= 3,
            (ld as int) < old(self).n(),
        ensures
            final(self).wf(),
            Self::unsew_post(old(self), final(self), I, ld, r),
    {
        if I == 1 {
            self.one_unsew(ld)
        } else if I == 2 {
            self.two_unsew(ld)
        } else {
            self.three_unsew(ld)
        }
    }

    /// `I`-sew operator; the map has a single owner, so this is [`Self::sew`].
    pub fn force_sew<const I: u8>(&mut self, ld: DartIdType, rd: DartIdType) -> (r: Result<(), SewError>)
        requires
            old(self).wf(),
            1 <= I <= 3,
            ld != NULL_DART_ID,
            rd != NULL_DART_ID,
            (ld as int) < old(self).n(),
            (rd as int) < old(self).n(),
            I == 3 ==> old(self).face_walk_ends(ld),
        ensures
            final(self).wf(),
            Self::sew_post(old(self), final(self), I, ld, rd, r),
    {
        self.sew::<I>(ld, rd)
    }

    /// `I`-unsew operator; the map has a single owner, so this is [`Self::unsew`].
    pub fn force_unsew<const I: u8>(&mut self, ld: DartIdType) -> (r: Result<(), SewError>)
        requires
            old(self).wf(),
            1 <= I <= 3,
            (ld as int) < old(self).n(),
        ensures
            final(self).wf(),
            Self::unsew_post(old(self), final(self), I, ld, r),
    {
        self.unsew::<I>(ld)
    }
}

} // verus!
