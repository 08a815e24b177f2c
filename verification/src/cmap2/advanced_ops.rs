//! Edge splitting: new darts, and new vertices, inserted along an existing edge.
//!
//! The new vertex values are given by the caller; they are typically interpolated between the
//! values at the two ends of the edge, which [`CMap2::split_ends`] reads.

use crate::attributes::AttributeUpdate;
use crate::cmap2::structure::CMap2;
use crate::ids::{DartIdType, EdgeIdType, NULL_DART_ID};
use crate::orbits::{extends, lemma_orbit_id_extend, lemma_orbit_id_min, steps_2d, steps_below, OrbitPolicy};
use vstd::prelude::*;

verus! {

/// Image `β_i(x)` after the writes `ws`, each `(i, d, v)` setting `β_i(d)` to `v`, the last write
/// of a pair winning; `base` when no write touches it.
pub open spec fn written_img(ws: Seq<(int, int, DartIdType)>, i: int, x: int, base: DartIdType) -> DartIdType
    decreases ws.len(),
{
    if ws.len() == 0 {
        base
    } else if ws.last().0 == i && ws.last().1 == x {
        ws.last().2
    } else {
        written_img(ws.drop_last(), i, x, base)
    }
}

/// Writes of a 1-link from `a` to `b`.
pub open spec fn link1_writes(a: DartIdType, b: DartIdType) -> Seq<(int, int, DartIdType)> {
    seq![(1int, a as int, b), (0int, b as int, a)]
}

/// Writes of a 2-link between `a` and `b`.
pub open spec fn link2_writes(a: DartIdType, b: DartIdType) -> Seq<(int, int, DartIdType)> {
    seq![(2int, a as int, b), (2int, b as int, a)]
}

/// Writes of a 1-link from `a` to `b`, none when `b` is null.
pub open spec fn link1_if(a: DartIdType, b: DartIdType) -> Seq<(int, int, DartIdType)> {
    if b == NULL_DART_ID { Seq::empty() } else { link1_writes(a, b) }
}

/// Writes of a 1-link from `a` to `b` where `b` may be null: `β_1(a)` is set to `b`, and
/// `β_0(b)` to `a` unless `b` is null.
pub open spec fn link1_to(a: DartIdType, b: DartIdType) -> Seq<(int, int, DartIdType)> {
    if b == NULL_DART_ID { seq![(1int, a as int, NULL_DART_ID)] } else { link1_writes(a, b) }
}

/// Writes cutting the 1-link from `a` to `o` (`o` may be null).
pub open spec fn cut1_writes(a: DartIdType, o: DartIdType) -> Seq<(int, int, DartIdType)> {
    if o == NULL_DART_ID {
        seq![(1int, a as int, NULL_DART_ID)]
    } else {
        seq![(1int, a as int, NULL_DART_ID), (0int, o as int, NULL_DART_ID)]
    }
}

/// Writes cutting the 2-link between `a` and `b`.
pub open spec fn cut2_writes(a: DartIdType, b: DartIdType) -> Seq<(int, int, DartIdType)> {
    seq![(2int, a as int, NULL_DART_ID), (2int, b as int, NULL_DART_ID)]
}

/// The dart before position `j` of a chain starting at `first` and going through `ds`.
pub open spec fn chain_prev(first: DartIdType, ds: Seq<DartIdType>, j: int) -> DartIdType {
    if j <= 0 { first } else { ds[j - 1] }
}

/// Writes 1-linking `first` to `ds[0]`, `ds[0]` to `ds[1]`, ..., up to `ds[k - 1]`.
pub open spec fn chain1_writes(first: DartIdType, ds: Seq<DartIdType>, k: int) -> Seq<(int, int, DartIdType)>
    decreases k,
{
    if k <= 0 {
        Seq::empty()
    } else {
        chain1_writes(first, ds, k - 1) + link1_writes(chain_prev(first, ds, k - 1), ds[k - 1])
    }
}

/// Writes of the other side of a split: for each step `j < k`, the current dart (`first`, then
/// `sh[j - 1]`) is 2-linked to `fh[fh.len() - 1 - j]` and 1-linked to `sh[j]`.
pub open spec fn back_writes(first: DartIdType, fh: Seq<DartIdType>, sh: Seq<DartIdType>, k: int) -> Seq<(int, int, DartIdType)>
    decreases k,
{
    if k <= 0 {
        Seq::empty()
    } else {
        let prev = chain_prev(first, sh, k - 1);
        back_writes(first, fh, sh, k - 1) + link2_writes(prev, fh[fh.len() - k]) + link1_writes(prev, sh[k - 1])
    }
}

/// `m` has the images of `base` after the writes `ws`, darts beyond `base` starting null.
pub open spec fn images_after<V: AttributeUpdate>(m: CMap2<V>, base: CMap2<V>, ws: Seq<(int, int, DartIdType)>) -> bool {
    forall|i: int, x: int| 0 <= i < 3 && 0 <= x < m.n() ==> #[trigger] m.img(i, x) == written_img(
        ws,
        i,
        x,
        if x < base.n() { base.img(i, x) } else { NULL_DART_ID },
    )
}

/// `s` with `vals[j]` put in slot `ids[j]`, for `j` from `0` to `k - 1` in turn.
pub open spec fn put_vertices<V>(s: Seq<Option<V>>, ids: Seq<DartIdType>, vals: Seq<V>, k: int) -> Seq<Option<V>>
    decreases k,
{
    if k <= 0 {
        s
    } else {
        put_vertices(s, ids, vals, k - 1).update(ids[k - 1] as int, Some(vals[k - 1]))
    }
}

/// `s` followed by empty slots up to length `n`.
pub open spec fn slots_grown<V>(s: Seq<Option<V>>, n: nat) -> Seq<Option<V>> {
    s + Seq::new((n - s.len()) as nat, |i: int| None::<V>)
}

/// A vertex identifier is at most the dart it identifies.
proof fn lemma_vid_le<V: AttributeUpdate>(m: CMap2<V>, d: DartIdType)
    ensures
        m.vid(d as int) <= d,
{
    lemma_orbit_id_min(m.betas, steps_2d(OrbitPolicy::Vertex), d);
}

/// A map grown by new darts, with the same images and vertex values on the old darts, splits an
/// old edge the same way.
proof fn lemma_grown_split<V: AttributeUpdate>(m0: CMap2<V>, m1: CMap2<V>, d1: DartIdType)
    requires
        m0.wf(),
        m1.wf(),
        extends(m1.betas, m0.betas),
        forall|v: int| 0 <= v < m0.n() ==> #[trigger] m1.vertex(v) == m0.vertex(v),
        (d1 as int) < m0.n(),
    ensures
        m1.ends_defined(d1 as int) == m0.ends_defined(d1 as int),
        forall|n1: DartIdType, n2: DartIdType| #[trigger] m1.split_writes(d1, n1, n2) == m0.split_writes(d1, n1, n2),
        forall|fh: Seq<DartIdType>, sh: Seq<DartIdType>| #[trigger] m1.splitn_writes(d1, fh, sh) == m0.splitn_writes(d1, fh, sh),
{
    let steps = steps_2d(OrbitPolicy::Vertex);
    assert(steps_below(steps, 3));
    let far = m0.far_end(d1 as int);
    assert(m1.img(2, d1 as int) == m0.img(2, d1 as int));
    assert(m1.img(1, d1 as int) == m0.img(1, d1 as int));
    assert(far == m1.far_end(d1 as int));
    lemma_orbit_id_extend(m0.betas, m1.betas, steps, d1);
    lemma_orbit_id_extend(m0.betas, m1.betas, steps, far);
    lemma_vid_le(m0, d1);
    lemma_vid_le(m0, far);
    let d2 = m0.img(2, d1 as int);
    assert(m1.img(1, d2 as int) == m0.img(1, d2 as int));
}

impl<V: AttributeUpdate> CMap2<V> {
    /// Dart whose vertex is the far end of the edge of `d`: *β<sub>1</sub>(d)* when `d` is
    /// 2-free, *β<sub>2</sub>(d)* otherwise.
    pub open spec fn far_end(&self, d: int) -> DartIdType {
        if self.img(2, d) == NULL_DART_ID { self.img(1, d) } else { self.img(2, d) }
    }

    /// Whether both ends of the edge of `d` have a vertex value.
    pub open spec fn ends_defined(&self, d: int) -> bool {
        &&& self.vertex(self.vid(d) as int) is Some
        &&& self.vertex(self.vid(self.far_end(d) as int) as int) is Some
    }

    /// Writes of splitting the edge of `d1` in two with the new dart `n1` (and `n2` on the
    /// other side when `d1` is not 2-free).
    pub open spec fn split_writes(&self, d1: DartIdType, n1: DartIdType, n2: DartIdType) -> Seq<(int, int, DartIdType)> {
        let d2 = self.img(2, d1 as int);
        let o1 = self.img(1, d1 as int);
        if d2 == NULL_DART_ID {
            cut1_writes(d1, o1) + link1_writes(d1, n1) + link1_to(n1, o1)
        } else {
            let o2 = self.img(1, d2 as int);
            cut1_writes(d1, o1) + cut1_writes(d2, o2) + cut2_writes(d1, d2) + link1_writes(d1, n1)
                + link1_if(n1, o1) + link1_writes(d2, n2) + link1_if(n2, o2) + link2_writes(d1, n2)
                + link2_writes(d2, n1)
        }
    }

    /// Writes on the side of `d1` of splitting its edge into the chain of new darts `fh`.
    pub open spec fn splitn_front_writes(&self, d1: DartIdType, fh: Seq<DartIdType>) -> Seq<(int, int, DartIdType)> {
        let d2 = self.img(2, d1 as int);
        let o1 = self.img(1, d1 as int);
        cut1_writes(d1, o1) + (if d2 == NULL_DART_ID { Seq::empty() } else { cut2_writes(d1, d2) })
            + chain1_writes(d1, fh, fh.len() as int) + link1_to(chain_prev(d1, fh, fh.len() as int), o1)
    }

    /// Writes of splitting the edge of `d1` into `fh.len() + 1` segments: the new darts `fh`
    /// follow `d1`, and, when `d1` is not 2-free, the new darts `sh` follow *β<sub>2</sub>(d1)*.
    pub open spec fn splitn_writes(&self, d1: DartIdType, fh: Seq<DartIdType>, sh: Seq<DartIdType>) -> Seq<(int, int, DartIdType)> {
        let front = self.splitn_front_writes(d1, fh);
        let d2 = self.img(2, d1 as int);
        if d2 == NULL_DART_ID {
            front
        } else {
            let o2 = written_img(front, 1, d2 as int, self.img(1, d2 as int));
            let last = chain_prev(d2, sh, fh.len() as int);
            front + cut1_writes(d2, o2) + back_writes(d2, fh, sh, fh.len() as int) + link1_to(last, o2)
                + link2_writes(last, d1)
        }
    }

    /// Set *β<sub>i</sub>(d)* to `v`, one more write on top of `ws`.
    fn write_img(
        &mut self,
        Ghost(base): Ghost<CMap2<V>>,
        Ghost(ws): Ghost<Seq<(int, int, DartIdType)>>,
        i: u8,
        d: DartIdType,
        v: DartIdType,
    )
        requires
            old(self).wf(),
            i < 3,
            d != NULL_DART_ID,
            (d as int) < old(self).n(),
            (v as int) < old(self).n(),
            images_after(*old(self), base, ws),
        ensures
            final(self).wf(),
            final(self).same_embedding(old(self)),
            images_after(*final(self), base, ws.push((i as int, d as int, v))),
    {
        if i == 0 {
            self.set_beta::<0>(d, v);
        } else if i == 1 {
            self.set_beta::<1>(d, v);
        } else {
            self.set_beta::<2>(d, v);
        }
        proof {
            let w = ws.push((i as int, d as int, v));
            assert(w.drop_last() == ws);
        }
    }

    /// Vertex values at the two ends of the edge of `edge_id`: that of its dart, and that of
    /// *β<sub>1</sub>* of its dart when that dart is 2-free, of *β<sub>2</sub>* otherwise.
    pub fn split_ends(&self, edge_id: EdgeIdType) -> (r: Option<(V, V)>)
        requires
            self.wf(),
            (edge_id as int) < self.n(),
        ensures
            r is Some <==> self.ends_defined(edge_id as int),
            r matches Some((a, b)) ==> {
                &&& self.vertex(self.vid(edge_id as int) as int) == Some(a)
                &&& self.vertex(self.vid(self.far_end(edge_id as int) as int) as int) == Some(b)
            },
    {
        let d2 = self.beta::<2>(edge_id);
        let far = if d2 == NULL_DART_ID { self.beta::<1>(edge_id) } else { d2 };
        let v1 = self.read_vertex(self.vertex_id(edge_id));
        let v2 = self.read_vertex(self.vertex_id(far));
        match (v1, v2) {
            (Some(a), Some(b)) => Some((a, b)),
            _ => None,
        }
    }

    /// Split the edge of `d1` in two with the new darts `n1` and `n2`, and give the new vertex
    /// the value `midpoint`; nothing happens when an end of the edge has no vertex value.
    fn inner_split(&mut self, d1: DartIdType, n1: DartIdType, n2: DartIdType, midpoint: V)
        requires
            old(self).wf(),
            d1 != NULL_DART_ID,
            (d1 as int) < old(self).n(),
            n1 != NULL_DART_ID,
            (n1 as int) < old(self).n(),
            old(self).img(2, d1 as int) != NULL_DART_ID ==> n2 != NULL_DART_ID && (n2 as int) < old(self).n(),
        ensures
            final(self).wf(),
            final(self).n() == old(self).n(),
            final(self).unused_darts == old(self).unused_darts,
            !old(self).ends_defined(d1 as int) ==> final(self).same_map(old(self)),
            old(self).ends_defined(d1 as int) ==> {
                &&& images_after(*final(self), *old(self), old(self).split_writes(d1, n1, n2))
                &&& final(self).vertices.slots() == old(self).vertices.slots().update(
                    final(self).vid(n1 as int) as int,
                    Some(midpoint),
                )
            },
    {
        let d2 = self.beta::<2>(d1);
        let o1 = self.beta::<1>(d1);
        let o2 = if d2 == NULL_DART_ID { NULL_DART_ID } else { self.beta::<1>(d2) };
        let ends = self.split_ends(d1);
        if ends.is_none() {
            return;
        }
        let ghost base = *self;
        let ghost mut ws: Seq<(int, int, DartIdType)> = Seq::empty();
        if d2 == NULL_DART_ID {
            self.write_img(Ghost(base), Ghost(ws), 1, d1, NULL_DART_ID);
            proof { ws = ws.push((1int, d1 as int, NULL_DART_ID)); }
            if o1 != NULL_DART_ID {
                self.write_img(Ghost(base), Ghost(ws), 0, o1, NULL_DART_ID);
                proof { ws = ws.push((0int, o1 as int, NULL_DART_ID)); }
            }
            self.write_img(Ghost(base), Ghost(ws), 1, d1, n1);
            proof { ws = ws.push((1int, d1 as int, n1)); }
            self.write_img(Ghost(base), Ghost(ws), 0, n1, d1);
            proof { ws = ws.push((0int, n1 as int, d1)); }
            self.write_img(Ghost(base), Ghost(ws), 1, n1, o1);
            proof { ws = ws.push((1int, n1 as int, o1)); }
            if o1 != NULL_DART_ID {
                self.write_img(Ghost(base), Ghost(ws), 0, o1, n1);
                proof { ws = ws.push((0int, o1 as int, n1)); }
            }
        } else {
            self.write_img(Ghost(base), Ghost(ws), 1, d1, NULL_DART_ID);
            proof { ws = ws.push((1int, d1 as int, NULL_DART_ID)); }
            if o1 != NULL_DART_ID {
                self.write_img(Ghost(base), Ghost(ws), 0, o1, NULL_DART_ID);
                proof { ws = ws.push((0int, o1 as int, NULL_DART_ID)); }
            }
            self.write_img(Ghost(base), Ghost(ws), 1, d2, NULL_DART_ID);
            proof { ws = ws.push((1int, d2 as int, NULL_DART_ID)); }
            if o2 != NULL_DART_ID {
                self.write_img(Ghost(base), Ghost(ws), 0, o2, NULL_DART_ID);
                proof { ws = ws.push((0int, o2 as int, NULL_DART_ID)); }
            }
            self.write_img(Ghost(base), Ghost(ws), 2, d1, NULL_DART_ID);
            proof { ws = ws.push((2int, d1 as int, NULL_DART_ID)); }
            self.write_img(Ghost(base), Ghost(ws), 2, d2, NULL_DART_ID);
            proof { ws = ws.push((2int, d2 as int, NULL_DART_ID)); }
            self.write_img(Ghost(base), Ghost(ws), 1, d1, n1);
            proof { ws = ws.push((1int, d1 as int, n1)); }
            self.write_img(Ghost(base), Ghost(ws), 0, n1, d1);
            proof { ws = ws.push((0int, n1 as int, d1)); }
            if o1 != NULL_DART_ID {
                self.write_img(Ghost(base), Ghost(ws), 1, n1, o1);
                proof { ws = ws.push((1int, n1 as int, o1)); }
                self.write_img(Ghost(base), Ghost(ws), 0, o1, n1);
                proof { ws = ws.push((0int, o1 as int, n1)); }
            }
            self.write_img(Ghost(base), Ghost(ws), 1, d2, n2);
            proof { ws = ws.push((1int, d2 as int, n2)); }
            self.write_img(Ghost(base), Ghost(ws), 0, n2, d2);
            proof { ws = ws.push((0int, n2 as int, d2)); }
            if o2 != NULL_DART_ID {
                self.write_img(Ghost(base), Ghost(ws), 1, n2, o2);
                proof { ws = ws.push((1int, n2 as int, o2)); }
                self.write_img(Ghost(base), Ghost(ws), 0, o2, n2);
                proof { ws = ws.push((0int, o2 as int, n2)); }
            }
            self.write_img(Ghost(base), Ghost(ws), 2, d1, n2);
            proof { ws = ws.push((2int, d1 as int, n2)); }
            self.write_img(Ghost(base), Ghost(ws), 2, n2, d1);
            proof { ws = ws.push((2int, n2 as int, d1)); }
            self.write_img(Ghost(base), Ghost(ws), 2, d2, n1);
            proof { ws = ws.push((2int, d2 as int, n1)); }
            self.write_img(Ghost(base), Ghost(ws), 2, n1, d2);
            proof { ws = ws.push((2int, n1 as int, d2)); }
        }
        assert(ws =~= base.split_writes(d1, n1, n2));
        let vid = self.vertex_id(n1);
        let _ = self.write_vertex(vid, midpoint);
    }

    /// Split the edge of `d1` into `fh.len() + 1` segments with the new darts `fh` (and `sh`
    /// on the other side when `d1` is not 2-free), giving dart `fh[j]` the vertex value
    /// `vals[j]`; nothing happens when an end of the edge has no vertex value.
    #[verifier::rlimit(50)]
    #[verifier::spinoff_prover]
    fn inner_splitn(&mut self, d1: DartIdType, fh: &Vec<DartIdType>, sh: &Vec<DartIdType>, vals: &Vec<V>)
        requires
            old(self).wf(),
            d1 != NULL_DART_ID,
            (d1 as int) < old(self).n(),
            fh@.len() == vals@.len(),
            sh@.len() == fh@.len(),
            forall|j: int| 0 <= j < fh@.len() ==> #[trigger] fh@[j] != NULL_DART_ID && (fh@[j] as int) < old(self).n(),
            old(self).img(2, d1 as int) != NULL_DART_ID ==> forall|j: int| 0 <= j < sh@.len()
                ==> #[trigger] sh@[j] != NULL_DART_ID && (sh@[j] as int) < old(self).n(),
        ensures
            final(self).wf(),
            final(self).n() == old(self).n(),
            final(self).unused_darts == old(self).unused_darts,
            !old(self).ends_defined(d1 as int) ==> final(self).same_map(old(self)),
            old(self).ends_defined(d1 as int) ==> {
                &&& images_after(*final(self), *old(self), old(self).splitn_writes(d1, fh@, sh@))
                &&& final(self).vertices.slots() == put_vertices(old(self).vertices.slots(), fh@, vals@, fh@.len() as int)
            },
    {
        let d2 = self.beta::<2>(d1);
        let o1 = self.beta::<1>(d1);
        let ends = self.split_ends(d1);
        if ends.is_none() {
            return;
        }
        let ghost base = *self;
        let ghost mut ws: Seq<(int, int, DartIdType)> = Seq::empty();
        self.write_img(Ghost(base), Ghost(ws), 1, d1, NULL_DART_ID);
        proof { ws = ws.push((1int, d1 as int, NULL_DART_ID)); }
        if o1 != NULL_DART_ID {
            self.write_img(Ghost(base), Ghost(ws), 0, o1, NULL_DART_ID);
            proof { ws = ws.push((0int, o1 as int, NULL_DART_ID)); }
        }
        if d2 != NULL_DART_ID {
            self.write_img(Ghost(base), Ghost(ws), 2, d1, NULL_DART_ID);
            proof { ws = ws.push((2int, d1 as int, NULL_DART_ID)); }
            self.write_img(Ghost(base), Ghost(ws), 2, d2, NULL_DART_ID);
            proof { ws = ws.push((2int, d2 as int, NULL_DART_ID)); }
        }
        let ghost ws0 = ws;
        let k = fh.len();
        let mut prev = d1;
        let mut j: usize = 0;
        while j < k
            invariant
                self.wf(),
                self.n() == base.n(),
                self.unused_darts == base.unused_darts,
                k == fh@.len(),
                fh@.len() == vals@.len(),
                forall|t: int| 0 <= t < fh@.len() ==> #[trigger] fh@[t] != NULL_DART_ID && (fh@[t] as int) < base.n(),
                d1 != NULL_DART_ID,
                (d1 as int) < base.n(),
                j <= k,
                prev == chain_prev(d1, fh@, j as int),
                ws == ws0 + chain1_writes(d1, fh@, j as int),
                images_after(*self, base, ws),
                self.vertices.slots() == put_vertices(base.vertices.slots(), fh@, vals@, j as int),
            decreases k - j,
        {
            let nd = fh[j];
            self.write_img(Ghost(base), Ghost(ws), 1, prev, nd);
            proof { ws = ws.push((1int, prev as int, nd)); }
            self.write_img(Ghost(base), Ghost(ws), 0, nd, prev);
            proof {
                ws = ws.push((0int, nd as int, prev));
                assert(ws =~= ws0 + chain1_writes(d1, fh@, j + 1));
            }
            let _ = self.write_vertex(nd, vals[j]);
            prev = nd;
            j = j + 1;
        }
        self.write_img(Ghost(base), Ghost(ws), 1, prev, o1);
        proof { ws = ws.push((1int, prev as int, o1)); }
        if o1 != NULL_DART_ID {
            self.write_img(Ghost(base), Ghost(ws), 0, o1, prev);
            proof { ws = ws.push((0int, o1 as int, prev)); }
        }
        let ghost front = ws;
        assert(front =~= base.splitn_front_writes(d1, fh@));
        if d2 != NULL_DART_ID {
            let o2 = self.beta::<1>(d2);
            self.write_img(Ghost(base), Ghost(ws), 1, d2, NULL_DART_ID);
            proof { ws = ws.push((1int, d2 as int, NULL_DART_ID)); }
            if o2 != NULL_DART_ID {
                self.write_img(Ghost(base), Ghost(ws), 0, o2, NULL_DART_ID);
                proof { ws = ws.push((0int, o2 as int, NULL_DART_ID)); }
            }
            let ghost ws1 = ws;
            let mut prev = d2;
            let mut j: usize = 0;
            while j < k
                invariant
                    self.wf(),
                    self.n() == base.n(),
                    self.unused_darts == base.unused_darts,
                    k == fh@.len(),
                    sh@.len() == fh@.len(),
                    forall|t: int| 0 <= t < fh@.len() ==> #[trigger] fh@[t] != NULL_DART_ID && (fh@[t] as int) < base.n(),
                    forall|t: int| 0 <= t < sh@.len() ==> #[trigger] sh@[t] != NULL_DART_ID && (sh@[t] as int) < base.n(),
                    d2 != NULL_DART_ID,
                    (d2 as int) < base.n(),
                    j <= k,
                    prev == chain_prev(d2, sh@, j as int),
                    ws == ws1 + back_writes(d2, fh@, sh@, j as int),
                    images_after(*self, base, ws),
                    self.vertices.slots() == put_vertices(base.vertices.slots(), fh@, vals@, fh@.len() as int),
                decreases k - j,
            {
                let od = fh[k - 1 - j];
                let nd = sh[j];
                self.write_img(Ghost(base), Ghost(ws), 2, prev, od);
                proof { ws = ws.push((2int, prev as int, od)); }
                self.write_img(Ghost(base), Ghost(ws), 2, od, prev);
                proof { ws = ws.push((2int, od as int, prev)); }
                self.write_img(Ghost(base), Ghost(ws), 1, prev, nd);
                proof { ws = ws.push((1int, prev as int, nd)); }
                self.write_img(Ghost(base), Ghost(ws), 0, nd, prev);
                proof {
                    ws = ws.push((0int, nd as int, prev));
                    assert(ws =~= ws1 + back_writes(d2, fh@, sh@, j + 1));
                }
                prev = nd;
                j = j + 1;
            }
            self.write_img(Ghost(base), Ghost(ws), 1, prev, o2);
            proof { ws = ws.push((1int, prev as int, o2)); }
            if o2 != NULL_DART_ID {
                self.write_img(Ghost(base), Ghost(ws), 0, o2, prev);
                proof { ws = ws.push((0int, o2 as int, prev)); }
            }
            self.write_img(Ghost(base), Ghost(ws), 2, prev, d1);
            proof { ws = ws.push((2int, prev as int, d1)); }
            self.write_img(Ghost(base), Ghost(ws), 2, d1, prev);
            proof { ws = ws.push((2int, d1 as int, prev)); }
        }
        assert(ws =~= base.splitn_writes(d1, fh@, sh@));
    }

    /// Split the edge of `edge_id` in two: one new dart follows the dart `edge_id`, and, when it
    /// is not 2-free, another follows *β<sub>2</sub>(edge_id)*; the new vertex between them
    /// takes the value `midpoint`.
    ///
    /// The new darts are added to the map first; when an end of the edge has no vertex value,
    /// nothing else happens.
    pub fn split_edge(&mut self, edge_id: EdgeIdType, midpoint: V)
        requires
            old(self).wf(),
            edge_id != NULL_DART_ID,
            (edge_id as int) < old(self).n(),
            old(self).n() + 2 <= u32::MAX,
        ensures
            final(self).wf(),
            final(self).n() == old(self).n() + (if old(self).img(2, edge_id as int) == NULL_DART_ID { 1int } else { 2int }),
            forall|d: int| 0 <= d < old(self).n() ==> #[trigger] final(self).unused(d) == old(self).unused(d),
            forall|d: int| old(self).n() <= d < final(self).n() ==> !#[trigger] final(self).unused(d),
            ({
                let n1 = old(self).n() as DartIdType;
                let n2 = if old(self).img(2, edge_id as int) == NULL_DART_ID {
                    NULL_DART_ID
                } else {
                    (old(self).n() + 1) as DartIdType
                };
                if old(self).ends_defined(edge_id as int) {
                    &&& images_after(*final(self), *old(self), old(self).split_writes(edge_id, n1, n2))
                    &&& final(self).vertices.slots() == slots_grown(old(self).vertices.slots(), final(self).n()).update(
                        final(self).vid(n1 as int) as int,
                        Some(midpoint),
                    )
                } else {
                    &&& images_after(*final(self), *old(self), Seq::empty())
                    &&& final(self).vertices.slots() == slots_grown(old(self).vertices.slots(), final(self).n())
                }
            }),
    {
        let ghost m0 = *self;
        let d2 = self.beta::<2>(edge_id);
        let n1 = if d2 == NULL_DART_ID { self.allocate_used_darts(1) } else { self.allocate_used_darts(2) };
        let n2 = if d2 == NULL_DART_ID { NULL_DART_ID } else { n1 + 1 };
        let ghost m1 = *self;
        proof {
            lemma_grown_split(m0, *self, edge_id);
            assert(m1.vertices.slots() =~= slots_grown(m0.vertices.slots(), m1.n()));
        }
        self.inner_split(edge_id, n1, n2, midpoint);
    }

    /// Split the edge of `edge_id` into `midpoint_vertices.len() + 1` segments: new darts
    /// follow the dart `edge_id`, the `j`-th taking the vertex value `midpoint_vertices[j]`,
    /// and, when `edge_id` is not 2-free, as many new darts follow *β<sub>2</sub>(edge_id)*.
    /// Returns the new darts on the side of `edge_id`, in order.
    ///
    /// The new darts are added to the map first; when an end of the edge has no vertex value,
    /// nothing else happens.
    pub fn splitn_edge(&mut self, edge_id: EdgeIdType, midpoint_vertices: &Vec<V>) -> (r: Vec<DartIdType>)
        requires
            old(self).wf(),
            edge_id != NULL_DART_ID,
            (edge_id as int) < old(self).n(),
            old(self).n() + 2 * midpoint_vertices@.len() <= u32::MAX,
        ensures
            final(self).wf(),
            ({
                let k = midpoint_vertices@.len() as int;
                let two = old(self).img(2, edge_id as int) != NULL_DART_ID;
                let sh = if two {
                    Seq::new(k as nat, |j: int| (old(self).n() + k + j) as DartIdType)
                } else {
                    Seq::new(k as nat, |j: int| NULL_DART_ID)
                };
                &&& final(self).n() == old(self).n() + (if two { 2 * k } else { k })
                &&& r@ == Seq::new(k as nat, |j: int| (old(self).n() + j) as DartIdType)
                &&& if old(self).ends_defined(edge_id as int) {
                    &&& images_after(*final(self), *old(self), old(self).splitn_writes(edge_id, r@, sh))
                    &&& final(self).vertices.slots() == put_vertices(
                        slots_grown(old(self).vertices.slots(), final(self).n()),
                        r@,
                        midpoint_vertices@,
                        k,
                    )
                } else {
                    &&& images_after(*final(self), *old(self), Seq::empty())
                    &&& final(self).vertices.slots() == slots_grown(old(self).vertices.slots(), final(self).n())
                }
            }),
            forall|d: int| 0 <= d < old(self).n() ==> #[trigger] final(self).unused(d) == old(self).unused(d),
            forall|d: int| old(self).n() <= d < final(self).n() ==> !#[trigger] final(self).unused(d),
    {
        let ghost m0 = *self;
        let k = midpoint_vertices.len();
        let d2 = self.beta::<2>(edge_id);
        let first = if d2 == NULL_DART_ID { self.allocate_used_darts(k) } else { self.allocate_used_darts(2 * k) };
        let mut fh: Vec<DartIdType> = Vec::new();
        let mut sh: Vec<DartIdType> = Vec::new();
        let mut j: usize = 0;
        while j < k
            invariant
                j <= k,
                first as int == m0.n(),
                m0.n() + 2 * k <= u32::MAX,
                fh@ == Seq::new(j as nat, |t: int| (m0.n() + t) as DartIdType),
                d2 == NULL_DART_ID ==> sh@ == Seq::new(j as nat, |t: int| NULL_DART_ID),
                d2 != NULL_DART_ID ==> sh@ == Seq::new(j as nat, |t: int| (m0.n() + k + t) as DartIdType),
            decreases k - j,
        {
            fh.push(first + j as u32);
            if d2 == NULL_DART_ID {
                sh.push(NULL_DART_ID);
            } else {
                sh.push(first + k as u32 + j as u32);
            }
            j = j + 1;
        }
        proof {
            lemma_grown_split(m0, *self, edge_id);
            assert(self.vertices.slots() =~= slots_grown(m0.vertices.slots(), self.n()));
        }
        self.inner_splitn(edge_id, &fh, &sh, midpoint_vertices);
        fh
    }

    /// Split the edge of `edge_id` in two with the given new darts, as
    /// [`Self::split_edge`] does with darts that it adds: `new_darts.0` follows the dart
    /// `edge_id`, and `new_darts.1` follows *β<sub>2</sub>(edge_id)* when it is not 2-free.
    ///
    /// Nothing happens when `new_darts.0` is null or not free, when `edge_id` is not 2-free and
    /// `new_darts.1` is null or not free, or when an end of the edge has no vertex value.
    pub fn split_edge_noalloc(&mut self, edge_id: EdgeIdType, new_darts: (DartIdType, DartIdType), midpoint: V)
        requires
            old(self).wf(),
            edge_id != NULL_DART_ID,
            (edge_id as int) < old(self).n(),
            (new_darts.0 as int) < old(self).n(),
            old(self).img(2, edge_id as int) != NULL_DART_ID && new_darts.1 != NULL_DART_ID ==> (new_darts.1 as int) < old(self).n(),
        ensures
            final(self).wf(),
            final(self).n() == old(self).n(),
            final(self).unused_darts == old(self).unused_darts,
            ({
                let (n1, n2) = new_darts;
                let usable = n1 != NULL_DART_ID && old(self).free(n1 as int) && (old(self).img(2, edge_id as int) != NULL_DART_ID
                    ==> n2 != NULL_DART_ID && old(self).free(n2 as int));
                if usable && old(self).ends_defined(edge_id as int) {
                    &&& images_after(*final(self), *old(self), old(self).split_writes(edge_id, n1, n2))
                    &&& final(self).vertices.slots() == old(self).vertices.slots().update(
                        final(self).vid(n1 as int) as int,
                        Some(midpoint),
                    )
                } else {
                    final(self).same_map(old(self))
                }
            }),
    {
        let d2 = self.beta::<2>(edge_id);
        let (n1, n2) = new_darts;
        if n1 == NULL_DART_ID || !self.is_free(n1) {
            return;
        }
        if d2 != NULL_DART_ID && (n2 == NULL_DART_ID || !self.is_free(n2)) {
            return;
        }
        self.inner_split(edge_id, n1, n2, midpoint);
    }

    /// Split the edge of `edge_id` into `midpoint_vertices.len() + 1` segments with the given
    /// new darts, as [`Self::splitn_edge`] does with darts that it adds: the first half of
    /// `new_darts` follows the dart `edge_id`, and the second half follows
    /// *β<sub>2</sub>(edge_id)* when it is not 2-free.
    ///
    /// Nothing happens when `new_darts` does not have twice as many darts as
    /// `midpoint_vertices` has values, when one of them is not free, when one of the first half
    /// is null, when `edge_id` is not 2-free and one of the second half is null, or when an end
    /// of the edge has no vertex value.
    pub fn splitn_edge_no_alloc(&mut self, edge_id: EdgeIdType, new_darts: &Vec<DartIdType>, midpoint_vertices: &Vec<V>)
        requires
            old(self).wf(),
            edge_id != NULL_DART_ID,
            (edge_id as int) < old(self).n(),
            new_darts@.len() == 2 * midpoint_vertices@.len() ==> forall|j: int| 0 <= j < new_darts@.len()
                ==> (#[trigger] new_darts@[j] as int) < old(self).n(),
        ensures
            final(self).wf(),
            final(self).n() == old(self).n(),
            final(self).unused_darts == old(self).unused_darts,
            ({
                let k = midpoint_vertices@.len() as int;
                let fh = new_darts@.take(k);
                let sh = new_darts@.skip(k);
                let usable = new_darts@.len() == 2 * k
                    && (forall|j: int| 0 <= j < new_darts@.len() ==> old(self).free(#[trigger] new_darts@[j] as int))
                    && (forall|j: int| 0 <= j < k ==> #[trigger] new_darts@[j] != NULL_DART_ID)
                    && (old(self).img(2, edge_id as int) != NULL_DART_ID ==> forall|j: int| k <= j < 2 * k
                        ==> #[trigger] new_darts@[j] != NULL_DART_ID);
                if usable && old(self).ends_defined(edge_id as int) {
                    &&& images_after(*final(self), *old(self), old(self).splitn_writes(edge_id, fh, sh))
                    &&& final(self).vertices.slots() == put_vertices(old(self).vertices.slots(), fh, midpoint_vertices@, k)
                } else {
                    final(self).same_map(old(self))
                }
            }),
    {
        let k = midpoint_vertices.len();
        let nd = new_darts.len();
        if nd % 2 != 0 || nd / 2 != k {
            return;
        }
        let mut j: usize = 0;
        while j < nd
            invariant
                self.wf(),
                nd == new_darts@.len(),
                nd == 2 * k,
                forall|t: int| 0 <= t < new_darts@.len() ==> (#[trigger] new_darts@[t] as int) < self.n(),
                j <= nd,
                forall|t: int| 0 <= t < j ==> self.free(#[trigger] new_darts@[t] as int),
            decreases nd - j,
        {
            if !self.is_free(new_darts[j]) {
                return;
            }
            j = j + 1;
        }
        let d2 = self.beta::<2>(edge_id);
        let mut fh: Vec<DartIdType> = Vec::new();
        let mut sh: Vec<DartIdType> = Vec::new();
        let ghost m0 = *self;
        let mut j: usize = 0;
        while j < k
            invariant
                *self == m0,
                self.wf(),
                d2 == self.img(2, edge_id as int),
                nd == new_darts@.len(),
                nd == 2 * k,
                j <= k,
                fh@ == new_darts@.take(j as int),
                sh@ == new_darts@.skip(k as int).take(j as int),
                forall|t: int| 0 <= t < j ==> #[trigger] new_darts@[t] != NULL_DART_ID,
                d2 != NULL_DART_ID ==> forall|t: int| k <= t < k + j ==> #[trigger] new_darts@[t] != NULL_DART_ID,
            decreases k - j,
        {
            let a = new_darts[j];
            let b = new_darts[k + j];
            if a == NULL_DART_ID {
                return;
            }
            if d2 != NULL_DART_ID && b == NULL_DART_ID {
                return;
            }
            fh.push(a);
            sh.push(b);
            proof {
                assert(fh@ =~= new_darts@.take(j + 1));
                assert(sh@ =~= new_darts@.skip(k as int).take(j + 1));
            }
            j = j + 1;
        }
        proof {
            assert(fh@ =~= new_darts@.take(k as int));
            assert(sh@ =~= new_darts@.skip(k as int));
        }
        self.inner_splitn(edge_id, &fh, &sh, midpoint_vertices);
    }
}

} // verus!
