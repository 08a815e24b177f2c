//! 1- and 2-sew and unsew operations of [`CMap3`]: links that also merge or split the vertex
//! values.
//!
//! A failed operation leaves the map as it was.

use crate::attributes::{merge_rel, orientation_decides, split_rel, AttributeError, AttributeUpdate, VertexAttribute};
use crate::cmap2::sews::{fill_after_merge, merge_lacks, min_id, min_u32};
use crate::cmap3::three_sews::filled;
use crate::cmap3::structure::CMap3;
use crate::components::lemma_same_rows;
use crate::error::SewError;
use crate::ids::{DartIdType, NULL_DART_ID};
use vstd::prelude::*;

verus! {

/// Larger of two identifiers.
pub open spec fn max_id(a: u32, b: u32) -> u32 {
    if a >= b { a } else { b }
}

pub(crate) fn max_u32(a: u32, b: u32) -> (r: u32)
    ensures
        r == max_id(a, b),
{
    if a >= b { a } else { b }
}

/// `b` is `a` after merging slots `l` and `r` into the smaller one when `guard` is not the
/// null dart and `l` and `r` differ, else `a`.
pub open spec fn merge_if<A: AttributeUpdate>(a: Seq<Option<A>>, b: Seq<Option<A>>, guard: DartIdType, l: u32, r: u32) -> bool {
    if guard != NULL_DART_ID && l != r { merge_rel(a, b, min_id(l, r) as int, l as int, r as int) } else { b == a }
}

/// `b` is `a` after splitting the smaller of slots `l` and `r` into both when `guard` is not
/// the null dart and `l` and `r` differ, else `a`.
pub open spec fn split_if<A: AttributeUpdate>(a: Seq<Option<A>>, b: Seq<Option<A>>, guard: DartIdType, l: u32, r: u32) -> bool {
    if guard != NULL_DART_ID && l != r { split_rel(a, b, l as int, r as int, min_id(l, r) as int) } else { b == a }
}

impl<V: AttributeUpdate> CMap3<V> {
    /// Same number of darts and same flags.
    pub open spec fn same_darts(&self, other: &Self) -> bool {
        &&& self.n() == other.n()
        &&& self.unused_darts == other.unused_darts
    }

    /// Outcome of [`Self::one_sew`].
    pub open spec fn one_sew_post(o: &Self, f: &Self, ld: DartIdType, rd: DartIdType, r: Result<(), SewError>) -> bool {
        let b3ld = max_id(o.img(3, ld as int), o.img(2, ld as int));
        let lv = o.vid(b3ld as int);
        let rv = o.vid(rd as int);
        match o.one_link_outcome(ld, rd) {
            Err(e) => r == Err::<(), SewError>(SewError::FailedLink(e)) && f.same_map(o),
            Ok(g) => if b3ld != NULL_DART_ID && lv != rv {
                match r {
                    Ok(_) => {
                        &&& f.same_darts(o)
                        &&& f.imgs() =~= g
                        &&& merge_rel(o.vertices.slots(), f.vertices.slots(), min_id(lv, rv) as int, lv as int, rv as int)
                    },
                    Err(e) => {
                        &&& e == SewError::FailedAttributeOp(AttributeError::InsufficientData("merge"))
                        &&& f.same_map(o)
                        &&& o.vertex(lv as int) is None
                        &&& o.vertex(rv as int) is None
                    },
                }
            } else {
                r is Ok && f.has_imgs(o, g)
            },
        }
    }

    /// Outcome of [`Self::one_unsew`].
    pub open spec fn one_unsew_post(o: &Self, f: &Self, ld: DartIdType, r: Result<(), SewError>) -> bool {
        let rd = o.img(1, ld as int);
        let b3ld = max_id(o.img(3, ld as int), o.img(2, ld as int));
        match o.one_unlink_outcome(ld) {
            Err(e) => r == Err::<(), SewError>(SewError::FailedLink(e)) && f.same_map(o),
            Ok(g) => match r {
                Ok(_) => {
                    &&& f.same_darts(o)
                    &&& f.imgs() =~= g
                    &&& split_if(o.vertices.slots(), f.vertices.slots(),
                        b3ld, f.vid(b3ld as int), f.vid(rd as int))
                },
                Err(e) => {
                    &&& e == SewError::FailedAttributeOp(AttributeError::InsufficientData("split"))
                    &&& f.same_map(o)
                    &&& b3ld != NULL_DART_ID
                    &&& exists|u: CMap3<V>| #[trigger] u.has_imgs(o, g) && u.vid(b3ld as int) != u.vid(rd as int)
                        && o.vertex(min_id(u.vid(b3ld as int), u.vid(rd as int)) as int) is None
                },
            },
        }
    }

    /// Outcome of [`Self::two_unsew`].
    pub open spec fn two_unsew_post(o: &Self, f: &Self, ld: DartIdType, r: Result<(), SewError>) -> bool {
        let rd = o.img(2, ld as int);
        let b1ld = max_id(o.img(1, ld as int), o.img(3, ld as int));
        let b1rd = max_id(o.img(1, rd as int), o.img(3, rd as int));
        match o.two_unlink_outcome(ld) {
            Err(e) => r == Err::<(), SewError>(SewError::FailedLink(e)) && f.same_map(o),
            Ok(g) => match r {
                Ok(_) => {
                    &&& f.same_darts(o)
                    &&& f.imgs() =~= g
                    &&& exists|mid: Seq<Option<V>>|
                        split_if(o.vertices.slots(), mid, b1rd, f.vid(ld as int), f.vid(b1rd as int))
                        && #[trigger] split_if(mid, f.vertices.slots(), b1ld, f.vid(b1ld as int), f.vid(rd as int))
                },
                Err(e) => {
                    &&& e == SewError::FailedAttributeOp(AttributeError::InsufficientData("split"))
                    &&& f.same_map(o)
                    &&& exists|u: CMap3<V>| #[trigger] u.has_imgs(o, g) && !Self::two_unsew_data(o, &u, ld)
                },
            },
        }
    }

    /// Whether both splits of a 2-unsew of `ld` find a value to split, `u` having the images
    /// once `ld` is 2-unlinked: the first split (when the larger of *β<sub>1</sub>(rd)*,
    /// *β<sub>3</sub>(rd)* is not null and the identifiers differ) reads the value of the
    /// smaller identifier of `ld` and that dart, and the second (likewise on the other end) that
    /// of the smaller identifier of the larger of *β<sub>1</sub>(ld)*, *β<sub>3</sub>(ld)* and
    /// `rd`, which the first split gives a value when it is one of its two identifiers.
    pub open spec fn two_unsew_data(o: &Self, u: &Self, ld: DartIdType) -> bool {
        let rd = o.img(2, ld as int);
        let b1ld = max_id(o.img(1, ld as int), o.img(3, ld as int));
        let b1rd = max_id(o.img(1, rd as int), o.img(3, rd as int));
        let l1 = u.vid(ld as int);
        let r1 = u.vid(b1rd as int);
        let l2 = u.vid(b1ld as int);
        let r2 = u.vid(rd as int);
        let first = b1rd != NULL_DART_ID && l1 != r1;
        &&& first ==> o.vertex(min_id(l1, r1) as int) is Some
        &&& (b1ld != NULL_DART_ID && l2 != r2) ==> (o.vertex(min_id(l2, r2) as int) is Some
            || (first && (min_id(l2, r2) == l1 || min_id(l2, r2) == r1)))
    }

    /// Outcome of [`Self::two_sew`].
    pub open spec fn two_sew_post(o: &Self, f: &Self, ld: DartIdType, rd: DartIdType, r: Result<(), SewError>) -> bool {
        let b1ld = max_id(o.img(1, ld as int), o.img(3, ld as int));
        let b1rd = max_id(o.img(1, rd as int), o.img(3, rd as int));
        let vl = o.vid(ld as int);
        let vb1r = o.vid(b1rd as int);
        let vb1l = o.vid(b1ld as int);
        let vr = o.vid(rd as int);
        let c1 = b1rd != NULL_DART_ID && vl != vb1r;
        let c2 = b1ld != NULL_DART_ID && vb1l != vr;
        let all_defined = o.vertex(vl as int) is Some && o.vertex(vb1r as int) is Some
            && o.vertex(vb1l as int) is Some && o.vertex(vr as int) is Some;
        &&& match r {
            Ok(_) => {
                &&& o.two_link_outcome(ld, rd) is Ok
                &&& f.same_darts(o)
                &&& f.imgs() =~= o.two_link_outcome(ld, rd)->Ok_0
                &&& exists|mid: Seq<Option<V>>|
                    merge_if(o.vertices.slots(), mid, b1rd, vl, vb1r)
                    && #[trigger] merge_if(mid, f.vertices.slots(), b1ld, vb1l, vr)
            },
            Err(SewError::BadGeometry(i, l, rr)) => {
                &&& i == 2 && l == ld && rr == rd
                &&& all_defined
                &&& f.same_map(o)
            },
            Err(SewError::FailedLink(e)) => {
                &&& o.two_link_outcome(ld, rd) == Err::<spec_fn(int, int) -> DartIdType, _>(e)
                &&& f.same_map(o)
            },
            Err(SewError::FailedAttributeOp(e)) => {
                &&& e == AttributeError::InsufficientData("merge")
                &&& o.two_link_outcome(ld, rd) is Ok
                &&& f.same_map(o)
            },
        }
        &&& (o.two_link_outcome(ld, rd) is Err && !(r matches Err(SewError::BadGeometry(..))) ==> r == Err::<(), SewError>(
            SewError::FailedLink(o.two_link_outcome(ld, rd)->Err_0)))
        &&& ({
            let has0 = filled(o.vertices.slots());
            let has1 = fill_after_merge(has0, c1, vl, vb1r);
            let lacking = merge_lacks(has0, c1, vl, vb1r) || merge_lacks(has1, c2, vb1l, vr);
            &&& (r matches Err(SewError::FailedAttributeOp(_))) ==> lacking && call_ensures(V::merge_from_none, (), None::<V>)
            &&& !lacking ==> !(r matches Err(SewError::FailedAttributeOp(_)))
        })
    }
}

impl<V: AttributeUpdate> CMap3<V> {
    /// 1-sew: 1-link `ld` and `rd`, then, if `ld` has a *β<sub>3</sub>* or *β<sub>2</sub>*
    /// image (the larger is taken), merge the vertex values of that image and of `rd`
    /// (identifiers taken before the link) into the smaller identifier, when they differ.
    pub fn one_sew(&mut self, ld: DartIdType, rd: DartIdType) -> (r: Result<(), SewError>)
        requires
            old(self).wf(),
            ld != NULL_DART_ID,
            rd != NULL_DART_ID,
            (ld as int) < old(self).n(),
            (rd as int) < old(self).n(),
        ensures
            final(self).wf(),
            Self::one_sew_post(old(self), final(self), ld, rd, r),
    {
        let b3ld = max_u32(self.betas.get(3, ld), self.betas.get(2, ld));
        let vid_l_old = self.vertex_id(b3ld);
        let vid_r_old = self.vertex_id(rd);
        let saved = self.betas.copy();
        match self.one_link(ld, rd) {
            Err(e) => return Err(SewError::FailedLink(e)),
            Ok(()) => {},
        }
        if b3ld != NULL_DART_ID && vid_l_old != vid_r_old {
            let new_vid = min_u32(vid_r_old, vid_l_old);
            assert(new_vid == min_id(vid_l_old, vid_r_old));
            match self.vertices.merge(new_vid, vid_l_old, vid_r_old) {
                Err(e) => {
                    self.betas = saved;
                    proof {
                        lemma_same_rows(self.betas, old(self).betas);
                    }
                    return Err(SewError::FailedAttributeOp(e));
                },
                Ok(()) => {},
            }
        }
        Ok(())
    }

    /// 1-unsew: 1-unlink `ld`, then, if `ld` has a *β<sub>3</sub>* or *β<sub>2</sub>* image
    /// (the larger is taken), split the vertex value of the smaller of the new identifiers of
    /// that image and of the former *β<sub>1</sub>(ld)* into both, when they differ.
    pub fn one_unsew(&mut self, ld: DartIdType) -> (r: Result<(), SewError>)
        requires
            old(self).wf(),
            (ld as int) < old(self).n(),
        ensures
            final(self).wf(),
            Self::one_unsew_post(old(self), final(self), ld, r),
    {
        let rd = self.betas.get(1, ld);
        let b3ld = max_u32(self.betas.get(3, ld), self.betas.get(2, ld));
        let saved = self.betas.copy();
        match self.one_unlink(ld) {
            Err(e) => return Err(SewError::FailedLink(e)),
            Ok(()) => {},
        }
        let vid_l_new = self.vertex_id(b3ld);
        let vid_r_new = self.vertex_id(rd);
        if b3ld != NULL_DART_ID && vid_l_new != vid_r_new {
            let old_vid = min_u32(vid_l_new, vid_r_new);
            let ghost u = *self;
            match self.vertices.split(vid_l_new, vid_r_new, old_vid) {
                Err(e) => {
                    self.betas = saved;
                    proof {
                        lemma_same_rows(self.betas, old(self).betas);
                        assert(u.has_imgs(old(self), old(self).one_unlink_outcome(ld)->Ok_0));
                    }
                    return Err(SewError::FailedAttributeOp(e));
                },
                Ok(()) => {},
            }
        }
        Ok(())
    }

    /// 2-unsew: 2-unlink `ld`, then split the vertex values at both ends of the former edge:
    /// the smaller of the new identifiers of `ld` and of the larger of
    /// *β<sub>1</sub>(rd)*, *β<sub>3</sub>(rd)*, when they differ and that dart is not null;
    /// the same for the larger of *β<sub>1</sub>(ld)*, *β<sub>3</sub>(ld)* and `rd`, where
    /// `rd` is the former *β<sub>2</sub>(ld)*.
    pub fn two_unsew(&mut self, ld: DartIdType) -> (r: Result<(), SewError>)
        requires
            old(self).wf(),
            (ld as int) < old(self).n(),
        ensures
            final(self).wf(),
            Self::two_unsew_post(old(self), final(self), ld, r),
    {
        let rd = self.betas.get(2, ld);
        let b1ld = max_u32(self.betas.get(1, ld), self.betas.get(3, ld));
        let b1rd = max_u32(self.betas.get(1, rd), self.betas.get(3, rd));
        let saved = self.betas.copy();
        let saved_v = self.vertices.copy();
        match self.two_unlink(ld) {
            Err(e) => return Err(SewError::FailedLink(e)),
            Ok(()) => {},
        }
        let ghost u = *self;
        let vid_l_newl = self.vertex_id(ld);
        let vid_l_newr = self.vertex_id(b1rd);
        let vid_r_newl = self.vertex_id(b1ld);
        let vid_r_newr = self.vertex_id(rd);
        if b1rd != NULL_DART_ID && vid_l_newl != vid_l_newr {
            let inp = min_u32(vid_l_newl, vid_l_newr);
            match self.vertices.split(vid_l_newl, vid_l_newr, inp) {
                Err(e) => {
                    self.betas = saved;
                    proof {
                        lemma_same_rows(self.betas, old(self).betas);
                    }
                    assert(!Self::two_unsew_data(old(self), &u, ld));
                    return Err(SewError::FailedAttributeOp(e));
                },
                Ok(()) => {},
            }
        }
        let ghost mid = self.vertices.slots();
        if b1ld != NULL_DART_ID && vid_r_newl != vid_r_newr {
            let inp = min_u32(vid_r_newl, vid_r_newr);
            match self.vertices.split(vid_r_newl, vid_r_newr, inp) {
                Err(e) => {
                    self.betas = saved;
                    self.vertices = saved_v;
                    proof {
                        lemma_same_rows(self.betas, old(self).betas);
                    }
                    assert(!Self::two_unsew_data(old(self), &u, ld));
                    return Err(SewError::FailedAttributeOp(e));
                },
                Ok(()) => {},
            }
        }
        assert(split_if(old(self).vertices.slots(), mid, b1rd, self.vid(ld as int), self.vid(b1rd as int)));
        assert(split_if(mid, self.vertices.slots(), b1ld, self.vid(b1ld as int), self.vid(rd as int)));
        Ok(())
    }
}

impl<V: VertexAttribute> CMap3<V> {
    /// What the orientation test of a 2-sew of `ld` and `rd` decides: it is made on the vertex
    /// values of `ld`, of the larger of *β<sub>1</sub>(ld)* and *β<sub>3</sub>(ld)*, of `rd` and
    /// of the larger of *β<sub>1</sub>(rd)* and *β<sub>3</sub>(rd)* (see
    /// [`orientation_decides`]).
    pub open spec fn two_sew_orientation(o: &Self, ld: DartIdType, rd: DartIdType, r: Result<(), SewError>) -> bool {
        let b1ld = max_id(o.img(1, ld as int), o.img(3, ld as int));
        let b1rd = max_id(o.img(1, rd as int), o.img(3, rd as int));
        orientation_decides(
            o.vertex(o.vid(ld as int) as int),
            o.vertex(o.vid(b1ld as int) as int),
            o.vertex(o.vid(rd as int) as int),
            o.vertex(o.vid(b1rd as int) as int),
            r matches Err(SewError::BadGeometry(..)),
        )
    }
}

impl<V: VertexAttribute> CMap3<V> {
    /// 2-sew: check the orientation of `ld` and `rd`, 2-link them, then merge the vertex values
    /// at both ends of the new edge: those of `ld` and of the larger of *β<sub>1</sub>(rd)*,
    /// *β<sub>3</sub>(rd)*, when they differ and that dart is not null; the same for the
    /// larger of *β<sub>1</sub>(ld)*, *β<sub>3</sub>(ld)* and `rd` (identifiers taken before
    /// the link).
    ///
    /// The orientation check applies when the four vertex values are defined: the darts must run
    /// in opposite directions.
    pub fn two_sew(&mut self, ld: DartIdType, rd: DartIdType) -> (r: Result<(), SewError>)
        requires
            old(self).wf(),
            ld != NULL_DART_ID,
            rd != NULL_DART_ID,
            (ld as int) < old(self).n(),
            (rd as int) < old(self).n(),
        ensures
            final(self).wf(),
            Self::two_sew_post(old(self), final(self), ld, rd, r),
            Self::two_sew_orientation(old(self), ld, rd, r),
    {
        let b1ld = max_u32(self.betas.get(1, ld), self.betas.get(3, ld));
        let b1rd = max_u32(self.betas.get(1, rd), self.betas.get(3, rd));
        let vid_l = self.vertex_id(ld);
        let vid_b1r = self.vertex_id(b1rd);
        let vid_b1l = self.vertex_id(b1ld);
        let vid_r = self.vertex_id(rd);
        if let (Some(l_vertex), Some(b1r_vertex), Some(b1l_vertex), Some(r_vertex)) = (
            self.vertices.read(vid_l),
            self.vertices.read(vid_b1r),
            self.vertices.read(vid_b1l),
            self.vertices.read(vid_r),
        ) {
            if !V::opposite_directions(l_vertex, b1l_vertex, r_vertex, b1r_vertex) {
                return Err(SewError::BadGeometry(2, ld, rd));
            }
        }
        let saved = self.betas.copy();
        let saved_v = self.vertices.copy();
        match self.two_link(ld, rd) {
            Err(e) => return Err(SewError::FailedLink(e)),
            Ok(()) => {},
        }
        if b1rd != NULL_DART_ID && vid_l != vid_b1r {
            let new_vid = min_u32(vid_l, vid_b1r);
            match self.vertices.merge(new_vid, vid_l, vid_b1r) {
                Err(e) => {
                    self.betas = saved;
                    proof {
                        lemma_same_rows(self.betas, old(self).betas);
                    }
                    return Err(SewError::FailedAttributeOp(e));
                },
                Ok(()) => {},
            }
        }
        let ghost mid = self.vertices.slots();
        if b1ld != NULL_DART_ID && vid_b1l != vid_r {
            let new_vid = min_u32(vid_b1l, vid_r);
            match self.vertices.merge(new_vid, vid_b1l, vid_r) {
                Err(e) => {
                    self.betas = saved;
                    self.vertices = saved_v;
                    proof {
                        lemma_same_rows(self.betas, old(self).betas);
                    }
                    return Err(SewError::FailedAttributeOp(e));
                },
                Ok(()) => {},
            }
        }
        assert(merge_if(old(self).vertices.slots(), mid, b1rd, vid_l, vid_b1r));
        assert(merge_if(mid, self.vertices.slots(), b1ld, vid_b1l, vid_r));
        Ok(())
    }
}

} // verus!
