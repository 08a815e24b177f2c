//! Sew and unsew operations of [`CMap2`]: links that also merge or split the vertex values.

use crate::attributes::{merge_rel, orientation_decides, split_rel, AttributeError, AttributeUpdate, VertexAttribute};
use crate::cmap2::structure::CMap2;
use crate::cmap3::three_sews::filled;
use crate::error::{LinkError, SewError};
use crate::ids::{DartIdType, VertexIdType, NULL_DART_ID};
use vstd::prelude::*;

verus! {

/// Smaller of two identifiers.
pub open spec fn min_id(a: u32, b: u32) -> u32 {
    if a <= b { a } else { b }
}

/// `b` is `a` when `guard` is the null dart, else `a` after merging slots `l` and `r` into the
/// smaller one.
pub open spec fn merge_step<A: AttributeUpdate>(a: Seq<Option<A>>, b: Seq<Option<A>>, guard: DartIdType, l: u32, r: u32) -> bool {
    if guard != NULL_DART_ID { merge_rel(a, b, min_id(l, r) as int, l as int, r as int) } else { b == a }
}

/// `b` is `a` when `guard` is the null dart, else `a` after splitting the smaller of slots `l`
/// and `r` into both.
pub open spec fn split_step<A: AttributeUpdate>(a: Seq<Option<A>>, b: Seq<Option<A>>, guard: DartIdType, l: u32, r: u32) -> bool {
    if guard != NULL_DART_ID { split_rel(a, b, l as int, r as int, min_id(l, r) as int) } else { b == a }
}

/// Which slots hold a value (`full`) after merging slots `l` and `r` into the smaller one, when
/// `merging`.
pub open spec fn fill_after_merge(full: Seq<bool>, merging: bool, l: u32, r: u32) -> Seq<bool> {
    if merging {
        full.update(l as int, false).update(r as int, false).update(min_id(l, r) as int, true)
    } else {
        full
    }
}

/// A merge of slots `l` and `r`, when `merging`, finds no value in either (`full` telling which
/// slots hold one): only `merge_from_none` can then give the merged value.
pub open spec fn merge_lacks(full: Seq<bool>, merging: bool, l: u32, r: u32) -> bool {
    merging && !full[l as int] && !full[r as int]
}

pub(crate) fn min_u32(a: u32, b: u32) -> (r: u32)
    ensures
        r == min_id(a, b),
{
    if a <= b { a } else { b }
}

impl<V: AttributeUpdate> CMap2<V> {
    /// Outcome of [`Self::one_sew`].
    pub open spec fn one_sew_post(o: &Self, f: &Self, ld: DartIdType, rd: DartIdType, r: Result<(), SewError>) -> bool {
        let b2ld = o.img(2, ld as int);
        let lv = o.vid(b2ld as int);
        let rv = o.vid(rd as int);
        match o.one_link_error(ld, rd) {
            Some(e) => r == Err::<(), SewError>(SewError::FailedLink(e)) && *f == *o,
            None => match r {
                Ok(_) => {
                    &&& f.one_linked_topo(o, ld, rd)
                    &&& f.unused_darts == o.unused_darts
                    &&& merge_step(o.vertices.slots(), f.vertices.slots(), b2ld, lv, rv)
                },
                Err(e) => {
                    &&& e == SewError::FailedAttributeOp(AttributeError::InsufficientData("merge"))
                    &&& f.same_map(o)
                    &&& b2ld != NULL_DART_ID
                    &&& o.vertex(lv as int) is None
                    &&& o.vertex(rv as int) is None
                },
            },
        }
    }

    /// Outcome of [`Self::one_unsew`].
    pub open spec fn one_unsew_post(o: &Self, f: &Self, ld: DartIdType, r: Result<(), SewError>) -> bool {
        let rd = o.img(1, ld as int);
        let b2ld = o.img(2, ld as int);
        if rd == NULL_DART_ID {
            r == Err::<(), SewError>(SewError::FailedLink(LinkError::AlreadyFree(1, ld))) && f.same_map(o)
        } else {
            match r {
                Ok(_) => {
                    &&& f.one_unlinked_topo(o, ld, rd)
                    &&& f.unused_darts == o.unused_darts
                    &&& split_step(o.vertices.slots(), f.vertices.slots(), b2ld,
                        f.vid(b2ld as int), f.vid(rd as int))
                },
                Err(e) => {
                    &&& e == SewError::FailedAttributeOp(AttributeError::InsufficientData("split"))
                    &&& f.same_map(o)
                    &&& b2ld != NULL_DART_ID
                    &&& exists|u: CMap2<V>| #[trigger] u.one_unlinked_topo(o, ld, rd)
                        && o.vertex(min_id(u.vid(b2ld as int), u.vid(rd as int)) as int) is None
                },
            }
        }
    }

    /// Outcome of [`Self::two_unsew`].
    pub open spec fn two_unsew_post(o: &Self, f: &Self, ld: DartIdType, r: Result<(), SewError>) -> bool {
        let rd = o.img(2, ld as int);
        let b1ld = o.img(1, ld as int);
        let b1rd = o.img(1, rd as int);
        if rd == NULL_DART_ID {
            r == Err::<(), SewError>(SewError::FailedLink(LinkError::AlreadyFree(2, ld))) && f.same_map(o)
        } else {
            match r {
                Ok(_) => {
                    &&& f.two_unlinked_topo(o, ld, rd)
                    &&& f.unused_darts == o.unused_darts
                    &&& exists|mid: Seq<Option<V>>|
                        split_step(o.vertices.slots(), mid, b1rd, f.vid(ld as int), f.vid(b1rd as int))
                        && #[trigger] split_step(mid, f.vertices.slots(), b1ld, f.vid(b1ld as int), f.vid(rd as int))
                },
                Err(e) => {
                    &&& e == SewError::FailedAttributeOp(AttributeError::InsufficientData("split"))
                    &&& f.same_map(o)
                    &&& exists|u: CMap2<V>| #[trigger] u.two_unlinked_topo(o, ld, rd) && !Self::two_unsew_data(o, &u, ld)
                },
            }
        }
    }

    /// Whether both splits of a 2-unsew of `ld` find a value to split, `u` having the images
    /// once `ld` is 2-unlinked: the first split (when *β<sub>1</sub>(rd)* is not null) reads the
    /// value of the smaller identifier of `ld` and *β<sub>1</sub>(rd)*, and the second (when
    /// *β<sub>1</sub>(ld)* is not null) that of the smaller identifier of *β<sub>1</sub>(ld)*
    /// and `rd`, which the first split gives a value when it is one of its two identifiers.
    pub open spec fn two_unsew_data(o: &Self, u: &Self, ld: DartIdType) -> bool {
        let rd = o.img(2, ld as int);
        let b1ld = o.img(1, ld as int);
        let b1rd = o.img(1, rd as int);
        let l1 = u.vid(ld as int);
        let r1 = u.vid(b1rd as int);
        let i2 = min_id(u.vid(b1ld as int), u.vid(rd as int));
        &&& b1rd != NULL_DART_ID ==> o.vertex(min_id(l1, r1) as int) is Some
        &&& b1ld != NULL_DART_ID ==> (o.vertex(i2 as int) is Some || (b1rd != NULL_DART_ID && (i2 == l1 || i2 == r1)))
    }

    /// Outcome of [`Self::two_sew`].
    pub open spec fn two_sew_post(o: &Self, f: &Self, ld: DartIdType, rd: DartIdType, r: Result<(), SewError>) -> bool {
        let b1ld = o.img(1, ld as int);
        let b1rd = o.img(1, rd as int);
        let ld_vid = o.vid(ld as int);
        let b1rd_vid = o.vid(b1rd as int);
        let b1ld_vid = o.vid(b1ld as int);
        let rd_vid = o.vid(rd as int);
        let all_defined = o.vertex(ld_vid as int) is Some && o.vertex(b1rd_vid as int) is Some
            && o.vertex(b1ld_vid as int) is Some && o.vertex(rd_vid as int) is Some;
        &&& match r {
            Ok(_) => {
                &&& o.two_link_error(ld, rd) is None
                &&& f.two_linked_topo(o, ld, rd)
                &&& f.unused_darts == o.unused_darts
                &&& exists|mid: Seq<Option<V>>|
                    merge_step(o.vertices.slots(), mid, b1rd, ld_vid, b1rd_vid)
                    && #[trigger] merge_step(mid, f.vertices.slots(), b1ld, b1ld_vid, rd_vid)
            },
            Err(SewError::BadGeometry(i, l, rr)) => {
                &&& i == 2 && l == ld && rr == rd
                &&& all_defined
                &&& f.same_map(o)
            },
            Err(SewError::FailedLink(e)) => {
                &&& o.two_link_error(ld, rd) == Some(e)
                &&& f.same_map(o)
            },
            Err(SewError::FailedAttributeOp(e)) => {
                &&& e == AttributeError::InsufficientData("merge")
                &&& o.two_link_error(ld, rd) is None
                &&& f.same_map(o)
            },
        }
        &&& (o.two_link_error(ld, rd) is Some && !(r matches Err(SewError::BadGeometry(..))) ==> r == Err::<(), SewError>(SewError::FailedLink(o.two_link_error(ld, rd)->0)))
        &&& ({
            let has0 = filled(o.vertices.slots());
            let has1 = fill_after_merge(has0, b1rd != NULL_DART_ID, ld_vid, b1rd_vid);
            let lacking = merge_lacks(has0, b1rd != NULL_DART_ID, ld_vid, b1rd_vid)
                || merge_lacks(has1, b1ld != NULL_DART_ID, b1ld_vid, rd_vid);
            &&& (r matches Err(SewError::FailedAttributeOp(_))) ==> lacking && call_ensures(V::merge_from_none, (), None::<V>)
            &&& !lacking ==> !(r matches Err(SewError::FailedAttributeOp(_)))
        })
    }

    /// 1-sew: 1-link `ld` and `rd`, then, if `ld` has a *β<sub>2</sub>* image, merge the
    /// vertex values of that image and of `rd` (identifiers taken before the link) into the
    /// smaller identifier.
    ///
    /// On failure (link refused, or no vertex value to merge) the map is left as it is.
    pub fn one_sew(&mut self, ld: DartIdType, rd: DartIdType) -> (r: Result<(), SewError>)
        requires
            old(self).wf(),
            ld != NULL_DART_ID,
            rd != NULL_DART_ID,
            (ld as int) < old(self).n(),
            (rd as int) < old(self).n(),
        ensures
            final(self).wf(),
            Self::one_sew_post(old(self), final(self), ld, rd, r),
    {
        let b2ld = self.betas.get(2, ld);
        let b2l_vid = self.vertex_id(b2ld);
        let r_vid = self.vertex_id(rd);
        let ghost o = *self;
        match self.one_link(ld, rd) {
            Err(e) => return Err(SewError::FailedLink(e)),
            Ok(()) => {},
        }
        if b2ld != NULL_DART_ID {
            let out = min_u32(b2l_vid, r_vid);
            match self.vertices.merge(out, b2l_vid, r_vid) {
                Err(e) => {
                    let _ = self.one_unlink(ld);
                    return Err(SewError::FailedAttributeOp(e));
                },
                Ok(()) => {},
            }
        }
        Ok(())
    }
}

impl<V: AttributeUpdate> CMap2<V> {
    /// 1-unsew: 1-unlink `ld`, then, if `ld` has a *β<sub>2</sub>* image, split the vertex value
    /// of the smaller of the new identifiers of that image and of the former *β<sub>1</sub>(ld)*
    /// into both.
    ///
    /// On failure (`ld` is 1-free, or no vertex value to split) the map is left as it is.
    pub fn one_unsew(&mut self, ld: DartIdType) -> (r: Result<(), SewError>)
        requires
            old(self).wf(),
            (ld as int) < old(self).n(),
        ensures
            final(self).wf(),
            Self::one_unsew_post(old(self), final(self), ld, r),
    {
        let rd = self.betas.get(1, ld);
        let b2ld = self.betas.get(2, ld);
        let b0rd = self.betas.get(0, rd);
        let ghost o = *self;
        match self.one_unlink(ld) {
            Err(e) => return Err(SewError::FailedLink(e)),
            Ok(()) => {},
        }
        if b2ld != NULL_DART_ID {
            let new_lhs = self.vertex_id(b2ld);
            let new_rhs = self.vertex_id(rd);
            let inp = min_u32(new_lhs, new_rhs);
            let ghost u = *self;
            match self.vertices.split(new_lhs, new_rhs, inp) {
                Err(e) => {
                    assert(u.one_unlinked_topo(&o, ld, rd));
                    self.betas.set(1, ld, rd);
                    self.betas.set(0, rd, b0rd);
                    return Err(SewError::FailedAttributeOp(e));
                },
                Ok(()) => {},
            }
        }
        Ok(())
    }

    /// 2-unsew: 2-unlink `ld`, then split the vertex values at both ends of the former edge:
    /// the smaller of the new identifiers of `ld` and *β<sub>1</sub>(rd)* into both (if `rd` is
    /// not 1-free), and the smaller of those of *β<sub>1</sub>(ld)* and `rd` into both (if `ld`
    /// is not 1-free), where `rd` is the former *β<sub>2</sub>(ld)*.
    ///
    /// On failure (`ld` is 2-free, or no vertex value to split) the map is left as it is.
    pub fn two_unsew(&mut self, ld: DartIdType) -> (r: Result<(), SewError>)
        requires
            old(self).wf(),
            (ld as int) < old(self).n(),
        ensures
            final(self).wf(),
            Self::two_unsew_post(old(self), final(self), ld, r),
    {
        let rd = self.betas.get(2, ld);
        let b1ld = self.betas.get(1, ld);
        let b1rd = self.betas.get(1, rd);
        let b2rd = self.betas.get(2, rd);
        let ghost o = *self;
        match self.two_unlink(ld) {
            Err(e) => return Err(SewError::FailedLink(e)),
            Ok(()) => {},
        }
        let ghost u = *self;
        let new_lv_ld = self.vertex_id(ld);
        let new_lv_rd = self.vertex_id(b1rd);
        let new_rv_ld = self.vertex_id(b1ld);
        let new_rv_rd = self.vertex_id(rd);
        let saved_l = self.vertices.read(new_lv_ld);
        let saved_r = self.vertices.read(new_lv_rd);
        if b1rd != NULL_DART_ID {
            let inp = min_u32(new_lv_ld, new_lv_rd);
            match self.vertices.split(new_lv_ld, new_lv_rd, inp) {
                Err(e) => {
                    self.betas.set(2, ld, rd);
                    self.betas.set(2, rd, b2rd);
                    assert(u.two_unlinked_topo(&o, ld, rd) && !Self::two_unsew_data(&o, &u, ld));
                    return Err(SewError::FailedAttributeOp(e));
                },
                Ok(()) => {},
            }
        }
        let ghost mid = self.vertices.slots();
        if b1ld != NULL_DART_ID {
            let inp = min_u32(new_rv_ld, new_rv_rd);
            match self.vertices.split(new_rv_ld, new_rv_rd, inp) {
                Err(e) => {
                    if b1rd != NULL_DART_ID {
                        self.vertices.set_slot(new_lv_ld, saved_l);
                        self.vertices.set_slot(new_lv_rd, saved_r);
                    }
                    assert(self.vertices.slots() =~= o.vertices.slots());
                    self.betas.set(2, ld, rd);
                    self.betas.set(2, rd, b2rd);
                    assert(u.two_unlinked_topo(&o, ld, rd) && !Self::two_unsew_data(&o, &u, ld));
                    return Err(SewError::FailedAttributeOp(e));
                },
                Ok(()) => {},
            }
        }
        assert(split_step(o.vertices.slots(), mid, b1rd, self.vid(ld as int), self.vid(b1rd as int)));
        assert(split_step(mid, self.vertices.slots(), b1ld, self.vid(b1ld as int), self.vid(rd as int)));
        Ok(())
    }
}

impl<V: VertexAttribute> CMap2<V> {
    /// What the orientation test of a 2-sew of `ld` and `rd` decides: it is made on the vertex
    /// values of `ld`, *β<sub>1</sub>(ld)*, `rd` and *β<sub>1</sub>(rd)* (see
    /// [`orientation_decides`]).
    pub open spec fn two_sew_orientation(o: &Self, ld: DartIdType, rd: DartIdType, r: Result<(), SewError>) -> bool {
        orientation_decides(
            o.vertex(o.vid(ld as int) as int),
            o.vertex(o.vid(o.img(1, ld as int) as int) as int),
            o.vertex(o.vid(rd as int) as int),
            o.vertex(o.vid(o.img(1, rd as int) as int) as int),
            r matches Err(SewError::BadGeometry(..)),
        )
    }
}

impl<V: VertexAttribute> CMap2<V> {
    /// 2-sew: check the orientation of `ld` and `rd`, 2-link them, then merge the vertex values
    /// of `ld` and *β<sub>1</sub>(rd)* (if `rd` is not 1-free) and those of *β<sub>1</sub>(ld)*
    /// and `rd` (if `ld` is not 1-free), each into the smaller identifier (identifiers taken
    /// before the link).
    ///
    /// The orientation check applies when the four vertex values are defined: the darts must run
    /// in opposite directions. On failure (bad orientation, link refused, or no vertex value to
    /// merge) the map is left as it is.
    pub fn two_sew(&mut self, ld: DartIdType, rd: DartIdType) -> (r: Result<(), SewError>)
        requires
            old(self).wf(),
            ld != NULL_DART_ID,
            rd != NULL_DART_ID,
            (ld as int) < old(self).n(),
            (rd as int) < old(self).n(),
        ensures
            final(self).wf(),
            Self::two_sew_post(old(self), final(self), ld, rd, r),
            Self::two_sew_orientation(old(self), ld, rd, r),
    {
        let b1ld = self.betas.get(1, ld);
        let b1rd = self.betas.get(1, rd);
        let ld_vid = self.vertex_id(ld);
        let b1rd_vid = self.vertex_id(b1rd);
        let b1ld_vid = self.vertex_id(b1ld);
        let rd_vid = self.vertex_id(rd);
        let ghost o = *self;
        if let (Some(l_vertex), Some(b1r_vertex), Some(b1l_vertex), Some(r_vertex)) = (
            self.vertices.read(ld_vid),
            self.vertices.read(b1rd_vid),
            self.vertices.read(b1ld_vid),
            self.vertices.read(rd_vid),
        ) {
            if !V::opposite_directions(l_vertex, b1l_vertex, r_vertex, b1r_vertex) {
                return Err(SewError::BadGeometry(2, ld, rd));
            }
        }
        match self.two_link(ld, rd) {
            Err(e) => return Err(SewError::FailedLink(e)),
            Ok(()) => {},
        }
        let saved_l = self.vertices.read(ld_vid);
        let saved_r = self.vertices.read(b1rd_vid);
        if b1rd != NULL_DART_ID {
            let out = min_u32(ld_vid, b1rd_vid);
            match self.vertices.merge(out, ld_vid, b1rd_vid) {
                Err(e) => {
                    let _ = self.two_unlink(ld);
                    return Err(SewError::FailedAttributeOp(e));
                },
                Ok(()) => {},
            }
        }
        let ghost mid = self.vertices.slots();
        if b1ld != NULL_DART_ID {
            let out = min_u32(b1ld_vid, rd_vid);
            match self.vertices.merge(out, b1ld_vid, rd_vid) {
                Err(e) => {
                    if b1rd != NULL_DART_ID {
                        self.vertices.set_slot(ld_vid, saved_l);
                        self.vertices.set_slot(b1rd_vid, saved_r);
                    }
                    assert(self.vertices.slots() =~= o.vertices.slots());
                    let _ = self.two_unlink(ld);
                    return Err(SewError::FailedAttributeOp(e));
                },
                Ok(()) => {},
            }
        }
        assert(merge_step(o.vertices.slots(), mid, b1rd, ld_vid, b1rd_vid));
        assert(merge_step(mid, self.vertices.slots(), b1ld, b1ld_vid, rd_vid));
        Ok(())
    }

    /// `I`-sew operator (`I` is 1 or 2): see [`Self::one_sew`] and [`Self::two_sew`].
    pub fn sew<const I: u8>(&mut self, ld: DartIdType, rd: DartIdType) -> (r: Result<(), SewError>)
        requires
            old(self).wf(),
            I == 1 || I == 2,
            ld != NULL_DART_ID,
            rd != NULL_DART_ID,
            (ld as int) < old(self).n(),
            (rd as int) < old(self).n(),
        ensures
            final(self).wf(),
            I == 1 ==> Self::one_sew_post(old(self), final(self), ld, rd, r),
            I == 2 ==> Self::two_sew_post(old(self), final(self), ld, rd, r),
            I == 2 ==> Self::two_sew_orientation(old(self), ld, rd, r),
    {
        if I == 1 {
            self.one_sew(ld, rd)
        } else {
            self.two_sew(ld, rd)
        }
    }

    /// `I`-unsew operator (`I` is 1 or 2): see [`Self::one_unsew`] and [`Self::two_unsew`].
    pub fn unsew<const I: u8>(&mut self, ld: DartIdType) -> (r: Result<(), SewError>)
        requires
            old(self).wf(),
            I == 1 || I == 2,
            (ld as int) < old(self).n(),
        ensures
            final(self).wf(),
            I == 1 ==> Self::one_unsew_post(old(self), final(self), ld, r),
            I == 2 ==> Self::two_unsew_post(old(self), final(self), ld, r),
    {
        if I == 1 {
            self.one_unsew(ld)
        } else {
            self.two_unsew(ld)
        }
    }

    /// `I`-sew operator; the map has a single owner, so this is [`Self::sew`].
    pub fn force_sew<const I: u8>(&mut self, ld: DartIdType, rd: DartIdType) -> (r: Result<(), SewError>)
        requires
            old(self).wf(),
            I == 1 || I == 2,
            ld != NULL_DART_ID,
            rd != NULL_DART_ID,
            (ld as int) < old(self).n(),
            (rd as int) < old(self).n(),
        ensures
            final(self).wf(),
            I == 1 ==> Self::one_sew_post(old(self), final(self), ld, rd, r),
            I == 2 ==> Self::two_sew_post(old(self), final(self), ld, rd, r),
    {
        self.sew::<I>(ld, rd)
    }

    /// `I`-unsew operator; the map has a single owner, so this is [`Self::unsew`].
    pub fn force_unsew<const I: u8>(&mut self, ld: DartIdType) -> (r: Result<(), SewError>)
        requires
            old(self).wf(),
            I == 1 || I == 2,
            (ld as int) < old(self).n(),
        ensures
            final(self).wf(),
            I == 1 ==> Self::one_unsew_post(old(self), final(self), ld, r),
            I == 2 ==> Self::two_unsew_post(old(self), final(self), ld, r),
    {
        self.unsew::<I>(ld)
    }
}

} // verus!
