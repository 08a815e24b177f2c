//! Link and unlink operations of [`CMap3`].
//!
//! A failed operation leaves the map as it was.

use crate::attributes::AttributeUpdate;
use crate::components::lemma_same_rows;
use crate::cmap3::structure::CMap3;
use crate::error::LinkError;
use crate::ids::{DartIdType, NULL_DART_ID};
use vstd::prelude::*;

verus! {

/// `f` with the image *β<sub>i</sub>(d)* set to `v`.
pub open spec fn set_img(f: spec_fn(int, int) -> DartIdType, i: int, d: int, v: DartIdType) -> spec_fn(int, int) -> DartIdType {
    |j: int, e: int| if j == i && e == d { v } else { f(j, e) }
}

/// Number of null entries.
pub open spec fn count_null(s: Seq<DartIdType>) -> nat
    decreases s.len(),
{
    if s.len() == 0 {
        0
    } else {
        count_null(s.drop_last()) + if s.last() == NULL_DART_ID { 1nat } else { 0nat }
    }
}

/// Number of non-null entries.
pub open spec fn count_linked(s: Seq<DartIdType>) -> nat {
    (s.len() - count_null(s)) as nat
}

/// The *β<sub>3</sub>* column `b3` once `l` and `r` are 3-linked.
pub open spec fn link3(b3: Seq<DartIdType>, l: DartIdType, r: DartIdType) -> Seq<DartIdType> {
    b3.update(l as int, r).update(r as int, l)
}

/// The *β<sub>3</sub>* column `b3` once `l` and its image are 3-unlinked.
pub open spec fn unlink3(b3: Seq<DartIdType>, l: DartIdType) -> Seq<DartIdType> {
    b3.update(l as int, NULL_DART_ID).update(b3[l as int] as int, NULL_DART_ID)
}

pub proof fn lemma_count_null_le(s: Seq<DartIdType>)
    ensures
        count_null(s) <= s.len(),
    decreases s.len(),
{
    if s.len() > 0 {
        lemma_count_null_le(s.drop_last());
    }
}

/// Setting an entry to a non-null value: one null entry less if it was null, else no more.
pub proof fn lemma_count_null_set(s: Seq<DartIdType>, i: int, v: DartIdType)
    requires
        0 <= i < s.len(),
        v != NULL_DART_ID,
    ensures
        s[i] == NULL_DART_ID ==> count_null(s.update(i, v)) + 1 == count_null(s),
        s[i] != NULL_DART_ID ==> count_null(s.update(i, v)) == count_null(s),
    decreases s.len(),
{
    let t = s.update(i, v);
    if i == s.len() - 1 {
        assert(t.drop_last() =~= s.drop_last());
    } else {
        assert(t.drop_last() =~= s.drop_last().update(i, v));
        lemma_count_null_set(s.drop_last(), i, v);
    }
}

/// Setting an entry to null: one null entry more if it was not null, else no change.
pub proof fn lemma_count_null_clear(s: Seq<DartIdType>, i: int)
    requires
        0 <= i < s.len(),
    ensures
        s[i] != NULL_DART_ID ==> count_null(s.update(i, NULL_DART_ID)) == count_null(s) + 1,
        s[i] == NULL_DART_ID ==> count_null(s.update(i, NULL_DART_ID)) == count_null(s),
    decreases s.len(),
{
    let t = s.update(i, NULL_DART_ID);
    if i == s.len() - 1 {
        assert(t.drop_last() =~= s.drop_last());
    } else {
        assert(t.drop_last() =~= s.drop_last().update(i, NULL_DART_ID));
        lemma_count_null_clear(s.drop_last(), i);
    }
}

/// 3-linking a 3-free dart of the column to a non-null dart leaves fewer null entries.
pub proof fn lemma_link3_count(b3: Seq<DartIdType>, l: DartIdType, r: DartIdType)
    requires
        (l as int) < b3.len(),
        (r as int) < b3.len(),
        l != NULL_DART_ID,
        r != NULL_DART_ID,
        b3[l as int] == NULL_DART_ID,
    ensures
        count_null(link3(b3, l, r)) < count_null(b3),
{
    let t = b3.update(l as int, r);
    lemma_count_null_set(b3, l as int, r);
    lemma_count_null_set(t, r as int, l);
}

/// 3-unlinking a 3-linked dart of the column leaves fewer linked entries.
pub proof fn lemma_unlink3_count(b3: Seq<DartIdType>, l: DartIdType)
    requires
        (l as int) < b3.len(),
        (b3[l as int] as int) < b3.len(),
        b3[l as int] != NULL_DART_ID,
    ensures
        count_linked(unlink3(b3, l)) < count_linked(b3),
        unlink3(b3, l).len() == b3.len(),
{
    let t = b3.update(l as int, NULL_DART_ID);
    lemma_count_null_clear(b3, l as int);
    lemma_count_null_clear(t, b3[l as int] as int);
    lemma_count_null_le(unlink3(b3, l));
}

/// Outcome of the 3-link of the faces of `ld` and `rd`, from the candidate pair `(l, r)` on,
/// with the *β<sub>3</sub>* column `b3` reached so far.
///
/// The face of `ld` is walked with *β<sub>1</sub>* and the face of `rd` with *β<sub>0</sub>*
/// (`back == false`) until the walk comes back to `ld`; if it reaches the null dart instead,
/// the walk resumes from *β<sub>0</sub>(ld)* and *β<sub>1</sub>(rd)*, with *β<sub>0</sub>* and
/// *β<sub>1</sub>* swapped (`back == true`), until it reaches the null dart. Each pair met is
/// 3-linked in turn; the walks must end together.
pub open spec fn three_link_from(
    b0: Seq<DartIdType>,
    b1: Seq<DartIdType>,
    ld: DartIdType,
    rd: DartIdType,
    b3: Seq<DartIdType>,
    back: bool,
    l: DartIdType,
    r: DartIdType,
) -> Result<Seq<DartIdType>, LinkError>
    decreases count_null(b3), if back { 0int } else { 1int },
{
    if !((l as int) < b3.len() && (r as int) < b3.len() && b0.len() == b3.len() && b1.len() == b3.len()
        && (ld as int) < b3.len() && (rd as int) < b3.len()) {
        // outside the map: not reached from a well-formed map
        Err(LinkError::AsymmetricalFaces(ld, rd))
    } else if !back && l == ld {
        Ok(b3)
    } else if !back && l == NULL_DART_ID {
        if r != NULL_DART_ID {
            Err(LinkError::AsymmetricalFaces(ld, rd))
        } else {
            three_link_from(b0, b1, ld, rd, b3, true, b0[ld as int], b1[rd as int])
        }
    } else if back && l == NULL_DART_ID {
        Ok(b3)
    } else if r == NULL_DART_ID {
        Err(LinkError::AsymmetricalFaces(ld, rd))
    } else if b3[l as int] != NULL_DART_ID {
        Err(LinkError::NonFreeBase(3, l, r))
    } else if b3[r as int] != NULL_DART_ID {
        Err(LinkError::NonFreeImage(3, l, r))
    } else {
        let nb3 = link3(b3, l, r);
        proof {
            lemma_link3_count(b3, l, r);
        }
        if back {
            three_link_from(b0, b1, ld, rd, nb3, true, b0[l as int], b1[r as int])
        } else {
            three_link_from(b0, b1, ld, rd, nb3, false, b1[l as int], b0[r as int])
        }
    }
}

/// Outcome of the 3-unlink of the faces of `ld` and `rd`, from the candidate pair `(l, r)` on,
/// with the *β<sub>3</sub>* column `b3` reached so far and the pairs `acc_l`, `acc_r` unlinked
/// so far: the new column and the two sequences of unlinked darts. The walk is that of
/// [`three_link_from`]; each dart met on the side of `ld` must be 3-linked to the dart met on
/// the other side, and is 3-unlinked in turn.
pub open spec fn three_unlink_from(
    b0: Seq<DartIdType>,
    b1: Seq<DartIdType>,
    ld: DartIdType,
    rd: DartIdType,
    b3: Seq<DartIdType>,
    back: bool,
    l: DartIdType,
    r: DartIdType,
    acc_l: Seq<DartIdType>,
    acc_r: Seq<DartIdType>,
) -> Result<(Seq<DartIdType>, Seq<DartIdType>, Seq<DartIdType>), LinkError>
    decreases count_linked(b3), if back { 0int } else { 1int },
{
    if !((l as int) < b3.len() && (r as int) < b3.len() && b0.len() == b3.len() && b1.len() == b3.len()
        && (ld as int) < b3.len() && (rd as int) < b3.len() && forall|d: int| 0 <= d < b3.len() ==> (#[trigger] b3[d] as int) < b3.len()) {
        // outside the map: not reached from a well-formed map
        Err(LinkError::AsymmetricalFaces(ld, rd))
    } else if !back && l == ld {
        Ok((b3, acc_l, acc_r))
    } else if !back && l == NULL_DART_ID {
        if r != NULL_DART_ID {
            Err(LinkError::AsymmetricalFaces(ld, rd))
        } else {
            three_unlink_from(b0, b1, ld, rd, b3, true, b0[ld as int], b1[rd as int], acc_l, acc_r)
        }
    } else if back && l == NULL_DART_ID {
        Ok((b3, acc_l, acc_r))
    } else if l != b3[r as int] {
        Err(LinkError::AsymmetricalFaces(ld, rd))
    } else if b3[l as int] == NULL_DART_ID {
        Err(LinkError::AlreadyFree(3, l))
    } else {
        let nb3 = unlink3(b3, l);
        proof {
            lemma_unlink3_count(b3, l);
        }
        if back {
            three_unlink_from(b0, b1, ld, rd, nb3, true, b0[l as int], b1[r as int], acc_l.push(l), acc_r.push(r))
        } else {
            three_unlink_from(b0, b1, ld, rd, nb3, false, b1[l as int], b0[r as int], acc_l.push(l), acc_r.push(r))
        }
    }
}

impl<V: AttributeUpdate> CMap3<V> {
    /// The image function of the map: *β<sub>i</sub>(d)* for the darts of the map, null
    /// elsewhere.
    pub open spec fn imgs(&self) -> spec_fn(int, int) -> DartIdType {
        |i: int, d: int| if 0 <= i < 4 && 0 <= d < self.n() { self.img(i, d) } else { NULL_DART_ID }
    }

    /// Column *β<sub>i</sub>* of the map.
    pub open spec fn col(&self, i: int) -> Seq<DartIdType> {
        Seq::new(self.n(), |d: int| self.img(i, d))
    }

    /// Outcome of a 1-link of `ld` and `rd`: *β<sub>1</sub>(ld) = rd*, *β<sub>0</sub>(rd) = ld*;
    /// then, when both darts have a *β<sub>3</sub>* image, the 1-link of
    /// *β<sub>3</sub>(rd)* and *β<sub>3</sub>(ld)*, which keeps the two sides of the face
    /// symmetric. Each link needs its darts to be free in the direction linked.
    pub open spec fn one_link_outcome(&self, ld: DartIdType, rd: DartIdType) -> Result<spec_fn(int, int) -> DartIdType, LinkError> {
        let f0 = self.imgs();
        if f0(1, ld as int) != NULL_DART_ID {
            Err(LinkError::NonFreeBase(1, ld, rd))
        } else if f0(0, rd as int) != NULL_DART_ID {
            Err(LinkError::NonFreeImage(0, ld, rd))
        } else {
            let f1 = set_img(set_img(f0, 1, ld as int, rd), 0, rd as int, ld);
            let b3l = f0(3, ld as int);
            let b3r = f0(3, rd as int);
            if b3l == NULL_DART_ID || b3r == NULL_DART_ID {
                Ok(f1)
            } else if f1(1, b3r as int) != NULL_DART_ID {
                Err(LinkError::NonFreeBase(1, b3r, b3l))
            } else if f1(0, b3l as int) != NULL_DART_ID {
                Err(LinkError::NonFreeImage(0, b3r, b3l))
            } else {
                Ok(set_img(set_img(f1, 1, b3r as int, b3l), 0, b3l as int, b3r))
            }
        }
    }

    /// Outcome of a 1-unlink of `ld`: reset *β<sub>1</sub>(ld)* and
    /// *β<sub>0</sub>(β<sub>1</sub>(ld))*; then, when `ld` and its former image `rd` both
    /// have a *β<sub>3</sub>* image, the same on the other side of the face, which requires
    /// *β<sub>1</sub>(β<sub>3</sub>(rd)) = β<sub>3</sub>(ld)*.
    pub open spec fn one_unlink_outcome(&self, ld: DartIdType) -> Result<spec_fn(int, int) -> DartIdType, LinkError> {
        let f0 = self.imgs();
        let rd = f0(1, ld as int);
        if rd == NULL_DART_ID {
            Err(LinkError::AlreadyFree(1, ld))
        } else {
            let f1 = set_img(set_img(f0, 1, ld as int, NULL_DART_ID), 0, rd as int, NULL_DART_ID);
            let b3l = f0(3, ld as int);
            let b3r = f0(3, rd as int);
            if b3l == NULL_DART_ID || b3r == NULL_DART_ID {
                Ok(f1)
            } else if f1(1, b3r as int) != b3l {
                Err(LinkError::AsymmetricalFaces(ld, rd))
            } else {
                Ok(set_img(set_img(f1, 1, b3r as int, NULL_DART_ID), 0, b3l as int, NULL_DART_ID))
            }
        }
    }

    /// Outcome of a 2-link of `ld` and `rd`: *β<sub>2</sub>(ld) = rd*, *β<sub>2</sub>(rd) = ld*,
    /// both darts being 2-free.
    pub open spec fn two_link_outcome(&self, ld: DartIdType, rd: DartIdType) -> Result<spec_fn(int, int) -> DartIdType, LinkError> {
        let f0 = self.imgs();
        if f0(2, ld as int) != NULL_DART_ID {
            Err(LinkError::NonFreeBase(2, ld, rd))
        } else if f0(2, rd as int) != NULL_DART_ID {
            Err(LinkError::NonFreeImage(2, ld, rd))
        } else {
            Ok(set_img(set_img(f0, 2, ld as int, rd), 2, rd as int, ld))
        }
    }

    /// Outcome of a 2-unlink of `ld`: reset *β<sub>2</sub>(ld)* and
    /// *β<sub>2</sub>(β<sub>2</sub>(ld))*.
    pub open spec fn two_unlink_outcome(&self, ld: DartIdType) -> Result<spec_fn(int, int) -> DartIdType, LinkError> {
        let f0 = self.imgs();
        let rd = f0(2, ld as int);
        if rd == NULL_DART_ID {
            Err(LinkError::AlreadyFree(2, ld))
        } else {
            Ok(set_img(set_img(f0, 2, ld as int, NULL_DART_ID), 2, rd as int, NULL_DART_ID))
        }
    }

    /// Outcome of a 3-link of `ld` and `rd`: the new *β<sub>3</sub>* column (see
    /// [`three_link_from`]); the first pair is `(ld, rd)`.
    pub open spec fn three_link_outcome(&self, ld: DartIdType, rd: DartIdType) -> Result<Seq<DartIdType>, LinkError> {
        let b3 = self.col(3);
        if b3[ld as int] != NULL_DART_ID {
            Err(LinkError::NonFreeBase(3, ld, rd))
        } else if b3[rd as int] != NULL_DART_ID {
            Err(LinkError::NonFreeImage(3, ld, rd))
        } else {
            three_link_from(self.col(0), self.col(1), ld, rd, link3(b3, ld, rd), false,
                self.img(1, ld as int), self.img(0, rd as int))
        }
    }

    /// Outcome of a 3-unlink of `ld`: the new *β<sub>3</sub>* column and the unlinked darts
    /// of each side (see [`three_unlink_from`]); the first pair is `ld` and its former
    /// *β<sub>3</sub>* image.
    pub open spec fn three_unlink_outcome(&self, ld: DartIdType) -> Result<(Seq<DartIdType>, Seq<DartIdType>, Seq<DartIdType>), LinkError> {
        let b3 = self.col(3);
        let rd = b3[ld as int];
        if rd == NULL_DART_ID {
            Err(LinkError::AlreadyFree(3, ld))
        } else {
            three_unlink_from(self.col(0), self.col(1), ld, rd, unlink3(b3, ld), false,
                self.img(1, ld as int), self.img(0, rd as int), seq![ld], seq![rd])
        }
    }

    /// Images after an operation whose outcome is the image function `f`.
    pub open spec fn has_imgs(&self, old: &Self, f: spec_fn(int, int) -> DartIdType) -> bool {
        &&& self.same_embedding(old)
        &&& self.imgs() =~= f
    }

    /// Images after an operation whose outcome is the *β<sub>3</sub>* column `b3`, the
    /// embedding unchanged.
    pub open spec fn has_col3(&self, old: &Self, b3: Seq<DartIdType>) -> bool {
        &&& self.same_embedding(old)
        &&& self.betas_col3(old, b3)
    }

    /// Same darts, *β<sub>3</sub>* column `b3`, and the other images of `old`.
    pub open spec fn betas_col3(&self, old: &Self, b3: Seq<DartIdType>) -> bool {
        &&& self.n() == old.n()
        &&& self.col(3) =~= b3
        &&& forall|i: int, d: int| 0 <= i < 3 && 0 <= d < old.n() ==> #[trigger] self.img(i, d) == old.img(i, d)
    }
}

impl<V: AttributeUpdate> CMap3<V> {
    /// 1-link `ld` and `rd` (see [`Self::one_link_outcome`]).
    pub fn one_link(&mut self, ld: DartIdType, rd: DartIdType) -> (r: Result<(), LinkError>)
        requires
            old(self).wf(),
            ld != NULL_DART_ID,
            rd != NULL_DART_ID,
            (ld as int) < old(self).n(),
            (rd as int) < old(self).n(),
        ensures
            final(self).wf(),
            match old(self).one_link_outcome(ld, rd) {
                Ok(f) => r is Ok && final(self).has_imgs(old(self), f),
                Err(e) => r == Err::<(), LinkError>(e) && final(self).same_map(old(self)),
            },
    {
        if self.betas.get(1, ld) != NULL_DART_ID {
            return Err(LinkError::NonFreeBase(1, ld, rd));
        }
        if self.betas.get(0, rd) != NULL_DART_ID {
            return Err(LinkError::NonFreeImage(0, ld, rd));
        }
        self.betas.set(1, ld, rd);
        self.betas.set(0, rd, ld);
        let b3l = self.betas.get(3, ld);
        let b3r = self.betas.get(3, rd);
        if b3l != NULL_DART_ID && b3r != NULL_DART_ID {
            if self.betas.get(1, b3r) != NULL_DART_ID {
                self.betas.set(0, rd, NULL_DART_ID);
                self.betas.set(1, ld, NULL_DART_ID);
                return Err(LinkError::NonFreeBase(1, b3r, b3l));
            }
            if self.betas.get(0, b3l) != NULL_DART_ID {
                self.betas.set(0, rd, NULL_DART_ID);
                self.betas.set(1, ld, NULL_DART_ID);
                return Err(LinkError::NonFreeImage(0, b3r, b3l));
            }
            self.betas.set(1, b3r, b3l);
            self.betas.set(0, b3l, b3r);
        }
        Ok(())
    }

    /// 1-unlink `ld` (see [`Self::one_unlink_outcome`]).
    pub fn one_unlink(&mut self, ld: DartIdType) -> (r: Result<(), LinkError>)
        requires
            old(self).wf(),
            (ld as int) < old(self).n(),
        ensures
            final(self).wf(),
            match old(self).one_unlink_outcome(ld) {
                Ok(f) => r is Ok && final(self).has_imgs(old(self), f),
                Err(e) => r == Err::<(), LinkError>(e) && final(self).same_map(old(self)),
            },
    {
        let rd = self.betas.get(1, ld);
        if rd == NULL_DART_ID {
            return Err(LinkError::AlreadyFree(1, ld));
        }
        let b0rd = self.betas.get(0, rd);
        self.betas.set(1, ld, NULL_DART_ID);
        self.betas.set(0, rd, NULL_DART_ID);
        let b3l = self.betas.get(3, ld);
        let b3r = self.betas.get(3, rd);
        if b3l != NULL_DART_ID && b3r != NULL_DART_ID {
            if self.betas.get(1, b3r) != b3l {
                self.betas.set(0, rd, b0rd);
                self.betas.set(1, ld, rd);
                return Err(LinkError::AsymmetricalFaces(ld, rd));
            }
            self.betas.set(1, b3r, NULL_DART_ID);
            self.betas.set(0, b3l, NULL_DART_ID);
        }
        Ok(())
    }

    /// 2-link `ld` and `rd` (see [`Self::two_link_outcome`]).
    pub fn two_link(&mut self, ld: DartIdType, rd: DartIdType) -> (r: Result<(), LinkError>)
        requires
            old(self).wf(),
            ld != NULL_DART_ID,
            rd != NULL_DART_ID,
            (ld as int) < old(self).n(),
            (rd as int) < old(self).n(),
        ensures
            final(self).wf(),
            match old(self).two_link_outcome(ld, rd) {
                Ok(f) => r is Ok && final(self).has_imgs(old(self), f),
                Err(e) => r == Err::<(), LinkError>(e) && final(self).same_map(old(self)),
            },
    {
        if self.betas.get(2, ld) != NULL_DART_ID {
            return Err(LinkError::NonFreeBase(2, ld, rd));
        }
        if self.betas.get(2, rd) != NULL_DART_ID {
            return Err(LinkError::NonFreeImage(2, ld, rd));
        }
        self.betas.set(2, ld, rd);
        self.betas.set(2, rd, ld);
        Ok(())
    }

    /// 2-unlink `ld` (see [`Self::two_unlink_outcome`]).
    pub fn two_unlink(&mut self, ld: DartIdType) -> (r: Result<(), LinkError>)
        requires
            old(self).wf(),
            (ld as int) < old(self).n(),
        ensures
            final(self).wf(),
            match old(self).two_unlink_outcome(ld) {
                Ok(f) => r is Ok && final(self).has_imgs(old(self), f),
                Err(e) => r == Err::<(), LinkError>(e) && final(self).same_map(old(self)),
            },
    {
        let rd = self.betas.get(2, ld);
        if rd == NULL_DART_ID {
            return Err(LinkError::AlreadyFree(2, ld));
        }
        self.betas.set(2, ld, NULL_DART_ID);
        self.betas.set(2, rd, NULL_DART_ID);
        Ok(())
    }
}

impl<V: AttributeUpdate> CMap3<V> {
    /// 3-link the face of `ld` to the face of `rd`, pair of darts by pair of darts (see
    /// [`three_link_from`]).
    pub fn three_link(&mut self, ld: DartIdType, rd: DartIdType) -> (r: Result<(), LinkError>)
        requires
            old(self).wf(),
            ld != NULL_DART_ID,
            rd != NULL_DART_ID,
            (ld as int) < old(self).n(),
            (rd as int) < old(self).n(),
        ensures
            final(self).wf(),
            match old(self).three_link_outcome(ld, rd) {
                Ok(b3) => r is Ok && final(self).has_col3(old(self), b3),
                Err(e) => r == Err::<(), LinkError>(e) && final(self).same_map(old(self)),
            },
    {
        if self.betas.get(3, ld) != NULL_DART_ID {
            return Err(LinkError::NonFreeBase(3, ld, rd));
        }
        if self.betas.get(3, rd) != NULL_DART_ID {
            return Err(LinkError::NonFreeImage(3, ld, rd));
        }
        let saved = self.betas.copy();
        let ghost c0 = old(self).col(0);
        let ghost c1 = old(self).col(1);
        let ghost target = old(self).three_link_outcome(ld, rd);
        self.betas.set(3, ld, rd);
        self.betas.set(3, rd, ld);
        assert(self.col(3) =~= link3(old(self).col(3), ld, rd));
        let mut back = false;
        let mut l = self.betas.get(1, ld);
        let mut r = self.betas.get(0, rd);
        loop
            invariant
                self.wf(),
                old(self).wf(),
                self.n() == old(self).n(),
                self.same_embedding(old(self)),
                forall|i: int, d: int| 0 <= i < 3 && 0 <= d < old(self).n() ==> #[trigger] self.img(i, d) == old(self).img(i, d),
                saved.0@ == old(self).betas.0@,
                c0 == old(self).col(0),
                c1 == old(self).col(1),
                (l as int) < self.n(),
                (r as int) < self.n(),
                (ld as int) < self.n(),
                (rd as int) < self.n(),
                target == old(self).three_link_outcome(ld, rd),
                three_link_from(c0, c1, ld, rd, self.col(3), back, l, r) == target,
            decreases count_null(self.col(3)), if back { 0int } else { 1int },
        {
            if !back && l == ld {
                return Ok(());
            }
            if !back && l == NULL_DART_ID {
                if r != NULL_DART_ID {
                    self.betas = saved;
                    proof {
                        lemma_same_rows(self.betas, old(self).betas);
                    }
                    return Err(LinkError::AsymmetricalFaces(ld, rd));
                }
                back = true;
                l = self.betas.get(0, ld);
                r = self.betas.get(1, rd);
                continue;
            }
            if back && l == NULL_DART_ID {
                return Ok(());
            }
            if r == NULL_DART_ID {
                self.betas = saved;
                proof {
                    lemma_same_rows(self.betas, old(self).betas);
                }
                return Err(LinkError::AsymmetricalFaces(ld, rd));
            }
            if self.betas.get(3, l) != NULL_DART_ID {
                self.betas = saved;
                proof {
                    lemma_same_rows(self.betas, old(self).betas);
                }
                return Err(LinkError::NonFreeBase(3, l, r));
            }
            if self.betas.get(3, r) != NULL_DART_ID {
                self.betas = saved;
                proof {
                    lemma_same_rows(self.betas, old(self).betas);
                }
                return Err(LinkError::NonFreeImage(3, l, r));
            }
            let ghost pre = self.col(3);
            proof {
                lemma_link3_count(pre, l, r);
            }
            self.betas.set(3, l, r);
            self.betas.set(3, r, l);
            assert(self.col(3) =~= link3(pre, l, r));
            if back {
                let nl = self.betas.get(0, l);
                let nr = self.betas.get(1, r);
                l = nl;
                r = nr;
            } else {
                let nl = self.betas.get(1, l);
                let nr = self.betas.get(0, r);
                l = nl;
                r = nr;
            }
        }
    }

    /// 3-unlink the face of `ld` from the face of its *β<sub>3</sub>* image, pair of darts by
    /// pair of darts; return the unlinked darts of each side.
    pub(crate) fn three_unlink_sides(&mut self, ld: DartIdType) -> (r: Result<(Vec<DartIdType>, Vec<DartIdType>), LinkError>)
        requires
            old(self).wf(),
            (ld as int) < old(self).n(),
        ensures
            final(self).wf(),
            match old(self).three_unlink_outcome(ld) {
                Ok(res) => r is Ok && final(self).has_col3(old(self), res.0) && r->Ok_0.0@ == res.1 && r->Ok_0.1@ == res.2,
                Err(e) => r == Err::<(Vec<DartIdType>, Vec<DartIdType>), LinkError>(e) && final(self).same_map(old(self)),
            },
            r is Ok ==> r->Ok_0.0@.len() == r->Ok_0.1@.len(),
            r is Ok ==> forall|j: int| 0 <= j < r->Ok_0.0@.len() ==> (#[trigger] r->Ok_0.0@[j] as int) < old(self).n(),
            r is Ok ==> forall|j: int| 0 <= j < r->Ok_0.1@.len() ==> (#[trigger] r->Ok_0.1@[j] as int) < old(self).n(),
    {
        let rd = self.betas.get(3, ld);
        if rd == NULL_DART_ID {
            return Err(LinkError::AlreadyFree(3, ld));
        }
        let saved = self.betas.copy();
        let ghost c0 = old(self).col(0);
        let ghost c1 = old(self).col(1);
        let ghost target = old(self).three_unlink_outcome(ld);
        self.betas.set(3, ld, NULL_DART_ID);
        self.betas.set(3, rd, NULL_DART_ID);
        assert(self.col(3) =~= unlink3(old(self).col(3), ld));
        let mut back = false;
        let mut l = self.betas.get(1, ld);
        let mut r = self.betas.get(0, rd);
        let mut ls: Vec<DartIdType> = Vec::new();
        let mut rs: Vec<DartIdType> = Vec::new();
        ls.push(ld);
        rs.push(rd);
        loop
            invariant
                self.wf(),
                old(self).wf(),
                self.n() == old(self).n(),
                self.same_embedding(old(self)),
                forall|i: int, d: int| 0 <= i < 3 && 0 <= d < old(self).n() ==> #[trigger] self.img(i, d) == old(self).img(i, d),
                saved.0@ == old(self).betas.0@,
                c0 == old(self).col(0),
                c1 == old(self).col(1),
                (l as int) < self.n(),
                (r as int) < self.n(),
                (ld as int) < self.n(),
                (rd as int) < self.n(),
                target == old(self).three_unlink_outcome(ld),
                three_unlink_from(c0, c1, ld, rd, self.col(3), back, l, r, ls@, rs@) == target,
                ls@.len() == rs@.len(),
                forall|j: int| 0 <= j < ls@.len() ==> (#[trigger] ls@[j] as int) < old(self).n(),
                forall|j: int| 0 <= j < rs@.len() ==> (#[trigger] rs@[j] as int) < old(self).n(),
            decreases count_linked(self.col(3)), if back { 0int } else { 1int },
        {
            assert(forall|d: int| 0 <= d < self.col(3).len() ==> (#[trigger] self.col(3)[d] as int) < self.col(3).len());
            if !back && l == ld {
                return Ok((ls, rs));
            }
            if !back && l == NULL_DART_ID {
                if r != NULL_DART_ID {
                    self.betas = saved;
                    proof {
                        lemma_same_rows(self.betas, old(self).betas);
                    }
                    return Err(LinkError::AsymmetricalFaces(ld, rd));
                }
                back = true;
                l = self.betas.get(0, ld);
                r = self.betas.get(1, rd);
                continue;
            }
            if back && l == NULL_DART_ID {
                return Ok((ls, rs));
            }
            if l != self.betas.get(3, r) {
                self.betas = saved;
                proof {
                    lemma_same_rows(self.betas, old(self).betas);
                }
                return Err(LinkError::AsymmetricalFaces(ld, rd));
            }
            let rr = self.betas.get(3, l);
            if rr == NULL_DART_ID {
                self.betas = saved;
                proof {
                    lemma_same_rows(self.betas, old(self).betas);
                }
                return Err(LinkError::AlreadyFree(3, l));
            }
            let ghost pre = self.col(3);
            proof {
                lemma_unlink3_count(pre, l);
            }
            self.betas.set(3, l, NULL_DART_ID);
            self.betas.set(3, rr, NULL_DART_ID);
            assert(self.col(3) =~= unlink3(pre, l));
            ls.push(l);
            rs.push(r);
            if back {
                let nl = self.betas.get(0, l);
                let nr = self.betas.get(1, r);
                l = nl;
                r = nr;
            } else {
                let nl = self.betas.get(1, l);
                let nr = self.betas.get(0, r);
                l = nl;
                r = nr;
            }
        }
    }

    /// 3-unlink the face of `ld` from the face of its *β<sub>3</sub>* image, pair of darts by
    /// pair of darts (see [`three_unlink_from`]).
    pub fn three_unlink(&mut self, ld: DartIdType) -> (r: Result<(), LinkError>)
        requires
            old(self).wf(),
            (ld as int) < old(self).n(),
        ensures
            final(self).wf(),
            match old(self).three_unlink_outcome(ld) {
                Ok(res) => r is Ok && final(self).has_col3(old(self), res.0),
                Err(e) => r == Err::<(), LinkError>(e) && final(self).same_map(old(self)),
            },
    {
        match self.three_unlink_sides(ld) {
            Ok(_) => Ok(()),
            Err(e) => Err(e),
        }
    }
}

impl<V: AttributeUpdate> CMap3<V> {
    /// Outcome of an `i`-link of `ld` and `rd` (`i` is 1, 2 or 3) from map `o` to map `f`.
    pub open spec fn link_post(o: &Self, f: &Self, i: u8, ld: DartIdType, rd: DartIdType, r: Result<(), LinkError>) -> bool {
        if i == 3 {
            match o.three_link_outcome(ld, rd) {
                Ok(b3) => r is Ok && f.has_col3(o, b3),
                Err(e) => r == Err::<(), LinkError>(e) && f.same_map(o),
            }
        } else {
            match if i == 1 { o.one_link_outcome(ld, rd) } else { o.two_link_outcome(ld, rd) } {
                Ok(g) => r is Ok && f.has_imgs(o, g),
                Err(e) => r == Err::<(), LinkError>(e) && f.same_map(o),
            }
        }
    }

    /// Outcome of an `i`-unlink of `ld` (`i` is 1, 2 or 3) from map `o` to map `f`.
    pub open spec fn unlink_post(o: &Self, f: &Self, i: u8, ld: DartIdType, r: Result<(), LinkError>) -> bool {
        if i == 3 {
            match o.three_unlink_outcome(ld) {
                Ok(res) => r is Ok && f.has_col3(o, res.0),
                Err(e) => r == Err::<(), LinkError>(e) && f.same_map(o),
            }
        } else {
            match if i == 1 { o.one_unlink_outcome(ld) } else { o.two_unlink_outcome(ld) } {
                Ok(g) => r is Ok && f.has_imgs(o, g),
                Err(e) => r == Err::<(), LinkError>(e) && f.same_map(o),
            }
        }
    }

    /// `I`-link operator (`I` is 1, 2 or 3).
    pub fn link<const I: u8>(&mut self, ld: DartIdType, rd: DartIdType) -> (r: Result<(), LinkError>)
        requires
            old(self).wf(),
            1 <= I <= 3,
            ld != NULL_DART_ID,
            rd != NULL_DART_ID,
            (ld as int) < old(self).n(),
            (rd as int) < old(self).n(),
        ensures
            final(self).wf(),
            Self::link_post(old(self), final(self), I, ld, rd, r),
    {
        if I == 1 {
            self.one_link(ld, rd)
        } else if I == 2 {
            self.two_link(ld, rd)
        } else {
            self.three_link(ld, rd)
        }
    }

    /// `I`-unlink operator (`I` is 1, 2 or 3).
    pub fn unlink<const I: u8>(&mut self, ld: DartIdType) -> (r: Result<(), LinkError>)
        requires
            old(self).wf(),
            1 <= I <= 3,
            (ld as int) < old(self).n(),
        ensures
            final(self).wf(),
            Self::unlink_post(old(self), final(self), I, ld, r),
    {
        if I == 1 {
            self.one_unlink(ld)
        } else if I == 2 {
            self.two_unlink(ld)
        } else {
            self.three_unlink(ld)
        }
    }

    /// `I`-link operator; the map has a single owner, so this is [`Self::link`].
    pub fn force_link<const I: u8>(&mut self, ld: DartIdType, rd: DartIdType) -> (r: Result<(), LinkError>)
        requires
            old(self).wf(),
            1 <= I <= 3,
            ld != NULL_DART_ID,
            rd != NULL_DART_ID,
            (ld as int) < old(self).n(),
            (rd as int) < old(self).n(),
        ensures
            final(self).wf(),
            Self::link_post(old(self), final(self), I, ld, rd, r),
    {
        self.link::<I>(ld, rd)
    }

    /// `I`-unlink operator; the map has a single owner, so this is [`Self::unlink`].
    pub fn force_unlink<const I: u8>(&mut self, ld: DartIdType) -> (r: Result<(), LinkError>)
        requires
            old(self).wf(),
            1 <= I <= 3,
            (ld as int) < old(self).n(),
        ensures
            final(self).wf(),
            Self::unlink_post(old(self), final(self), I, ld, r),
    {
        self.unlink::<I>(ld)
    }
}

} // verus!
