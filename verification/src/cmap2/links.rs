//! Link and unlink operations of [`CMap2`].

use crate::attributes::AttributeUpdate;
use crate::cmap2::structure::CMap2;
use crate::error::LinkError;
use crate::ids::{DartIdType, NULL_DART_ID};
use vstd::prelude::*;

verus! {

impl<V: AttributeUpdate> CMap2<V> {
    /// Same number of darts, and same images except *β<sub>i1</sub>(d1)* and *β<sub>i2</sub>(d2)*.
    pub open spec fn betas_except(&self, other: &Self, i1: int, d1: int, i2: int, d2: int) -> bool {
        &&& self.n() == other.n()
        &&& forall|i: int, d: int| 0 <= i < 3 && 0 <= d < self.n() && !(i == i1 && d == d1) && !(i == i2 && d == d2)
            ==> #[trigger] self.img(i, d) == other.img(i, d)
    }

    /// Result of a successful 1-link of `ld` and `rd`: *β<sub>1</sub>(ld) = rd*, *β<sub>0</sub>(rd) = ld*.
    pub open spec fn one_linked(&self, old: &Self, ld: DartIdType, rd: DartIdType) -> bool {
        &&& self.same_embedding(old)
        &&& self.one_linked_topo(old, ld, rd)
    }

    /// Images after the operation, the embedding aside.
    pub open spec fn one_linked_topo(&self, old: &Self, ld: DartIdType, rd: DartIdType) -> bool {
        &&& self.betas_except(old, 1, ld as int, 0, rd as int)
        &&& self.img(1, ld as int) == rd
        &&& self.img(0, rd as int) == ld
    }

    /// Result of a successful 2-link of `ld` and `rd`: *β<sub>2</sub>(ld) = rd*, *β<sub>2</sub>(rd) = ld*.
    pub open spec fn two_linked(&self, old: &Self, ld: DartIdType, rd: DartIdType) -> bool {
        &&& self.same_embedding(old)
        &&& self.two_linked_topo(old, ld, rd)
    }

    /// Images after the operation, the embedding aside.
    pub open spec fn two_linked_topo(&self, old: &Self, ld: DartIdType, rd: DartIdType) -> bool {
        &&& self.betas_except(old, 2, ld as int, 2, rd as int)
        &&& self.img(2, ld as int) == rd
        &&& self.img(2, rd as int) == ld
    }

    /// Result of a successful 1-unlink of `ld`, whose *β<sub>1</sub>* image was `rd`.
    pub open spec fn one_unlinked(&self, old: &Self, ld: DartIdType, rd: DartIdType) -> bool {
        &&& self.same_embedding(old)
        &&& self.one_unlinked_topo(old, ld, rd)
    }

    /// Images after the operation, the embedding aside.
    pub open spec fn one_unlinked_topo(&self, old: &Self, ld: DartIdType, rd: DartIdType) -> bool {
        &&& self.betas_except(old, 1, ld as int, 0, rd as int)
        &&& self.img(1, ld as int) == NULL_DART_ID
        &&& self.img(0, rd as int) == NULL_DART_ID
    }

    /// Result of a successful 2-unlink of `ld`, whose *β<sub>2</sub>* image was `rd`.
    pub open spec fn two_unlinked(&self, old: &Self, ld: DartIdType, rd: DartIdType) -> bool {
        &&& self.same_embedding(old)
        &&& self.two_unlinked_topo(old, ld, rd)
    }

    /// Images after the operation, the embedding aside.
    pub open spec fn two_unlinked_topo(&self, old: &Self, ld: DartIdType, rd: DartIdType) -> bool {
        &&& self.betas_except(old, 2, ld as int, 2, rd as int)
        &&& self.img(2, ld as int) == NULL_DART_ID
        &&& self.img(2, rd as int) == NULL_DART_ID
    }

    /// Error of a 1-link of `ld` and `rd`, if any.
    pub open spec fn one_link_error(&self, ld: DartIdType, rd: DartIdType) -> Option<LinkError> {
        if self.img(1, ld as int) != NULL_DART_ID {
            Some(LinkError::NonFreeBase(1, ld, rd))
        } else if self.img(0, rd as int) != NULL_DART_ID {
            Some(LinkError::NonFreeImage(0, ld, rd))
        } else {
            None
        }
    }

    /// Error of a 2-link of `ld` and `rd`, if any.
    pub open spec fn two_link_error(&self, ld: DartIdType, rd: DartIdType) -> Option<LinkError> {
        if self.img(2, ld as int) != NULL_DART_ID {
            Some(LinkError::NonFreeBase(2, ld, rd))
        } else if self.img(2, rd as int) != NULL_DART_ID {
            Some(LinkError::NonFreeImage(2, ld, rd))
        } else {
            None
        }
    }

    /// 1-link: set *β<sub>1</sub>(ld) = rd* and *β<sub>0</sub>(rd) = ld*.
    ///
    /// Fails, leaving the map as it is, if `ld` is not 1-free or `rd` is not 0-free.
    pub fn one_link(&mut self, ld: DartIdType, rd: DartIdType) -> (r: Result<(), LinkError>)
        requires
            old(self).wf(),
            ld != NULL_DART_ID,
            rd != NULL_DART_ID,
            (ld as int) < old(self).n(),
            (rd as int) < old(self).n(),
        ensures
            final(self).wf(),
            match old(self).one_link_error(ld, rd) {
                Some(e) => r == Err::<(), LinkError>(e) && *final(self) == *old(self),
                None => r is Ok && final(self).one_linked(old(self), ld, rd),
            },
    {
        if self.betas.get(1, ld) != NULL_DART_ID {
            return Err(LinkError::NonFreeBase(1, ld, rd));
        }
        if self.betas.get(0, rd) != NULL_DART_ID {
            return Err(LinkError::NonFreeImage(0, ld, rd));
        }
        self.betas.set(1, ld, rd);
        self.betas.set(0, rd, ld);
        Ok(())
    }

    /// 2-link: set *β<sub>2</sub>(ld) = rd* and *β<sub>2</sub>(rd) = ld*.
    ///
    /// Fails, leaving the map as it is, if `ld` or `rd` is not 2-free.
    pub fn two_link(&mut self, ld: DartIdType, rd: DartIdType) -> (r: Result<(), LinkError>)
        requires
            old(self).wf(),
            ld != NULL_DART_ID,
            rd != NULL_DART_ID,
            (ld as int) < old(self).n(),
            (rd as int) < old(self).n(),
        ensures
            final(self).wf(),
            match old(self).two_link_error(ld, rd) {
                Some(e) => r == Err::<(), LinkError>(e) && *final(self) == *old(self),
                None => r is Ok && final(self).two_linked(old(self), ld, rd),
            },
    {
        if self.betas.get(2, ld) != NULL_DART_ID {
            return Err(LinkError::NonFreeBase(2, ld, rd));
        }
        if self.betas.get(2, rd) != NULL_DART_ID {
            return Err(LinkError::NonFreeImage(2, ld, rd));
        }
        self.betas.set(2, ld, rd);
        self.betas.set(2, rd, ld);
        Ok(())
    }

    /// 1-unlink: reset *β<sub>1</sub>(ld)* and *β<sub>0</sub>(β<sub>1</sub>(ld))*.
    ///
    /// Fails, leaving the map as it is, if `ld` is 1-free.
    pub fn one_unlink(&mut self, ld: DartIdType) -> (r: Result<(), LinkError>)
        requires
            old(self).wf(),
            (ld as int) < old(self).n(),
        ensures
            final(self).wf(),
            old(self).img(1, ld as int) == NULL_DART_ID ==> r == Err::<(), LinkError>(LinkError::AlreadyFree(1, ld))
                && *final(self) == *old(self),
            old(self).img(1, ld as int) != NULL_DART_ID ==> r is Ok
                && final(self).one_unlinked(old(self), ld, old(self).img(1, ld as int)),
    {
        let rd = self.betas.get(1, ld);
        if rd == NULL_DART_ID {
            return Err(LinkError::AlreadyFree(1, ld));
        }
        self.betas.set(1, ld, NULL_DART_ID);
        self.betas.set(0, rd, NULL_DART_ID);
        Ok(())
    }

    /// 2-unlink: reset *β<sub>2</sub>(ld)* and *β<sub>2</sub>(β<sub>2</sub>(ld))*.
    ///
    /// Fails, leaving the map as it is, if `ld` is 2-free.
    pub fn two_unlink(&mut self, ld: DartIdType) -> (r: Result<(), LinkError>)
        requires
            old(self).wf(),
            (ld as int) < old(self).n(),
        ensures
            final(self).wf(),
            old(self).img(2, ld as int) == NULL_DART_ID ==> r == Err::<(), LinkError>(LinkError::AlreadyFree(2, ld))
                && *final(self) == *old(self),
            old(self).img(2, ld as int) != NULL_DART_ID ==> r is Ok
                && final(self).two_unlinked(old(self), ld, old(self).img(2, ld as int)),
    {
        let rd = self.betas.get(2, ld);
        if rd == NULL_DART_ID {
            return Err(LinkError::AlreadyFree(2, ld));
        }
        self.betas.set(2, ld, NULL_DART_ID);
        self.betas.set(2, rd, NULL_DART_ID);
        Ok(())
    }

    /// `I`-link operator (`I` is 1 or 2): see [`Self::one_link`] and [`Self::two_link`].
    pub fn link<const I: u8>(&mut self, ld: DartIdType, rd: DartIdType) -> (r: Result<(), LinkError>)
        requires
            old(self).wf(),
            I == 1 || I == 2,
            ld != NULL_DART_ID,
            rd != NULL_DART_ID,
            (ld as int) < old(self).n(),
            (rd as int) < old(self).n(),
        ensures
            final(self).wf(),
            I == 1 ==> match old(self).one_link_error(ld, rd) {
                Some(e) => r == Err::<(), LinkError>(e) && *final(self) == *old(self),
                None => r is Ok && final(self).one_linked(old(self), ld, rd),
            },
            I == 2 ==> match old(self).two_link_error(ld, rd) {
                Some(e) => r == Err::<(), LinkError>(e) && *final(self) == *old(self),
                None => r is Ok && final(self).two_linked(old(self), ld, rd),
            },
    {
        if I == 1 {
            self.one_link(ld, rd)
        } else {
            self.two_link(ld, rd)
        }
    }

    /// `I`-unlink operator (`I` is 1 or 2): see [`Self::one_unlink`] and [`Self::two_unlink`].
    pub fn unlink<const I: u8>(&mut self, ld: DartIdType) -> (r: Result<(), LinkError>)
        requires
            old(self).wf(),
            I == 1 || I == 2,
            (ld as int) < old(self).n(),
        ensures
            final(self).wf(),
            old(self).img(I as int, ld as int) == NULL_DART_ID ==> r == Err::<(), LinkError>(LinkError::AlreadyFree(I, ld))
                && *final(self) == *old(self),
            I == 1 && old(self).img(1, ld as int) != NULL_DART_ID ==> r is Ok
                && final(self).one_unlinked(old(self), ld, old(self).img(1, ld as int)),
            I == 2 && old(self).img(2, ld as int) != NULL_DART_ID ==> r is Ok
                && final(self).two_unlinked(old(self), ld, old(self).img(2, ld as int)),
    {
        if I == 1 {
            self.one_unlink(ld)
        } else {
            self.two_unlink(ld)
        }
    }

    /// `I`-link operator; the map has a single owner, so this is [`Self::link`].
    pub fn force_link<const I: u8>(&mut self, ld: DartIdType, rd: DartIdType) -> (r: Result<(), LinkError>)
        requires
            old(self).wf(),
            I == 1 || I == 2,
            ld != NULL_DART_ID,
            rd != NULL_DART_ID,
            (ld as int) < old(self).n(),
            (rd as int) < old(self).n(),
        ensures
            final(self).wf(),
            I == 1 ==> match old(self).one_link_error(ld, rd) {
                Some(e) => r == Err::<(), LinkError>(e) && *final(self) == *old(self),
                None => r is Ok && final(self).one_linked(old(self), ld, rd),
            },
            I == 2 ==> match old(self).two_link_error(ld, rd) {
                Some(e) => r == Err::<(), LinkError>(e) && *final(self) == *old(self),
                None => r is Ok && final(self).two_linked(old(self), ld, rd),
            },
    {
        self.link::<I>(ld, rd)
    }

    /// `I`-unlink operator; the map has a single owner, so this is [`Self::unlink`].
    pub fn force_unlink<const I: u8>(&mut self, ld: DartIdType) -> (r: Result<(), LinkError>)
        requires
            old(self).wf(),
            I == 1 || I == 2,
            (ld as int) < old(self).n(),
        ensures
            final(self).wf(),
            old(self).img(I as int, ld as int) == NULL_DART_ID ==> r == Err::<(), LinkError>(LinkError::AlreadyFree(I, ld))
                && *final(self) == *old(self),
            I == 1 && old(self).img(1, ld as int) != NULL_DART_ID ==> r is Ok
                && final(self).one_unlinked(old(self), ld, old(self).img(1, ld as int)),
            I == 2 && old(self).img(2, ld as int) != NULL_DART_ID ==> r is Ok
                && final(self).two_unlinked(old(self), ld, old(self).img(2, ld as int)),
    {
        self.unlink::<I>(ld)
    }
}

} // verus!
