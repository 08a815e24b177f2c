//! The [`CMap3`] structure, its constructor and its dart-related methods.

use crate::attributes::{AttrSparseVec, AttributeUpdate};
use crate::components::{
    count_true, flagged_between, lemma_flagged_between_members, lemma_flagged_between_prefix, BetaFunctionsAt,
    UnusedDartsAt,
};
use crate::error::{DartReleaseError, DartReservationError};
use crate::ids::{DartIdType, NULL_DART_ID};
use vstd::prelude::*;

verus! {

/// Number of beta functions of a 3-map: *β<sub>0</sub>* to *β<sub>3</sub>*.
pub const CMAP3_BETA: usize = 4;

/// 3D combinatorial map.
///
/// - *β<sub>0</sub>* is maintained as the inverse of *β<sub>1</sub>* by the link operations.
/// - Darts on the boundary are 3-free.
/// - The null dart is encoded as `0`; its images are null.
/// - `V` is the type of the vertex values bound to vertex identifiers.
pub struct CMap3<V> {
    /// Vertex values, indexed by vertex identifier.
    pub vertices: AttrSparseVec<V>,
    /// Unused flag of every dart.
    pub unused_darts: UnusedDartsAt,
    /// Beta functions.
    pub betas: BetaFunctionsAt<CMAP3_BETA>,
}

impl<V: AttributeUpdate> CMap3<V> {
    /// Number of darts, the null dart included.
    #[verifier::inline]
    pub open spec fn n(&self) -> nat {
        self.betas.n()
    }

    /// *β<sub>i</sub>(d)*.
    #[verifier::inline]
    pub open spec fn img(&self, i: int, d: int) -> DartIdType {
        self.betas.img(i, d)
    }

    /// Unused flag of dart `d`.
    #[verifier::inline]
    pub open spec fn unused(&self, d: int) -> bool {
        self.unused_darts.flag(d)
    }

    /// Vertex value stored for identifier `id`.
    #[verifier::inline]
    pub open spec fn vertex(&self, id: int) -> Option<V> {
        self.vertices.slots()[id]
    }

    /// Whether dart `d` is free: all its images are null.
    pub open spec fn free(&self, d: int) -> bool {
        &&& self.img(0, d) == NULL_DART_ID
        &&& self.img(1, d) == NULL_DART_ID
        &&& self.img(2, d) == NULL_DART_ID
        &&& self.img(3, d) == NULL_DART_ID
    }

    /// Well-formedness: every image is a dart of the map, the null dart has null images, and
    /// every storage has one entry per dart.
    pub open spec fn wf(&self) -> bool {
        &&& self.betas.wf()
        &&& self.unused_darts.n() == self.n()
        &&& self.vertices.n() == self.n()
        &&& self.n() <= u32::MAX
    }

    /// Same darts, flags and vertex values; only the images may differ.
    pub open spec fn same_embedding(&self, other: &Self) -> bool {
        &&& self.n() == other.n()
        &&& self.unused_darts == other.unused_darts
        &&& self.vertices.slots() == other.vertices.slots()
    }

    /// Same darts, images, flags and vertex values.
    pub open spec fn same_map(&self, other: &Self) -> bool {
        &&& self.same_betas(other)
        &&& self.unused_darts.0@ == other.unused_darts.0@
        &&& self.vertices.slots() == other.vertices.slots()
    }

    /// Same images for every dart.
    pub open spec fn same_betas(&self, other: &Self) -> bool {
        &&& self.n() == other.n()
        &&& forall|i: int, d: int| 0 <= i < 4 && 0 <= d < self.n() ==> #[trigger] self.img(i, d) == other.img(i, d)
    }

    /// Creates a 3-map of `n_darts` darts (plus the null dart): all darts are free and used,
    /// and no vertex value is stored.
    pub fn new(n_darts: usize) -> (r: Self)
        requires
            n_darts < u32::MAX,
        ensures
            r.wf(),
            r.n() == n_darts + 1,
            forall|i: int, d: int| 0 <= i < 4 && 0 <= d < r.n() ==> #[trigger] r.img(i, d) == NULL_DART_ID,
            forall|d: int| 0 <= d < r.n() ==> !#[trigger] r.unused(d),
            forall|d: int| 0 <= d < r.n() ==> #[trigger] r.vertex(d) is None,
    {
        let r = CMap3 {
            vertices: AttrSparseVec::new(n_darts + 1),
            unused_darts: UnusedDartsAt::new(n_darts),
            betas: BetaFunctionsAt::new(n_darts),
        };
        assert(r.betas.null_from(0));
        r
    }

    /// Current number of darts, the null dart included.
    pub fn n_darts(&self) -> (r: usize)
        requires
            self.wf(),
        ensures
            r == self.n(),
    {
        self.betas.len()
    }

    /// Current number of unused darts.
    pub fn n_unused_darts(&self) -> (r: usize)
        requires
            self.wf(),
        ensures
            r == count_true(self.unused_darts.0@),
    {
        let n = self.unused_darts.len();
        let mut c: usize = 0;
        let mut k: usize = 0;
        while k < n
            invariant
                self.wf(),
                n == self.unused_darts.0@.len(),
                k <= n,
                c <= k,
                c == count_true(self.unused_darts.0@.take(k as int)),
            decreases n - k,
        {
            let ghost t1 = self.unused_darts.0@.take(k + 1);
            assert(t1.drop_last() =~= self.unused_darts.0@.take(k as int));
            assert(t1.last() == self.unused_darts.0@[k as int]);
            assert(count_true(t1) == count_true(t1.drop_last()) + if t1.last() { 1nat } else { 0nat });
            if self.unused_darts.get(k as DartIdType) {
                c = c + 1;
            }
            k = k + 1;
        }
        assert(self.unused_darts.0@.take(n as int) =~= self.unused_darts.0@);
        c
    }

    /// Whether dart `d` is unused.
    pub fn is_unused(&self, d: DartIdType) -> (r: bool)
        requires
            self.wf(),
            (d as int) < self.n(),
        ensures
            r == self.unused(d as int),
    {
        self.unused_darts.get(d)
    }

    fn allocate_darts_core(&mut self, n_darts: usize, unused: bool) -> (r: DartIdType)
        requires
            old(self).wf(),
            old(self).n() + n_darts <= u32::MAX,
        ensures
            final(self).wf(),
            r == old(self).n(),
            final(self).n() == old(self).n() + n_darts,
            forall|i: int, d: int| 0 <= i < 4 && 0 <= d < old(self).n() ==> #[trigger] final(self).img(i, d) == old(self).img(i, d),
            forall|i: int, d: int| 0 <= i < 4 && old(self).n() <= d < final(self).n() ==> #[trigger] final(self).img(i, d) == NULL_DART_ID,
            forall|d: int| 0 <= d < old(self).n() ==> #[trigger] final(self).unused(d) == old(self).unused(d),
            forall|d: int| old(self).n() <= d < final(self).n() ==> #[trigger] final(self).unused(d) == unused,
            forall|d: int| 0 <= d < old(self).n() ==> #[trigger] final(self).vertex(d) == old(self).vertex(d),
            forall|d: int| old(self).n() <= d < final(self).n() ==> #[trigger] final(self).vertex(d) is None,
    {
        let new_id = self.betas.len() as DartIdType;
        self.betas.extend(n_darts);
        self.unused_darts.extend_with(n_darts, unused);
        self.vertices.extend(n_darts);
        assert(self.betas.wf()) by {
            assert forall|d: int, i: int| 0 <= d < self.betas.n() && 0 <= i < 4 implies #[trigger] self.betas.img(i, d) < self.betas.n() by {
                if d >= old(self).n() {
                    assert(self.betas.null_from(old(self).n() as int));
                }
            }
        }
        new_id
    }

    /// Add `n_darts` new free darts to the map, marked as used; return the first new identifier.
    pub fn allocate_used_darts(&mut self, n_darts: usize) -> (r: DartIdType)
        requires
            old(self).wf(),
            old(self).n() + n_darts <= u32::MAX,
        ensures
            final(self).wf(),
            r == old(self).n(),
            final(self).n() == old(self).n() + n_darts,
            forall|i: int, d: int| 0 <= i < 4 && 0 <= d < old(self).n() ==> #[trigger] final(self).img(i, d) == old(self).img(i, d),
            forall|i: int, d: int| 0 <= i < 4 && old(self).n() <= d < final(self).n() ==> #[trigger] final(self).img(i, d) == NULL_DART_ID,
            forall|d: int| 0 <= d < old(self).n() ==> #[trigger] final(self).unused(d) == old(self).unused(d),
            forall|d: int| old(self).n() <= d < final(self).n() ==> !#[trigger] final(self).unused(d),
            forall|d: int| 0 <= d < old(self).n() ==> #[trigger] final(self).vertex(d) == old(self).vertex(d),
            forall|d: int| old(self).n() <= d < final(self).n() ==> #[trigger] final(self).vertex(d) is None,
    {
        self.allocate_darts_core(n_darts, false)
    }

    /// Add `n_darts` new free darts to the map, marked as unused; return the first new identifier.
    pub fn allocate_unused_darts(&mut self, n_darts: usize) -> (r: DartIdType)
        requires
            old(self).wf(),
            old(self).n() + n_darts <= u32::MAX,
        ensures
            final(self).wf(),
            r == old(self).n(),
            final(self).n() == old(self).n() + n_darts,
            forall|i: int, d: int| 0 <= i < 4 && 0 <= d < old(self).n() ==> #[trigger] final(self).img(i, d) == old(self).img(i, d),
            forall|i: int, d: int| 0 <= i < 4 && old(self).n() <= d < final(self).n() ==> #[trigger] final(self).img(i, d) == NULL_DART_ID,
            forall|d: int| 0 <= d < old(self).n() ==> #[trigger] final(self).unused(d) == old(self).unused(d),
            forall|d: int| old(self).n() <= d < final(self).n() ==> #[trigger] final(self).unused(d),
            forall|d: int| 0 <= d < old(self).n() ==> #[trigger] final(self).vertex(d) == old(self).vertex(d),
            forall|d: int| old(self).n() <= d < final(self).n() ==> #[trigger] final(self).vertex(d) is None,
    {
        self.allocate_darts_core(n_darts, true)
    }

    /// Mark the first `n_darts` unused darts (from dart 1 on) as used and return them.
    ///
    /// Fails, leaving every dart as it was, if there are fewer unused darts; no darts are
    /// asked for when `n_darts` is 0.
    pub fn reserve_darts(&mut self, n_darts: usize) -> (r: Result<Vec<DartIdType>, DartReservationError>)
        requires
            old(self).wf(),
        ensures
            final(self).wf(),
            final(self).same_betas(old(self)),
            final(self).vertices == old(self).vertices,
            ({
                let avail = flagged_between(old(self).unused_darts.0@, 1, old(self).n() as int);
                match r {
                    Ok(v) => {
                        &&& n_darts <= avail.len()
                        &&& v@ == avail.take(n_darts as int)
                        &&& forall|d: int| 0 <= d < old(self).n() ==> #[trigger] final(self).unused(d)
                            == (old(self).unused(d) && !v@.contains(d as DartIdType))
                    },
                    Err(e) => {
                        &&& e == DartReservationError(n_darts)
                        &&& avail.len() < n_darts
                        &&& final(self).unused_darts == old(self).unused_darts
                    },
                }
            }),
    {
        if n_darts == 0 {
            return Ok(Vec::new());
        }
        let n = self.betas.len();
        let ghost flags = self.unused_darts.0@;
        let mut res: Vec<DartIdType> = Vec::new();
        let mut d: usize = 1;
        let mut done = false;
        while d < n && !done
            invariant
                self.wf(),
                n == self.n(),
                flags == self.unused_darts.0@,
                flags.len() == n,
                1 <= d <= n,
                res@ == flagged_between(flags, 1, d as int),
                done ==> res@.len() == n_darts && n_darts >= 1,
                !done ==> res@.len() < n_darts || n_darts == 0,
            decreases n - d, if done { 0int } else { 1int },
        {
            assert(flagged_between(flags, 1, d + 1) == if flags[d as int] {
                flagged_between(flags, 1, d as int).push(d as DartIdType)
            } else {
                flagged_between(flags, 1, d as int)
            });
            if self.unused_darts.get(d as DartIdType) {
                res.push(d as DartIdType);
                if res.len() == n_darts {
                    done = true;
                }
            }
            d = d + 1;
        }
        proof {
            lemma_flagged_between_prefix(flags, 1, d as int, n as int);
            lemma_flagged_between_members(flags, 1, d as int);
        }
        if done {
            let mut k: usize = 0;
            while k < res.len()
                invariant
                    self.wf(),
                    self.n() == n,
                    self.betas == old(self).betas,
                    self.vertices == old(self).vertices,
                    flags == old(self).unused_darts.0@,
                    flags.len() == n,
                    k <= res@.len(),
                    res@ == flagged_between(flags, 1, d as int),
                    forall|j: int| 0 <= j < res@.len() ==> 1 <= #[trigger] res@[j] < n,
                    forall|e: int| 0 <= e < n ==> #[trigger] self.unused(e)
                        == (flags[e] && !res@.take(k as int).contains(e as DartIdType)),
                decreases res@.len() - k,
            {
                let dd = res[k];
                let ghost pre = *self;
                self.unused_darts.replace(dd, false);
                assert forall|e: int| 0 <= e < n implies #[trigger] self.unused(e)
                    == (flags[e] && !res@.take(k + 1).contains(e as DartIdType)) by {
                    assert(res@.take(k + 1) =~= res@.take(k as int).push(dd));
                    if e == dd as int {
                        assert(res@.take(k + 1)[k as int] == dd);
                    } else {
                        assert(pre.unused(e) == (flags[e] && !res@.take(k as int).contains(e as DartIdType)));
                        let t1 = res@.take(k + 1);
                        let t0 = res@.take(k as int);
                        if t1.contains(e as DartIdType) {
                            let j = choose|j: int| 0 <= j < t1.len() && t1[j] == e as DartIdType;
                            assert(t0[j] == e as DartIdType);
                        }
                    }
                }
                k = k + 1;
            }
            assert(res@.take(res@.len() as int) =~= res@);
            Ok(res)
        } else {
            Err(DartReservationError(n_darts))
        }
    }

    /// Add a new free dart, marked as used; return its identifier.
    pub fn add_free_dart(&mut self) -> (r: DartIdType)
        requires
            old(self).wf(),
            old(self).n() + 1 <= u32::MAX,
        ensures
            final(self).wf(),
            r == old(self).n(),
            final(self).n() == old(self).n() + 1,
            forall|i: int, d: int| 0 <= i < 4 && 0 <= d < old(self).n() ==> #[trigger] final(self).img(i, d) == old(self).img(i, d),
            final(self).free(r as int),
            forall|d: int| 0 <= d < old(self).n() ==> #[trigger] final(self).unused(d) == old(self).unused(d),
            !final(self).unused(r as int),
            forall|d: int| 0 <= d < old(self).n() ==> #[trigger] final(self).vertex(d) == old(self).vertex(d),
            final(self).vertex(r as int) is None,
    {
        self.allocate_used_darts(1)
    }

    /// Add `n_darts` new free darts, marked as used; return the first new identifier.
    pub fn add_free_darts(&mut self, n_darts: usize) -> (r: DartIdType)
        requires
            old(self).wf(),
            old(self).n() + n_darts <= u32::MAX,
        ensures
            final(self).wf(),
            r == old(self).n(),
            final(self).n() == old(self).n() + n_darts,
            forall|i: int, d: int| 0 <= i < 4 && 0 <= d < old(self).n() ==> #[trigger] final(self).img(i, d) == old(self).img(i, d),
            forall|i: int, d: int| 0 <= i < 4 && old(self).n() <= d < final(self).n() ==> #[trigger] final(self).img(i, d) == NULL_DART_ID,
            forall|d: int| 0 <= d < old(self).n() ==> #[trigger] final(self).unused(d) == old(self).unused(d),
            forall|d: int| old(self).n() <= d < final(self).n() ==> !#[trigger] final(self).unused(d),
            forall|d: int| 0 <= d < old(self).n() ==> #[trigger] final(self).vertex(d) == old(self).vertex(d),
            forall|d: int| old(self).n() <= d < final(self).n() ==> #[trigger] final(self).vertex(d) is None,
    {
        self.allocate_used_darts(n_darts)
    }

    /// Reuse the unused dart of smallest identifier, marking it as used, or add a new free
    /// dart when no dart is unused; return the dart.
    pub fn insert_free_dart(&mut self) -> (r: DartIdType)
        requires
            old(self).wf(),
            old(self).n() + 1 <= u32::MAX,
        ensures
            final(self).wf(),
            !final(self).unused(r as int),
            forall|d: int| 0 <= d < r && d < old(self).n() ==> !#[trigger] old(self).unused(d),
            forall|i: int, d: int| 0 <= i < 4 && 0 <= d < old(self).n() ==> #[trigger] final(self).img(i, d) == old(self).img(i, d),
            forall|d: int| 0 <= d < old(self).n() && d != r ==> #[trigger] final(self).unused(d) == old(self).unused(d),
            forall|d: int| 0 <= d < old(self).n() ==> #[trigger] final(self).vertex(d) == old(self).vertex(d),
            (r as int) < old(self).n() ==> old(self).unused(r as int) && final(self).n() == old(self).n(),
            (r as int) >= old(self).n() ==> {
                &&& r == old(self).n()
                &&& final(self).n() == old(self).n() + 1
                &&& final(self).free(r as int)
                &&& final(self).vertex(r as int) is None
            },
    {
        let n = self.unused_darts.len();
        let mut d: usize = 0;
        while d < n
            invariant
                self.wf(),
                n == self.n(),
                *self == *old(self),
                d <= n,
                forall|e: int| 0 <= e < d ==> !#[trigger] self.unused(e),
            decreases n - d,
        {
            if self.unused_darts.get(d as DartIdType) {
                self.claim_dart(d as DartIdType);
                return d as DartIdType;
            }
            d = d + 1;
        }
        self.add_free_dart()
    }

    /// Mark a free, used dart as unused.
    pub fn remove_free_dart(&mut self, dart_id: DartIdType)
        requires
            old(self).wf(),
            (dart_id as int) < old(self).n(),
            old(self).free(dart_id as int),
            !old(self).unused(dart_id as int),
        ensures
            final(self).wf(),
            final(self).betas == old(self).betas,
            final(self).vertices == old(self).vertices,
            final(self).unused(dart_id as int),
            forall|d: int| 0 <= d < old(self).n() && d != dart_id ==> #[trigger] final(self).unused(d) == old(self).unused(d),
    {
        self.unused_darts.replace(dart_id, true);
    }

    /// Mark every dart of `darts` as used.
    fn claim_all(&mut self, darts: &Vec<DartIdType>)
        requires
            old(self).wf(),
            forall|j: int| 0 <= j < darts@.len() ==> (#[trigger] darts@[j] as int) < old(self).n(),
        ensures
            final(self).wf(),
            final(self).betas == old(self).betas,
            final(self).vertices == old(self).vertices,
            forall|e: int| 0 <= e < old(self).n() ==> #[trigger] final(self).unused(e)
                == (old(self).unused(e) && !darts@.contains(e as DartIdType)),
    {
        let ghost flags = self.unused_darts.0@;
        let ghost n = self.n();
        let mut k: usize = 0;
        while k < darts.len()
            invariant
                self.wf(),
                self.n() == n,
                n == old(self).n(),
                self.betas == old(self).betas,
                self.vertices == old(self).vertices,
                flags == old(self).unused_darts.0@,
                k <= darts@.len(),
                forall|j: int| 0 <= j < darts@.len() ==> (#[trigger] darts@[j] as int) < n,
                forall|e: int| 0 <= e < n ==> #[trigger] self.unused(e)
                    == (flags[e] && !darts@.take(k as int).contains(e as DartIdType)),
            decreases darts@.len() - k,
        {
            let dd = darts[k];
            let ghost pre = *self;
            self.unused_darts.replace(dd, false);
            assert forall|e: int| 0 <= e < n implies #[trigger] self.unused(e)
                == (flags[e] && !darts@.take(k + 1).contains(e as DartIdType)) by {
                assert(darts@.take(k + 1) =~= darts@.take(k as int).push(dd));
                if e == dd as int {
                    assert(darts@.take(k + 1)[k as int] == dd);
                } else {
                    assert(pre.unused(e) == (flags[e] && !darts@.take(k as int).contains(e as DartIdType)));
                    let t1 = darts@.take(k + 1);
                    let t0 = darts@.take(k as int);
                    if t1.contains(e as DartIdType) {
                        let j = choose|j: int| 0 <= j < t1.len() && t1[j] == e as DartIdType;
                        assert(t0[j] == e as DartIdType);
                    }
                }
            }
            k = k + 1;
        }
        assert(darts@.take(darts@.len() as int) =~= darts@);
    }

    /// Darts that a reservation starting at `from` considers, in order: the unused darts of
    /// `from..n`, then those of `1..from`.
    pub open spec fn reservable_from(&self, from: int) -> Seq<DartIdType> {
        let n = self.n() as int;
        flagged_between(self.unused_darts.0@, from, n) + flagged_between(
            self.unused_darts.0@,
            1,
            if from <= n { from } else { n },
        )
    }

    /// Mark the first `n_darts` unused darts met from dart `from` on (wrapping around to dart
    /// 1) as used and return them.
    ///
    /// Fails, leaving every dart as it was, if there are fewer such darts; no darts are asked
    /// for when `n_darts` is 0. A search that starts past the last dart must find enough darts
    /// among the existing ones.
    pub fn reserve_darts_from(&mut self, n_darts: usize, from: DartIdType) -> (r: Result<
        Vec<DartIdType>,
        DartReservationError,
    >)
        requires
            old(self).wf(),
            (from as int) <= old(self).n() || n_darts <= old(self).reservable_from(from as int).len(),
        ensures
            final(self).wf(),
            final(self).same_betas(old(self)),
            final(self).vertices == old(self).vertices,
            ({
                let avail = old(self).reservable_from(from as int);
                match r {
                    Ok(v) => {
                        &&& n_darts <= avail.len()
                        &&& v@ == avail.take(n_darts as int)
                        &&& forall|d: int| 0 <= d < old(self).n() ==> #[trigger] final(self).unused(d)
                            == (old(self).unused(d) && !v@.contains(d as DartIdType))
                    },
                    Err(e) => {
                        &&& e == DartReservationError(n_darts)
                        &&& avail.len() < n_darts
                        &&& final(self).unused_darts == old(self).unused_darts
                    },
                }
            }),
    {
        if n_darts == 0 {
            return Ok(Vec::new());
        }
        let n = self.betas.len();
        let ghost flags = self.unused_darts.0@;
        let ghost top: int = if (from as int) <= n { from as int } else { n as int };
        let mut res: Vec<DartIdType> = Vec::new();
        let mut done = false;
        let mut d: usize = from as usize;
        while d < n && !done
            invariant
                self.wf(),
                n == self.n(),
                flags == self.unused_darts.0@,
                flags.len() == n,
                from <= d,
                d <= n || d == from,
                res@ == flagged_between(flags, from as int, d as int),
                done ==> res@.len() == n_darts && n_darts >= 1,
                !done ==> res@.len() < n_darts || n_darts == 0,
            decreases n - d, if done { 0int } else { 1int },
        {
            assert(flagged_between(flags, from as int, d + 1) == if flags[d as int] {
                flagged_between(flags, from as int, d as int).push(d as DartIdType)
            } else {
                flagged_between(flags, from as int, d as int)
            });
            if self.unused_darts.get(d as DartIdType) {
                res.push(d as DartIdType);
                if res.len() == n_darts {
                    done = true;
                }
            }
            d = d + 1;
        }
        let ghost done1 = done;
        let ghost first = res@;
        assert(done1 || first == flagged_between(flags, from as int, n as int)) by {
            if !done1 && (from as int) <= n {
                assert(d == n);
            }
        }
        let stop: usize = if (from as usize) < n { from as usize } else { n };
        let mut e: usize = 1;
        while e < stop && !done
            invariant
                self.wf(),
                n == self.n(),
                flags == self.unused_darts.0@,
                flags.len() == n,
                stop <= n,
                stop as int == top,
                1 <= e,
                e <= stop || e == 1,
                done1 ==> done && res@ == first,
                !done1 ==> first == flagged_between(flags, from as int, n as int),
                !done1 ==> res@ == first + flagged_between(flags, 1, e as int),
                done ==> res@.len() == n_darts && n_darts >= 1,
                !done ==> res@.len() < n_darts || n_darts == 0,
            decreases stop - e, if done { 0int } else { 1int },
        {
            assert(flagged_between(flags, 1, e + 1) == if flags[e as int] {
                flagged_between(flags, 1, e as int).push(e as DartIdType)
            } else {
                flagged_between(flags, 1, e as int)
            });
            assert(first + flagged_between(flags, 1, e as int).push(e as DartIdType)
                =~= (first + flagged_between(flags, 1, e as int)).push(e as DartIdType));
            if self.unused_darts.get(e as DartIdType) {
                res.push(e as DartIdType);
                if res.len() == n_darts {
                    done = true;
                }
            }
            e = e + 1;
        }
        proof {
            let avail = old(self).reservable_from(from as int);
            let fa = flagged_between(flags, from as int, n as int);
            let fb = flagged_between(flags, 1, top);
            assert(avail == fa + fb);
            lemma_flagged_between_members(flags, 1, top);
            if (from as int) <= n {
                lemma_flagged_between_members(flags, from as int, n as int);
            }
            assert forall|j: int| 0 <= j < avail.len() implies (#[trigger] avail[j] as int) < n by {
                if j < fa.len() {
                    assert(avail[j] == fa[j]);
                } else {
                    assert(avail[j] == fb[j - fa.len()]);
                }
            }
            if done1 {
                lemma_flagged_between_prefix(flags, from as int, d as int, n as int);
                assert(avail.take(n_darts as int) =~= fa.take(n_darts as int));
                assert(res@ == avail.take(n_darts as int));
            } else {
                if (e as int) <= top {
                    lemma_flagged_between_prefix(flags, 1, e as int, top);
                } else {
                    assert(flagged_between(flags, 1, e as int) =~= fb);
                }
                if done {
                    assert(avail.take(n_darts as int) =~= fa + fb.take(n_darts - fa.len()));
                    assert(res@ == avail.take(n_darts as int));
                } else {
                    assert(e == stop || stop <= 1);
                    assert(res@ == avail);
                }
            }
        }
        if done {
            proof {
                let avail = old(self).reservable_from(from as int);
                assert forall|j: int| 0 <= j < res@.len() implies (#[trigger] res@[j] as int) < self.n() by {
                    assert(res@[j] == avail[j]);
                }
            }
            self.claim_all(&res);
            Ok(res)
        } else {
            Err(DartReservationError(n_darts))
        }
    }

    /// Mark dart `dart_id` as used.
    pub fn claim_dart(&mut self, dart_id: DartIdType)
        requires
            old(self).wf(),
            (dart_id as int) < old(self).n(),
        ensures
            final(self).wf(),
            final(self).betas == old(self).betas,
            final(self).vertices == old(self).vertices,
            !final(self).unused(dart_id as int),
            forall|d: int| 0 <= d < old(self).n() && d != dart_id ==> #[trigger] final(self).unused(d) == old(self).unused(d),
    {
        self.unused_darts.replace(dart_id, false);
    }

    /// Mark a free dart as unused, and clear its vertex slot.
    ///
    /// Return whether the dart was already unused; fail, leaving the map as it is, if the dart
    /// is not free.
    pub fn release_dart(&mut self, dart_id: DartIdType) -> (r: Result<bool, DartReleaseError>)
        requires
            old(self).wf(),
            (dart_id as int) < old(self).n(),
        ensures
            final(self).wf(),
            final(self).betas == old(self).betas,
            r is Err <==> !old(self).free(dart_id as int),
            r is Err ==> r == Err::<bool, DartReleaseError>(DartReleaseError(dart_id)) && *final(self) == *old(self),
            r is Ok ==> {
                &&& r == Ok::<bool, DartReleaseError>(old(self).unused(dart_id as int))
                &&& final(self).unused(dart_id as int)
                &&& forall|d: int| 0 <= d < old(self).n() && d != dart_id ==> #[trigger] final(self).unused(d) == old(self).unused(d)
                &&& final(self).vertices.slots() == old(self).vertices.slots().update(dart_id as int, None)
            },
    {
        let free = self.betas.get(0, dart_id) == NULL_DART_ID && self.betas.get(1, dart_id) == NULL_DART_ID
            && self.betas.get(2, dart_id) == NULL_DART_ID && self.betas.get(3, dart_id) == NULL_DART_ID;
        if !free {
            return Err(DartReleaseError(dart_id));
        }
        self.vertices.clear_slot(dart_id);
        let was = self.unused_darts.replace(dart_id, true);
        Ok(was)
    }
}

} // verus!
