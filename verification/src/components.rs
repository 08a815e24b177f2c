//! Storage of beta functions and of the "unused" flags of darts.

use crate::ids::{DartIdType, NULL_DART_ID};
use vstd::prelude::*;

verus! {

/// Storage of the `N` beta functions of a map: row `d` holds the images of dart `d`.
pub struct BetaFunctionsAt<const N: usize>(pub Vec<[DartIdType; N]>);

impl<const N: usize> BetaFunctionsAt<N> {
    /// Number of rows (darts, the null dart included).
    pub open spec fn n(&self) -> nat {
        self.0@.len()
    }

    /// `b<i>(d)`.
    pub open spec fn img(&self, i: int, d: int) -> DartIdType {
        self.0@[d][i]
    }

    /// Well-formedness: the null dart exists, its images are null, and every image is a dart
    /// of the storage.
    pub open spec fn wf(&self) -> bool {
        &&& 1 <= self.n()
        &&& forall|i: int| 0 <= i < N ==> #[trigger] self.img(i, 0) == NULL_DART_ID
        &&& forall|d: int, i: int| 0 <= d < self.n() && 0 <= i < N ==> #[trigger] self.img(i, d) < self.n()
    }

    /// Whether every row from `from` on holds only null images.
    pub open spec fn null_from(&self, from: int) -> bool {
        forall|d: int, i: int| from <= d < self.n() && 0 <= i < N ==> #[trigger] self.img(i, d) == NULL_DART_ID
    }

    /// Build the storage of `n_darts + 1` darts (the null dart included), all images null.
    pub fn new(n_darts: usize) -> (r: Self)
        requires
            n_darts < usize::MAX,
        ensures
            r.n() == n_darts + 1,
            r.null_from(0),
    {
        let mut v: Vec<[DartIdType; N]> = Vec::with_capacity(n_darts + 1);
        let mut k: usize = 0;
        while k <= n_darts
            invariant
                k <= n_darts + 1,
                n_darts < usize::MAX,
                v@.len() == k,
                forall|d: int, i: int| 0 <= d < k && 0 <= i < N ==> v@[d][i] == NULL_DART_ID,
            decreases n_darts + 1 - k,
        {
            let row: [DartIdType; N] = [NULL_DART_ID; N];
            v.push(row);
            k = k + 1;
        }
        BetaFunctionsAt(v)
    }

    /// Add `len` rows of null images.
    pub fn extend(&mut self, len: usize)
        ensures
            final(self).n() == old(self).n() + len,
            forall|d: int, i: int| 0 <= d < old(self).n() && 0 <= i < N
                ==> #[trigger] final(self).img(i, d) == old(self).img(i, d),
            final(self).null_from(old(self).n() as int),
    {
        let mut k: usize = 0;
        while k < len
            invariant
                k <= len,
                self.n() == old(self).n() + k,
                forall|d: int, i: int| 0 <= d < old(self).n() && 0 <= i < N
                    ==> #[trigger] self.img(i, d) == old(self).img(i, d),
                self.null_from(old(self).n() as int),
            decreases len - k,
        {
            let row: [DartIdType; N] = [NULL_DART_ID; N];
            let ghost pre = *self;
            self.0.push(row);
            assert forall|d: int, i: int| 0 <= d < pre.n() && 0 <= i < N implies #[trigger] self.img(i, d) == pre.img(i, d) by {
                assert(self.0@[d] == pre.0@[d]);
            }
            assert forall|d: int, i: int| old(self).n() <= d < self.n() && 0 <= i < N implies #[trigger] self.img(i, d) == NULL_DART_ID by {
                if d < pre.n() {
                    assert(self.img(i, d) == pre.img(i, d));
                } else {
                    assert(self.0@[d] == row);
                }
            }
            k = k + 1;
        }
    }

    /// Number of rows.
    pub fn len(&self) -> (r: usize)
        ensures
            r == self.n(),
    {
        self.0.len()
    }

    /// A copy of the storage, row for row.
    pub fn copy(&self) -> (r: Self)
        ensures
            r.0@ == self.0@,
    {
        let mut v: Vec<[DartIdType; N]> = Vec::with_capacity(self.0.len());
        let mut k: usize = 0;
        while k < self.0.len()
            invariant
                k <= self.0@.len(),
                v@ == self.0@.take(k as int),
            decreases self.0@.len() - k,
        {
            v.push(self.0[k]);
            k = k + 1;
            assert(v@ =~= self.0@.take(k as int));
        }
        assert(self.0@.take(self.0@.len() as int) =~= self.0@);
        BetaFunctionsAt(v)
    }

    /// `b<i>(d)`.
    pub fn get(&self, i: u8, d: DartIdType) -> (r: DartIdType)
        requires
            (i as int) < N,
            (d as int) < self.n(),
        ensures
            r == self.img(i as int, d as int),
    {
        self.0[d as usize][i as usize]
    }

    /// Set `b<i>(d)` to `val`.
    pub fn set(&mut self, i: u8, d: DartIdType, val: DartIdType)
        requires
            (i as int) < N,
            (d as int) < old(self).n(),
        ensures
            final(self).n() == old(self).n(),
            final(self).img(i as int, d as int) == val,
            forall|j: int, e: int| 0 <= e < old(self).n() && 0 <= j < N && (j != i || e != d)
                ==> #[trigger] final(self).img(j, e) == old(self).img(j, e),
    {
        let mut row = self.0[d as usize];
        row[i as usize] = val;
        self.0.set(d as usize, row);
    }
}

/// Two storages with the same rows have the same images.
pub proof fn lemma_same_rows<const N: usize>(a: BetaFunctionsAt<N>, b: BetaFunctionsAt<N>)
    requires
        a.0@ == b.0@,
    ensures
        a.n() == b.n(),
        forall|i: int, d: int| #[trigger] a.img(i, d) == b.img(i, d),
        b.wf() ==> a.wf(),
{
    assert forall|i: int, d: int| #[trigger] a.img(i, d) == b.img(i, d) by {
        assert(a.0@[d] == b.0@[d]);
    }
}

/// Number of `true` entries.
pub open spec fn count_true(s: Seq<bool>) -> nat
    decreases s.len(),
{
    if s.len() == 0 {
        0
    } else {
        count_true(s.drop_last()) + if s.last() { 1nat } else { 0nat }
    }
}

/// Darts `d` of `lo..hi` whose flag is set, in increasing order.
pub open spec fn flagged_between(s: Seq<bool>, lo: int, hi: int) -> Seq<DartIdType>
    decreases hi - lo,
{
    if hi <= lo {
        Seq::empty()
    } else {
        let prev = flagged_between(s, lo, hi - 1);
        if s[hi - 1] { prev.push((hi - 1) as DartIdType) } else { prev }
    }
}

/// The darts flagged below `hi` are a prefix of the darts flagged below `top`.
pub proof fn lemma_flagged_between_prefix(s: Seq<bool>, lo: int, hi: int, top: int)
    requires
        lo <= hi <= top,
    ensures
        flagged_between(s, lo, hi).len() <= flagged_between(s, lo, top).len(),
        flagged_between(s, lo, top).take(flagged_between(s, lo, hi).len() as int) == flagged_between(s, lo, hi),
    decreases top - hi,
{
    if hi < top {
        lemma_flagged_between_prefix(s, lo, hi, top - 1);
        let a = flagged_between(s, lo, hi);
        let b = flagged_between(s, lo, top - 1);
        let c = flagged_between(s, lo, top);
        assert(c.take(a.len() as int) =~= b.take(a.len() as int));
    }
}

/// Every dart listed by `flagged_between` is flagged, lies in `lo..hi`, and is listed once.
pub proof fn lemma_flagged_between_members(s: Seq<bool>, lo: int, hi: int)
    requires
        0 <= lo,
        hi <= s.len(),
        hi <= u32::MAX + 1,
    ensures
        forall|j: int| 0 <= j < flagged_between(s, lo, hi).len() ==> {
            let x = #[trigger] flagged_between(s, lo, hi)[j];
            lo <= x < hi && s[x as int]
        },
        forall|x: int| lo <= x < hi && s[x] ==> #[trigger] flagged_between(s, lo, hi).contains(x as DartIdType),
        flagged_between(s, lo, hi).no_duplicates(),
    decreases hi - lo,
{
    if hi > lo {
        lemma_flagged_between_members(s, lo, hi - 1);
        let p = flagged_between(s, lo, hi - 1);
        if s[hi - 1] {
            let q = p.push((hi - 1) as DartIdType);
            assert forall|x: int| lo <= x < hi && s[x] implies #[trigger] q.contains(x as DartIdType) by {
                if x == hi - 1 {
                    assert(q[p.len() as int] == (hi - 1) as DartIdType);
                } else {
                    assert(p.contains(x as DartIdType));
                    let j = choose|j: int| 0 <= j < p.len() && p[j] == x as DartIdType;
                    assert(q[j] == x as DartIdType);
                }
            }
        }
    }
}

/// Storage of the "unused" flag of every dart.
pub struct UnusedDartsAt(pub Vec<bool>);

impl UnusedDartsAt {
    /// Number of flags.
    pub open spec fn n(&self) -> nat {
        self.0@.len()
    }

    /// Flag of dart `d`.
    pub open spec fn flag(&self, d: int) -> bool {
        self.0@[d]
    }

    /// Build the storage of `n_darts + 1` darts, all used.
    pub fn new(n_darts: usize) -> (r: Self)
        requires
            n_darts < usize::MAX,
        ensures
            r.n() == n_darts + 1,
            forall|d: int| 0 <= d < r.n() ==> !#[trigger] r.flag(d),
    {
        let mut v: Vec<bool> = Vec::with_capacity(n_darts + 1);
        let mut k: usize = 0;
        while k <= n_darts
            invariant
                k <= n_darts + 1,
                n_darts < usize::MAX,
                v@.len() == k,
                forall|d: int| 0 <= d < k ==> !v@[d],
            decreases n_darts + 1 - k,
        {
            v.push(false);
            k = k + 1;
        }
        UnusedDartsAt(v)
    }

    /// Add `len` flags set to `unused`.
    pub fn extend_with(&mut self, len: usize, unused: bool)
        ensures
            final(self).n() == old(self).n() + len,
            forall|d: int| 0 <= d < old(self).n() ==> #[trigger] final(self).flag(d) == old(self).flag(d),
            forall|d: int| old(self).n() <= d < final(self).n() ==> #[trigger] final(self).flag(d) == unused,
    {
        let mut k: usize = 0;
        while k < len
            invariant
                k <= len,
                self.n() == old(self).n() + k,
                forall|d: int| 0 <= d < old(self).n() ==> #[trigger] self.flag(d) == old(self).flag(d),
                forall|d: int| old(self).n() <= d < self.n() ==> #[trigger] self.flag(d) == unused,
            decreases len - k,
        {
            let ghost pre = *self;
            self.0.push(unused);
            assert forall|d: int| 0 <= d < pre.n() implies #[trigger] self.flag(d) == pre.flag(d) by {
                assert(self.0@[d] == pre.0@[d]);
            }
            assert(self.flag(pre.n() as int) == unused);
            k = k + 1;
        }
    }

    /// Add `len` used flags.
    pub fn extend(&mut self, len: usize)
        ensures
            final(self).n() == old(self).n() + len,
            forall|d: int| 0 <= d < old(self).n() ==> #[trigger] final(self).flag(d) == old(self).flag(d),
            forall|d: int| old(self).n() <= d < final(self).n() ==> !#[trigger] final(self).flag(d),
    {
        self.extend_with(len, false);
    }

    /// Number of flags.
    pub fn len(&self) -> (r: usize)
        ensures
            r == self.n(),
    {
        self.0.len()
    }

    /// Flag of dart `d`.
    pub fn get(&self, d: DartIdType) -> (r: bool)
        requires
            (d as int) < self.n(),
        ensures
            r == self.flag(d as int),
    {
        self.0[d as usize]
    }

    /// Set the flag of dart `d`, returning its previous value.
    pub fn replace(&mut self, d: DartIdType, val: bool) -> (r: bool)
        requires
            (d as int) < old(self).n(),
        ensures
            r == old(self).flag(d as int),
            final(self).n() == old(self).n(),
            final(self).flag(d as int) == val,
            forall|e: int| 0 <= e < old(self).n() && e != d ==> #[trigger] final(self).flag(e) == old(self).flag(e),
    {
        let r = self.0[d as usize];
        self.0.set(d as usize, val);
        r
    }
}

} // verus!
