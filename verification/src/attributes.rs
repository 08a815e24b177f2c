//! Attributes bound to cells: the update trait and the sparse storage.

use vstd::prelude::*;

verus! {

/// Attribute operation failure.
#[derive(Debug, PartialEq, Eq)]
pub enum AttributeError {
    /// Not enough data to perform the named operation.
    InsufficientData(&'static str),
}

/// Behaviour of an attribute when the cells it is bound to are merged or split.
pub trait AttributeUpdate: Sized + Copy {
    /// Merge the values of two cells into the value of the merged cell.
    fn merge(attr1: Self, attr2: Self) -> Self;

    /// Split the value of a cell into the values of the two resulting cells.
    fn split(attr: Self) -> (Self, Self);

    /// Value of a merged cell when only one of the two cells has a value.
    fn merge_incomplete(attr: Self) -> (r: Self)
        default_ensures
            r == attr,
    {
        attr
    }

    /// Value of a merged cell when none of the two cells has a value.
    fn merge_from_none() -> (r: Option<Self>)
        default_ensures
            r is None,
    {
        None
    }
}

/// Vertex values: attributes that also decide whether two darts, given the vertex values at
/// their ends, run in opposite directions. This is the geometry predicate of 2-sews.
pub trait VertexAttribute: AttributeUpdate {
    /// Whether the segment `lhs_start -> lhs_end` and the segment `rhs_start -> rhs_end` run in
    /// opposite directions.
    fn opposite_directions(lhs_start: Self, lhs_end: Self, rhs_start: Self, rhs_end: Self) -> bool;
}

/// What the orientation test of a sew decides, given the vertex values at the start and end of
/// the left dart and of the right dart: a refusal comes from `opposite_directions` answering
/// `false` on the four values, all defined; when the four values are defined, any other
/// outcome comes from it answering `true`.
pub open spec fn orientation_decides<V: VertexAttribute>(
    l_start: Option<V>,
    l_end: Option<V>,
    r_start: Option<V>,
    r_end: Option<V>,
    refused: bool,
) -> bool {
    let all_defined = l_start is Some && l_end is Some && r_start is Some && r_end is Some;
    let args = (l_start->Some_0, l_end->Some_0, r_start->Some_0, r_end->Some_0);
    &&& refused ==> all_defined && call_ensures(V::opposite_directions, args, false)
    &&& (all_defined && !refused) ==> call_ensures(V::opposite_directions, args, true)
}

/// `v` is a value that merging the contents `l` and `r` of two slots can give: `merge` of
/// both values, `merge_incomplete` of the only value, or the value of `merge_from_none`.
pub open spec fn merged_value<A: AttributeUpdate>(l: Option<A>, r: Option<A>, v: A) -> bool {
    match (l, r) {
        (Some(x), Some(y)) => call_ensures(A::merge, (x, y), v),
        (Some(x), None) => call_ensures(A::merge_incomplete, (x,), v),
        (None, Some(y)) => call_ensures(A::merge_incomplete, (y,), v),
        (None, None) => call_ensures(A::merge_from_none, (), Some(v)),
    }
}

/// `b` is `a` after merging slots `l` and `r` into slot `out`: `out` holds the merged value of
/// the former contents of `l` and `r`, which are emptied.
pub open spec fn merge_rel<A: AttributeUpdate>(a: Seq<Option<A>>, b: Seq<Option<A>>, out: int, l: int, r: int) -> bool {
    &&& b.len() == a.len()
    &&& b[out] is Some
    &&& merged_value(a[l], a[r], b[out]->Some_0)
    &&& (l != out ==> b[l] is None)
    &&& (r != out ==> b[r] is None)
    &&& forall|i: int| 0 <= i < a.len() && i != out && i != l && i != r ==> #[trigger] b[i] == a[i]
}

/// `b` is `a` after splitting slot `inp` into slots `l` and `r`: when the two slots differ,
/// they hold the two values that `split` gives of the former content of `inp`; when they are
/// the same slot, it holds the second of them.
pub open spec fn split_rel<A: AttributeUpdate>(a: Seq<Option<A>>, b: Seq<Option<A>>, l: int, r: int, inp: int) -> bool {
    &&& b.len() == a.len()
    &&& a[inp] is Some
    &&& b[l] is Some
    &&& b[r] is Some
    &&& (l != r ==> call_ensures(A::split, (a[inp]->Some_0,), (b[l]->Some_0, b[r]->Some_0)))
    &&& (l == r ==> exists|x: A| #[trigger] call_ensures(A::split, (a[inp]->Some_0,), (x, b[r]->Some_0)))
    &&& (inp != l && inp != r ==> b[inp] is None)
    &&& forall|i: int| 0 <= i < a.len() && i != inp && i != l && i != r ==> #[trigger] b[i] == a[i]
}

/// Sparse storage of an attribute: slot `id` holds the value of cell `id`, if any.
pub struct AttrSparseVec<A> {
    data: Vec<Option<A>>,
}

impl<A: AttributeUpdate> AttrSparseVec<A> {
    /// Content of the slots.
    pub closed spec fn slots(&self) -> Seq<Option<A>> {
        self.data@
    }

    /// Number of slots.
    pub open spec fn n(&self) -> nat {
        self.slots().len()
    }

    /// Storage of `n` empty slots.
    pub fn new(n: usize) -> (r: Self)
        ensures
            r.n() == n,
            forall|i: int| 0 <= i < n ==> #[trigger] r.slots()[i] is None,
    {
        let mut data: Vec<Option<A>> = Vec::with_capacity(n);
        let mut k: usize = 0;
        while k < n
            invariant
                k <= n,
                data@.len() == k,
                forall|i: int| 0 <= i < k ==> #[trigger] data@[i] is None,
            decreases n - k,
        {
            data.push(None);
            k = k + 1;
        }
        AttrSparseVec { data }
    }

    /// Add `len` empty slots.
    pub fn extend(&mut self, len: usize)
        ensures
            final(self).n() == old(self).n() + len,
            forall|i: int| 0 <= i < old(self).n() ==> #[trigger] final(self).slots()[i] == old(self).slots()[i],
            forall|i: int| old(self).n() <= i < final(self).n() ==> #[trigger] final(self).slots()[i] is None,
    {
        let mut k: usize = 0;
        while k < len
            invariant
                k <= len,
                self.n() == old(self).n() + k,
                forall|i: int| 0 <= i < old(self).n() ==> #[trigger] self.slots()[i] == old(self).slots()[i],
                forall|i: int| old(self).n() <= i < self.n() ==> #[trigger] self.slots()[i] is None,
            decreases len - k,
        {
            let ghost pre = *self;
            self.data.push(None);
            assert forall|i: int| 0 <= i < pre.n() implies #[trigger] self.slots()[i] == pre.slots()[i] by {
                assert(self.data@[i] == pre.data@[i]);
            }
            assert(self.slots()[pre.n() as int] is None);
            k = k + 1;
        }
    }

    /// Number of slots holding a value.
    pub fn n_attributes(&self) -> (r: usize)
        ensures
            r == count_some(self.slots()),
    {
        let mut c: usize = 0;
        let mut k: usize = 0;
        while k < self.data.len()
            invariant
                k <= self.data@.len(),
                c == count_some(self.data@.take(k as int)),
                c <= k,
            decreases self.data@.len() - k,
        {
            assert(self.data@.take(k + 1).drop_last() =~= self.data@.take(k as int));
            if self.data[k].is_some() {
                c = c + 1;
            }
            k = k + 1;
        }
        assert(self.data@.take(self.data@.len() as int) =~= self.data@);
        c
    }

    /// A copy of the storage, slot for slot.
    pub fn copy(&self) -> (r: Self)
        ensures
            r.slots() == self.slots(),
    {
        let mut data: Vec<Option<A>> = Vec::with_capacity(self.data.len());
        let mut k: usize = 0;
        while k < self.data.len()
            invariant
                k <= self.data@.len(),
                data@ == self.data@.take(k as int),
            decreases self.data@.len() - k,
        {
            data.push(self.data[k]);
            k = k + 1;
            assert(data@ =~= self.data@.take(k as int));
        }
        assert(self.data@.take(self.data@.len() as int) =~= self.data@);
        AttrSparseVec { data }
    }

    /// Value of slot `id`.
    pub fn read(&self, id: u32) -> (r: Option<A>)
        requires
            (id as int) < self.n(),
        ensures
            r == self.slots()[id as int],
    {
        self.data[id as usize]
    }

    /// Write `val` in slot `id` and return the previous content.
    pub fn write(&mut self, id: u32, val: A) -> (r: Option<A>)
        requires
            (id as int) < old(self).n(),
        ensures
            r == old(self).slots()[id as int],
            final(self).slots() == old(self).slots().update(id as int, Some(val)),
    {
        let r = self.data[id as usize];
        self.data.set(id as usize, Some(val));
        r
    }

    /// Empty slot `id` and return the previous content.
    pub fn remove(&mut self, id: u32) -> (r: Option<A>)
        requires
            (id as int) < old(self).n(),
        ensures
            r == old(self).slots()[id as int],
            final(self).slots() == old(self).slots().update(id as int, None),
    {
        let r = self.data[id as usize];
        self.data.set(id as usize, None);
        r
    }

    /// Empty slot `id`.
    pub fn clear_slot(&mut self, id: u32)
        requires
            (id as int) < old(self).n(),
        ensures
            final(self).slots() == old(self).slots().update(id as int, None),
    {
        self.data.set(id as usize, None);
    }

    /// Put `val` in slot `id`.
    pub(crate) fn set_slot(&mut self, id: u32, val: Option<A>)
        requires
            (id as int) < old(self).n(),
        ensures
            final(self).slots() == old(self).slots().update(id as int, val),
    {
        self.data.set(id as usize, val);
    }

    /// Merge the values of slots `lhs` and `rhs` into slot `out`.
    ///
    /// Both values are combined with `merge`, a single value with `merge_incomplete`; with no
    /// value, `merge_from_none` decides, and the storage is left as it is when it gives none.
    pub fn merge(&mut self, out: u32, lhs: u32, rhs: u32) -> (r: Result<(), AttributeError>)
        requires
            (out as int) < old(self).n(),
            (lhs as int) < old(self).n(),
            (rhs as int) < old(self).n(),
        ensures
            final(self).n() == old(self).n(),
            r is Ok ==> merge_rel(old(self).slots(), final(self).slots(), out as int, lhs as int, rhs as int),
            r is Err ==> {
                &&& r == Err::<(), AttributeError>(AttributeError::InsufficientData("merge"))
                &&& old(self).slots()[lhs as int] is None
                &&& old(self).slots()[rhs as int] is None
                &&& call_ensures(A::merge_from_none, (), None::<A>)
                &&& final(self).slots() == old(self).slots()
            },
            (old(self).slots()[lhs as int] is Some || old(self).slots()[rhs as int] is Some) ==> r is Ok,
    {
        let new_val = match (self.data[lhs as usize], self.data[rhs as usize]) {
            (Some(v1), Some(v2)) => Some(A::merge(v1, v2)),
            (Some(v), None) | (None, Some(v)) => Some(A::merge_incomplete(v)),
            (None, None) => A::merge_from_none(),
        };
        match new_val {
            Some(v) => {
                self.data.set(lhs as usize, None);
                self.data.set(rhs as usize, None);
                self.data.set(out as usize, Some(v));
                Ok(())
            },
            None => Err(AttributeError::InsufficientData("merge")),
        }
    }

    /// Split the value of slot `inp` into slots `lhs` and `rhs`.
    ///
    /// Without a value in `inp`, the storage is left as it is.
    pub fn split(&mut self, lhs: u32, rhs: u32, inp: u32) -> (r: Result<(), AttributeError>)
        requires
            (inp as int) < old(self).n(),
            (lhs as int) < old(self).n(),
            (rhs as int) < old(self).n(),
        ensures
            final(self).n() == old(self).n(),
            r is Ok <==> old(self).slots()[inp as int] is Some,
            r is Ok ==> split_rel(old(self).slots(), final(self).slots(), lhs as int, rhs as int, inp as int),
            r is Err ==> r == Err::<(), AttributeError>(AttributeError::InsufficientData("split"))
                && final(self).slots() == old(self).slots(),
    {
        match self.data[inp as usize] {
            Some(v) => {
                let (a, b) = A::split(v);
                self.data.set(inp as usize, None);
                self.data.set(lhs as usize, Some(a));
                self.data.set(rhs as usize, Some(b));
                assert(call_ensures(A::split, (v,), (a, b)));
                assert(self.data@[rhs as int] == Some(b));
                assert(lhs == rhs ==> call_ensures(A::split, (old(self).slots()[inp as int]->Some_0,), (a, self.slots()[rhs as int]->Some_0)));
                Ok(())
            },
            None => Err(AttributeError::InsufficientData("split")),
        }
    }
}

/// Number of slots holding a value.
pub open spec fn count_some<A>(s: Seq<Option<A>>) -> nat
    decreases s.len(),
{
    if s.len() == 0 {
        0
    } else {
        count_some(s.drop_last()) + if s.last() is Some { 1nat } else { 0nat }
    }
}

} // verus!
