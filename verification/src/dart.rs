//! Dart-associated data: the vertex and face identifiers of each dart.

use crate::ids::DartIdType;
use vstd::prelude::*;

verus! {

/// Identifiers of the vertex and of the face a dart belongs to.
#[derive(Clone, Copy, Debug, PartialEq, Eq, Structural)]
pub struct CellIdentifiers {
    /// Vertex identifier.
    pub vertex_id: usize,
    /// Face identifier.
    pub face_id: usize,
}

impl Default for CellIdentifiers {
    fn default() -> (r: Self)
        ensures
            r == (CellIdentifiers { vertex_id: 0, face_id: 0 }),
    {
        CellIdentifiers { vertex_id: 0, face_id: 0 }
    }
}

/// Dart-associated data: entry `d` holds the cell identifiers of dart `d`.
pub struct DartData {
    /// Cell identifiers of each dart.
    pub associated_cells: Vec<CellIdentifiers>,
}

impl DartData {
    /// Number of entries.
    pub open spec fn n(&self) -> nat {
        self.associated_cells@.len()
    }

    /// Entry of dart `d`.
    pub open spec fn cells(&self, d: int) -> CellIdentifiers {
        self.associated_cells@[d]
    }

    /// Data of `n_darts + 1` darts (the null dart included), all identifiers null.
    pub fn new(n_darts: usize) -> (r: Self)
        requires
            n_darts < usize::MAX,
        ensures
            r.n() == n_darts + 1,
            forall|d: int| 0 <= d < r.n() ==> #[trigger] r.cells(d) == (CellIdentifiers { vertex_id: 0, face_id: 0 }),
    {
        let mut v: Vec<CellIdentifiers> = Vec::with_capacity(n_darts + 1);
        let mut k: usize = 0;
        while k <= n_darts
            invariant
                k <= n_darts + 1,
                n_darts < usize::MAX,
                v@.len() == k,
                forall|d: int| 0 <= d < k ==> #[trigger] v@[d] == (CellIdentifiers { vertex_id: 0, face_id: 0 }),
            decreases n_darts + 1 - k,
        {
            v.push(CellIdentifiers { vertex_id: 0, face_id: 0 });
            k = k + 1;
        }
        DartData { associated_cells: v }
    }

    /// Add one entry with null identifiers.
    pub fn add_entry(&mut self)
        ensures
            final(self).associated_cells@ == old(self).associated_cells@.push(CellIdentifiers { vertex_id: 0, face_id: 0 }),
    {
        self.associated_cells.push(CellIdentifiers::default());
    }

    /// Add `n_darts` entries with null identifiers.
    pub fn add_entries(&mut self, n_darts: usize)
        ensures
            final(self).n() == old(self).n() + n_darts,
            forall|d: int| 0 <= d < old(self).n() ==> #[trigger] final(self).cells(d) == old(self).cells(d),
            forall|d: int| old(self).n() <= d < final(self).n()
                ==> #[trigger] final(self).cells(d) == (CellIdentifiers { vertex_id: 0, face_id: 0 }),
    {
        let mut k: usize = 0;
        while k < n_darts
            invariant
                k <= n_darts,
                self.n() == old(self).n() + k,
                forall|d: int| 0 <= d < old(self).n() ==> #[trigger] self.cells(d) == old(self).cells(d),
                forall|d: int| old(self).n() <= d < self.n()
                    ==> #[trigger] self.cells(d) == (CellIdentifiers { vertex_id: 0, face_id: 0 }),
            decreases n_darts - k,
        {
            let ghost pre = *self;
            self.add_entry();
            assert forall|d: int| 0 <= d < pre.n() implies #[trigger] self.cells(d) == pre.cells(d) by {
                assert(self.associated_cells@[d] == pre.associated_cells@[d]);
            }
            assert(self.cells(pre.n() as int) == (CellIdentifiers { vertex_id: 0, face_id: 0 }));
            k = k + 1;
        }
    }

    /// Reset the entry of `dart_id` to null identifiers.
    pub fn reset_entry(&mut self, dart_id: DartIdType)
        requires
            (dart_id as int) < old(self).n(),
        ensures
            final(self).associated_cells@ == old(self).associated_cells@.update(
                dart_id as int,
                CellIdentifiers { vertex_id: 0, face_id: 0 },
            ),
    {
        self.associated_cells.set(dart_id as usize, CellIdentifiers::default());
    }
}

} // verus!
