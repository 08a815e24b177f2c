//! Laying the cells of a [`CMap2`] out as one piece of an unstructured grid.
//!
//! Points are the vertices of the map, in increasing identifier order. Cells are the boundary
//! edges (2-free darts) as lines, then the faces, each listing the points of the darts met by
//! following *β<sub>1</sub>* from the face identifier; faces of fewer than three darts are
//! left out.

use crate::attributes::AttributeUpdate;
use crate::cmap2::structure::CMap2;
use crate::grid_data::{legacy_cells, legacy_cells_from, CellKind};
use crate::ids::{DartIdType, VertexIdType, NULL_DART_ID};
use crate::orbits::{bfs_orbit, steps_2d, OrbitPolicy};
use vstd::prelude::*;

verus! {

/// Cells of a map laid out as one piece of an unstructured grid.
pub struct GridCells {
    /// Point `i` of the piece is the value of the vertex `vertex_ids[i]`.
    pub vertex_ids: Vec<VertexIdType>,
    /// Number of cells.
    pub num_cells: usize,
    /// Cells in the legacy layout: a count, then that many point indices, for each cell.
    pub cell_verts: Vec<u32>,
    /// Kind of each cell.
    pub types: Vec<CellKind>,
}

/// Position of the vertex identifier `v` among `vids`.
pub open spec fn point_of(vids: Seq<u32>, v: u32) -> u32 {
    (choose|i: int| 0 <= i < vids.len() && vids[i] == v) as u32
}

/// Legacy layout of `cells`: the length of each cell, followed by its entries.
pub open spec fn legacy_layout(cells: Seq<Seq<u32>>) -> Seq<u32>
    decreases cells.len(),
{
    if cells.len() == 0 {
        Seq::empty()
    } else {
        legacy_layout(cells.drop_last()) + seq![cells.last().len() as u32] + cells.last()
    }
}

/// Line cells of the boundary edges among `es`: one for each 2-free dart, from its point to the
/// point of its *β<sub>1</sub>* image.
pub open spec fn border_cells<V: AttributeUpdate>(m: CMap2<V>, vids: Seq<u32>, es: Seq<u32>) -> Seq<Seq<u32>>
    decreases es.len(),
{
    if es.len() == 0 {
        Seq::empty()
    } else {
        let prev = border_cells(m, vids, es.drop_last());
        let e = es.last() as int;
        if m.img(2, e) == NULL_DART_ID {
            prev.push(seq![point_of(vids, m.vid(e)), point_of(vids, m.vid(m.img(1, e) as int))])
        } else {
            prev
        }
    }
}

/// Darts of the face of `f` met by following *β<sub>1</sub>* from `f`, in that order.
pub open spec fn face_darts<V: AttributeUpdate>(m: CMap2<V>, f: DartIdType) -> Seq<DartIdType> {
    bfs_orbit(m.betas, steps_2d(OrbitPolicy::FaceLinear), f)
}

/// Points of the darts of the face of `f`, in orbit order.
pub open spec fn face_points<V: AttributeUpdate>(m: CMap2<V>, vids: Seq<u32>, f: DartIdType) -> Seq<u32> {
    face_darts(m, f).map_values(|x: DartIdType| point_of(vids, m.vid(x as int)))
}

/// Face cells of the faces `fs` that have at least three darts.
pub open spec fn face_cells<V: AttributeUpdate>(m: CMap2<V>, vids: Seq<u32>, fs: Seq<u32>) -> Seq<Seq<u32>>
    decreases fs.len(),
{
    if fs.len() == 0 {
        Seq::empty()
    } else {
        let prev = face_cells(m, vids, fs.drop_last());
        let c = face_points(m, vids, fs.last());
        if c.len() >= 3 { prev.push(c) } else { prev }
    }
}

/// Kind of a face cell of `k` points.
pub open spec fn face_kind(k: nat) -> CellKind {
    if k == 3 {
        CellKind::Triangle
    } else if k == 4 {
        CellKind::Quad
    } else {
        CellKind::Polygon
    }
}

/// Whether the point of the dart at position `j` of the face of `f` is a vertex of the map.
pub open spec fn face_point_found<V: AttributeUpdate>(m: CMap2<V>, f: DartIdType, j: int) -> bool {
    m.cell_reps(0).contains(m.vid(face_darts(m, f)[j] as int))
}

/// Whether both ends of the edge of `e` are vertices of the map, when `e` is 2-free.
pub open spec fn border_points_found<V: AttributeUpdate>(m: CMap2<V>, e: DartIdType) -> bool {
    m.img(2, e as int) == NULL_DART_ID ==> {
        &&& m.cell_reps(0).contains(m.vid(e as int))
        &&& m.cell_reps(0).contains(m.vid(m.img(1, e as int) as int))
    }
}

/// Whether every point that the layout refers to is a vertex of the map: the end of an open
/// boundary edge, or a dart that a face reaches outside the used darts, may have none.
pub open spec fn exportable<V: AttributeUpdate>(m: CMap2<V>) -> bool {
    &&& forall|k: int| 0 <= k < m.cell_reps(1).len() ==> #[trigger] border_points_found(m, m.cell_reps(1)[k])
    &&& forall|k: int, j: int| 0 <= k < m.cell_reps(2).len() && 0 <= j < face_darts(m, m.cell_reps(2)[k]).len()
        ==> #[trigger] face_point_found(m, m.cell_reps(2)[k], j)
}

/// `g` lays `m` out as one piece of an unstructured grid: the points are the vertices of the
/// map in increasing order, the cells its boundary edges as lines, then its faces of at least
/// three darts, each with its kind.
pub open spec fn grid_layout<V: AttributeUpdate>(m: CMap2<V>, g: GridCells) -> bool {
    let vids = m.cell_reps(0);
    let lines = border_cells(m, vids, m.cell_reps(1));
    let faces = face_cells(m, vids, m.cell_reps(2));
    &&& g.vertex_ids@ == vids
    &&& g.num_cells == lines.len() + faces.len()
    &&& g.cell_verts@ == legacy_layout(lines + faces)
    &&& g.types@ == lines.map_values(|c: Seq<u32>| CellKind::Line)
        + faces.map_values(|c: Seq<u32>| face_kind(c.len()))
    &&& forall|q: int| 0 <= q < faces.len() ==> 3 <= #[trigger] faces[q].len() <= m.n()
}

impl<V: AttributeUpdate> CMap2<V> {
    /// Cell representatives are distinct used darts below `hi`, in increasing order.
    proof fn lemma_reps_sorted(&self, kind: int, hi: int)
        requires
            hi <= u32::MAX,
        ensures
            forall|i: int, j: int| 0 <= i < j < self.reps_below(kind, hi).len()
                ==> self.reps_below(kind, hi)[i] < self.reps_below(kind, hi)[j],
            forall|i: int| 0 <= i < self.reps_below(kind, hi).len()
                ==> 1 <= #[trigger] self.reps_below(kind, hi)[i] < hi,
        decreases hi,
    {
        if hi > 1 {
            self.lemma_reps_sorted(kind, hi - 1);
            let prev = self.reps_below(kind, hi - 1);
            let cur = self.reps_below(kind, hi);
            if self.is_rep(kind, hi - 1) {
                assert(cur == prev.push((hi - 1) as DartIdType));
                assert forall|i: int| 0 <= i < cur.len() implies 1 <= #[trigger] cur[i] < hi by {
                    if i < prev.len() {
                        assert(cur[i] == prev[i]);
                    }
                }
                assert forall|i: int, j: int| 0 <= i < j < cur.len() implies cur[i] < cur[j] by {
                    assert(cur[i] == prev[i]);
                    if j < prev.len() {
                        assert(cur[j] == prev[j]);
                    }
                }
            }
        }
    }

    /// The map laid out as one piece of an unstructured grid, or `None` when a point that the
    /// layout refers to is not a vertex of the map (see [`exportable`]).
    pub fn to_grid_cells(&self) -> (r: Option<GridCells>)
        requires
            self.wf(),
        ensures
            r is None <==> !exportable(*self),
            r matches Some(g) ==> grid_layout(*self, g),
    {
        let vids = self.iter_vertices();
        let n = self.betas.len();
        proof {
            self.lemma_reps_sorted(0, n as int);
            self.lemma_reps_sorted(1, n as int);
            self.lemma_reps_sorted(2, n as int);
        }
        let ghost vs = vids@;
        let mut table: Vec<u32> = Vec::new();
        let mut c: usize = 0;
        while c < n
            invariant
                c <= n,
                table@.len() == c,
                forall|x: int| 0 <= x < c ==> table@[x] == 0,
            decreases n - c,
        {
            table.push(0);
            c = c + 1;
        }
        let mut i: usize = 0;
        while i < vids.len()
            invariant
                n == self.n(),
                vs == vids@,
                vs == self.cell_reps(0),
                forall|a: int, b: int| 0 <= a < b < vs.len() ==> vs[a] < vs[b],
                forall|a: int| 0 <= a < vs.len() ==> 1 <= #[trigger] vs[a] < n,
                n <= u32::MAX,
                i <= vs.len(),
                table@.len() == n,
                forall|x: int| 0 <= x < n && #[trigger] table@[x] != 0 ==> table@[x] <= i && vs[table@[x] - 1] == x,
                forall|a: int| 0 <= a < i ==> #[trigger] table@[vs[a] as int] != 0,
            decreases vs.len() - i,
        {
            let v = vids[i];
            assert(vs.len() <= n) by {
                assert(forall|a: int| 0 <= a < vs.len() ==> (#[trigger] vs[a] as int) >= a + 1) by {
                    assert forall|a: int| 0 <= a < vs.len() implies (#[trigger] vs[a] as int) >= a + 1 by {
                        lemma_sorted_grows(vs, a);
                    }
                }
                if vs.len() > 0 {
                    assert(vs[vs.len() - 1] as int >= vs.len());
                }
            }
            table.set(v as usize, (i + 1) as u32);
            i = i + 1;
        }
        proof {
            assert(forall|a: int| 0 <= a < vs.len() ==> (#[trigger] vs[a] as int) >= a + 1) by {
                assert forall|a: int| 0 <= a < vs.len() implies (#[trigger] vs[a] as int) >= a + 1 by {
                    lemma_sorted_grows(vs, a);
                }
            }
            if vs.len() > 0 {
                assert(vs[vs.len() - 1] as int >= vs.len());
            }
            assert forall|x: int| 0 <= x < n implies (#[trigger] table@[x] == 0 <==> !vs.contains(x as u32)) by {
                if vs.contains(x as u32) {
                    let a = choose|a: int| 0 <= a < vs.len() && vs[a] == x as u32;
                    assert(table@[vs[a] as int] != 0);
                }
            }
        }
        let es = self.iter_edges();
        let mut cell_verts: Vec<u32> = Vec::new();
        let mut types: Vec<CellKind> = Vec::new();
        let ghost mut cells: Seq<Seq<u32>> = Seq::empty();
        let mut k: usize = 0;
        while k < es.len()
            invariant
                self.wf(),
                n == self.n(),
                vs == self.cell_reps(0),
                es@ == self.cell_reps(1),
                forall|a: int, b: int| 0 <= a < b < vs.len() ==> vs[a] < vs[b],
                forall|a: int| 0 <= a < es@.len() ==> 1 <= #[trigger] es@[a] < n,
                table@.len() == n,
                forall|x: int| 0 <= x < n && #[trigger] table@[x] != 0 ==> table@[x] <= vs.len() && vs[table@[x] - 1] == x,
                forall|x: int| 0 <= x < n ==> (#[trigger] table@[x] == 0 <==> !vs.contains(x as u32)),
                vs.len() <= n,
                n <= u32::MAX,
                k <= es@.len(),
                cells == border_cells(*self, vs, es@.take(k as int)),
                cell_verts@ == legacy_layout(cells),
                types@ == cells.map_values(|c: Seq<u32>| CellKind::Line),
                forall|j: int| 0 <= j < k ==> #[trigger] border_points_found(*self, es@[j]),
            decreases es@.len() - k,
        {
            let e = es[k];
            assert(es@.take(k + 1).drop_last() == es@.take(k as int));
            assert(es@.take(k + 1).last() == e);
            if self.beta::<2>(e) == NULL_DART_ID {
                let a = self.vertex_id(e);
                let b1 = self.beta::<1>(e);
                let b = self.vertex_id(b1);
                let ta = table[a as usize];
                if ta == 0 {
                    assert(!border_points_found(*self, self.cell_reps(1)[k as int]));
                    return None;
                }
                let tb = table[b as usize];
                if tb == 0 {
                    assert(!border_points_found(*self, self.cell_reps(1)[k as int]));
                    return None;
                }
                let pa = ta - 1;
                let pb = tb - 1;
                proof {
                    lemma_point_of(vs, pa as int);
                    lemma_point_of(vs, pb as int);
                    let c = seq![pa, pb];
                    assert(cells.push(c).drop_last() == cells);
                    cells = cells.push(c);
                }
                cell_verts.push(2);
                cell_verts.push(pa);
                cell_verts.push(pb);
                types.push(CellKind::Line);
                assert(cell_verts@ == legacy_layout(cells));
                assert(types@ == cells.map_values(|c: Seq<u32>| CellKind::Line));
            }
            k = k + 1;
        }
        assert(es@.take(es@.len() as int) == es@);
        let ghost lines = cells;
        let fs = self.iter_faces();
        let ghost mut fcells: Seq<Seq<u32>> = Seq::empty();
        let mut k: usize = 0;
        while k < fs.len()
            invariant
                self.wf(),
                n == self.n(),
                vs == self.cell_reps(0),
                fs@ == self.cell_reps(2),
                forall|a: int, b: int| 0 <= a < b < vs.len() ==> vs[a] < vs[b],
                forall|a: int| 0 <= a < fs@.len() ==> 1 <= #[trigger] fs@[a] < n,
                table@.len() == n,
                forall|x: int| 0 <= x < n && #[trigger] table@[x] != 0 ==> table@[x] <= vs.len() && vs[table@[x] - 1] == x,
                forall|x: int| 0 <= x < n ==> (#[trigger] table@[x] == 0 <==> !vs.contains(x as u32)),
                vs.len() <= n,
                n <= u32::MAX,
                k <= fs@.len(),
                lines == border_cells(*self, vs, self.cell_reps(1)),
                fcells == face_cells(*self, vs, fs@.take(k as int)),
                cell_verts@ == legacy_layout(lines + fcells),
                types@ == lines.map_values(|c: Seq<u32>| CellKind::Line)
                    + fcells.map_values(|c: Seq<u32>| face_kind(c.len())),
                forall|j: int| 0 <= j < self.cell_reps(1).len() ==> #[trigger] border_points_found(*self, self.cell_reps(1)[j]),
                forall|j: int, t: int| 0 <= j < k && 0 <= t < face_darts(*self, fs@[j]).len()
                    ==> #[trigger] face_point_found(*self, fs@[j], t),
                forall|q: int| 0 <= q < fcells.len() ==> 3 <= #[trigger] fcells[q].len() <= n,
            decreases fs@.len() - k,
        {
            let f = fs[k];
            assert(fs@.take(k + 1).drop_last() == fs@.take(k as int));
            assert(fs@.take(k + 1).last() == f);
            let orb = self.orbit(OrbitPolicy::FaceLinear, f);
            let ghost od = orb@;
            assert(od == face_darts(*self, f));
            let mut pts: Vec<u32> = Vec::new();
            let mut j: usize = 0;
            while j < orb.len()
                invariant
                    self.wf(),
                    n == self.n(),
                    od == orb@,
                    od == face_darts(*self, f),
                    vs == self.cell_reps(0),
                    fs@ == self.cell_reps(2),
                    k < fs@.len(),
                    f == fs@[k as int],
                    forall|t: int| 0 <= t < od.len() ==> (#[trigger] od[t] as int) < n,
                    forall|a: int, b: int| 0 <= a < b < vs.len() ==> vs[a] < vs[b],
                    table@.len() == n,
                    forall|x: int| 0 <= x < n && #[trigger] table@[x] != 0 ==> table@[x] <= vs.len() && vs[table@[x] - 1] == x,
                    forall|x: int| 0 <= x < n ==> (#[trigger] table@[x] == 0 <==> !vs.contains(x as u32)),
                    vs.len() <= n,
                    n <= u32::MAX,
                    j <= od.len(),
                    pts@ == od.take(j as int).map_values(|x: DartIdType| point_of(vs, self.vid(x as int))),
                    forall|t: int| 0 <= t < j ==> #[trigger] face_point_found(*self, f, t),
                decreases od.len() - j,
            {
                let x = orb[j];
                let v = self.vertex_id(x);
                let t = table[v as usize];
                if t == 0 {
                    assert(!face_point_found(*self, f, j as int));
                    assert(!face_point_found(*self, self.cell_reps(2)[k as int], j as int));
                    return None;
                }
                proof {
                    lemma_point_of(vs, t - 1);
                }
                pts.push(t - 1);
                proof {
                    assert(od.take(j + 1) == od.take(j as int).push(x));
                }
                j = j + 1;
            }
            assert(od.take(od.len() as int) == od);
            let ghost c = face_points(*self, vs, f);
            assert(pts@ == c);
            if orb.len() >= 3 {
                let cnt = orb.len() as u32;
                let ghost pre = cell_verts@;
                cell_verts.push(cnt);
                cell_verts.append(&mut pts);
                proof {
                    assert((lines + fcells).push(c) == lines + fcells.push(c));
                    assert((lines + fcells).push(c).drop_last() == lines + fcells);
                    assert(c.len() == od.len());
                    fcells = fcells.push(c);
                }
                let kind = if cnt == 3 {
                    CellKind::Triangle
                } else if cnt == 4 {
                    CellKind::Quad
                } else {
                    CellKind::Polygon
                };
                types.push(kind);
                assert(cell_verts@ == legacy_layout(lines + fcells));
                assert(types@ == lines.map_values(|c: Seq<u32>| CellKind::Line)
                    + fcells.map_values(|c: Seq<u32>| face_kind(c.len())));
            }
            k = k + 1;
        }
        assert(fs@.take(fs@.len() as int) == fs@);
        let num_cells = types.len();
        Some(GridCells { vertex_ids: vids, num_cells, cell_verts, types })
    }
}

/// In a strictly increasing sequence, the position of the entry at `a` is `a`.
proof fn lemma_point_of(s: Seq<u32>, a: int)
    requires
        0 <= a < s.len(),
        s.len() <= u32::MAX,
        forall|x: int, y: int| 0 <= x < y < s.len() ==> s[x] < s[y],
    ensures
        point_of(s, s[a]) == a,
{
    assert(0 <= a < s.len() && s[a] == s[a]);
    let i = choose|i: int| 0 <= i < s.len() && s[i] == s[a];
    if i < a {
        assert(s[i] < s[a]);
    } else if a < i {
        assert(s[a] < s[i]);
    }
}

/// In a strictly increasing sequence of positive integers, the entry at position `a` is at
/// least `a + 1`.
proof fn lemma_sorted_grows(s: Seq<u32>, a: int)
    requires
        0 <= a < s.len(),
        forall|x: int, y: int| 0 <= x < y < s.len() ==> s[x] < s[y],
        forall|x: int| 0 <= x < s.len() ==> 1 <= #[trigger] s[x],
    ensures
        s[a] as int >= a + 1,
    decreases a,
{
    if a > 0 {
        lemma_sorted_grows(s, a - 1);
    }
}

} // verus!

verus! {

/// Reading the rest of a cell: its entries from position `i` on, after the first `i`.
proof fn lemma_read_cell_rest(c: Seq<u32>, i: int, tail: Seq<u32>, acc: Seq<Seq<u32>>)
    requires
        0 <= i <= c.len(),
    ensures
        legacy_cells_from(c.subrange(i, c.len() as int) + tail, acc.push(c.take(i)), c.len() - i)
            == legacy_cells_from(tail, acc.push(c), 0),
    decreases c.len() - i,
{
    if i < c.len() {
        let v = c.subrange(i, c.len() as int) + tail;
        let acc2 = acc.push(c.take(i));
        assert(v[0] == c[i]);
        assert(v.drop_first() =~= c.subrange(i + 1, c.len() as int) + tail);
        assert(acc2.last() == c.take(i));
        assert(c.take(i).push(c[i]) =~= c.take(i + 1));
        assert(acc2.update(acc2.len() - 1, acc2.last().push(v[0])) =~= acc.push(c.take(i + 1)));
        lemma_read_cell_rest(c, i + 1, tail, acc);
    } else {
        assert(c.subrange(i, c.len() as int) + tail =~= tail);
        assert(c.take(i) =~= c);
    }
}

/// Reading one cell laid out as its length, then its entries.
proof fn lemma_read_cell(c: Seq<u32>, tail: Seq<u32>, acc: Seq<Seq<u32>>)
    requires
        c.len() <= u32::MAX,
    ensures
        legacy_cells_from(seq![c.len() as u32] + c + tail, acc, 0) == legacy_cells_from(tail, acc.push(c), 0),
{
    let v = seq![c.len() as u32] + c + tail;
    assert(v[0] == c.len() as u32);
    assert(v.drop_first() =~= c.subrange(0, c.len() as int) + tail);
    assert(c.take(0) =~= Seq::<u32>::empty());
    assert(acc.push(Seq::empty()) =~= acc.push(c.take(0)));
    lemma_read_cell_rest(c, 0, tail, acc);
}

/// Reading cells laid out in the legacy layout gives them back.
proof fn lemma_read_layout(cs: Seq<Seq<u32>>, tail: Seq<u32>, acc: Seq<Seq<u32>>)
    requires
        forall|q: int| 0 <= q < cs.len() ==> #[trigger] cs[q].len() <= u32::MAX,
    ensures
        legacy_cells_from(legacy_layout(cs) + tail, acc, 0) == legacy_cells_from(tail, acc + cs, 0),
    decreases cs.len(),
{
    if cs.len() == 0 {
        assert(legacy_layout(cs) + tail =~= tail);
        assert(acc + cs =~= acc);
    } else {
        let pre = cs.drop_last();
        let c = cs.last();
        assert(legacy_layout(cs) + tail =~= legacy_layout(pre) + (seq![c.len() as u32] + c + tail));
        assert forall|q: int| 0 <= q < pre.len() implies #[trigger] pre[q].len() <= u32::MAX by {
            assert(pre[q] == cs[q]);
        }
        lemma_read_layout(pre, seq![c.len() as u32] + c + tail, acc);
        assert(cs[cs.len() - 1] == c);
        lemma_read_cell(c, tail, acc + pre);
        assert((acc + pre).push(c) =~= acc + cs);
    }
}

/// Boundary cells are lines of two points.
proof fn lemma_border_cells_len<V: AttributeUpdate>(m: CMap2<V>, vids: Seq<u32>, es: Seq<u32>)
    ensures
        forall|q: int| 0 <= q < border_cells(m, vids, es).len() ==> #[trigger] border_cells(m, vids, es)[q].len() == 2,
    decreases es.len(),
{
    if es.len() > 0 {
        lemma_border_cells_len(m, vids, es.drop_last());
        let prev = border_cells(m, vids, es.drop_last());
        let cur = border_cells(m, vids, es);
        assert forall|q: int| 0 <= q < cur.len() implies #[trigger] cur[q].len() == 2 by {
            if q < prev.len() {
                assert(cur[q] == prev[q]);
            }
        }
    }
}

/// The cells of a map laid out as a grid, read back from the legacy layout, have the kind
/// that their number of points gives: two points make a line, three a triangle, exactly four
/// a quad, and five or more a polygon.
pub proof fn lemma_grid_cell_kinds<V: AttributeUpdate>(m: CMap2<V>, g: GridCells)
    requires
        m.wf(),
        grid_layout(m, g),
    ensures
        legacy_cells(g.cell_verts@).len() == g.num_cells,
        g.types@.len() == g.num_cells,
        forall|c: int| 0 <= c < g.num_cells ==> {
            let cell = #[trigger] legacy_cells(g.cell_verts@)[c];
            &&& cell.len() >= 2
            &&& cell.len() == 2 ==> g.types@[c] == CellKind::Line
            &&& cell.len() == 3 ==> g.types@[c] == CellKind::Triangle
            &&& cell.len() == 4 ==> g.types@[c] == CellKind::Quad
            &&& cell.len() >= 5 ==> g.types@[c] == CellKind::Polygon
        },
{
    let vids = m.cell_reps(0);
    let lines = border_cells(m, vids, m.cell_reps(1));
    let faces = face_cells(m, vids, m.cell_reps(2));
    let cs = lines + faces;
    lemma_border_cells_len(m, vids, m.cell_reps(1));
    assert forall|q: int| 0 <= q < cs.len() implies #[trigger] cs[q].len() <= u32::MAX by {
        if q < lines.len() {
            assert(cs[q] == lines[q]);
        } else {
            assert(cs[q] == faces[q - lines.len()]);
        }
    }
    lemma_read_layout(cs, Seq::empty(), Seq::empty());
    assert(legacy_layout(cs) + Seq::<u32>::empty() =~= legacy_layout(cs));
    assert(Seq::<Seq<u32>>::empty() + cs =~= cs);
    assert(legacy_cells(g.cell_verts@) == cs);
    assert forall|c: int| 0 <= c < g.num_cells implies {
        let cell = #[trigger] legacy_cells(g.cell_verts@)[c];
        &&& cell.len() >= 2
        &&& cell.len() == 2 ==> g.types@[c] == CellKind::Line
        &&& cell.len() == 3 ==> g.types@[c] == CellKind::Triangle
        &&& cell.len() == 4 ==> g.types@[c] == CellKind::Quad
        &&& cell.len() >= 5 ==> g.types@[c] == CellKind::Polygon
    } by {
        if c < lines.len() {
            assert(cs[c] == lines[c]);
            assert(g.types@[c] == CellKind::Line);
        } else {
            let q = c - lines.len();
            assert(cs[c] == faces[q]);
            assert(g.types@[c] == face_kind(faces[q].len()));
            assert(3 <= faces[q].len());
        }
    }
}

} // verus!
