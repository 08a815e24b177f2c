//! Building a [`CMap2`] from the cells of an unstructured grid, given as plain values.
//!
//! A grid comes in pieces; each piece lists its points and its cells in the legacy layout:
//! every cell is its number of vertices followed by the indices of those vertices among the
//! points of the piece. Triangles, quads and polygons become faces; vertices and lines are
//! accepted and ignored; other kinds of cells are refused.

use crate::attributes::VertexAttribute;
use crate::cmap2::structure::CMap2;
use crate::error::SewError;
use crate::ids::{DartIdType, NULL_DART_ID};
use vstd::prelude::*;

verus! {

/// Kinds of cells of an unstructured grid.
#[derive(Debug, Clone, Copy, PartialEq, Eq, Structural)]
pub enum CellKind {
    Vertex,
    PolyVertex,
    Line,
    PolyLine,
    Triangle,
    TriangleStrip,
    Polygon,
    Pixel,
    Quad,
    /// Any other kind (volumes, higher order cells).
    Other,
}

/// One piece of an unstructured grid.
pub struct GridPiece<V> {
    /// Points of the piece.
    pub points: Vec<V>,
    /// Number of cells announced by the piece.
    pub num_cells: u32,
    /// Cells in the legacy layout: a count, then that many point indices, for each cell.
    pub cell_verts: Vec<u32>,
    /// Kind of each cell.
    pub types: Vec<CellKind>,
}

/// Failure to build a map from grid cells.
#[derive(Debug, PartialEq, Eq)]
pub enum GridError {
    /// The number of cells, of cell kinds and of cells listed disagree.
    InconsistentCellCount,
    /// A cell of this kind does not have the number of vertices of its kind.
    BadVertexCount(CellKind, usize),
    /// Cells of this kind cannot be represented in a 2-map.
    UnsupportedCell(CellKind),
    /// A cell refers to a point that the piece does not have.
    PointOutOfRange(u32),
    /// The faces need more darts than identifiers exist.
    TooManyDarts,
    /// Sewing two faces along a shared edge failed.
    FailedSew(SewError),
}

/// Cells of a legacy layout, read from `verts` with the cells `acc` read so far and `take`
/// indices still expected in the last one.
pub open spec fn legacy_cells_from(verts: Seq<u32>, acc: Seq<Seq<u32>>, take: int) -> Seq<Seq<u32>>
    decreases verts.len(),
{
    if verts.len() == 0 {
        acc
    } else if take <= 0 || acc.len() == 0 {
        legacy_cells_from(verts.drop_first(), acc.push(Seq::empty()), verts[0] as int)
    } else {
        legacy_cells_from(verts.drop_first(), acc.update(acc.len() - 1, acc.last().push(verts[0])), take - 1)
    }
}

/// Cells of a legacy layout: each count opens a cell, which takes that many of the following
/// indices (the last cell may end early).
pub open spec fn legacy_cells(verts: Seq<u32>) -> Seq<Seq<u32>> {
    legacy_cells_from(verts, Seq::empty(), 0)
}

/// What a cell gives: an error, nothing, or a face listing its point indices.
pub open spec fn cell_outcome(kind: CellKind, vids: Seq<u32>, n_points: int) -> Result<Option<Seq<u32>>, GridError> {
    match kind {
        CellKind::Vertex => if vids.len() != 1 { Err(GridError::BadVertexCount(kind, vids.len() as usize)) } else { Ok(None) },
        CellKind::Line => if vids.len() != 2 { Err(GridError::BadVertexCount(kind, vids.len() as usize)) } else { Ok(None) },
        CellKind::Triangle => if vids.len() != 3 {
            Err(GridError::BadVertexCount(kind, vids.len() as usize))
        } else {
            face_outcome(vids, n_points)
        },
        CellKind::Quad => if vids.len() != 4 {
            Err(GridError::BadVertexCount(kind, vids.len() as usize))
        } else {
            face_outcome(vids, n_points)
        },
        CellKind::Polygon => face_outcome(vids, n_points),
        _ => Err(GridError::UnsupportedCell(kind)),
    }
}

/// A face of the given point indices, or the first index without a point.
pub open spec fn face_outcome(vids: Seq<u32>, n_points: int) -> Result<Option<Seq<u32>>, GridError> {
    if exists|i: int| 0 <= i < vids.len() && vids[i] >= n_points {
        let i = choose|i: int| 0 <= i < vids.len() && vids[i] >= n_points && forall|j: int| 0 <= j < i ==> vids[j] < n_points;
        Err(GridError::PointOutOfRange(vids[i]))
    } else {
        Ok(Some(vids))
    }
}

/// Faces given by the cells `k..` of a piece, appended to `acc`, or the first error.
pub open spec fn faces_from(types: Seq<CellKind>, cells: Seq<Seq<u32>>, n_points: int, k: int, acc: Seq<Seq<u32>>) -> Result<Seq<Seq<u32>>, GridError>
    decreases cells.len() - k,
{
    if k >= cells.len() || k >= types.len() || k < 0 {
        Ok(acc)
    } else {
        match cell_outcome(types[k], cells[k], n_points) {
            Err(e) => Err(e),
            Ok(None) => faces_from(types, cells, n_points, k + 1, acc),
            Ok(Some(f)) => faces_from(types, cells, n_points, k + 1, acc.push(f)),
        }
    }
}

/// Faces of a piece, appended to `acc`, or the first error.
pub open spec fn piece_faces<V>(p: GridPiece<V>, acc: Seq<Seq<u32>>) -> Result<Seq<Seq<u32>>, GridError> {
    let cells = legacy_cells(p.cell_verts@);
    if p.num_cells as int != p.types@.len() || cells.len() != p.num_cells as int {
        Err(GridError::InconsistentCellCount)
    } else {
        faces_from(p.types@, cells, p.points@.len() as int, 0, acc)
    }
}

/// Faces of the pieces `i..`, appended to `acc`, or the first error.
pub open spec fn pieces_faces_from<V>(pieces: Seq<GridPiece<V>>, i: int, acc: Seq<Seq<u32>>) -> Result<Seq<Seq<u32>>, GridError>
    decreases pieces.len() - i,
{
    if i >= pieces.len() || i < 0 {
        Ok(acc)
    } else {
        match piece_faces(pieces[i], acc) {
            Err(e) => Err(e),
            Ok(a) => pieces_faces_from(pieces, i + 1, a),
        }
    }
}

/// Faces of all the pieces, in order, or the first error.
pub open spec fn grid_faces<V>(pieces: Seq<GridPiece<V>>) -> Result<Seq<Seq<u32>>, GridError> {
    pieces_faces_from(pieces, 0, Seq::empty())
}

/// Piece `pi` appended to `acc` once per face given by the cells `k..` of that piece (see
/// [`faces_from`]), up to the first cell in error.
pub open spec fn owners_from(types: Seq<CellKind>, cells: Seq<Seq<u32>>, n_points: int, k: int, pi: usize, acc: Seq<usize>) -> Seq<usize>
    decreases cells.len() - k,
{
    if k >= cells.len() || k >= types.len() || k < 0 {
        acc
    } else {
        match cell_outcome(types[k], cells[k], n_points) {
            Err(_) => acc,
            Ok(None) => owners_from(types, cells, n_points, k + 1, pi, acc),
            Ok(Some(_)) => owners_from(types, cells, n_points, k + 1, pi, acc.push(pi)),
        }
    }
}

/// Piece `pi` appended to `acc` once per face of piece `p`.
pub open spec fn piece_owners<V>(p: GridPiece<V>, pi: usize, acc: Seq<usize>) -> Seq<usize> {
    let cells = legacy_cells(p.cell_verts@);
    if p.num_cells as int != p.types@.len() || cells.len() != p.num_cells as int {
        acc
    } else {
        owners_from(p.types@, cells, p.points@.len() as int, 0, pi, acc)
    }
}

/// The piece of each face of the pieces `i..`, appended to `acc`.
pub open spec fn pieces_owners_from<V>(pieces: Seq<GridPiece<V>>, i: int, acc: Seq<usize>) -> Seq<usize>
    decreases pieces.len() - i,
{
    if i >= pieces.len() || i < 0 {
        acc
    } else {
        pieces_owners_from(pieces, i + 1, piece_owners(pieces[i], i as usize, acc))
    }
}

/// The piece of each face of [`grid_faces`], in order.
pub open spec fn grid_face_owners<V>(pieces: Seq<GridPiece<V>>) -> Seq<usize> {
    pieces_owners_from(pieces, 0, Seq::empty())
}

/// The point of the `i`-th corner of face `f` of the faces of `pieces`: its index is taken
/// among the points of the piece of the face.
pub open spec fn corner_point<V>(pieces: Seq<GridPiece<V>>, faces: Seq<Seq<u32>>, f: int, i: int) -> V {
    pieces[grid_face_owners(pieces)[f] as int].points@[faces[f][i] as int]
}

/// Number of darts of the faces before face `f`.
pub open spec fn darts_before(faces: Seq<Seq<u32>>, f: int) -> int
    decreases f,
{
    if f <= 0 { 0 } else { darts_before(faces, f - 1) + faces[f - 1].len() }
}

/// Dart of the `i`-th corner of face `f`: faces take consecutive darts from dart 1 on.
pub open spec fn dart_of(faces: Seq<Seq<u32>>, f: int, i: int) -> int {
    1 + darts_before(faces, f) + i
}

/// Edge run by the `i`-th dart of face `f`: from its point to the point of the next corner.
pub open spec fn edge_key(faces: Seq<Seq<u32>>, f: int, i: int) -> (u32, u32) {
    (faces[f][i], faces[f][(i + 1) % faces[f].len() as int])
}

/// Shape of a map built from `faces`: one used dart per corner (plus the null dart), each
/// face a *β<sub>1</sub>* cycle in corner order with *β<sub>0</sub>* the other way round, and
/// 2-links only between darts running the same edge in opposite directions.
pub open spec fn built_from<V: VertexAttribute>(m: CMap2<V>, faces: Seq<Seq<u32>>) -> bool {
    &&& m.wf()
    &&& m.n() == 1 + darts_before(faces, faces.len() as int)
    &&& forall|d: int| 0 <= d < m.n() ==> !#[trigger] m.unused(d)
    &&& forall|f: int, i: int| 0 <= f < faces.len() && 0 <= i < faces[f].len() ==> {
        &&& #[trigger] m.img(1, dart_of(faces, f, i)) == dart_of(faces, f, (i + 1) % faces[f].len() as int)
        &&& m.img(0, dart_of(faces, f, (i + 1) % faces[f].len() as int)) == dart_of(faces, f, i)
    }
    &&& forall|f: int, i: int, g: int, j: int|
        0 <= f < faces.len() && 0 <= i < faces[f].len() && 0 <= g < faces.len() && 0 <= j < faces[g].len()
        && #[trigger] m.img(2, dart_of(faces, f, i)) == #[trigger] dart_of(faces, g, j)
        ==> edge_key(faces, g, j) == (edge_key(faces, f, i).1, edge_key(faces, f, i).0)
}

/// Whether corner `i` of face `f` and corner `j` of face `g` run the same edge in opposite
/// directions.
pub open spec fn twin_edges(faces: Seq<Seq<u32>>, f: int, i: int, g: int, j: int) -> bool {
    &&& 0 <= f < faces.len() && 0 <= i < faces[f].len()
    &&& 0 <= g < faces.len() && 0 <= j < faces[g].len()
    &&& edge_key(faces, g, j) == (edge_key(faces, f, i).1, edge_key(faces, f, i).0)
}

/// Whether two corners of the faces run the same edge in opposite directions.
pub open spec fn has_twin_edges(faces: Seq<Seq<u32>>) -> bool {
    exists|f: int, i: int, g: int, j: int| #[trigger] twin_edges(faces, f, i, g, j)
}

/// The views of a sequence of vectors.
pub open spec fn nested_view(v: Seq<Vec<u32>>) -> Seq<Seq<u32>> {
    Seq::new(v.len(), |k: int| v[k]@)
}

/// Cells of the legacy layout `verts` (see [`legacy_cells`]).
pub fn parse_legacy_cells(verts: &Vec<u32>) -> (r: Vec<Vec<u32>>)
    ensures
        nested_view(r@) == legacy_cells(verts@),
{
    let mut cells: Vec<Vec<u32>> = Vec::new();
    let mut take: u32 = 0;
    let mut i: usize = 0;
    assert(verts@.skip(0) =~= verts@);
    assert(nested_view(cells@) =~= Seq::<Seq<u32>>::empty());
    while i < verts.len()
        invariant
            i <= verts@.len(),
            legacy_cells_from(verts@.skip(i as int), nested_view(cells@), take as int) == legacy_cells(verts@),
        decreases verts@.len() - i,
    {
        let x = verts[i];
        let ghost rest = verts@.skip(i as int);
        assert(rest[0] == x);
        assert(rest.drop_first() =~= verts@.skip(i + 1));
        if take == 0 || cells.len() == 0 {
            let ghost pre = nested_view(cells@);
            cells.push(Vec::new());
            assert(nested_view(cells@) =~= pre.push(Seq::empty()));
            take = x;
        } else {
            let ghost pre = nested_view(cells@);
            let mut last = match cells.pop() {
                Some(c) => c,
                None => Vec::new(),
            };
            last.push(x);
            cells.push(last);
            assert(nested_view(cells@) =~= pre.update(pre.len() - 1, pre.last().push(x)));
            take = take - 1;
        }
        i = i + 1;
    }
    assert(verts@.skip(verts@.len() as int) =~= Seq::<u32>::empty());
    cells
}

/// What a cell gives (see [`cell_outcome`]): `Ok(true)` for a face.
fn cell_check(kind: CellKind, vids: &Vec<u32>, n_points: usize) -> (r: Result<bool, GridError>)
    ensures
        match cell_outcome(kind, vids@, n_points as int) {
            Err(e) => r == Err::<bool, GridError>(e),
            Ok(None) => r == Ok::<bool, GridError>(false),
            Ok(Some(f)) => r == Ok::<bool, GridError>(true) && f == vids@,
        },
{
    match kind {
        CellKind::Vertex => if vids.len() != 1 { return Err(GridError::BadVertexCount(kind, vids.len())) } else { return Ok(false) },
        CellKind::Line => if vids.len() != 2 { return Err(GridError::BadVertexCount(kind, vids.len())) } else { return Ok(false) },
        CellKind::Triangle => if vids.len() != 3 { return Err(GridError::BadVertexCount(kind, vids.len())) },
        CellKind::Quad => if vids.len() != 4 { return Err(GridError::BadVertexCount(kind, vids.len())) },
        CellKind::Polygon => {},
        _ => return Err(GridError::UnsupportedCell(kind)),
    }
    let mut i: usize = 0;
    while i < vids.len()
        invariant
            i <= vids@.len(),
            forall|j: int| 0 <= j < i ==> vids@[j] < n_points,
            kind == CellKind::Polygon || (kind == CellKind::Triangle && vids@.len() == 3)
                || (kind == CellKind::Quad && vids@.len() == 4),
        decreases vids@.len() - i,
    {
        if vids[i] as usize >= n_points {
            let ghost c = choose|c: int| 0 <= c < vids@.len() && vids@[c] >= n_points && forall|j: int| 0 <= j < c ==> vids@[j] < n_points;
            assert(c == i as int) by {
                if c < i {
                    assert(vids@[c] < n_points);
                }
                if c > i {
                    assert(vids@[i as int] < n_points);
                }
            }
            assert(exists|j: int| 0 <= j < vids@.len() && vids@[j] >= n_points);
            assert(face_outcome(vids@, n_points as int) == Err::<Option<Seq<u32>>, GridError>(GridError::PointOutOfRange(vids@[i as int])));
            return Err(GridError::PointOutOfRange(vids[i]));
        }
        i = i + 1;
    }
    Ok(true)
}

/// Faces of all the pieces (see [`grid_faces`]), with the piece of each face.
fn collect_faces<V>(pieces: &Vec<GridPiece<V>>) -> (r: Result<(Vec<Vec<u32>>, Vec<usize>), GridError>)
    ensures
        match grid_faces(pieces@) {
            Err(e) => r == Err::<(Vec<Vec<u32>>, Vec<usize>), GridError>(e),
            Ok(faces) => {
                &&& r is Ok
                &&& nested_view(r->Ok_0.0@) == faces
                &&& r->Ok_0.1@.len() == faces.len()
                &&& r->Ok_0.1@ == grid_face_owners(pieces@)
                &&& forall|f: int| 0 <= f < faces.len() ==> (#[trigger] r->Ok_0.1@[f] as int) < pieces@.len()
                &&& forall|f: int, i: int| 0 <= f < faces.len() && 0 <= i < faces[f].len()
                    ==> (#[trigger] faces[f][i] as int) < pieces@[r->Ok_0.1@[f] as int].points@.len()
            },
        },
{
    let mut faces: Vec<Vec<u32>> = Vec::new();
    let mut owner: Vec<usize> = Vec::new();
    let mut i: usize = 0;
    assert(nested_view(faces@) =~= Seq::<Seq<u32>>::empty());
    while i < pieces.len()
        invariant
            i <= pieces@.len(),
            pieces_faces_from(pieces@, i as int, nested_view(faces@)) == grid_faces(pieces@),
            pieces_owners_from(pieces@, i as int, owner@) == grid_face_owners(pieces@),
            owner@.len() == faces@.len(),
            forall|f: int| 0 <= f < faces@.len() ==> (#[trigger] owner@[f] as int) < pieces@.len(),
            forall|f: int, j: int| 0 <= f < faces@.len() && 0 <= j < faces@[f]@.len()
                ==> (#[trigger] faces@[f]@[j] as int) < pieces@[owner@[f] as int].points@.len(),
        decreases pieces@.len() - i,
    {
        let p = &pieces[i];
        if p.num_cells as usize != p.types.len() {
            return Err(GridError::InconsistentCellCount);
        }
        let cells = parse_legacy_cells(&p.cell_verts);
        if cells.len() != p.num_cells as usize {
            return Err(GridError::InconsistentCellCount);
        }
        let n_points = p.points.len();
        let ghost acc0 = nested_view(faces@);
        let ghost own0 = owner@;
        let mut k: usize = 0;
        while k < cells.len()
            invariant
                i < pieces@.len(),
                *p == pieces@[i as int],
                n_points == p.points@.len(),
                nested_view(cells@) == legacy_cells(p.cell_verts@),
                cells@.len() == p.types@.len(),
                k <= cells@.len(),
                faces_from(p.types@, nested_view(cells@), n_points as int, k as int, nested_view(faces@)) == piece_faces(*p, acc0),
                pieces_faces_from(pieces@, i as int, acc0) == grid_faces(pieces@),
                owners_from(p.types@, nested_view(cells@), n_points as int, k as int, i, owner@) == piece_owners(*p, i, own0),
                pieces_owners_from(pieces@, i as int, own0) == grid_face_owners(pieces@),
                owner@.len() == faces@.len(),
                forall|f: int| 0 <= f < faces@.len() ==> (#[trigger] owner@[f] as int) < pieces@.len(),
                forall|f: int, j: int| 0 <= f < faces@.len() && 0 <= j < faces@[f]@.len()
                    ==> (#[trigger] faces@[f]@[j] as int) < pieces@[owner@[f] as int].points@.len(),
            decreases cells@.len() - k,
        {
            assert(nested_view(cells@)[k as int] == cells@[k as int]@);
            match cell_check(p.types[k], &cells[k], n_points) {
                Err(e) => return Err(e),
                Ok(false) => {},
                Ok(true) => {
                    let ghost pre = nested_view(faces@);
                    let ghost pre_owner = owner@;
                    let c = cells[k].clone();
                    faces.push(c);
                    owner.push(i);
                    assert(nested_view(faces@) =~= pre.push(cells@[k as int]@));
                    assert forall|f: int, j: int| 0 <= f < faces@.len() && 0 <= j < faces@[f]@.len()
                        implies (#[trigger] faces@[f]@[j] as int) < pieces@[owner@[f] as int].points@.len() by {
                        if f < pre.len() {
                            assert(owner@[f] == pre_owner[f]);
                        }
                    }
                },
            }
            k = k + 1;
        }
        i = i + 1;
    }
    Ok((faces, owner))
}

/// Faces further on start further on.
proof fn lemma_darts_before_mono(faces: Seq<Seq<u32>>, f: int, g: int)
    requires
        0 <= f < g <= faces.len(),
    ensures
        darts_before(faces, f) + faces[f].len() <= darts_before(faces, g),
    decreases g - f,
{
    if g > f + 1 {
        lemma_darts_before_mono(faces, f, g - 1);
    }
}

/// Counts of darts are not negative.
proof fn lemma_darts_before_nonneg(faces: Seq<Seq<u32>>, f: int)
    ensures
        darts_before(faces, f) >= 0,
    decreases f,
{
    if f > 0 {
        lemma_darts_before_nonneg(faces, f - 1);
    }
}

/// The successor of corner `i` of a face of `k` corners.
proof fn lemma_next_corner(i: int, k: int)
    requires
        0 <= i < k,
    ensures
        (i + 1) % k == if i + 1 == k { 0 } else { i + 1 },
{
    if i + 1 == k {
        vstd::arithmetic::div_mod::lemma_mod_self_0(k);
    } else {
        vstd::arithmetic::div_mod::lemma_small_mod((i + 1) as nat, k as nat);
    }
}

/// Distinct corners have distinct darts.
proof fn lemma_dart_of_injective(faces: Seq<Seq<u32>>, f: int, i: int, g: int, j: int)
    requires
        0 <= f < faces.len(),
        0 <= i < faces[f].len(),
        0 <= g < faces.len(),
        0 <= j < faces[g].len(),
        dart_of(faces, f, i) == dart_of(faces, g, j),
    ensures
        f == g && i == j,
{
    if f < g {
        lemma_darts_before_mono(faces, f, g);
    } else if g < f {
        lemma_darts_before_mono(faces, g, f);
    }
}

/// Faces before face `f` are each a *β<sub>1</sub>* cycle in corner order, with
/// *β<sub>0</sub>* the other way round.
pub open spec fn faces_linked<V: VertexAttribute>(m: CMap2<V>, faces: Seq<Seq<u32>>, f: int) -> bool {
    forall|g: int, i: int| 0 <= g < f && 0 <= i < faces[g].len() ==> {
        &&& #[trigger] m.img(1, dart_of(faces, g, i)) == dart_of(faces, g, (i + 1) % faces[g].len() as int)
        &&& m.img(0, dart_of(faces, g, (i + 1) % faces[g].len() as int)) == dart_of(faces, g, i)
    }
}

/// Corner of the dart `d` of a map built from `faces`.
pub open spec fn corner_of(faces: Seq<Seq<u32>>, d: int) -> (int, int) {
    choose|p: (int, int)| 0 <= p.0 < faces.len() && 0 <= p.1 < faces[p.0].len() && dart_of(faces, p.0, p.1) == d
}

/// The 2-links join darts running the same edge in opposite directions.
pub open spec fn twins_match<V: VertexAttribute>(m: CMap2<V>, faces: Seq<Seq<u32>>) -> bool {
    forall|f: int, i: int, g: int, j: int|
        0 <= f < faces.len() && 0 <= i < faces[f].len() && 0 <= g < faces.len() && 0 <= j < faces[g].len()
        && #[trigger] m.img(2, dart_of(faces, f, i)) == #[trigger] dart_of(faces, g, j)
        ==> edge_key(faces, g, j) == (edge_key(faces, f, i).1, edge_key(faces, f, i).0)
}

/// Each entry of the edge buffer names a dart of the built faces and the edge it runs.
pub open spec fn buffer_ok(buf: Seq<(u32, u32, DartIdType)>, faces: Seq<Seq<u32>>, f: int) -> bool {
    forall|k: int| 0 <= k < buf.len() ==> {
        let c = corner_of(faces, #[trigger] buf[k].2 as int);
        &&& 0 <= c.0 < f
        &&& 0 <= c.1 < faces[c.0].len()
        &&& dart_of(faces, c.0, c.1) == buf[k].2 as int
        &&& edge_key(faces, c.0, c.1) == (buf[k].0, buf[k].1)
    }
}

/// Corner `(f, i)` is a corner of the faces.
pub open spec fn is_corner(faces: Seq<Seq<u32>>, f: int, i: int) -> bool {
    0 <= f < faces.len() && 0 <= i < faces[f].len()
}

/// Corner `(g, j)` comes before corner `(f, i)`: in an earlier face, or earlier in the same face.
pub open spec fn corner_before(g: int, j: int, f: int, i: int) -> bool {
    g < f || (g == f && j < i)
}

/// Corner `(f, i)` is the last corner of the faces that runs its edge in its direction: the
/// one whose dart is kept for that edge.
pub open spec fn kept(faces: Seq<Seq<u32>>, f: int, i: int) -> bool {
    &&& is_corner(faces, f, i)
    &&& forall|g: int, j: int| is_corner(faces, g, j) && #[trigger] edge_key(faces, g, j) == edge_key(faces, f, i)
        ==> !corner_before(f, i, g, j)
}

/// Kept corners `(f, i)` and `(g, j)` run the same edge in opposite directions, `(f, i)` from
/// the smaller point index: the darts of a 2-sew of the built faces.
pub open spec fn twin_corners(faces: Seq<Seq<u32>>, f: int, i: int, g: int, j: int) -> bool {
    &&& kept(faces, f, i)
    &&& kept(faces, g, j)
    &&& edge_key(faces, g, j) == (edge_key(faces, f, i).1, edge_key(faces, f, i).0)
    &&& edge_key(faces, f, i).0 < edge_key(faces, f, i).1
}

/// Edge key `x` comes before edge key `y`.
pub open spec fn key_less(x: (u32, u32), y: (u32, u32)) -> bool {
    x.0 < y.0 || (x.0 == y.0 && x.1 < y.1)
}

/// Edge run by dart `d` of the faces.
pub open spec fn dart_key(faces: Seq<Seq<u32>>, d: DartIdType) -> (u32, u32) {
    let c = corner_of(faces, d as int);
    edge_key(faces, c.0, c.1)
}

/// `(d0, d1)` are the darts of twin corners.
pub open spec fn twin_darts(faces: Seq<Seq<u32>>, d0: DartIdType, d1: DartIdType) -> bool {
    let c0 = corner_of(faces, d0 as int);
    let c1 = corner_of(faces, d1 as int);
    &&& is_corner(faces, c0.0, c0.1) && dart_of(faces, c0.0, c0.1) == d0
    &&& is_corner(faces, c1.0, c1.1) && dart_of(faces, c1.0, c1.1) == d1
    &&& twin_corners(faces, c0.0, c0.1, c1.0, c1.1)
}

/// Pairs of twin darts, in increasing order of the edge of their first dart.
pub open spec fn sew_order(faces: Seq<Seq<u32>>, ps: Seq<(DartIdType, DartIdType)>) -> bool {
    &&& forall|t: int| 0 <= t < ps.len() ==> twin_darts(faces, (#[trigger] ps[t]).0, ps[t].1)
    &&& forall|t: int, u: int| 0 <= t < u < ps.len()
        ==> key_less(dart_key(faces, (#[trigger] ps[t]).0), dart_key(faces, (#[trigger] ps[u]).0))
}

/// All the pairs of twin darts, in increasing order of the edge of their first dart.
pub open spec fn sews_complete(faces: Seq<Seq<u32>>, ps: Seq<(DartIdType, DartIdType)>) -> bool {
    &&& sew_order(faces, ps)
    &&& forall|f: int, i: int, g: int, j: int| #[trigger] twin_corners(faces, f, i, g, j)
        ==> ps.contains((dart_of(faces, f, i) as DartIdType, dart_of(faces, g, j) as DartIdType))
}

/// The pairs of twin darts, in increasing order of the edge of their first dart, up to the
/// last pair of `ps`.
pub open spec fn sews_prefix(faces: Seq<Seq<u32>>, ps: Seq<(DartIdType, DartIdType)>) -> bool {
    &&& sew_order(faces, ps)
    &&& ps.len() > 0
    &&& forall|f: int, i: int, g: int, j: int| #[trigger] twin_corners(faces, f, i, g, j)
        && key_less(edge_key(faces, f, i), dart_key(faces, ps.last().0))
        ==> ps.contains((dart_of(faces, f, i) as DartIdType, dart_of(faces, g, j) as DartIdType))
}

/// The map of the faces before any 2-sew: the faces built as [`built_from`] says, every
/// dart 2-free, and the dart of each corner holding the value of its point.
pub open spec fn faces_built<V: VertexAttribute>(m: CMap2<V>, pieces: Seq<GridPiece<V>>, faces: Seq<Seq<u32>>) -> bool {
    &&& m.wf()
    &&& m.n() == 1 + darts_before(faces, faces.len() as int)
    &&& forall|d: int| 0 <= d < m.n() ==> !#[trigger] m.unused(d)
    &&& faces_linked(m, faces, faces.len() as int)
    &&& forall|d: int| 0 <= d < m.n() ==> #[trigger] m.img(2, d) == NULL_DART_ID
    &&& m.vertex(0) is None
    &&& forall|f: int, i: int| #[trigger] is_corner(faces, f, i)
        ==> m.vertex(dart_of(faces, f, i)) == Some(corner_point(pieces, faces, f, i))
}

/// A 2-sew of `d0` and `d1` from `o` to `f` with outcome `r`, with its orientation test.
pub open spec fn sew_step<V: VertexAttribute>(o: CMap2<V>, f: CMap2<V>, d0: DartIdType, d1: DartIdType, r: Result<(), SewError>) -> bool {
    CMap2::two_sew_post(&o, &f, d0, d1, r) && CMap2::two_sew_orientation(&o, d0, d1, r)
}

/// `ms[0]` is the map of the faces before any 2-sew, and each `ms[t + 1]` comes from `ms[t]`
/// by a successful 2-sew of the pair `ps[t]`, for the first `k` pairs.
pub open spec fn sews_done<V: VertexAttribute>(
    pieces: Seq<GridPiece<V>>,
    faces: Seq<Seq<u32>>,
    ms: Seq<CMap2<V>>,
    ps: Seq<(DartIdType, DartIdType)>,
    k: int,
) -> bool {
    &&& 0 <= k <= ps.len()
    &&& ms.len() == k + 1
    &&& faces_built(ms[0], pieces, faces)
    &&& forall|t: int| 0 <= t < k ==> #[trigger] sew_step(ms[t], ms[t + 1], ps[t].0, ps[t].1, Ok(()))
}

/// `m` comes from the map of the faces before any 2-sew by the successful 2-sews of all the
/// pairs of twin darts, in order.
pub open spec fn sewn_with<V: VertexAttribute>(
    pieces: Seq<GridPiece<V>>,
    faces: Seq<Seq<u32>>,
    ms: Seq<CMap2<V>>,
    ps: Seq<(DartIdType, DartIdType)>,
    m: CMap2<V>,
) -> bool {
    &&& sews_done(pieces, faces, ms, ps, ps.len() as int)
    &&& sews_complete(faces, ps)
    &&& ms.last() == m
}

/// Built by 2-sewing all the pairs of twin darts, in order (see [`sewn_with`]).
pub open spec fn sewn_from<V: VertexAttribute>(pieces: Seq<GridPiece<V>>, faces: Seq<Seq<u32>>, m: CMap2<V>) -> bool {
    exists|ms: Seq<CMap2<V>>, ps: Seq<(DartIdType, DartIdType)>| #[trigger] sewn_with(pieces, faces, ms, ps, m)
}

/// The 2-sews of the pairs of twin darts, in order, succeed up to the last pair of `ps`, whose
/// 2-sew fails with `e`, from `ms.last()` to `m2`.
pub open spec fn refused_with<V: VertexAttribute>(
    pieces: Seq<GridPiece<V>>,
    faces: Seq<Seq<u32>>,
    ms: Seq<CMap2<V>>,
    ps: Seq<(DartIdType, DartIdType)>,
    m2: CMap2<V>,
    e: SewError,
) -> bool {
    &&& sews_prefix(faces, ps)
    &&& sews_done(pieces, faces, ms, ps, ps.len() - 1)
    &&& sew_step(ms.last(), m2, ps.last().0, ps.last().1, Err(e))
}

/// The 2-sews of the pairs of twin darts, in order, fail with `e` (see [`refused_with`]).
pub open spec fn sew_refused<V: VertexAttribute>(pieces: Seq<GridPiece<V>>, faces: Seq<Seq<u32>>, e: SewError) -> bool {
    exists|ms: Seq<CMap2<V>>, ps: Seq<(DartIdType, DartIdType)>, m2: CMap2<V>| #[trigger] refused_with(pieces, faces, ms, ps, m2, e)
}

/// Every pair of twin darts is 2-linked.
pub open spec fn twins_linked<V: VertexAttribute>(m: CMap2<V>, faces: Seq<Seq<u32>>) -> bool {
    forall|f: int, i: int, g: int, j: int| #[trigger] twin_corners(faces, f, i, g, j) ==> {
        &&& m.img(2, dart_of(faces, f, i)) == dart_of(faces, g, j)
        &&& m.img(2, dart_of(faces, g, j)) == dart_of(faces, f, i)
    }
}

/// Some entry of the edge buffer records the edge `k`.
pub open spec fn buf_has_key(buf: Seq<(u32, u32, DartIdType)>, k: (u32, u32)) -> bool {
    exists|q: int| 0 <= q < buf.len() && (#[trigger] buf[q]).0 == k.0 && buf[q].1 == k.1
}

/// No two entries of the edge buffer record the same edge.
pub open spec fn keys_unique(buf: Seq<(u32, u32, DartIdType)>) -> bool {
    forall|p: int, q: int| 0 <= p < buf.len() && 0 <= q < buf.len() && p != q
        ==> (#[trigger] buf[p]).0 != (#[trigger] buf[q]).0 || buf[p].1 != buf[q].1
}

/// Each entry of the edge buffer holds the last corner before `(f, i)` that runs its edge.
pub open spec fn buf_latest(buf: Seq<(u32, u32, DartIdType)>, faces: Seq<Seq<u32>>, f: int, i: int) -> bool {
    forall|q: int, g: int, j: int|
        #![trigger buf[q], edge_key(faces, g, j)]
        0 <= q < buf.len() && is_corner(faces, g, j) && corner_before(g, j, f, i)
        && edge_key(faces, g, j) == (buf[q].0, buf[q].1)
        ==> !corner_before(corner_of(faces, buf[q].2 as int).0, corner_of(faces, buf[q].2 as int).1, g, j)
}

/// Every corner before `(f, i)` has its edge recorded in the edge buffer.
pub open spec fn buf_covers(buf: Seq<(u32, u32, DartIdType)>, faces: Seq<Seq<u32>>, f: int, i: int) -> bool {
    forall|g: int, j: int| is_corner(faces, g, j) && corner_before(g, j, f, i) ==> buf_has_key(buf, #[trigger] edge_key(faces, g, j))
}

/// Every entry of the edge buffer holds a kept corner.
pub open spec fn buf_kept(buf: Seq<(u32, u32, DartIdType)>, faces: Seq<Seq<u32>>) -> bool {
    forall|q: int| 0 <= q < buf.len()
        ==> kept(faces, corner_of(faces, (#[trigger] buf[q]).2 as int).0, corner_of(faces, buf[q].2 as int).1)
}

/// Each pair of twin corners is either sewn (in `ps`) or has both its edges in the buffer.
pub open spec fn pairs_pending(buf: Seq<(u32, u32, DartIdType)>, faces: Seq<Seq<u32>>, ps: Seq<(DartIdType, DartIdType)>) -> bool {
    forall|f: int, i: int, g: int, j: int| #[trigger] twin_corners(faces, f, i, g, j)
        ==> ps.contains((dart_of(faces, f, i) as DartIdType, dart_of(faces, g, j) as DartIdType))
            || (buf_has_key(buf, edge_key(faces, f, i)) && buf_has_key(buf, edge_key(faces, g, j)))
}

/// The edges of the buffer come after the first darts of the sewn pairs, and differ from
/// their second darts.
pub open spec fn keys_after(buf: Seq<(u32, u32, DartIdType)>, faces: Seq<Seq<u32>>, ps: Seq<(DartIdType, DartIdType)>) -> bool {
    forall|t: int, q: int| 0 <= t < ps.len() && 0 <= q < buf.len() ==> {
        &&& key_less(dart_key(faces, (#[trigger] ps[t]).0), ((#[trigger] buf[q]).0, buf[q].1))
        &&& (buf[q].0, buf[q].1) != dart_key(faces, ps[t].1)
    }
}

/// The darts of each sewn pair are 2-linked.
pub open spec fn pairs_linked<V: VertexAttribute>(m: CMap2<V>, ps: Seq<(DartIdType, DartIdType)>) -> bool {
    forall|t: int| 0 <= t < ps.len() ==> {
        &&& m.img(2, (#[trigger] ps[t]).0 as int) == ps[t].1
        &&& m.img(2, ps[t].1 as int) == ps[t].0
    }
}

/// Removing an entry from the edge buffer keeps its properties.
proof fn lemma_buffer_remove(buf: Seq<(u32, u32, DartIdType)>, faces: Seq<Seq<u32>>, m: int)
    requires
        0 <= m < buf.len(),
        keys_unique(buf),
        buf_kept(buf, faces),
        buffer_ok(buf, faces, faces.len() as int),
    ensures
        keys_unique(buf.remove(m)),
        buf_kept(buf.remove(m), faces),
        buffer_ok(buf.remove(m), faces, faces.len() as int),
        forall|x: int| 0 <= x < buf.remove(m).len() ==> #[trigger] buf.remove(m)[x] == buf[if x < m { x } else { x + 1 }],
        forall|x: int| 0 <= x < buf.remove(m).len()
            ==> (buf.remove(m)[x].0 != buf[m].0 || #[trigger] buf.remove(m)[x].1 != buf[m].1),
{
    let r = buf.remove(m);
    assert forall|x: int| 0 <= x < r.len() implies #[trigger] r[x] == buf[if x < m { x } else { x + 1 }] by {}
    assert forall|p: int, q: int| 0 <= p < r.len() && 0 <= q < r.len() && p != q
        implies (#[trigger] r[p]).0 != (#[trigger] r[q]).0 || r[p].1 != r[q].1 by {
        let p1 = if p < m { p } else { p + 1 };
        let q1 = if q < m { q } else { q + 1 };
        assert(r[p] == buf[p1] && r[q] == buf[q1]);
        assert(buf[p1].0 != buf[q1].0 || buf[p1].1 != buf[q1].1);
    }
    assert forall|x: int| 0 <= x < r.len()
        implies kept(faces, corner_of(faces, (#[trigger] r[x]).2 as int).0, corner_of(faces, r[x].2 as int).1) by {
        let x1 = if x < m { x } else { x + 1 };
        assert(r[x] == buf[x1]);
    }
    assert forall|x: int| 0 <= x < r.len() implies {
        let c = corner_of(faces, #[trigger] r[x].2 as int);
        &&& 0 <= c.0 < faces.len()
        &&& 0 <= c.1 < faces[c.0].len()
        &&& dart_of(faces, c.0, c.1) == r[x].2 as int
        &&& edge_key(faces, c.0, c.1) == (r[x].0, r[x].1)
    } by {
        let x1 = if x < m { x } else { x + 1 };
        assert(r[x] == buf[x1]);
    }
    assert forall|x: int| 0 <= x < r.len() implies (r[x].0 != buf[m].0 || #[trigger] r[x].1 != buf[m].1) by {
        let x1 = if x < m { x } else { x + 1 };
        assert(r[x] == buf[x1]);
        assert(buf[x1].0 != buf[m].0 || buf[x1].1 != buf[m].1);
    }
}

/// The darts of the corners are darts of the built map.
proof fn lemma_dart_below(faces: Seq<Seq<u32>>, f: int, i: int)
    requires
        is_corner(faces, f, i),
    ensures
        1 <= dart_of(faces, f, i) < 1 + darts_before(faces, faces.len() as int),
{
    lemma_darts_before_mono(faces, f, faces.len() as int);
    lemma_darts_before_nonneg(faces, f);
}

/// Two kept corners that run the same edge in the same direction are the same corner.
proof fn lemma_kept_unique(faces: Seq<Seq<u32>>, f: int, i: int, g: int, j: int)
    requires
        kept(faces, f, i),
        kept(faces, g, j),
        edge_key(faces, f, i) == edge_key(faces, g, j),
    ensures
        f == g && i == j,
{
    assert(!corner_before(f, i, g, j));
    assert(!corner_before(g, j, f, i));
}

/// The corner of the dart of a corner is that corner.
proof fn lemma_corner_of_dart(faces: Seq<Seq<u32>>, f: int, i: int)
    requires
        is_corner(faces, f, i),
    ensures
        corner_of(faces, dart_of(faces, f, i)) == (f, i),
{
    let w = (f, i);
    assert(0 <= w.0 < faces.len() && 0 <= w.1 < faces[w.0].len() && dart_of(faces, w.0, w.1) == dart_of(faces, f, i));
    let c = corner_of(faces, dart_of(faces, f, i));
    lemma_dart_of_injective(faces, c.0, c.1, f, i);
}

/// Removing an entry keeps the other edges recorded.
proof fn lemma_has_key_remove(buf: Seq<(u32, u32, DartIdType)>, m: int, k: (u32, u32))
    requires
        0 <= m < buf.len(),
        buf_has_key(buf, k),
        k != (buf[m].0, buf[m].1),
    ensures
        buf_has_key(buf.remove(m), k),
{
    let q = choose|q: int| 0 <= q < buf.len() && (#[trigger] buf[q]).0 == k.0 && buf[q].1 == k.1;
    let r = buf.remove(m);
    if q < m {
        assert(r[q] == buf[q]);
    } else {
        assert(q > m);
        assert(r[q - 1] == buf[q]);
    }
}

/// An entry that records an edge makes a first such entry exist.
proof fn lemma_first_match_exists(buf: Seq<(u32, u32, DartIdType)>, a: u32, b: u32, k: int)
    requires
        0 <= k < buf.len(),
        buf[k].0 == a && buf[k].1 == b,
    ensures
        exists|c: int| is_first_match(buf, a, b, c),
    decreases k,
{
    if exists|j: int| 0 <= j < k && (#[trigger] buf[j].0 == a && buf[j].1 == b) {
        let j = choose|j: int| 0 <= j < k && (#[trigger] buf[j].0 == a && buf[j].1 == b);
        lemma_first_match_exists(buf, a, b, j);
    } else {
        assert(is_first_match(buf, a, b, k));
    }
}

/// `k` is the first entry of the edge buffer that records the edge `(a, b)`.
pub open spec fn is_first_match(buf: Seq<(u32, u32, DartIdType)>, a: u32, b: u32, k: int) -> bool {
    &&& 0 <= k < buf.len()
    &&& buf[k].0 == a && buf[k].1 == b
    &&& forall|j: int| 0 <= j < k ==> !(#[trigger] buf[j].0 == a && buf[j].1 == b)
}

/// The edge buffer once dart `d` is recorded for the edge `(a, b)`: the first entry of that
/// edge is replaced, or the entry is appended when the edge has none.
pub open spec fn buffer_inserted(buf: Seq<(u32, u32, DartIdType)>, a: u32, b: u32, d: DartIdType) -> Seq<(u32, u32, DartIdType)> {
    if exists|k: int| is_first_match(buf, a, b, k) {
        buf.update(choose|k: int| is_first_match(buf, a, b, k), (a, b, d))
    } else {
        buf.push((a, b, d))
    }
}

/// Recording the dart `d` of corner `(f, i)` keeps the edges of the buffer distinct, each with
/// its last corner so far, and every corner up to `(f, i)` recorded.
proof fn lemma_buffer_step(
    pre: Seq<(u32, u32, DartIdType)>,
    post: Seq<(u32, u32, DartIdType)>,
    faces: Seq<Seq<u32>>,
    f: int,
    i: int,
    d: DartIdType,
)
    requires
        is_corner(faces, f, i),
        dart_of(faces, f, i) == d,
        keys_unique(pre),
        buf_latest(pre, faces, f, i),
        buf_covers(pre, faces, f, i),
        post == buffer_inserted(pre, edge_key(faces, f, i).0, edge_key(faces, f, i).1, d),
    ensures
        keys_unique(post),
        buf_latest(post, faces, f, i + 1),
        buf_covers(post, faces, f, i + 1),
{
    let a = edge_key(faces, f, i).0;
    let b = edge_key(faces, f, i).1;
    lemma_corner_of_dart(faces, f, i);
    if exists|k: int| is_first_match(pre, a, b, k) {
        let k = choose|k: int| is_first_match(pre, a, b, k);
        assert(post == pre.update(k, (a, b, d)));
        assert forall|p: int| 0 <= p < post.len() implies (#[trigger] post[p]).0 == pre[p].0 && post[p].1 == pre[p].1 by {}
        assert forall|p: int, q: int| 0 <= p < post.len() && 0 <= q < post.len() && p != q
            implies (#[trigger] post[p]).0 != (#[trigger] post[q]).0 || post[p].1 != post[q].1 by {
            assert(pre[p].0 != pre[q].0 || pre[p].1 != pre[q].1);
        }
        assert forall|q: int, g: int, j: int|
            #![trigger post[q], edge_key(faces, g, j)]
            0 <= q < post.len() && is_corner(faces, g, j) && corner_before(g, j, f, i + 1)
            && edge_key(faces, g, j) == (post[q].0, post[q].1)
            implies !corner_before(corner_of(faces, post[q].2 as int).0, corner_of(faces, post[q].2 as int).1, g, j) by {
            if q != k {
                assert(post[q] == pre[q]);
                if g == f && j == i {
                    assert(pre[q].0 != pre[k].0 || pre[q].1 != pre[k].1);
                } else {
                    assert(pre[q] == post[q]);
                    assert(edge_key(faces, g, j) == (pre[q].0, pre[q].1));
                }
            }
        }
        assert forall|g: int, j: int| is_corner(faces, g, j) && corner_before(g, j, f, i + 1)
            implies buf_has_key(post, #[trigger] edge_key(faces, g, j)) by {
            if g == f && j == i {
                assert(post[k].0 == a && post[k].1 == b);
            } else {
                assert(buf_has_key(pre, edge_key(faces, g, j)));
                let q = choose|q: int| 0 <= q < pre.len() && (#[trigger] pre[q]).0 == edge_key(faces, g, j).0
                    && pre[q].1 == edge_key(faces, g, j).1;
                assert(post[q].0 == pre[q].0 && post[q].1 == pre[q].1);
            }
        }
    } else {
        assert(post == pre.push((a, b, d)));
        assert forall|q: int| 0 <= q < pre.len() implies !((#[trigger] pre[q]).0 == a && pre[q].1 == b) by {
            if pre[q].0 == a && pre[q].1 == b {
                lemma_first_match_exists(pre, a, b, q);
            }
        }
        let n = pre.len() as int;
        assert forall|p: int, q: int| 0 <= p < post.len() && 0 <= q < post.len() && p != q
            implies (#[trigger] post[p]).0 != (#[trigger] post[q]).0 || post[p].1 != post[q].1 by {
            if p < n && q < n {
                assert(post[p] == pre[p] && post[q] == pre[q]);
            } else if p < n {
                assert(post[p] == pre[p]);
            } else {
                assert(post[q] == pre[q]);
            }
        }
        assert forall|q: int, g: int, j: int|
            #![trigger post[q], edge_key(faces, g, j)]
            0 <= q < post.len() && is_corner(faces, g, j) && corner_before(g, j, f, i + 1)
            && edge_key(faces, g, j) == (post[q].0, post[q].1)
            implies !corner_before(corner_of(faces, post[q].2 as int).0, corner_of(faces, post[q].2 as int).1, g, j) by {
            if q < n {
                assert(post[q] == pre[q]);
                if g == f && j == i {
                    assert(!(pre[q].0 == a && pre[q].1 == b));
                } else {
                    assert(edge_key(faces, g, j) == (pre[q].0, pre[q].1));
                }
            } else {
                assert(post[q].2 == d);
                if !(g == f && j == i) {
                    assert(buf_has_key(pre, edge_key(faces, g, j)));
                    let x = choose|x: int| 0 <= x < pre.len() && (#[trigger] pre[x]).0 == edge_key(faces, g, j).0
                        && pre[x].1 == edge_key(faces, g, j).1;
                    assert(!(pre[x].0 == a && pre[x].1 == b));
                }
            }
        }
        assert forall|g: int, j: int| is_corner(faces, g, j) && corner_before(g, j, f, i + 1)
            implies buf_has_key(post, #[trigger] edge_key(faces, g, j)) by {
            if g == f && j == i {
                assert(post[n].0 == a && post[n].1 == b);
            } else {
                assert(buf_has_key(pre, edge_key(faces, g, j)));
                let q = choose|q: int| 0 <= q < pre.len() && (#[trigger] pre[q]).0 == edge_key(faces, g, j).0
                    && pre[q].1 == edge_key(faces, g, j).1;
                assert(post[q] == pre[q]);
            }
        }
    }
}

/// Record that dart `d` runs the edge `(a, b)`, replacing the dart recorded for that edge.
fn buffer_insert(buf: &mut Vec<(u32, u32, DartIdType)>, a: u32, b: u32, d: DartIdType)
    ensures
        final(buf)@ == buffer_inserted(old(buf)@, a, b, d),
        forall|k: int| 0 <= k < final(buf)@.len() ==> old(buf)@.contains(#[trigger] final(buf)@[k]) || final(buf)@[k] == (a, b, d),
{
    let mut k: usize = 0;
    while k < buf.len()
        invariant
            k <= buf@.len(),
            *buf == *old(buf),
            forall|j: int| 0 <= j < k ==> !(#[trigger] buf@[j].0 == a && buf@[j].1 == b),
        decreases buf@.len() - k,
    {
        if buf[k].0 == a && buf[k].1 == b {
            let ghost pre = buf@;
            proof {
                assert(is_first_match(pre, a, b, k as int));
                let c = choose|c: int| is_first_match(pre, a, b, c);
                assert(c == k as int) by {
                    if c < k as int {
                        assert(!(pre[c].0 == a && pre[c].1 == b));
                    } else if c > k as int {
                        assert(!(pre[k as int].0 == a && pre[k as int].1 == b));
                    }
                }
            }
            buf.set(k, (a, b, d));
            assert forall|j: int| 0 <= j < buf@.len() implies old(buf)@.contains(#[trigger] buf@[j]) || buf@[j] == (a, b, d) by {
                if j != k {
                    assert(buf@[j] == pre[j]);
                }
            }
            return;
        }
        k = k + 1;
    }
    let ghost pre = buf@;
    assert(!exists|c: int| is_first_match(pre, a, b, c)) by {
        if exists|c: int| is_first_match(pre, a, b, c) {
            let c = choose|c: int| is_first_match(pre, a, b, c);
            assert(!(pre[c].0 == a && pre[c].1 == b));
        }
    }
    buf.push((a, b, d));
    assert forall|j: int| 0 <= j < buf@.len() implies old(buf)@.contains(#[trigger] buf@[j]) || buf@[j] == (a, b, d) by {
        if j < pre.len() {
            assert(buf@[j] == pre[j]);
        }
    }
}

/// Whether edge key `(a, b)` comes before `(c, d)`.
fn key_lt(a: u32, b: u32, c: u32, d: u32) -> (r: bool)
    ensures
        r == (a < c || (a == c && b < d)),
{
    a < c || (a == c && b < d)
}

impl<V: VertexAttribute> CMap2<V> {
    /// Build a map from the cells of an unstructured grid.
    ///
    /// Each face of the grid (see [`grid_faces`]) takes new darts, one per corner, linked in a
    /// *β<sub>1</sub>* cycle in corner order; the dart of each corner takes the value of its
    /// point as vertex value. Darts running the same edge in opposite directions are then
    /// 2-sewn, the edges taken in increasing order of their `(from, to)` point indices; when
    /// several darts run the same edge in the same direction, the last one is kept.
    pub fn from_grid_pieces(pieces: &Vec<GridPiece<V>>) -> (r: Result<Self, GridError>)
        ensures
            match grid_faces(pieces@) {
                Err(e) => r == Err::<Self, GridError>(e),
                Ok(faces) => if darts_before(faces, faces.len() as int) >= u32::MAX {
                    r == Err::<Self, GridError>(GridError::TooManyDarts)
                } else {
                    &&& r is Ok ==> built_from(r->Ok_0, faces)
                    &&& r is Ok ==> twins_linked(r->Ok_0, faces)
                    &&& r is Ok ==> sewn_from(pieces@, faces, r->Ok_0)
                    &&& (r matches Err(GridError::FailedSew(e)) ==> sew_refused(pieces@, faces, e))
                    &&& !has_twin_edges(faces) ==> r is Ok
                    &&& r is Err ==> (r->Err_0 matches GridError::FailedSew(_))
                },
            },
    {
        let (faces, owner) = match collect_faces(pieces) {
            Err(e) => return Err(e),
            Ok(x) => x,
        };
        let ghost fs = nested_view(faces@);
        assert(grid_faces(pieces@) == Ok::<Seq<Seq<u32>>, GridError>(fs));
        let mut total: usize = 0;
        let mut f: usize = 0;
        while f < faces.len()
            invariant
                f <= faces@.len(),
                fs == nested_view(faces@),
                grid_faces(pieces@) == Ok::<Seq<Seq<u32>>, GridError>(fs),
                total == darts_before(fs, f as int),
                total < u32::MAX,
            decreases faces@.len() - f,
        {
            assert(fs[f as int] == faces@[f as int]@);
            let k = faces[f].len();
            if k >= (u32::MAX as usize) - total {
                proof {
                    lemma_darts_before_mono(fs, f as int, fs.len() as int);
                }
                return Err(GridError::TooManyDarts);
            }
            total = total + k;
            f = f + 1;
        }
        let mut map: CMap2<V> = CMap2::new(0);
        let mut buf: Vec<(u32, u32, DartIdType)> = Vec::new();
        let mut f: usize = 0;
        while f < faces.len()
            invariant
                fs == nested_view(faces@),
                owner@.len() == fs.len(),
                forall|g: int| 0 <= g < fs.len() ==> (#[trigger] owner@[g] as int) < pieces@.len(),
                forall|g: int, j: int| 0 <= g < fs.len() && 0 <= j < fs[g].len()
                    ==> (#[trigger] fs[g][j] as int) < pieces@[owner@[g] as int].points@.len(),
                darts_before(fs, fs.len() as int) < u32::MAX,
                f <= fs.len(),
                map.wf(),
                map.n() == 1 + darts_before(fs, f as int),
                forall|d: int| 0 <= d < map.n() ==> !#[trigger] map.unused(d),
                forall|d: int| 0 <= d < map.n() ==> #[trigger] map.img(2, d) == NULL_DART_ID,
                faces_linked(map, fs, f as int),
                buffer_ok(buf@, fs, f as int),
                owner@ == grid_face_owners(pieces@),
                map.vertex(0) is None,
                forall|g: int, j: int| #[trigger] is_corner(fs, g, j) && g < f
                    ==> map.vertex(dart_of(fs, g, j)) == Some(corner_point(pieces@, fs, g, j)),
                keys_unique(buf@),
                buf_latest(buf@, fs, f as int, 0),
                buf_covers(buf@, fs, f as int, 0),
            decreases fs.len() - f,
        {
            assert(fs[f as int] == faces@[f as int]@);
            let vids = &faces[f];
            let k = vids.len();
            let pts = &pieces[owner[f]].points;
            proof {
                lemma_darts_before_mono(fs, f as int, fs.len() as int);
                lemma_darts_before_mono(fs, f as int, f + 1);
                lemma_darts_before_nonneg(fs, f as int);
            }
            let ghost m0 = map;
            let d0 = map.allocate_used_darts(k);
            proof {
                assert forall|g: int, j: int| #[trigger] is_corner(fs, g, j) && g < f
                    implies map.vertex(dart_of(fs, g, j)) == Some(corner_point(pieces@, fs, g, j)) by {
                    lemma_darts_before_mono(fs, g, f as int);
                    lemma_darts_before_nonneg(fs, g);
                    assert(m0.vertex(dart_of(fs, g, j)) == Some(corner_point(pieces@, fs, g, j)));
                }
                assert(m0.vertex(0) is None);
            }
            proof {
                assert forall|g: int, j: int| 0 <= g < f && 0 <= j < fs[g].len() implies {
                    &&& #[trigger] map.img(1, dart_of(fs, g, j)) == dart_of(fs, g, (j + 1) % fs[g].len() as int)
                    &&& map.img(0, dart_of(fs, g, (j + 1) % fs[g].len() as int)) == dart_of(fs, g, j)
                } by {
                    lemma_darts_before_mono(fs, g, f as int);
                    lemma_darts_before_nonneg(fs, g);
                    let jn = (j + 1) % fs[g].len() as int;
                    assert(m0.img(1, dart_of(fs, g, j)) == dart_of(fs, g, jn));
                }
            }
            let mut i: usize = 0;
            while i < k
                invariant
                    fs == nested_view(faces@),
                    f < fs.len(),
                    *vids == faces@[f as int],
                    k == fs[f as int].len(),
                    owner@.len() == fs.len(),
                    *pts == pieces@[owner@[f as int] as int].points,
                    forall|j: int| 0 <= j < k ==> (#[trigger] fs[f as int][j] as int) < pts@.len(),
                    darts_before(fs, f as int) + k < u32::MAX,
                    d0 == 1 + darts_before(fs, f as int),
                    1 <= d0,
                    i <= k,
                    map.wf(),
                    map.n() == 1 + darts_before(fs, f as int) + k,
                    forall|d: int| 0 <= d < map.n() ==> !#[trigger] map.unused(d),
                    forall|d: int| 0 <= d < map.n() ==> #[trigger] map.img(2, d) == NULL_DART_ID,
                    faces_linked(map, fs, f as int),
                    forall|j: int| 0 <= j < i ==> {
                        &&& #[trigger] map.img(1, d0 + j) == d0 + (j + 1) % (k as int)
                        &&& map.img(0, d0 + (j + 1) % (k as int)) == d0 + j
                    },
                    forall|j: int| i <= j < k ==> #[trigger] map.img(1, d0 + j) == NULL_DART_ID,
                    forall|j: int| i < j < k ==> #[trigger] map.img(0, d0 + j) == NULL_DART_ID,
                    i < k ==> map.img(0, d0 as int) == NULL_DART_ID,
                    buffer_ok(buf@, fs, f as int + 1),
                    forall|q: int| 0 <= q < buf@.len() ==> {
                        let c = corner_of(fs, #[trigger] buf@[q].2 as int);
                        c.0 < f || c.1 < i
                    },
                    owner@ == grid_face_owners(pieces@),
                    map.vertex(0) is None,
                    forall|g: int, j: int| #[trigger] is_corner(fs, g, j) && g < f
                        ==> map.vertex(dart_of(fs, g, j)) == Some(corner_point(pieces@, fs, g, j)),
                    forall|j: int| 0 <= j < i ==> #[trigger] map.vertex(d0 + j) == Some(corner_point(pieces@, fs, f as int, j)),
                    keys_unique(buf@),
                    buf_latest(buf@, fs, f as int, i as int),
                    buf_covers(buf@, fs, f as int, i as int),
                decreases k - i,
            {
                proof {
                    lemma_next_corner(i as int, k as int);
                }
                let di: DartIdType = d0 + i as u32;
                let dn: DartIdType = if i + 1 == k { d0 } else { di + 1 };
                assert(fs[f as int][i as int] == vids@[i as int]);
                let p = pts[vids[i] as usize];
                let ghost mv = map;
                map.write_vertex(di, p);
                proof {
                    assert(p == corner_point(pieces@, fs, f as int, i as int));
                    assert forall|g: int, j: int| #[trigger] is_corner(fs, g, j) && g < f
                        implies map.vertex(dart_of(fs, g, j)) == Some(corner_point(pieces@, fs, g, j)) by {
                        lemma_darts_before_mono(fs, g, f as int);
                        lemma_darts_before_nonneg(fs, g);
                        assert(dart_of(fs, g, j) < d0);
                        assert(mv.vertex(dart_of(fs, g, j)) == Some(corner_point(pieces@, fs, g, j)));
                    }
                    assert forall|j: int| 0 <= j < i + 1 implies #[trigger] map.vertex(d0 + j) == Some(corner_point(pieces@, fs, f as int, j)) by {
                        if j < i {
                            assert(mv.vertex(d0 + j) == Some(corner_point(pieces@, fs, f as int, j)));
                        }
                    }
                }
                let ghost pre = map;
                let _ = map.link::<1>(di, dn);
                proof {
                    assert(dn as int == d0 + (i + 1) % (k as int));
                }
                let nxt = if i + 1 == k { 0 } else { i + 1 };
                assert(nxt as int == (i + 1) % (k as int));
                let ghost pre_buf = buf@;
                buffer_insert(&mut buf, vids[i], vids[nxt], di);
                proof {
                    assert(dart_of(fs, f as int, i as int) == di);
                    assert(edge_key(fs, f as int, i as int) == (vids@[i as int], vids@[nxt as int]));
                    lemma_buffer_step(pre_buf, buf@, fs, f as int, i as int, di);
                    assert forall|j: int| 0 <= j < i + 1 implies #[trigger] map.vertex(d0 + j) == Some(corner_point(pieces@, fs, f as int, j)) by {
                        assert(pre.vertex(d0 + j) == Some(corner_point(pieces@, fs, f as int, j)));
                    }
                    assert forall|g: int, j: int| #[trigger] is_corner(fs, g, j) && g < f
                        implies map.vertex(dart_of(fs, g, j)) == Some(corner_point(pieces@, fs, g, j)) by {
                        assert(pre.vertex(dart_of(fs, g, j)) == Some(corner_point(pieces@, fs, g, j)));
                    }
                }
                proof {
                    assert forall|g: int, j: int| 0 <= g < f && 0 <= j < fs[g].len() implies dart_of(fs, g, j) < d0 by {
                        lemma_darts_before_mono(fs, g, f as int);
                    }
                    assert forall|j: int| 0 <= j < i + 1 implies {
                        &&& #[trigger] map.img(1, d0 + j) == d0 + (j + 1) % (k as int)
                        &&& map.img(0, d0 + (j + 1) % (k as int)) == d0 + j
                    } by {
                        if j < i {
                            lemma_next_corner(j, k as int);
                            assert((j + 1) % (k as int) == j + 1);
                            assert(d0 + j + 1 != dn);
                            assert(pre.img(1, d0 + j) == d0 + (j + 1) % (k as int));
                        }
                    }
                    assert forall|j: int| i + 1 <= j < k implies #[trigger] map.img(1, d0 + j) == NULL_DART_ID by {
                        assert(pre.img(1, d0 + j) == NULL_DART_ID);
                    }
                    assert forall|j: int| i + 1 < j < k implies #[trigger] map.img(0, d0 + j) == NULL_DART_ID by {
                        assert(pre.img(0, d0 + j) == NULL_DART_ID);
                    }
                    assert forall|g: int, j: int| 0 <= g < f && 0 <= j < fs[g].len() implies {
                        &&& #[trigger] map.img(1, dart_of(fs, g, j)) == dart_of(fs, g, (j + 1) % fs[g].len() as int)
                        &&& map.img(0, dart_of(fs, g, (j + 1) % fs[g].len() as int)) == dart_of(fs, g, j)
                    } by {
                        assert(pre.img(1, dart_of(fs, g, j)) == dart_of(fs, g, (j + 1) % fs[g].len() as int));
                        let jn = (j + 1) % fs[g].len() as int;
                        assert(0 <= jn < fs[g].len());
                        assert(dart_of(fs, g, jn) < d0);
                    }
                    assert(dart_of(fs, f as int, i as int) == di);
                    assert(edge_key(fs, f as int, i as int) == (vids@[i as int], vids@[nxt as int]));
                    assert forall|q: int| 0 <= q < buf@.len() implies {
                        let c = corner_of(fs, #[trigger] buf@[q].2 as int);
                        &&& 0 <= c.0 < f + 1
                        &&& 0 <= c.1 < fs[c.0].len()
                        &&& dart_of(fs, c.0, c.1) == buf@[q].2 as int
                        &&& edge_key(fs, c.0, c.1) == (buf@[q].0, buf@[q].1)
                        &&& (c.0 < f || c.1 < i + 1)
                    } by {
                        if pre_buf.contains(buf@[q]) {
                            let q0 = choose|q0: int| 0 <= q0 < pre_buf.len() && pre_buf[q0] == buf@[q];
                            assert(buffer_ok(pre_buf, fs, f as int + 1));
                            let c0 = corner_of(fs, pre_buf[q0].2 as int);
                            assert(0 <= c0.0 < f + 1);
                        } else {
                            assert(buf@[q] == (vids@[i as int], vids@[nxt as int], di));
                            let w = (f as int, i as int);
                            assert(0 <= w.0 < fs.len() && 0 <= w.1 < fs[w.0].len() && dart_of(fs, w.0, w.1) == di);
                            let c = corner_of(fs, di as int);
                            lemma_dart_of_injective(fs, c.0, c.1, f as int, i as int);
                        }
                    }
                }
                i = i + 1;
            }
            proof {
                assert forall|g: int, j: int| #[trigger] is_corner(fs, g, j) && g < f + 1
                    implies map.vertex(dart_of(fs, g, j)) == Some(corner_point(pieces@, fs, g, j)) by {
                    if g == f {
                        assert(dart_of(fs, g, j) == d0 + j);
                        assert(map.vertex(d0 + j) == Some(corner_point(pieces@, fs, f as int, j)));
                    }
                }
                assert forall|q: int, g: int, j: int|
                    #![trigger buf@[q], edge_key(fs, g, j)]
                    0 <= q < buf@.len() && is_corner(fs, g, j) && corner_before(g, j, f + 1, 0)
                    && edge_key(fs, g, j) == (buf@[q].0, buf@[q].1)
                    implies !corner_before(corner_of(fs, buf@[q].2 as int).0, corner_of(fs, buf@[q].2 as int).1, g, j) by {
                    assert(corner_before(g, j, f as int, k as int));
                }
                assert forall|g: int, j: int| is_corner(fs, g, j) && corner_before(g, j, f + 1, 0)
                    implies buf_has_key(buf@, #[trigger] edge_key(fs, g, j)) by {
                    assert(corner_before(g, j, f as int, k as int));
                }
            }
            proof {
                assert forall|g: int, j: int| 0 <= g < f + 1 && 0 <= j < fs[g].len() implies {
                    &&& #[trigger] map.img(1, dart_of(fs, g, j)) == dart_of(fs, g, (j + 1) % fs[g].len() as int)
                    &&& map.img(0, dart_of(fs, g, (j + 1) % fs[g].len() as int)) == dart_of(fs, g, j)
                } by {
                    if g == f {
                        assert(dart_of(fs, g, j) == d0 + j);
                        assert(map.img(1, d0 + j) == d0 + (j + 1) % (k as int));
                    }
                }
            }
            f = f + 1;
        }
        let ghost n = map.n();
        proof {
            assert forall|g1: int, j1: int, g2: int, j2: int|
                0 <= g1 < fs.len() && 0 <= j1 < fs[g1].len() && 0 <= g2 < fs.len() && 0 <= j2 < fs[g2].len()
                && #[trigger] map.img(2, dart_of(fs, g1, j1)) == #[trigger] dart_of(fs, g2, j2)
                implies edge_key(fs, g2, j2) == (edge_key(fs, g1, j1).1, edge_key(fs, g1, j1).0) by {
                lemma_darts_before_mono(fs, g1, fs.len() as int);
                lemma_darts_before_nonneg(fs, g1);
                lemma_darts_before_nonneg(fs, g2);
            }
        }
        let ghost m_built = map;
        let ghost mut ms: Seq<CMap2<V>> = seq![map];
        let ghost mut ps: Seq<(DartIdType, DartIdType)> = Seq::empty();
        proof {
            assert forall|q: int| 0 <= q < buf@.len()
                implies kept(fs, corner_of(fs, (#[trigger] buf@[q]).2 as int).0, corner_of(fs, buf@[q].2 as int).1) by {
                let c = corner_of(fs, buf@[q].2 as int);
                assert forall|g: int, j: int| is_corner(fs, g, j) && #[trigger] edge_key(fs, g, j) == edge_key(fs, c.0, c.1)
                    implies !corner_before(c.0, c.1, g, j) by {
                    assert(corner_before(g, j, fs.len() as int, 0));
                }
            }
            assert forall|f: int, i: int, g: int, j: int| #[trigger] twin_corners(fs, f, i, g, j)
                implies ps.contains((dart_of(fs, f, i) as DartIdType, dart_of(fs, g, j) as DartIdType))
                || (buf_has_key(buf@, edge_key(fs, f, i)) && buf_has_key(buf@, edge_key(fs, g, j))) by {
                assert(corner_before(f, i, fs.len() as int, 0));
                assert(corner_before(g, j, fs.len() as int, 0));
            }
            assert(faces_built(m_built, pieces@, fs)) by {
                assert forall|f: int, i: int| #[trigger] is_corner(fs, f, i)
                    implies m_built.vertex(dart_of(fs, f, i)) == Some(corner_point(pieces@, fs, f, i)) by {
                    assert(is_corner(fs, f, i) && f < fs.len());
                }
            }
        }
        while buf.len() > 0
            invariant
                fs == nested_view(faces@),
                grid_faces(pieces@) == Ok::<Seq<Seq<u32>>, GridError>(fs),
                darts_before(fs, fs.len() as int) < u32::MAX,
                map.wf(),
                map.n() == n,
                n == 1 + darts_before(fs, fs.len() as int),
                forall|d: int| 0 <= d < map.n() ==> !#[trigger] map.unused(d),
                faces_linked(map, fs, fs.len() as int),
                twins_match(map, fs),
                buffer_ok(buf@, fs, fs.len() as int),
                keys_unique(buf@),
                buf_kept(buf@, fs),
                pairs_pending(buf@, fs, ps),
                keys_after(buf@, fs, ps),
                sew_order(fs, ps),
                pairs_linked(map, ps),
                sews_done(pieces@, fs, ms, ps, ps.len() as int),
                ms.last() == map,
            decreases buf@.len(),
        {
            let mut m: usize = 0;
            let mut q: usize = 1;
            while q < buf.len()
                invariant
                    m < buf@.len(),
                    1 <= q <= buf@.len(),
                    forall|x: int| 0 <= x < q ==> !key_less((#[trigger] buf@[x].0, buf@[x].1), (buf@[m as int].0, buf@[m as int].1)),
                decreases buf@.len() - q,
            {
                if key_lt(buf[q].0, buf[q].1, buf[m].0, buf[m].1) {
                    m = q;
                }
                q = q + 1;
            }
            let ghost pre_buf = buf@;
            let ghost pre_map = map;
            proof {
                lemma_buffer_remove(pre_buf, fs, m as int);
            }
            let (a, b, d0) = buf.remove(m);
            assert(buf@ == pre_buf.remove(m as int));
            assert(pre_buf[m as int] == (a, b, d0));
            let ghost c0 = corner_of(fs, d0 as int);
            assert(is_corner(fs, c0.0, c0.1) && dart_of(fs, c0.0, c0.1) == d0 && edge_key(fs, c0.0, c0.1) == (a, b));
            assert(kept(fs, c0.0, c0.1));
            assert(dart_key(fs, d0) == (a, b));
            let mut q: usize = 0;
            let mut found = false;
            while q < buf.len() && !found
                invariant
                    q <= buf@.len(),
                    found ==> q < buf@.len() && buf@[q as int].0 == b && buf@[q as int].1 == a,
                    !found ==> forall|x: int| 0 <= x < q ==> !(#[trigger] buf@[x].0 == b && buf@[x].1 == a),
                decreases buf@.len() - q, if found { 0int } else { 1int },
            {
                if buf[q].0 == b && buf[q].1 == a {
                    found = true;
                } else {
                    q = q + 1;
                }
            }
            let ghost mid_buf = buf@;
            if found {
                proof {
                    lemma_buffer_remove(mid_buf, fs, q as int);
                }
                let (_, _, d1) = buf.remove(q);
                assert(buf@ == mid_buf.remove(q as int));
                assert(mid_buf[q as int] == (b, a, d1));
                let ghost c1 = corner_of(fs, d1 as int);
                proof {
                    let q1 = if q < m { q as int } else { q + 1 };
                    assert(mid_buf[q as int] == pre_buf[q1]);
                    assert(q1 != m);
                    assert(pre_buf[q1].0 != pre_buf[m as int].0 || pre_buf[q1].1 != pre_buf[m as int].1);
                    assert(a != b);
                    assert(!key_less((pre_buf[q1].0, pre_buf[q1].1), (pre_buf[m as int].0, pre_buf[m as int].1)));
                    assert(a < b);
                    assert(is_corner(fs, c1.0, c1.1) && dart_of(fs, c1.0, c1.1) == d1 && edge_key(fs, c1.0, c1.1) == (b, a));
                    assert(kept(fs, c1.0, c1.1));
                    assert(twin_corners(fs, c0.0, c0.1, c1.0, c1.1));
                    assert(twin_darts(fs, d0, d1));
                    assert(dart_key(fs, d1) == (b, a));
                    lemma_darts_before_mono(fs, c0.0, fs.len() as int);
                    lemma_darts_before_mono(fs, c1.0, fs.len() as int);
                    lemma_darts_before_nonneg(fs, c0.0);
                    lemma_darts_before_nonneg(fs, c1.0);
                }
                assert(twin_edges(fs, c0.0, c0.1, c1.0, c1.1));
                let ghost ps2 = ps.push((d0, d1));
                proof {
                    assert forall|t: int| 0 <= t < ps2.len() implies twin_darts(fs, (#[trigger] ps2[t]).0, ps2[t].1) by {
                        if t < ps.len() {
                            assert(ps2[t] == ps[t]);
                        }
                    }
                    assert forall|t: int, u: int| 0 <= t < u < ps2.len()
                        implies key_less(dart_key(fs, (#[trigger] ps2[t]).0), dart_key(fs, (#[trigger] ps2[u]).0)) by {
                        assert(ps2[t] == ps[t]);
                        if u < ps.len() {
                            assert(ps2[u] == ps[u]);
                        } else {
                            assert(key_less(dart_key(fs, ps[t].0), (pre_buf[m as int].0, pre_buf[m as int].1)));
                        }
                    }
                    assert(sew_order(fs, ps2));
                }
                match map.sew::<2>(d0, d1) {
                    Err(e) => {
                        proof {
                            assert(sew_step(pre_map, map, d0, d1, Err(e)));
                            assert forall|f: int, i: int, g: int, j: int| #[trigger] twin_corners(fs, f, i, g, j)
                                && key_less(edge_key(fs, f, i), dart_key(fs, ps2.last().0))
                                implies ps2.contains((dart_of(fs, f, i) as DartIdType, dart_of(fs, g, j) as DartIdType)) by {
                                let pr = (dart_of(fs, f, i) as DartIdType, dart_of(fs, g, j) as DartIdType);
                                if ps.contains(pr) {
                                    let t = choose|t: int| 0 <= t < ps.len() && ps[t] == pr;
                                    assert(ps2[t] == pr);
                                } else {
                                    assert(buf_has_key(pre_buf, edge_key(fs, f, i)));
                                    let x = choose|x: int| 0 <= x < pre_buf.len() && (#[trigger] pre_buf[x]).0 == edge_key(fs, f, i).0
                                        && pre_buf[x].1 == edge_key(fs, f, i).1;
                                    assert(!key_less((pre_buf[x].0, pre_buf[x].1), (a, b)));
                                }
                            }
                            assert(sews_prefix(fs, ps2));
                            assert forall|t: int| 0 <= t < ps2.len() - 1
                                implies #[trigger] sew_step(ms[t], ms[t + 1], ps2[t].0, ps2[t].1, Ok(())) by {
                                assert(ps2[t] == ps[t]);
                            }
                            assert(sews_done(pieces@, fs, ms, ps2, ps2.len() - 1));
                            assert(refused_with(pieces@, fs, ms, ps2, map, e));
                        }
                        return Err(GridError::FailedSew(e));
                    },
                    Ok(()) => {},
                }
                proof {
                    assert(sew_step(pre_map, map, d0, d1, Ok(())));
                    assert(map.two_linked_topo(&pre_map, d0, d1));
                    let ms2 = ms.push(map);
                    assert forall|t: int| 0 <= t < ps2.len()
                        implies #[trigger] sew_step(ms2[t], ms2[t + 1], ps2[t].0, ps2[t].1, Ok(())) by {
                        if t < ps.len() {
                            assert(ps2[t] == ps[t]);
                            assert(ms2[t] == ms[t] && ms2[t + 1] == ms[t + 1]);
                        } else {
                            assert(ms2[t] == pre_map);
                        }
                    }
                    assert(sews_done(pieces@, fs, ms2, ps2, ps2.len() as int));
                    // the sewn pairs stay linked
                    assert forall|t: int| 0 <= t < ps2.len() implies {
                        &&& map.img(2, (#[trigger] ps2[t]).0 as int) == ps2[t].1
                        &&& map.img(2, ps2[t].1 as int) == ps2[t].0
                    } by {
                        if t < ps.len() {
                            assert(ps2[t] == ps[t]);
                            let e0 = corner_of(fs, ps[t].0 as int);
                            let e1 = corner_of(fs, ps[t].1 as int);
                            assert(twin_darts(fs, ps[t].0, ps[t].1));
                            lemma_dart_below(fs, e0.0, e0.1);
                            lemma_dart_below(fs, e1.0, e1.1);
                            assert(key_less(dart_key(fs, ps[t].0), (pre_buf[m as int].0, pre_buf[m as int].1)));
                            let q1 = if q < m { q as int } else { q + 1 };
                            assert(key_less(dart_key(fs, ps[t].0), (pre_buf[q1].0, pre_buf[q1].1)));
                            assert((pre_buf[m as int].0, pre_buf[m as int].1) != dart_key(fs, ps[t].1));
                            assert((pre_buf[q1].0, pre_buf[q1].1) != dart_key(fs, ps[t].1));
                            assert(ps[t].0 != d0 && ps[t].0 != d1);
                            assert(ps[t].1 != d0 && ps[t].1 != d1);
                            assert(pre_map.img(2, ps[t].0 as int) == ps[t].1);
                            assert(pre_map.img(2, ps[t].1 as int) == ps[t].0);
                        }
                    }
                    // the remaining edges come after the new pair
                    assert forall|t: int, x: int| 0 <= t < ps2.len() && 0 <= x < buf@.len() implies {
                        &&& key_less(dart_key(fs, (#[trigger] ps2[t]).0), ((#[trigger] buf@[x]).0, buf@[x].1))
                        &&& (buf@[x].0, buf@[x].1) != dart_key(fs, ps2[t].1)
                    } by {
                        let x1 = if x < q { x } else { x + 1 };
                        let x2 = if x1 < m { x1 } else { x1 + 1 };
                        assert(buf@[x] == mid_buf[x1]);
                        assert(mid_buf[x1] == pre_buf[x2]);
                        if t < ps.len() {
                            assert(ps2[t] == ps[t]);
                        } else {
                            assert(x2 != m);
                            assert(pre_buf[x2].0 != pre_buf[m as int].0 || pre_buf[x2].1 != pre_buf[m as int].1);
                            assert(!key_less((pre_buf[x2].0, pre_buf[x2].1), (a, b)));
                            assert(x1 != q);
                            assert(mid_buf[x1].0 != mid_buf[q as int].0 || mid_buf[x1].1 != mid_buf[q as int].1);
                        }
                    }
                    // every pair is sewn or has its edges in the buffer
                    assert forall|f: int, i: int, g: int, j: int| #[trigger] twin_corners(fs, f, i, g, j)
                        implies ps2.contains((dart_of(fs, f, i) as DartIdType, dart_of(fs, g, j) as DartIdType))
                        || (buf_has_key(buf@, edge_key(fs, f, i)) && buf_has_key(buf@, edge_key(fs, g, j))) by {
                        let pr = (dart_of(fs, f, i) as DartIdType, dart_of(fs, g, j) as DartIdType);
                        if ps.contains(pr) {
                            let t = choose|t: int| 0 <= t < ps.len() && ps[t] == pr;
                            assert(ps2[t] == pr);
                        } else if edge_key(fs, f, i) == (a, b) {
                            lemma_kept_unique(fs, f, i, c0.0, c0.1);
                            lemma_kept_unique(fs, g, j, c1.0, c1.1);
                            assert(ps2[ps.len() as int] == pr);
                        } else if edge_key(fs, g, j) == (a, b) || edge_key(fs, f, i) == (b, a) {
                            assert(false);
                        } else if edge_key(fs, g, j) == (b, a) {
                            assert(edge_key(fs, f, i) == (a, b));
                        } else {
                            lemma_has_key_remove(pre_buf, m as int, edge_key(fs, f, i));
                            lemma_has_key_remove(pre_buf, m as int, edge_key(fs, g, j));
                            lemma_has_key_remove(mid_buf, q as int, edge_key(fs, f, i));
                            lemma_has_key_remove(mid_buf, q as int, edge_key(fs, g, j));
                        }
                    }
                    // the 2-links join darts of opposite edges
                    assert forall|g1: int, j1: int, g2: int, j2: int|
                        0 <= g1 < fs.len() && 0 <= j1 < fs[g1].len() && 0 <= g2 < fs.len() && 0 <= j2 < fs[g2].len()
                        && #[trigger] map.img(2, dart_of(fs, g1, j1)) == #[trigger] dart_of(fs, g2, j2)
                        implies edge_key(fs, g2, j2) == (edge_key(fs, g1, j1).1, edge_key(fs, g1, j1).0) by {
                        lemma_darts_before_mono(fs, g1, fs.len() as int);
                        let x = dart_of(fs, g1, j1);
                        if x == d0 as int {
                            lemma_dart_of_injective(fs, g1, j1, c0.0, c0.1);
                            lemma_dart_of_injective(fs, g2, j2, c1.0, c1.1);
                        } else if x == d1 as int {
                            lemma_dart_of_injective(fs, g1, j1, c1.0, c1.1);
                            lemma_dart_of_injective(fs, g2, j2, c0.0, c0.1);
                        } else {
                            lemma_darts_before_nonneg(fs, g1);
                            assert(0 <= x < n);
                            assert(pre_map.img(2, x) == map.img(2, x));
                        }
                    }
                    assert forall|g: int, j: int| 0 <= g < fs.len() && 0 <= j < fs[g].len() implies {
                        &&& #[trigger] map.img(1, dart_of(fs, g, j)) == dart_of(fs, g, (j + 1) % fs[g].len() as int)
                        &&& map.img(0, dart_of(fs, g, (j + 1) % fs[g].len() as int)) == dart_of(fs, g, j)
                    } by {
                        lemma_darts_before_mono(fs, g, fs.len() as int);
                        let jn = (j + 1) % fs[g].len() as int;
                        assert(pre_map.img(1, dart_of(fs, g, j)) == dart_of(fs, g, jn));
                    }
                    ms = ms2;
                    ps = ps2;
                }
            } else {
                proof {
                    assert forall|t: int, x: int| 0 <= t < ps.len() && 0 <= x < buf@.len() implies {
                        &&& key_less(dart_key(fs, (#[trigger] ps[t]).0), ((#[trigger] buf@[x]).0, buf@[x].1))
                        &&& (buf@[x].0, buf@[x].1) != dart_key(fs, ps[t].1)
                    } by {
                        let x1 = if x < m { x } else { x + 1 };
                        assert(buf@[x] == pre_buf[x1]);
                    }
                    assert forall|f: int, i: int, g: int, j: int| #[trigger] twin_corners(fs, f, i, g, j)
                        implies ps.contains((dart_of(fs, f, i) as DartIdType, dart_of(fs, g, j) as DartIdType))
                        || (buf_has_key(buf@, edge_key(fs, f, i)) && buf_has_key(buf@, edge_key(fs, g, j))) by {
                        let pr = (dart_of(fs, f, i) as DartIdType, dart_of(fs, g, j) as DartIdType);
                        if !ps.contains(pr) {
                            if edge_key(fs, f, i) == (a, b) {
                                lemma_has_key_remove(pre_buf, m as int, edge_key(fs, g, j));
                                let x = choose|x: int| 0 <= x < buf@.len() && (#[trigger] buf@[x]).0 == edge_key(fs, g, j).0
                                    && buf@[x].1 == edge_key(fs, g, j).1;
                                assert(!(buf@[x].0 == b && buf@[x].1 == a));
                            } else if edge_key(fs, g, j) == (a, b) {
                                let x = choose|x: int| 0 <= x < pre_buf.len() && (#[trigger] pre_buf[x]).0 == edge_key(fs, f, i).0
                                    && pre_buf[x].1 == edge_key(fs, f, i).1;
                                assert(!key_less((pre_buf[x].0, pre_buf[x].1), (a, b)));
                            } else {
                                lemma_has_key_remove(pre_buf, m as int, edge_key(fs, f, i));
                                lemma_has_key_remove(pre_buf, m as int, edge_key(fs, g, j));
                            }
                        }
                    }
                }
            }
        }
        proof {
            assert forall|f: int, i: int, g: int, j: int| #[trigger] twin_corners(fs, f, i, g, j)
                implies ps.contains((dart_of(fs, f, i) as DartIdType, dart_of(fs, g, j) as DartIdType)) by {
                if !ps.contains((dart_of(fs, f, i) as DartIdType, dart_of(fs, g, j) as DartIdType)) {
                    assert(buf_has_key(buf@, edge_key(fs, f, i)));
                }
            }
            assert(sews_complete(fs, ps));
            assert(sewn_with(pieces@, fs, ms, ps, map));
            assert forall|f: int, i: int, g: int, j: int| #[trigger] twin_corners(fs, f, i, g, j) implies {
                &&& map.img(2, dart_of(fs, f, i)) == dart_of(fs, g, j)
                &&& map.img(2, dart_of(fs, g, j)) == dart_of(fs, f, i)
            } by {
                lemma_dart_below(fs, f, i);
                lemma_dart_below(fs, g, j);
                let pr = (dart_of(fs, f, i) as DartIdType, dart_of(fs, g, j) as DartIdType);
                let t = choose|t: int| 0 <= t < ps.len() && ps[t] == pr;
                assert(ps[t] == pr);
            }
        }
        Ok(map)
    }
}

} // verus!
