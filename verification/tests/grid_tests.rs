use honeycomb_core::attributes::{AttributeUpdate, VertexAttribute};
use honeycomb_core::cmap2::structure::CMap2;
use honeycomb_core::grid_data::{parse_legacy_cells, CellKind, GridError, GridPiece};
use honeycomb_core::orbits::OrbitPolicy;
use vtkio::model::{CellType, DataSet, VertexNumbers};
use vtkio::IOBuffer;

#[derive(Debug, Clone, Copy, PartialEq)]
struct Pt(f64, f64);

impl AttributeUpdate for Pt {
    fn merge(a: Self, b: Self) -> Self {
        Pt((a.0 + b.0) / 2.0, (a.1 + b.1) / 2.0)
    }

    fn split(a: Self) -> (Self, Self) {
        (a, a)
    }
}

impl VertexAttribute for Pt {
    fn opposite_directions(ls: Self, le: Self, rs: Self, re: Self) -> bool {
        (le.0 - ls.0) * (re.0 - rs.0) + (le.1 - ls.1) * (re.1 - rs.1) < 0.0
    }
}

fn square_points() -> Vec<Pt> {
    vec![Pt(0.0, 0.0), Pt(1.0, 0.0), Pt(1.0, 1.0), Pt(0.0, 1.0)]
}

#[test]
fn legacy_cells_are_split_by_counts() {
    let cells = parse_legacy_cells(&vec![3, 0, 1, 2, 1, 7, 2, 4, 5]);
    assert_eq!(cells, vec![vec![0, 1, 2], vec![7], vec![4, 5]]);
    let cut = parse_legacy_cells(&vec![4, 0, 1]);
    assert_eq!(cut, vec![vec![0, 1]]);
    assert!(parse_legacy_cells(&vec![]).is_empty());
}

#[test]
fn two_triangles_share_their_diagonal() {
    let piece = GridPiece {
        points: square_points(),
        num_cells: 3,
        cell_verts: vec![3, 0, 1, 2, 3, 0, 2, 3, 1, 3],
        types: vec![CellKind::Triangle, CellKind::Triangle, CellKind::Vertex],
    };
    let map = CMap2::from_grid_pieces(&vec![piece]).unwrap();
    assert_eq!(map.n_darts(), 7);
    // first triangle: darts 1 2 3
    assert_eq!(map.beta::<1>(1), 2);
    assert_eq!(map.beta::<1>(2), 3);
    assert_eq!(map.beta::<1>(3), 1);
    assert_eq!(map.beta::<0>(1), 3);
    // second triangle: darts 4 5 6
    assert_eq!(map.beta::<1>(4), 5);
    assert_eq!(map.beta::<1>(6), 4);
    // dart 3 runs 2 -> 0, dart 4 runs 0 -> 2
    assert_eq!(map.beta::<2>(3), 4);
    assert_eq!(map.beta::<2>(4), 3);
    assert!(map.is_i_free::<2>(1));
    assert!(map.is_i_free::<2>(2));
    assert!(map.is_i_free::<2>(5));
    assert!(map.is_i_free::<2>(6));
    assert_eq!(map.read_vertex(map.vertex_id(1)), Some(Pt(0.0, 0.0)));
    assert_eq!(map.read_vertex(map.vertex_id(2)), Some(Pt(1.0, 0.0)));
    assert_eq!(map.read_vertex(map.vertex_id(6)), Some(Pt(0.0, 1.0)));
}

#[test]
fn quad_and_polygon_pieces() {
    let quad = GridPiece {
        points: square_points(),
        num_cells: 2,
        cell_verts: vec![4, 0, 1, 2, 3, 2, 0, 1],
        types: vec![CellKind::Quad, CellKind::Line],
    };
    let poly = GridPiece {
        points: vec![Pt(0.0, 0.0), Pt(2.0, 0.0), Pt(3.0, 1.0), Pt(1.0, 2.0), Pt(-1.0, 1.0)],
        num_cells: 1,
        cell_verts: vec![5, 0, 1, 2, 3, 4],
        types: vec![CellKind::Polygon],
    };
    let map = CMap2::from_grid_pieces(&vec![quad, poly]).unwrap();
    assert_eq!(map.n_darts(), 10);
    assert_eq!(map.beta::<1>(4), 1);
    assert_eq!(map.beta::<1>(9), 5);
    assert_eq!(map.beta::<0>(5), 9);
    // the two pieces do not share edges
    for d in 1..10 {
        assert!(map.is_i_free::<2>(d));
    }
    assert_eq!(map.read_vertex(map.vertex_id(7)), Some(Pt(3.0, 1.0)));
}

#[test]
fn no_pieces_give_an_empty_map() {
    let pieces: Vec<GridPiece<Pt>> = Vec::new();
    let map = CMap2::from_grid_pieces(&pieces).unwrap();
    assert_eq!(map.n_darts(), 1);
}

#[test]
fn grid_errors() {
    let count = GridPiece {
        points: square_points(),
        num_cells: 2,
        cell_verts: vec![3, 0, 1, 2],
        types: vec![CellKind::Triangle, CellKind::Triangle],
    };
    assert_eq!(
        CMap2::from_grid_pieces(&vec![count]).err(),
        Some(GridError::InconsistentCellCount)
    );
    let bad_tri = GridPiece {
        points: square_points(),
        num_cells: 1,
        cell_verts: vec![4, 0, 1, 2, 3],
        types: vec![CellKind::Triangle],
    };
    assert_eq!(
        CMap2::from_grid_pieces(&vec![bad_tri]).err(),
        Some(GridError::BadVertexCount(CellKind::Triangle, 4))
    );
    let bad_line = GridPiece {
        points: square_points(),
        num_cells: 1,
        cell_verts: vec![1, 0],
        types: vec![CellKind::Line],
    };
    assert_eq!(
        CMap2::from_grid_pieces(&vec![bad_line]).err(),
        Some(GridError::BadVertexCount(CellKind::Line, 1))
    );
    let strip = GridPiece {
        points: square_points(),
        num_cells: 1,
        cell_verts: vec![4, 0, 1, 2, 3],
        types: vec![CellKind::TriangleStrip],
    };
    assert_eq!(
        CMap2::from_grid_pieces(&vec![strip]).err(),
        Some(GridError::UnsupportedCell(CellKind::TriangleStrip))
    );
    let far = GridPiece {
        points: square_points(),
        num_cells: 1,
        cell_verts: vec![3, 0, 9, 4],
        types: vec![CellKind::Triangle],
    };
    assert_eq!(
        CMap2::from_grid_pieces(&vec![far]).err(),
        Some(GridError::PointOutOfRange(9))
    );
}

fn cell_lines(verts: &[u32]) -> Vec<String> {
    let mut out = Vec::new();
    let mut i = 0;
    while i < verts.len() {
        let k = verts[i] as usize;
        let cell: Vec<String> = verts[i..=i + k].iter().map(|x| x.to_string()).collect();
        out.push(cell.join(" "));
        i += k + 1;
    }
    out
}

#[test]
fn io_write() {
    // build a map looking like this:
    //      15
    //     / \
    //    /   \
    //   /     \
    //  16      14
    //  |       |
    //  4---3---7
    //  |   |  /|
    //  |   | / |
    //  |   |/  |
    //  1---2---6
    let mut cmap: CMap2<Pt> = CMap2::new(16);
    // bottom left square
    cmap.force_link::<1>(1, 2).unwrap();
    cmap.force_link::<1>(2, 3).unwrap();
    cmap.force_link::<1>(3, 4).unwrap();
    cmap.force_link::<1>(4, 1).unwrap();
    // bottom right triangles
    cmap.force_link::<1>(5, 6).unwrap();
    cmap.force_link::<1>(6, 7).unwrap();
    cmap.force_link::<1>(7, 5).unwrap();
    cmap.force_link::<2>(7, 8).unwrap();
    cmap.force_link::<1>(8, 9).unwrap();
    cmap.force_link::<1>(9, 10).unwrap();
    cmap.force_link::<1>(10, 8).unwrap();
    // top polygon
    cmap.force_link::<1>(11, 12).unwrap();
    cmap.force_link::<1>(12, 13).unwrap();
    cmap.force_link::<1>(13, 14).unwrap();
    cmap.force_link::<1>(14, 15).unwrap();
    cmap.force_link::<1>(15, 16).unwrap();
    cmap.force_link::<1>(16, 11).unwrap();
    // assemble
    cmap.force_link::<2>(2, 10).unwrap();
    cmap.force_link::<2>(3, 11).unwrap();
    cmap.force_link::<2>(9, 12).unwrap();

    // insert vertices
    cmap.force_write_vertex(1, Pt(0.0, 0.0));
    cmap.force_write_vertex(2, Pt(1.0, 0.0));
    cmap.force_write_vertex(6, Pt(2.0, 0.0));
    cmap.force_write_vertex(4, Pt(0.0, 1.0));
    cmap.force_write_vertex(3, Pt(1.0, 1.0));
    cmap.force_write_vertex(7, Pt(2.0, 1.0));
    cmap.force_write_vertex(16, Pt(0.0, 2.0));
    cmap.force_write_vertex(15, Pt(1.0, 3.0));
    cmap.force_write_vertex(14, Pt(2.0, 2.0));

    // generate grid data
    let res = cmap.to_grid_cells().unwrap();
    let lines = cell_lines(&res.cell_verts);

    // check result: 9 points, 12 cells taking 44 entries
    assert_eq!(res.vertex_ids.len(), 9);
    assert_eq!(res.num_cells, 12);
    assert_eq!(res.cell_verts.len(), 44);
    assert_eq!(res.types.len(), 12);
    // faces
    assert!(lines.contains(&"4 0 1 2 3".to_string()));
    assert!(lines.contains(&"3 1 4 5".to_string()));
    // edges
    assert!(lines.contains(&"2 0 1".to_string()));
    assert!(lines.contains(&"2 3 0".to_string()));
    assert!(lines.contains(&"2 1 4".to_string()));
    assert!(lines.contains(&"2 4 5".to_string()));
    assert!(lines.contains(&"2 5 6".to_string()));
    assert!(lines.contains(&"2 6 7".to_string()));
    assert!(lines.contains(&"2 7 8".to_string()));
    assert!(lines.contains(&"2 8 3".to_string()));
}

#[test]
fn grid_cells_layout_and_kinds() {
    // two triangles sharing an edge, plus an isolated 2-dart face
    let mut map: CMap2<Pt> = CMap2::new(8);
    map.force_link::<1>(1, 2).unwrap();
    map.force_link::<1>(2, 3).unwrap();
    map.force_link::<1>(3, 1).unwrap();
    map.force_link::<1>(4, 5).unwrap();
    map.force_link::<1>(5, 6).unwrap();
    map.force_link::<1>(6, 4).unwrap();
    map.force_link::<2>(2, 4).unwrap();
    map.force_link::<1>(7, 8).unwrap();
    map.force_link::<1>(8, 7).unwrap();
    let g = map.to_grid_cells().unwrap();
    // vertices: 1, 2 (with 5), 3 (with 4), 6, 7, 8
    assert_eq!(g.vertex_ids, vec![1, 2, 3, 6, 7, 8]);
    // boundary edges 1, 3, 5, 6, 7, 8; faces 1 and 4 (the face of 7 has two darts)
    assert_eq!(g.num_cells, 8);
    assert_eq!(
        g.cell_verts,
        vec![2, 0, 1, 2, 2, 0, 2, 1, 3, 2, 3, 2, 2, 4, 5, 2, 5, 4, 3, 0, 1, 2, 3, 2, 1, 3]
    );
    assert_eq!(
        g.types,
        vec![
            CellKind::Line,
            CellKind::Line,
            CellKind::Line,
            CellKind::Line,
            CellKind::Line,
            CellKind::Line,
            CellKind::Triangle,
            CellKind::Triangle
        ]
    );
}

#[test]
fn grid_cells_open_boundary_is_refused() {
    // an open chain: dart 2 has no β1 image, its edge has no end point
    let mut map: CMap2<Pt> = CMap2::new(2);
    map.force_link::<1>(1, 2).unwrap();
    assert!(map.to_grid_cells().is_none());
}

const VTK_ASCII: &[u8] = b"
# vtk DataFile Version 2.0
cmap
ASCII

DATASET UNSTRUCTURED_GRID
POINTS 9 float
0 0 0  1 0 0  1 1 0
0 1 0  2 0 0  2 1 0
2 2 0  1 3 0  0 2 0

CELLS 17 54
1 0
1 4
1 6
1 7
1 8
2 0 1
2 3 0
2 1 4
2 4 5
2 5 6
2 6 7
2 7 8
2 8 3
4 0 1 2 3
3 1 4 5
3 1 5 2
6 3 2 5 6 7 8

CELL_TYPES 17
1
1
1
1
1
3
3
3
3
3
3
3
3
9
5
5
7


POINT_DATA 9

CELL_DATA 17
";

fn kind_of(c: CellType) -> CellKind {
    match c {
        CellType::Vertex => CellKind::Vertex,
        CellType::PolyVertex => CellKind::PolyVertex,
        CellType::Line => CellKind::Line,
        CellType::PolyLine => CellKind::PolyLine,
        CellType::Triangle => CellKind::Triangle,
        CellType::TriangleStrip => CellKind::TriangleStrip,
        CellType::Polygon => CellKind::Polygon,
        CellType::Pixel => CellKind::Pixel,
        CellType::Quad => CellKind::Quad,
        _ => CellKind::Other,
    }
}

fn pieces_of(vtk: vtkio::Vtk) -> Vec<GridPiece<Pt>> {
    match vtk.data {
        DataSet::UnstructuredGrid { pieces, .. } => pieces
            .iter()
            .map(|piece| {
                let tmp = piece.load_piece_data(None).unwrap();
                let coords: Vec<f64> = match &tmp.points {
                    IOBuffer::F32(v) => v.iter().map(|x| *x as f64).collect(),
                    IOBuffer::F64(v) => v.clone(),
                    _ => panic!("points are not floats"),
                };
                let points = coords.chunks_exact(3).map(|c| Pt(c[0], c[1])).collect();
                match tmp.cells.cell_verts {
                    VertexNumbers::Legacy { num_cells, vertices } => GridPiece {
                        points,
                        num_cells,
                        cell_verts: vertices,
                        types: tmp.cells.types.into_iter().map(kind_of).collect(),
                    },
                    VertexNumbers::XML { .. } => panic!("XML layout"),
                }
            })
            .collect(),
        _ => Vec::new(),
    }
}

#[test]
fn io_read() {
    let vtk = vtkio::Vtk::parse_legacy_be(VTK_ASCII).unwrap();

    let cmap: CMap2<Pt> = CMap2::from_grid_pieces(&pieces_of(vtk)).unwrap();

    // check result
    let faces = cmap.iter_faces();
    assert_eq!(faces.len(), 4);
    assert_eq!(cmap.iter_edges().len(), 12);
    assert_eq!(cmap.iter_vertices().len(), 9);

    let mut n_vertices_per_face: Vec<usize> = faces
        .iter()
        .map(|id| cmap.orbit(OrbitPolicy::Face, *id).len())
        .collect();
    let (mut three_count, mut four_count, mut six_count): (usize, usize, usize) = (0, 0, 0);
    while let Some(n) = n_vertices_per_face.pop() {
        match n {
            3 => three_count += 1,
            4 => four_count += 1,
            6 => six_count += 1,
            _ => panic!("cmap was built incorrectly"),
        }
    }
    assert_eq!(three_count, 2);
    assert_eq!(four_count, 1);
    assert_eq!(six_count, 1);
}
