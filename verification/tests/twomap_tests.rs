use honeycomb_core::dart::{CellIdentifiers, DartData};
use honeycomb_core::embed::{SewPolicy, UnsewPolicy};
use honeycomb_core::generation::square_two_map;
use honeycomb_core::twomap::TwoMap;

type Grid = TwoMap<(u32, u32), 2>;

#[test]
fn embed_some_test() {
    assert_eq!(1, 1);
}

#[test]
fn map_some_test() {
    assert_eq!(1, 1);
}

#[test]
fn new_map_is_free() {
    let map: Grid = TwoMap::new(4);
    for d in 0..=4 {
        assert!(map.is_free(d));
        assert_eq!(map.cell_of(d), CellIdentifiers { vertex_id: 0, face_id: 0 });
    }
    assert_eq!(map.beta::<1>(2), 0);
}

#[test]
fn two_sew_then_unsew() {
    let mut map: Grid = TwoMap::new(4);
    map.i_sew::<2>(1, 3, SewPolicy::StretchLeft);
    assert_eq!(map.beta::<2>(1), 3);
    assert_eq!(map.beta::<2>(3), 1);
    assert!(!map.is_i_free::<2>(3));
    map.i_unsew::<2>(1, UnsewPolicy::DoNothing);
    assert_eq!(map.beta::<2>(1), 0);
    assert_eq!(map.beta::<2>(3), 0);
    for d in 0..=4 {
        assert!(map.is_free(d));
    }
}

#[test]
fn one_sew_then_unsew() {
    let mut map: Grid = TwoMap::new(4);
    map.set_d_vertex(1, 7);
    map.set_d_vertex(2, 9);
    map.i_sew::<1>(1, 2, SewPolicy::StretchAverage);
    assert_eq!(map.beta::<1>(1), 2);
    assert_eq!(map.beta::<0>(2), 1);
    // the vertex rotation of dart 2 reaches the null dart: dart 2 takes its vertex identifier
    assert_eq!(map.cell_of(2).vertex_id, 0);
    assert_eq!(map.cell_of(1).vertex_id, 7);
    map.i_unsew::<1>(1, UnsewPolicy::DoNothing);
    assert!(map.is_free(1));
    assert!(map.is_free(2));
}

#[test]
fn one_sew_takes_vertex_of_rotation() {
    let mut map: Grid = TwoMap::new(4);
    map.i_sew::<2>(2, 3, SewPolicy::StretchLeft);
    map.i_sew::<1>(3, 4, SewPolicy::StretchLeft);
    map.set_d_vertex(4, 6);
    map.set_d_vertex(2, 5);
    // the vertex rotation of dart 2 is 2 -> b1(b2(2)) = 4 -> null
    assert_eq!(map.i_cell_of::<0>(2), vec![2, 4, 0]);
    map.i_sew::<1>(1, 2, SewPolicy::StretchLeft);
    assert_eq!(map.cell_of(2).vertex_id, 6);
}

#[test]
fn unsew_duplicates_vertex() {
    let mut map: Grid = TwoMap::new(2);
    map.vertices.push((3, 4));
    map.set_d_vertex(2, 0);
    map.i_sew::<1>(1, 2, SewPolicy::StretchLeft);
    map.i_unsew::<1>(1, UnsewPolicy::Duplicate);
    assert_eq!(map.vertices, vec![(3, 4), (3, 4)]);
    assert_eq!(map.cell_of(2).vertex_id, 1);
}

#[test]
fn free_darts_roundtrip() {
    let mut map: Grid = TwoMap::new(2);
    assert_eq!(map.add_free_dart(), 3);
    map.remove_free_dart(2);
    assert_eq!(map.free_darts, vec![2]);
    assert_eq!(map.insert_free_dart(), 2);
    assert!(map.free_darts.is_empty());
    assert_eq!(map.insert_free_dart(), 4);
}

#[test]
fn i_cell_of_face() {
    let mut map: Grid = TwoMap::new(3);
    map.set_d_betas(1, [3, 2, 0]);
    map.set_d_betas(2, [1, 3, 0]);
    map.set_d_betas(3, [2, 1, 0]);
    assert_eq!(map.i_cell_of::<2>(1), vec![1, 2, 3]);
    // the 1-cell of a 2-free dart lists its null image
    assert_eq!(map.i_cell_of::<1>(2), vec![2, 0]);
    map.set_d_face(2, 8);
    assert_eq!(map.cell_of(2).face_id, 8);
}

#[test]
fn square_grid_two_by_two() {
    let map: Grid = square_two_map(2);
    // four squares of four darts each, plus the null dart
    for t in 0..4u32 {
        let b = 4 * t;
        assert_eq!(map.beta::<1>(b + 1), b + 2);
        assert_eq!(map.beta::<1>(b + 4), b + 1);
        assert_eq!(map.beta::<0>(b + 1), b + 4);
    }
    // bottom-left square: right side faces the left side of the bottom-right square
    assert_eq!(map.beta::<2>(2), 8);
    assert_eq!(map.beta::<2>(8), 2);
    // top side faces the bottom side of the top-left square
    assert_eq!(map.beta::<2>(3), 9);
    // boundary darts are 2-free
    assert_eq!(map.beta::<2>(1), 0);
    assert_eq!(map.beta::<2>(4), 0);
    assert_eq!(map.beta::<2>(15), 0);
}

#[test]
fn square_grid_single() {
    let map: Grid = square_two_map(1);
    for d in 1..=4 {
        assert!(map.is_i_free::<2>(d));
    }
    assert_eq!(map.i_cell_of::<2>(3), vec![3, 4, 1, 2]);
}

#[test]
fn dart_data_entries() {
    let mut data = DartData::new(2);
    assert_eq!(data.associated_cells.len(), 3);
    data.add_entry();
    data.add_entries(2);
    assert_eq!(data.associated_cells.len(), 6);
    data.associated_cells[1] = CellIdentifiers { vertex_id: 3, face_id: 4 };
    data.reset_entry(1);
    assert_eq!(data.associated_cells[1], CellIdentifiers::default());
    assert_eq!(SewPolicy::default(), SewPolicy::StretchLeft);
    assert_eq!(UnsewPolicy::default(), UnsewPolicy::Duplicate);
}
