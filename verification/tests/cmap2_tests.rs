use honeycomb_core::attributes::{AttributeError, AttributeUpdate, VertexAttribute};
use honeycomb_core::cmap2::structure::CMap2;
use honeycomb_core::error::{DartReleaseError, LinkError, SewError};
use honeycomb_core::ids::DartIdType;
use honeycomb_core::orbits::OrbitPolicy;

#[derive(Debug, Clone, Copy, PartialEq)]
struct Vertex2(f64, f64);

impl AttributeUpdate for Vertex2 {
    fn merge(a: Self, b: Self) -> Self {
        Vertex2((a.0 + b.0) / 2.0, (a.1 + b.1) / 2.0)
    }

    fn split(a: Self) -> (Self, Self) {
        (a, a)
    }
}

impl VertexAttribute for Vertex2 {
    fn opposite_directions(ls: Self, le: Self, rs: Self, re: Self) -> bool {
        (le.0 - ls.0) * (re.0 - rs.0) + (le.1 - ls.1) * (re.1 - rs.1) < 0.0
    }
}

fn v(x: f64, y: f64) -> Vertex2 {
    Vertex2(x, y)
}

#[test]
fn example_test() {
    // build a triangle
    let mut map: CMap2<Vertex2> = CMap2::new(3);
    map.force_link::<1>(1, 2).unwrap();
    map.force_link::<1>(2, 3).unwrap();
    map.force_link::<1>(3, 1).unwrap();
    map.force_write_vertex(1, v(0.0, 0.0));
    map.force_write_vertex(2, v(1.0, 0.0));
    map.force_write_vertex(3, v(0.0, 1.0));

    let faces = map.iter_faces();
    assert_eq!(faces.len(), 1);
    assert_eq!(faces[0], 1);
    assert_eq!(map.orbit(OrbitPolicy::Face, 1), vec![1, 2, 3]);

    // build a second triangle
    map.allocate_used_darts(3);
    map.force_link::<1>(4, 5).unwrap();
    map.force_link::<1>(5, 6).unwrap();
    map.force_link::<1>(6, 4).unwrap();
    map.force_write_vertex(4, v(0.0, 2.0));
    map.force_write_vertex(5, v(2.0, 0.0));
    map.force_write_vertex(6, v(1.0, 1.0));

    assert_eq!(map.iter_faces(), vec![1, 4]);
    assert_eq!(map.orbit(OrbitPolicy::Face, 4), vec![4, 5, 6]);

    // sew both triangles
    map.force_sew::<2>(2, 4).unwrap();

    assert_eq!(map.beta::<2>(2), 4);
    assert_eq!(map.vertex_id(2), 2);
    assert_eq!(map.vertex_id(5), 2);
    assert_eq!(map.force_read_vertex(2).unwrap(), v(1.5, 0.0));
    assert_eq!(map.vertex_id(3), 3);
    assert_eq!(map.vertex_id(4), 3);
    assert_eq!(map.force_read_vertex(3).unwrap(), v(0.0, 1.5));
    assert_eq!(map.iter_edges(), vec![1, 2, 3, 5, 6]);

    // adjust bottom-right & top-left vertex position
    assert_eq!(map.force_write_vertex(2, v(1.0, 0.0)), Some(v(1.5, 0.0)));
    assert_eq!(map.force_read_vertex(2).unwrap(), v(1.0, 0.0));
    assert_eq!(map.force_write_vertex(3, v(0.0, 1.0)), Some(v(0.0, 1.5)));
    assert_eq!(map.force_read_vertex(3).unwrap(), v(0.0, 1.0));

    // separate the diagonal from the rest
    map.force_unsew::<1>(1).unwrap();
    map.force_unsew::<1>(2).unwrap();
    map.force_unsew::<1>(6).unwrap();
    map.force_unsew::<1>(4).unwrap();
    // break up & remove the diagonal
    map.force_unsew::<2>(2).unwrap(); // this makes dart 2 and 4 free
    map.release_dart(2).unwrap();
    map.release_dart(4).unwrap();
    // sew the square back up
    map.force_sew::<1>(1, 5).unwrap();
    map.force_sew::<1>(6, 3).unwrap();

    // i-cells
    assert_eq!(map.iter_faces(), vec![1]);
    assert_eq!(map.iter_edges(), vec![1, 3, 5, 6]);
    assert_eq!(map.iter_vertices(), vec![1, 3, 5, 6]);
    assert_eq!(map.force_read_vertex(1).unwrap(), v(0.0, 0.0));
    assert_eq!(map.force_read_vertex(5).unwrap(), v(1.0, 0.0));
    assert_eq!(map.force_read_vertex(6).unwrap(), v(1.0, 1.0));
    assert_eq!(map.force_read_vertex(3).unwrap(), v(0.0, 1.0));
    // darts
    assert_eq!(map.n_unused_darts(), 2); // there are unused darts since we removed the diagonal
    assert_eq!(map.beta_rt(1, 1), 5);
    assert_eq!(map.beta_rt(1, 5), 6);
    assert_eq!(map.beta_rt(1, 6), 3);
    assert_eq!(map.beta_rt(1, 3), 1);
}

#[test]
fn reserve_darts_2d() {
    let mut map: CMap2<Vertex2> = CMap2::new(1);
    map.allocate_unused_darts(100);
    let s = map.reserve_darts(10).unwrap();
    assert!(s.len() == 10 && s[0] == 2 && s[9] == 11);
    assert!(map.reserve_darts(100).is_err());
    assert_eq!(map.reserve_darts(0), Ok(vec![]));
}

#[test]
fn remove_dart_twice_2d() {
    let mut map: CMap2<Vertex2> = CMap2::new(4);
    assert!(!map.release_dart(1).unwrap());
    assert!(map.release_dart(1).unwrap());
}

#[test]
fn release_linked_dart() {
    let mut map: CMap2<Vertex2> = CMap2::new(2);
    map.force_link::<1>(1, 2).unwrap();
    assert_eq!(map.release_dart(2), Err(DartReleaseError(2)));
    assert!(!map.is_unused(2));
}

#[test]
fn two_sew_complete() {
    let mut map: CMap2<Vertex2> = CMap2::new(4);
    map.force_link::<1>(1, 2).unwrap();
    map.force_link::<1>(3, 4).unwrap();
    map.force_write_vertex(1, v(0.0, 0.0));
    map.force_write_vertex(2, v(0.0, 1.0));
    map.force_write_vertex(3, v(1.0, 1.0));
    map.force_write_vertex(4, v(1.0, 0.0));
    map.force_sew::<2>(1, 3).unwrap();
    assert_eq!(map.force_read_vertex(1).unwrap(), v(0.5, 0.0));
    assert_eq!(map.force_read_vertex(2).unwrap(), v(0.5, 1.0));
}

#[test]
fn two_sew_incomplete() {
    let mut map: CMap2<Vertex2> = CMap2::new(3);
    map.force_link::<1>(1, 2).unwrap();
    map.force_write_vertex(1, v(0.0, 0.0));
    map.force_write_vertex(2, v(0.0, 1.0));
    map.force_write_vertex(3, v(1.0, 1.0));
    map.force_sew::<2>(1, 3).unwrap();
    // missing beta1 image for dart 3
    assert_eq!(map.force_read_vertex(1).unwrap(), v(0.0, 0.0));
    assert_eq!(map.force_read_vertex(2).unwrap(), v(0.5, 1.0));
    map.force_unsew::<2>(1).unwrap();
    assert_eq!(map.allocate_used_darts(1), 4);
    map.force_link::<1>(3, 4).unwrap();
    map.force_sew::<2>(1, 3).unwrap();
    // missing vertex for dart 4
    assert_eq!(map.force_read_vertex(1).unwrap(), v(0.0, 0.0));
    assert_eq!(map.force_read_vertex(2).unwrap(), v(0.5, 1.0));
}

#[test]
fn link_twice() {
    let mut map: CMap2<Vertex2> = CMap2::new(3);
    assert!(map.force_link::<1>(1, 2).is_ok());
    assert_eq!(map.force_link::<1>(1, 3), Err(LinkError::NonFreeBase(1, 1, 3)));
    assert_eq!(map.force_link::<1>(3, 2), Err(LinkError::NonFreeImage(0, 3, 2)));
}

#[test]
fn sew_twice() {
    let mut map: CMap2<Vertex2> = CMap2::new(3);
    assert!(map.force_link::<2>(1, 3).is_ok());
    map.force_write_vertex(3, v(0.0, 0.0));
    map.force_write_vertex(2, v(0.0, 0.0));
    assert!(map.force_sew::<1>(1, 2).is_ok());
    assert_eq!(map.force_sew::<1>(1, 2), Err(SewError::FailedLink(LinkError::NonFreeBase(1, 1, 2))));
}

#[test]
fn two_sew_no_b1() {
    let mut map: CMap2<Vertex2> = CMap2::new(2);
    map.force_write_vertex(1, v(0.0, 0.0));
    map.force_write_vertex(2, v(1.0, 1.0));
    map.force_sew::<2>(1, 2).unwrap();
    assert_eq!(map.force_read_vertex(1).unwrap(), v(0.0, 0.0));
    assert_eq!(map.force_read_vertex(2).unwrap(), v(1.0, 1.0));
}

#[test]
fn two_sew_no_attributes() {
    let mut map: CMap2<Vertex2> = CMap2::new(3);
    map.force_link::<2>(1, 3).unwrap();
    assert_eq!(
        map.sew::<1>(1, 2),
        Err(SewError::FailedAttributeOp(AttributeError::InsufficientData("merge")))
    );
    assert_eq!(
        map.force_sew::<1>(1, 2),
        Err(SewError::FailedAttributeOp(AttributeError::InsufficientData("merge")))
    );
}

#[test]
fn two_sew_no_attributes_bis() {
    let mut map: CMap2<Vertex2> = CMap2::new(4);
    map.force_link::<1>(1, 2).unwrap();
    map.force_link::<1>(3, 4).unwrap();
    assert_eq!(
        map.sew::<2>(1, 3),
        Err(SewError::FailedAttributeOp(AttributeError::InsufficientData("merge")))
    );
    assert_eq!(
        map.force_sew::<2>(1, 3),
        Err(SewError::FailedAttributeOp(AttributeError::InsufficientData("merge")))
    );
    // the failed sews leave the darts 2-free
    assert_eq!(map.beta::<2>(1), 0);
    assert_eq!(map.beta::<2>(3), 0);
}

#[test]
fn two_sew_bad_orientation() {
    let mut map: CMap2<Vertex2> = CMap2::new(4);
    map.force_link::<1>(1, 2).unwrap();
    map.force_link::<1>(3, 4).unwrap();
    map.force_write_vertex(1, v(0.0, 0.0));
    map.force_write_vertex(2, v(0.0, 1.0)); // 1->2 goes up
    map.force_write_vertex(3, v(1.0, 0.0));
    map.force_write_vertex(4, v(1.0, 1.0)); // 3->4 also goes up
    assert_eq!(map.force_sew::<2>(1, 3), Err(SewError::BadGeometry(2, 1, 3)));
}

#[test]
fn one_sew_complete() {
    let mut map: CMap2<Vertex2> = CMap2::new(3);
    map.force_link::<2>(1, 2).unwrap();
    map.force_write_vertex(1, v(0.0, 0.0));
    map.force_write_vertex(2, v(0.0, 1.0));
    map.force_write_vertex(3, v(0.0, 2.0));
    map.force_sew::<1>(1, 3).unwrap();
    assert_eq!(map.force_read_vertex(2).unwrap(), v(0.0, 1.5));
}

#[test]
fn one_sew_incomplete_attributes() {
    let mut map: CMap2<Vertex2> = CMap2::new(3);
    map.force_link::<2>(1, 2).unwrap();
    map.force_write_vertex(1, v(0.0, 0.0));
    map.force_write_vertex(2, v(0.0, 1.0));
    map.force_sew::<1>(1, 3).unwrap();
    assert_eq!(map.force_read_vertex(2).unwrap(), v(0.0, 1.0));
}

#[test]
fn one_sew_incomplete_beta() {
    let mut map: CMap2<Vertex2> = CMap2::new(3);
    map.force_write_vertex(1, v(0.0, 0.0));
    map.force_write_vertex(2, v(0.0, 1.0));
    map.force_sew::<1>(1, 2).unwrap();
    assert_eq!(map.force_read_vertex(2).unwrap(), v(0.0, 1.0));
}

#[test]
fn one_sew_no_attributes() {
    let mut map: CMap2<Vertex2> = CMap2::new(3);
    map.force_link::<2>(1, 3).unwrap();
    assert_eq!(
        map.sew::<1>(1, 2),
        Err(SewError::FailedAttributeOp(AttributeError::InsufficientData("merge")))
    );
    assert_eq!(
        map.force_sew::<1>(1, 2),
        Err(SewError::FailedAttributeOp(AttributeError::InsufficientData("merge")))
    );
    // the failed sews leave dart 1 1-free
    assert_eq!(map.beta::<1>(1), 0);
}

// --- orbits

fn simple_map() -> CMap2<Vertex2> {
    let mut map: CMap2<Vertex2> = CMap2::new(11);
    // tri1
    map.force_link::<1>(1, 2).unwrap();
    map.force_link::<1>(2, 3).unwrap();
    map.force_link::<1>(3, 1).unwrap();
    // tri2
    map.force_link::<1>(4, 5).unwrap();
    map.force_link::<1>(5, 6).unwrap();
    map.force_link::<1>(6, 4).unwrap();
    // pent on top
    map.force_link::<1>(7, 8).unwrap();
    map.force_link::<1>(8, 9).unwrap();
    map.force_link::<1>(9, 10).unwrap();
    map.force_link::<1>(10, 11).unwrap();
    map.force_link::<1>(11, 7).unwrap();

    // link all
    map.force_link::<2>(2, 4).unwrap();
    map.force_link::<2>(6, 7).unwrap();

    assert!(map.force_write_vertex(1, v(0.0, 0.0)).is_none());
    assert!(map.force_write_vertex(2, v(1.0, 0.0)).is_none());
    assert!(map.force_write_vertex(6, v(1.0, 1.0)).is_none());
    assert!(map.force_write_vertex(3, v(0.0, 1.0)).is_none());
    assert!(map.force_write_vertex(9, v(1.5, 1.5)).is_none());
    assert!(map.force_write_vertex(10, v(0.5, 2.0)).is_none());
    assert!(map.force_write_vertex(11, v(-0.5, 1.5)).is_none());

    map
}

#[test]
fn full_map_from_orbit() {
    let map = simple_map();
    let darts: Vec<DartIdType> = map.orbit(OrbitPolicy::Custom(&[1, 2]), 3);
    assert_eq!(darts.len(), 11);
    assert_eq!(&darts, &[3, 1, 2, 4, 5, 6, 7, 8, 9, 10, 11]);
}

#[test]
fn orbit_variants() {
    let map = simple_map();

    // face is complete, so everything works
    assert_eq!(map.orbit(OrbitPolicy::Face, 7), vec![7, 8, 11, 9, 10]);
    assert_eq!(map.orbit(OrbitPolicy::FaceLinear, 7), vec![7, 8, 9, 10, 11]);
    assert_eq!(map.orbit(OrbitPolicy::Custom(&[0, 1]), 7), vec![7, 11, 8, 10, 9]);

    // vertex is incomplete, so using the linear variant will yield an incomplete orbit
    assert_eq!(map.orbit(OrbitPolicy::Vertex, 4), vec![4, 3, 7]);
    assert_eq!(map.orbit(OrbitPolicy::VertexLinear, 4), vec![4, 3]);
}

#[test]
fn face_from_orbit() {
    let map = simple_map();
    assert_eq!(map.orbit(OrbitPolicy::Face, 1), vec![1, 2, 3]);
    assert_eq!(map.orbit(OrbitPolicy::Custom(&[1]), 5), vec![5, 6, 4]);
}

#[test]
fn edge_from_orbit() {
    let map = simple_map();
    assert_eq!(map.orbit(OrbitPolicy::Edge, 1), vec![1]); // dart 1 is on the boundary
    assert_eq!(map.orbit(OrbitPolicy::Custom(&[2]), 4), vec![4, 2]);
}

#[test]
fn vertex_from_orbit() {
    let map = simple_map();
    assert_eq!(map.orbit(OrbitPolicy::Vertex, 4), vec![4, 3, 7]);
}

#[test]
fn empty_orbit_policy() {
    let map = simple_map();
    assert_eq!(map.orbit(OrbitPolicy::Custom(&[]), 3), vec![3]);
}

#[test]
fn cell_ids_of_simple_map() {
    let map = simple_map();
    assert_eq!(map.vertex_id(7), 3);
    assert_eq!(map.face_id(10), 7);
    assert_eq!(map.edge_id(7), 6);
    assert_eq!(map.edge_id(1), 1);
    assert_eq!(map.i_cell::<2>(5), vec![5, 6, 4]);
}

// --- laws on concrete values

#[test]
fn link_then_unlink_restores() {
    let mut map = simple_map();
    map.force_unlink::<1>(1).unwrap();
    assert_eq!(map.beta::<1>(1), 0);
    assert_eq!(map.beta::<0>(2), 0);
    map.force_link::<1>(1, 2).unwrap();
    assert_eq!(map.beta::<1>(1), 2);
    assert_eq!(map.beta::<0>(2), 1);
    map.force_unlink::<2>(6).unwrap();
    assert_eq!(map.beta::<2>(7), 0);
    map.force_link::<2>(6, 7).unwrap();
    assert_eq!(map.orbit(OrbitPolicy::Custom(&[1, 2]), 3), vec![3, 1, 2, 4, 5, 6, 7, 8, 9, 10, 11]);
    assert_eq!(map.force_unlink::<2>(1), Err(LinkError::AlreadyFree(2, 1)));
}

#[test]
fn vertex_id_shared_by_orbit() {
    let map = simple_map();
    for d in map.orbit(OrbitPolicy::Vertex, 4) {
        assert_eq!(map.vertex_id(d), map.vertex_id(4));
    }
    for d in map.orbit(OrbitPolicy::Face, 9) {
        assert_eq!(map.face_id(d), 7);
    }
}

#[test]
fn set_beta_and_set_betas() {
    let mut map: CMap2<Vertex2> = CMap2::new(3);
    map.set_betas(1, [3, 2, 0]);
    assert_eq!(map.beta::<0>(1), 3);
    assert_eq!(map.beta::<1>(1), 2);
    map.set_beta::<2>(2, 3);
    assert_eq!(map.beta::<2>(2), 3);
    assert!(map.is_i_free::<2>(1));
    assert!(!map.is_free(1));
}

#[test]
fn vertex_storage_read_after_write() {
    let mut map: CMap2<Vertex2> = CMap2::new(2);
    assert_eq!(map.n_vertices(), 0);
    assert_eq!(map.write_vertex(2, v(1.0, 2.0)), None);
    assert_eq!(map.read_vertex(2), Some(v(1.0, 2.0)));
    assert_eq!(map.n_vertices(), 1);
    assert_eq!(map.remove_vertex(2), Some(v(1.0, 2.0)));
    assert_eq!(map.read_vertex(2), None);
    assert_eq!(map.n_darts(), 3);
}

#[test]
fn sew_then_unsew_restores_images() {
    let mut map: CMap2<Vertex2> = CMap2::new(4);
    map.force_link::<1>(1, 2).unwrap();
    map.force_link::<1>(3, 4).unwrap();
    map.force_write_vertex(1, v(0.0, 0.0));
    map.force_write_vertex(2, v(1.0, 0.0));
    map.force_write_vertex(3, v(1.0, 0.0));
    map.force_write_vertex(4, v(0.0, 0.0));
    let before: Vec<[u32; 3]> = (0..5u32)
        .map(|d| [map.beta::<0>(d), map.beta::<1>(d), map.beta::<2>(d)])
        .collect();
    map.force_sew::<2>(1, 3).unwrap();
    assert_eq!(map.beta::<2>(1), 3);
    assert_eq!(map.vertex_id(4), 1);
    map.force_unsew::<2>(1).unwrap();
    let after: Vec<[u32; 3]> = (0..5u32)
        .map(|d| [map.beta::<0>(d), map.beta::<1>(d), map.beta::<2>(d)])
        .collect();
    assert_eq!(before, after);
    // a 1-sew and its undoing on the other face
    map.force_unlink::<1>(3).unwrap();
    map.force_sew::<2>(1, 3).unwrap();
    map.force_sew::<1>(3, 4).unwrap();
    assert_eq!(map.beta::<1>(3), 4);
    map.force_unsew::<1>(3).unwrap();
    assert_eq!(map.beta::<1>(3), 0);
    assert_eq!(map.beta::<0>(4), 0);
}

#[test]
fn one_sew_then_unsew_restores_vertex_values() {
    // two segments 1 -> 2 and 3 -> 4, with 2 and 3 running a shared edge the other way
    let mut map: CMap2<Vertex2> = CMap2::new(4);
    map.force_link::<2>(1, 4).unwrap();
    map.force_write_vertex(1, v(0.0, 0.0));
    map.force_write_vertex(2, v(2.0, 0.0));
    map.force_write_vertex(3, v(4.0, 0.0));
    map.force_write_vertex(4, v(1.0, 1.0));
    let filled_before: Vec<bool> = (0..5u32).map(|id| map.force_read_vertex(id).is_some()).collect();
    // merges the vertex of beta2(1) = 4 with the vertex of 3
    map.force_sew::<1>(1, 3).unwrap();
    assert_eq!(map.force_read_vertex(3), Some(v(2.5, 0.5)));
    assert_eq!(map.force_read_vertex(4), None);
    map.force_unsew::<1>(1).unwrap();
    let filled_after: Vec<bool> = (0..5u32).map(|id| map.force_read_vertex(id).is_some()).collect();
    assert_eq!(filled_before, filled_after);
    // split of the merged value, untouched vertices kept
    assert_eq!(map.force_read_vertex(3), Some(v(2.5, 0.5)));
    assert_eq!(map.force_read_vertex(4), Some(v(2.5, 0.5)));
    assert_eq!(map.force_read_vertex(1), Some(v(0.0, 0.0)));
    assert_eq!(map.force_read_vertex(2), Some(v(2.0, 0.0)));
}

#[test]
fn two_sew_refused_for_same_direction() {
    let mut map: CMap2<Vertex2> = CMap2::new(4);
    map.force_link::<1>(1, 2).unwrap();
    map.force_link::<1>(3, 4).unwrap();
    map.force_write_vertex(1, v(0.0, 0.0));
    map.force_write_vertex(2, v(1.0, 0.0));
    map.force_write_vertex(3, v(0.0, 0.0));
    map.force_write_vertex(4, v(1.0, 0.0));
    assert_eq!(map.force_sew::<2>(1, 3), Err(SewError::BadGeometry(2, 1, 3)));
    assert_eq!(map.beta::<2>(1), 0);
}
