use honeycomb_core::attributes::{AttributeError, AttributeUpdate, VertexAttribute};
use honeycomb_core::cmap3::structure::CMap3;
use honeycomb_core::error::{LinkError, SewError};
use honeycomb_core::ids::DartIdType;
use honeycomb_core::orbits::OrbitPolicy;

#[derive(Debug, Clone, Copy, PartialEq)]
struct Vertex3(f64, f64, f64);

impl AttributeUpdate for Vertex3 {
    fn merge(a: Self, b: Self) -> Self {
        Vertex3((a.0 + b.0) / 2.0, (a.1 + b.1) / 2.0, (a.2 + b.2) / 2.0)
    }

    fn split(a: Self) -> (Self, Self) {
        (a, a)
    }
}

impl VertexAttribute for Vertex3 {
    fn opposite_directions(ls: Self, le: Self, rs: Self, re: Self) -> bool {
        let l = (le.0 - ls.0, le.1 - ls.1, le.2 - ls.2);
        let r = (re.0 - rs.0, re.1 - rs.1, re.2 - rs.2);
        l.0 * r.0 + l.1 * r.1 + l.2 * r.2 < 0.0
    }
}

fn v3(x: f64, y: f64, z: f64) -> Vertex3 {
    Vertex3(x, y, z)
}

// --- tetrahedra

fn build_tet_map() -> CMap3<Vertex3> {
    let mut map: CMap3<Vertex3> = CMap3::new(12);
    // face z- (base)
    map.force_link::<1>(1, 2).unwrap();
    map.force_link::<1>(2, 3).unwrap();
    map.force_link::<1>(3, 1).unwrap();
    // face y-
    map.force_link::<1>(4, 5).unwrap();
    map.force_link::<1>(5, 6).unwrap();
    map.force_link::<1>(6, 4).unwrap();
    // face x-
    map.force_link::<1>(7, 8).unwrap();
    map.force_link::<1>(8, 9).unwrap();
    map.force_link::<1>(9, 7).unwrap();
    // face x+/y+
    map.force_link::<1>(10, 11).unwrap();
    map.force_link::<1>(11, 12).unwrap();
    map.force_link::<1>(12, 10).unwrap();
    // link triangles to get the tet
    map.force_link::<2>(1, 4).unwrap();
    map.force_link::<2>(2, 7).unwrap();
    map.force_link::<2>(3, 10).unwrap();
    map.force_link::<2>(5, 12).unwrap();
    map.force_link::<2>(6, 8).unwrap();
    map.force_link::<2>(9, 11).unwrap();

    assert_eq!(map.fetch_vertices(), vec![1, 2, 3, 6]);
    assert_eq!(map.orbit(OrbitPolicy::FaceLinear, 2), vec![2, 3, 1]);

    map.write_vertex(1, v3(1.0, 0.0, 0.0));
    map.write_vertex(2, v3(0.0, 0.0, 0.0));
    map.write_vertex(3, v3(0.0, 0.5, 0.0));
    map.write_vertex(6, v3(0.5, 0.25, 1.0));
    map
}

fn sew_tets_map() -> CMap3<Vertex3> {
    let mut map = build_tet_map();
    let _ = map.allocate_used_darts(12);
    // face z- (base)
    map.force_link::<1>(13, 14).unwrap();
    map.force_link::<1>(14, 15).unwrap();
    map.force_link::<1>(15, 13).unwrap();
    // face x-/y-
    map.force_link::<1>(16, 17).unwrap();
    map.force_link::<1>(17, 18).unwrap();
    map.force_link::<1>(18, 16).unwrap();
    // face y+
    map.force_link::<1>(19, 20).unwrap();
    map.force_link::<1>(20, 21).unwrap();
    map.force_link::<1>(21, 19).unwrap();
    // face x+
    map.force_link::<1>(22, 23).unwrap();
    map.force_link::<1>(23, 24).unwrap();
    map.force_link::<1>(24, 22).unwrap();
    // link triangles to get the tet
    map.force_link::<2>(13, 16).unwrap();
    map.force_link::<2>(14, 19).unwrap();
    map.force_link::<2>(15, 22).unwrap();
    map.force_link::<2>(17, 24).unwrap();
    map.force_link::<2>(18, 20).unwrap();
    map.force_link::<2>(21, 23).unwrap();

    map.write_vertex(13, v3(2.5, 1.5, 0.0));
    map.write_vertex(14, v3(1.5, 2.0, 0.0));
    map.write_vertex(15, v3(2.5, 2.0, 0.0));
    map.write_vertex(18, v3(1.5, 1.75, 1.0));

    assert_eq!(map.fetch_volumes(), vec![1, 13]);
    assert_eq!(map.fetch_faces(), vec![1, 4, 7, 10, 13, 16, 19, 22]);
    assert_eq!(map.fetch_edges(), vec![1, 2, 3, 5, 6, 9, 13, 14, 15, 17, 18, 21]);

    // sew both tetrahedra along a face
    assert_eq!(map.n_vertices(), 8);
    map.force_sew::<3>(10, 16).unwrap();
    assert_eq!(map.n_vertices(), 5);

    // a quad-base pyramid split in two volumes along the diagonal plane of its base
    assert_eq!(map.fetch_faces(), vec![1, 4, 7, 10, 13, 19, 22]);
    assert_eq!(map.fetch_edges().len(), 9);
    let darts = map.orbit(OrbitPolicy::Face, 10);
    for d in [10, 11, 12, 16, 17, 18] {
        assert!(darts.contains(&d));
    }
    map
}

#[test]
fn build_tet() {
    let map = build_tet_map();
    assert_eq!(map.read_vertex(6), Some(v3(0.5, 0.25, 1.0)));
}

#[test]
fn sew_tets() {
    let map = sew_tets_map();
    assert_eq!(map.beta::<3>(10), 16);
    assert_eq!(map.beta::<3>(16), 10);
}

#[test]
fn unsew_tets() {
    let mut map = sew_tets_map();
    // back to the state before the 3-sew
    map.force_unsew::<3>(10).unwrap();
    assert_eq!(map.n_vertices(), 8);

    assert_eq!(map.fetch_vertices(), vec![1, 2, 3, 6, 13, 14, 15, 18]);
    assert_eq!(map.orbit(OrbitPolicy::FaceLinear, 2), vec![2, 3, 1]);
    assert_eq!(map.fetch_volumes(), vec![1, 13]);
    assert_eq!(map.fetch_faces(), vec![1, 4, 7, 10, 13, 16, 19, 22]);
    assert_eq!(map.fetch_edges(), vec![1, 2, 3, 5, 6, 9, 13, 14, 15, 17, 18, 21]);

    let darts = map.orbit(OrbitPolicy::Face, 10);
    assert_eq!(darts.len(), 3);
    for d in [10, 11, 12] {
        assert!(darts.contains(&d));
    }
    let darts = map.orbit(OrbitPolicy::Face, 16);
    assert_eq!(darts.len(), 3);
    for d in [16, 17, 18] {
        assert!(darts.contains(&d));
    }
}

fn rebuild_edge(map: &mut CMap3<Vertex3>, dart: DartIdType) {
    let b3d = map.beta::<3>(dart);
    let ld = map.beta::<2>(dart);
    let rd = map.beta::<2>(b3d);

    map.force_unsew::<2>(dart).unwrap();
    map.force_unsew::<2>(b3d).unwrap();
    map.force_sew::<2>(ld, rd).unwrap();
}

#[test]
fn merge_tets_into_pyramid() {
    let mut map = sew_tets_map();

    // adjust shared vertices to make a symmetrical square-base pyramid
    assert_eq!(map.write_vertex(3, v3(0.0, 1.0, 0.0)), Some(v3(0.75, 1.25, 0.0)));
    assert_eq!(map.write_vertex(1, v3(1.0, 0.0, 0.0)), Some(v3(1.75, 0.75, 0.0)));
    assert_eq!(map.write_vertex(6, v3(0.5, 0.5, 1.0)), Some(v3(1.0, 1.0, 1.0)));
    assert_eq!(map.write_vertex(15, v3(1.0, 1.0, 0.0)), Some(v3(2.5, 2.0, 0.0)));

    // remove the split to have a single volume pyramid
    rebuild_edge(&mut map, 10);
    rebuild_edge(&mut map, 11);
    rebuild_edge(&mut map, 12);

    // delete old face components
    map.force_unlink::<1>(10).unwrap();
    map.force_unlink::<1>(11).unwrap();
    map.force_unlink::<1>(12).unwrap();
    map.force_unlink::<3>(10).unwrap();
    map.force_unlink::<3>(11).unwrap();
    map.force_unlink::<3>(12).unwrap();
    map.release_dart(10).unwrap();
    map.release_dart(11).unwrap();
    map.release_dart(12).unwrap();
    map.release_dart(16).unwrap();
    map.release_dart(17).unwrap();
    map.release_dart(18).unwrap();

    assert_eq!(map.fetch_volumes(), vec![1]);
    assert_eq!(map.fetch_faces(), vec![1, 4, 7, 13, 19, 22]);
}

// --- basic ops

#[test]
fn reserve_darts() {
    let mut map: CMap3<Vertex3> = CMap3::new(1);
    map.allocate_unused_darts(100);
    let s = map.reserve_darts(10).unwrap();
    assert!(s.len() == 10 && s[0] == 2 && s[9] == 11);
    assert!(map.reserve_darts(100).is_err());
    let s = map.reserve_darts_from(10, 40).unwrap();
    assert!(s.len() == 10 && s[0] == 40 && s[9] == 49);
}

#[test]
fn reserve_darts_from_wraps_around() {
    let mut map: CMap3<Vertex3> = CMap3::new(1);
    map.allocate_unused_darts(10); // darts 2..=11
    let s = map.reserve_darts_from(4, 10).unwrap();
    assert_eq!(s, vec![10, 11, 2, 3]);
    assert!(!map.is_unused(10) && !map.is_unused(2));
    assert!(map.is_unused(4));
    assert_eq!(map.reserve_darts_from(0, 1), Ok(vec![]));
}

#[test]
fn remove_vertex_twice() {
    let mut map: CMap3<Vertex3> = CMap3::new(4);
    assert!(map.write_vertex(1, v3(1.0, 1.0, 1.0)).is_none());
    assert_eq!(map.remove_vertex(1), Some(v3(1.0, 1.0, 1.0)));
    assert!(map.remove_vertex(1).is_none());
}

#[test]
fn remove_dart_twice() {
    // by default, darts are used and free
    let mut map: CMap3<Vertex3> = CMap3::new(4);
    assert!(!map.release_dart(1).unwrap());
    assert!(map.release_dart(1).unwrap());
}

#[test]
fn insert_and_remove_free_dart() {
    let mut map: CMap3<Vertex3> = CMap3::new(3);
    assert_eq!(map.insert_free_dart(), 4);
    map.remove_free_dart(2);
    assert!(map.is_unused(2));
    assert_eq!(map.insert_free_dart(), 2);
    assert!(!map.is_unused(2));
    assert_eq!(map.add_free_darts(2), 5);
    assert_eq!(map.n_darts(), 7);
}

// --- 1-sew

#[test]
fn topo_no_b3_image() {
    let mut map: CMap3<Vertex3> = CMap3::new(8);
    map.force_link::<1>(2, 3).unwrap();
    map.force_link::<1>(3, 4).unwrap();
    map.force_link::<1>(4, 1).unwrap();
    map.write_vertex(1, v3(0.0, 0.0, 0.0));
    map.write_vertex(2, v3(1.0, 0.0, 0.0));
    map.write_vertex(3, v3(1.0, 1.0, 0.0));
    map.write_vertex(4, v3(0.0, 1.0, 0.0));

    map.force_sew::<1>(1, 2).unwrap();

    assert_eq!(map.orbit(OrbitPolicy::FaceLinear, 3), vec![3, 4, 1, 2]);
    assert_eq!(map.beta::<1>(1), 2);
    assert_eq!(map.beta::<0>(2), 1);
}

#[test]
fn topo_b3_image() {
    let mut map: CMap3<Vertex3> = CMap3::new(8);
    map.force_link::<1>(2, 3).unwrap();
    map.force_link::<1>(3, 4).unwrap();
    map.force_link::<1>(4, 1).unwrap();
    map.write_vertex(1, v3(0.0, 0.0, 0.0));
    map.write_vertex(2, v3(1.0, 0.0, 0.0));
    map.write_vertex(3, v3(1.0, 1.0, 0.0));
    map.write_vertex(4, v3(0.0, 1.0, 0.0));

    map.force_link::<1>(5, 6).unwrap();
    map.force_link::<1>(6, 7).unwrap();
    map.force_link::<1>(7, 8).unwrap();
    map.write_vertex(5, v3(0.5, 0.0, 1.0));
    map.write_vertex(6, v3(0.0, 0.0, 1.0));
    map.write_vertex(7, v3(0.0, 1.0, 1.0));
    map.write_vertex(8, v3(1.0, 1.0, 1.0));

    map.force_sew::<3>(1, 5).unwrap();
    assert_eq!(map.beta::<3>(1), 5);
    assert_eq!(map.beta::<3>(2), 8);
    assert_eq!(map.beta::<3>(3), 7);
    assert_eq!(map.beta::<3>(4), 6);

    map.force_sew::<1>(1, 2).unwrap();

    assert_eq!(map.beta::<1>(1), 2);
    assert_eq!(map.beta::<1>(8), 5);
    assert_eq!(map.vertex_id(5), 2);
    assert_eq!(map.read_vertex(2), Some(v3(0.75, 0.0, 0.5)));
}

#[test]
fn topo_errs() {
    // 1-sew of a dart that is not 1-free
    {
        let mut map: CMap3<Vertex3> = CMap3::new(3);
        map.force_link::<1>(1, 2).unwrap();
        assert_eq!(map.force_sew::<1>(1, 3), Err(SewError::FailedLink(LinkError::NonFreeBase(1, 1, 3))));
    }
    // 1-sew to a dart that is not 0-free
    {
        let mut map: CMap3<Vertex3> = CMap3::new(3);
        map.force_link::<1>(2, 3).unwrap();
        assert_eq!(map.force_sew::<1>(1, 3), Err(SewError::FailedLink(LinkError::NonFreeImage(0, 1, 3))));
    }
    // 1-sew to a dart with incompatible b3 topology: the map is left as it was
    {
        let mut map: CMap3<Vertex3> = CMap3::new(5);
        map.force_link::<3>(1, 2).unwrap();
        map.force_link::<3>(3, 4).unwrap();
        map.force_link::<1>(4, 5).unwrap();
        map.write_vertex(2, v3(0.0, 0.0, 0.0));
        map.write_vertex(3, v3(0.0, 1.0, 0.0));
        assert_eq!(map.force_sew::<1>(1, 3), Err(SewError::FailedLink(LinkError::NonFreeBase(1, 4, 2))));
        assert_eq!(map.beta::<1>(1), 0);
        assert_eq!(map.beta::<0>(3), 0);
    }
}

#[test]
fn geom_no_orbit() {
    let mut map: CMap3<Vertex3> = CMap3::new(2);
    map.write_vertex(2, v3(0.0, 1.0, 0.0));
    map.sew::<1>(1, 2).unwrap();
    assert_eq!(map.vertex_id(1), 1);
    assert_eq!(map.read_vertex(1), None);
    assert_eq!(map.vertex_id(2), 2);
    assert_eq!(map.read_vertex(2), Some(v3(0.0, 1.0, 0.0)));
}

#[test]
fn geom_no_b2_image() {
    // new vid == rd == 2
    {
        let mut map: CMap3<Vertex3> = CMap3::new(3);
        map.force_link::<3>(1, 3).unwrap();
        map.write_vertex(2, v3(0.0, 1.0, 0.0));
        map.write_vertex(3, v3(0.0, 0.0, 0.0));
        map.sew::<1>(1, 2).unwrap();
        assert_eq!(map.vertex_id(1), 1);
        assert_eq!(map.read_vertex(1), None);
        assert_eq!(map.vertex_id(2), 2);
        assert_eq!(map.vertex_id(3), 2);
        assert_eq!(map.read_vertex(2), Some(v3(0.0, 0.5, 0.0)));
    }
    // new vid == b3ld == 2
    {
        let mut map: CMap3<Vertex3> = CMap3::new(3);
        map.force_link::<3>(1, 2).unwrap();
        map.write_vertex(2, v3(0.0, 0.0, 0.0));
        map.write_vertex(3, v3(0.0, 1.0, 0.0));
        map.sew::<1>(1, 3).unwrap();
        assert_eq!(map.vertex_id(1), 1);
        assert_eq!(map.read_vertex(1), None);
        assert_eq!(map.vertex_id(2), 2);
        assert_eq!(map.vertex_id(3), 2);
        assert_eq!(map.read_vertex(2), Some(v3(0.0, 0.5, 0.0)));
    }
}

#[test]
fn geom_no_b3_image() {
    // new vid == rd == 2
    {
        let mut map: CMap3<Vertex3> = CMap3::new(3);
        map.force_link::<2>(1, 3).unwrap();
        map.write_vertex(2, v3(0.0, 1.0, 0.0));
        map.write_vertex(3, v3(0.0, 0.0, 0.0));
        map.sew::<1>(1, 2).unwrap();
        assert_eq!(map.vertex_id(1), 1);
        assert_eq!(map.read_vertex(1), None);
        assert_eq!(map.vertex_id(2), 2);
        assert_eq!(map.vertex_id(3), 2);
        assert_eq!(map.read_vertex(2), Some(v3(0.0, 0.5, 0.0)));
    }
    // new vid == b2ld == 2
    {
        let mut map: CMap3<Vertex3> = CMap3::new(3);
        map.force_link::<2>(1, 2).unwrap();
        map.write_vertex(2, v3(0.0, 0.0, 0.0));
        map.write_vertex(3, v3(0.0, 1.0, 0.0));
        map.sew::<1>(1, 3).unwrap();
        assert_eq!(map.vertex_id(1), 1);
        assert_eq!(map.read_vertex(1), None);
        assert_eq!(map.vertex_id(2), 2);
        assert_eq!(map.vertex_id(3), 2);
        assert_eq!(map.read_vertex(2), Some(v3(0.0, 0.5, 0.0)));
    }
}

#[test]
fn geom_full_orbit() {
    // new vid == rd == 2
    {
        let mut map: CMap3<Vertex3> = CMap3::new(4);
        map.force_link::<2>(1, 3).unwrap();
        map.force_link::<3>(1, 4).unwrap();
        assert_eq!(map.vertex_id(3), 3);
        assert_eq!(map.vertex_id(4), 3);
        map.write_vertex(2, v3(0.0, 1.0, 0.0));
        map.write_vertex(3, v3(0.0, 0.0, 0.0));

        map.sew::<1>(1, 2).unwrap();

        assert_eq!(map.vertex_id(1), 1);
        assert_eq!(map.read_vertex(1), None);
        assert_eq!(map.vertex_id(2), 2);
        assert_eq!(map.vertex_id(3), 2);
        assert_eq!(map.vertex_id(4), 2);
        assert_eq!(map.read_vertex(2), Some(v3(0.0, 0.5, 0.0)));
    }
    // new vid == b2ld == 2
    {
        let mut map: CMap3<Vertex3> = CMap3::new(4);
        map.force_link::<2>(1, 2).unwrap();
        map.force_link::<3>(1, 3).unwrap();
        assert_eq!(map.vertex_id(2), 2);
        assert_eq!(map.vertex_id(3), 2);
        map.write_vertex(2, v3(0.0, 0.0, 0.0));
        map.write_vertex(4, v3(0.0, 1.0, 0.0));

        map.sew::<1>(1, 4).unwrap();

        assert_eq!(map.vertex_id(1), 1);
        assert_eq!(map.read_vertex(1), None);
        assert_eq!(map.vertex_id(2), 2);
        assert_eq!(map.vertex_id(3), 2);
        assert_eq!(map.vertex_id(4), 2);
        assert_eq!(map.read_vertex(2), Some(v3(0.0, 0.5, 0.0)));
    }
    // new vid == b3ld == 2
    {
        let mut map: CMap3<Vertex3> = CMap3::new(4);
        map.force_link::<2>(1, 4).unwrap();
        map.force_link::<3>(1, 2).unwrap();
        assert_eq!(map.vertex_id(2), 2);
        assert_eq!(map.vertex_id(4), 2);
        map.write_vertex(2, v3(0.0, 0.0, 0.0));
        map.write_vertex(3, v3(0.0, 1.0, 0.0));

        map.sew::<1>(1, 3).unwrap();

        assert_eq!(map.vertex_id(1), 1);
        assert_eq!(map.read_vertex(1), None);
        assert_eq!(map.vertex_id(2), 2);
        assert_eq!(map.vertex_id(3), 2);
        assert_eq!(map.vertex_id(4), 2);
        assert_eq!(map.read_vertex(2), Some(v3(0.0, 0.5, 0.0)));
    }
}

#[test]
fn geom_missing_data() {
    let mut map: CMap3<Vertex3> = CMap3::new(4);
    map.force_link::<2>(1, 3).unwrap();
    assert_eq!(
        map.sew::<1>(1, 2),
        Err(SewError::FailedAttributeOp(AttributeError::InsufficientData("merge")))
    );
    // the failed sew leaves the map as it was
    assert_eq!(map.beta::<1>(1), 0);
    assert_eq!(map.beta::<0>(2), 0);

    map.force_unlink::<2>(1).unwrap();
    map.force_link::<3>(1, 4).unwrap();
    assert_eq!(
        map.sew::<1>(1, 2),
        Err(SewError::FailedAttributeOp(AttributeError::InsufficientData("merge")))
    );

    map.force_link::<2>(1, 3).unwrap();
    assert_eq!(
        map.sew::<1>(1, 2),
        Err(SewError::FailedAttributeOp(AttributeError::InsufficientData("merge")))
    );
}

// --- 2-sew

fn facing_quads_map() -> CMap3<Vertex3> {
    // dart 5 runs along dart 1, the other way
    let mut map: CMap3<Vertex3> = CMap3::new(10);
    map.link::<1>(1, 2).unwrap();
    map.link::<1>(2, 3).unwrap();
    map.link::<1>(3, 4).unwrap();
    map.link::<1>(4, 1).unwrap();
    map.link::<1>(5, 6).unwrap();
    map.link::<1>(6, 7).unwrap();
    map.link::<1>(7, 8).unwrap();
    map.link::<1>(8, 5).unwrap();
    map.write_vertex(1, v3(0.0, 0.0, 0.0));
    map.write_vertex(2, v3(1.0, 0.0, 0.0));
    map.write_vertex(3, v3(1.0, 1.0, 0.0));
    map.write_vertex(4, v3(0.0, 1.0, 0.0));
    map.write_vertex(5, v3(1.0, 0.0, 0.0));
    map.write_vertex(6, v3(0.0, 0.0, 0.0));
    map.write_vertex(7, v3(0.0, -1.0, 0.0));
    map.write_vertex(8, v3(1.0, -1.0, 0.0));
    map
}

#[test]
fn tests_topo_no_b3_image() {
    let mut map = facing_quads_map();
    map.sew::<2>(1, 5).unwrap();
    assert_eq!(map.beta::<2>(1), 5);
    assert_eq!(map.beta::<2>(5), 1);
    assert_eq!(map.beta::<3>(1), 0);
    assert_eq!(map.beta::<3>(5), 0);
    assert_eq!(map.vertex_id(6), 1);
    assert_eq!(map.vertex_id(5), 2);
    assert_eq!(map.read_vertex(1), Some(v3(0.0, 0.0, 0.0)));
    assert_eq!(map.read_vertex(2), Some(v3(1.0, 0.0, 0.0)));
    assert_eq!(map.read_vertex(5), None);
    assert_eq!(map.read_vertex(6), None);
}

#[test]
fn tests_topo_b3_image() {}

#[test]
fn tests_topo_errs() {
    let mut map = facing_quads_map();
    map.sew::<2>(1, 5).unwrap();
    // darts 9 and 10 have no vertex value: no orientation check, the link decides
    assert_eq!(map.sew::<2>(1, 9), Err(SewError::FailedLink(LinkError::NonFreeBase(2, 1, 9))));
    assert_eq!(map.sew::<2>(9, 5), Err(SewError::FailedLink(LinkError::NonFreeImage(2, 9, 5))));
    assert_eq!(map.beta::<2>(9), 0);
}

#[test]
fn tests_geom_no_orbit() {
    // isolated darts: no vertex to merge at either end
    let mut map: CMap3<Vertex3> = CMap3::new(2);
    map.sew::<2>(1, 2).unwrap();
    assert_eq!(map.beta::<2>(1), 2);
    assert_eq!(map.beta::<2>(2), 1);
    assert_eq!(map.read_vertex(1), None);
}

#[test]
fn tests_geom_no_b3_image() {}

#[test]
fn geom_no_b1_image() {}

#[test]
fn tests_geom_full_orbit() {}

#[test]
fn tests_geom_missing_data() {
    // only the first quad has vertex values: they are kept
    let mut map = facing_quads_map();
    map.remove_vertex(5);
    map.remove_vertex(6);
    map.remove_vertex(7);
    map.remove_vertex(8);
    map.sew::<2>(1, 5).unwrap();
    assert_eq!(map.read_vertex(1), Some(v3(0.0, 0.0, 0.0)));
    assert_eq!(map.read_vertex(2), Some(v3(1.0, 0.0, 0.0)));
    assert_eq!(map.vertex_id(6), 1);
    assert_eq!(map.vertex_id(5), 2);
}

#[test]
fn geom_bad_orientation() {
    let mut map = two_quads_map();
    assert_eq!(map.force_sew::<2>(1, 5), Err(SewError::BadGeometry(2, 1, 5)));
    // the refused sew leaves the map as it was
    assert_eq!(map.beta::<2>(1), 0);
    assert_eq!(map.read_vertex(1), Some(v3(0.0, 0.0, 0.0)));
}

fn two_quads_map() -> CMap3<Vertex3> {
    let mut map: CMap3<Vertex3> = CMap3::new(8);
    map.link::<1>(1, 2).unwrap();
    map.link::<1>(2, 3).unwrap();
    map.link::<1>(3, 4).unwrap();
    map.link::<1>(4, 1).unwrap();
    map.link::<1>(5, 6).unwrap();
    map.link::<1>(6, 7).unwrap();
    map.link::<1>(7, 8).unwrap();
    map.link::<1>(8, 5).unwrap();
    map.write_vertex(1, v3(0.0, 0.0, 0.0));
    map.write_vertex(2, v3(1.0, 0.0, 0.0));
    map.write_vertex(3, v3(1.0, 1.0, 0.0));
    map.write_vertex(4, v3(0.0, 1.0, 0.0));
    map.write_vertex(5, v3(0.0, 0.0, 1.0));
    map.write_vertex(6, v3(1.0, 0.0, 1.0));
    map.write_vertex(7, v3(1.0, 1.0, 1.0));
    map.write_vertex(8, v3(0.0, 1.0, 1.0));
    map
}

#[test]
fn two_sew_merges_both_ends() {
    let mut map = two_quads_map();
    // 5 -> 6 runs opposite to 2 -> 1 once the second quad is reversed in x
    map.write_vertex(5, v3(1.0, 0.0, 1.0));
    map.write_vertex(6, v3(0.0, 0.0, 1.0));
    map.force_sew::<2>(1, 5).unwrap();
    assert_eq!(map.beta::<2>(1), 5);
    assert_eq!(map.beta::<2>(5), 1);
    // vertex of 1 merged with that of 6, vertex of 2 with that of 5
    assert_eq!(map.vertex_id(6), 1);
    assert_eq!(map.vertex_id(5), 2);
    assert_eq!(map.read_vertex(1), Some(v3(0.0, 0.0, 0.5)));
    assert_eq!(map.read_vertex(2), Some(v3(1.0, 0.0, 0.5)));
    // undo
    map.force_unsew::<2>(1).unwrap();
    assert_eq!(map.beta::<2>(1), 0);
    assert_eq!(map.beta::<2>(5), 0);
    assert_eq!(map.read_vertex(1), Some(v3(0.0, 0.0, 0.5)));
    assert_eq!(map.read_vertex(6), Some(v3(0.0, 0.0, 0.5)));
}

#[test]
fn two_link_errors() {
    let mut map: CMap3<Vertex3> = CMap3::new(3);
    map.force_link::<2>(1, 2).unwrap();
    assert_eq!(map.force_link::<2>(1, 3), Err(LinkError::NonFreeBase(2, 1, 3)));
    assert_eq!(map.force_link::<2>(3, 2), Err(LinkError::NonFreeImage(2, 3, 2)));
    assert_eq!(map.force_unlink::<2>(3), Err(LinkError::AlreadyFree(2, 3)));
    assert_eq!(map.force_unlink::<1>(3), Err(LinkError::AlreadyFree(1, 3)));
    assert_eq!(map.force_unlink::<3>(3), Err(LinkError::AlreadyFree(3, 3)));
}

// --- 3-sew

#[test]
fn topo_open_face_no_b2_image() {
    let mut map: CMap3<Vertex3> = CMap3::new(8);
    map.link::<1>(2, 3).unwrap();
    map.link::<1>(3, 4).unwrap();
    map.link::<1>(4, 1).unwrap();
    map.write_vertex(1, v3(0.0, 0.0, 0.0));
    map.write_vertex(2, v3(1.0, 0.0, 0.0));
    map.write_vertex(3, v3(1.0, 1.0, 0.0));
    map.write_vertex(4, v3(0.0, 1.0, 0.0));

    map.link::<1>(5, 6).unwrap();
    map.link::<1>(6, 7).unwrap();
    map.link::<1>(8, 5).unwrap();
    map.write_vertex(5, v3(0.0, 0.0, 1.0));
    map.write_vertex(6, v3(0.0, 1.0, 1.0));
    map.write_vertex(7, v3(1.0, 1.0, 1.0));
    map.write_vertex(8, v3(1.0, 0.0, 1.0));

    map.sew::<3>(1, 8).unwrap();

    assert_eq!(map.read_vertex(1), Some(v3(0.0, 0.0, 0.5)));
    assert_eq!(map.read_vertex(2), Some(v3(1.0, 0.0, 0.0)));
    assert_eq!(map.read_vertex(3), Some(v3(1.0, 1.0, 0.5)));
    assert_eq!(map.read_vertex(4), Some(v3(0.0, 1.0, 0.5)));
    assert_eq!(map.read_vertex(8), Some(v3(1.0, 0.0, 1.0)));
}

#[test]
fn topo_closed_face_no_b2_image() {
    let mut map: CMap3<Vertex3> = CMap3::new(8);
    map.link::<1>(1, 2).unwrap();
    map.link::<1>(2, 3).unwrap();
    map.link::<1>(3, 4).unwrap();
    map.link::<1>(4, 1).unwrap();
    map.write_vertex(1, v3(0.0, 0.0, 0.0));
    map.write_vertex(2, v3(1.0, 0.0, 0.0));
    map.write_vertex(3, v3(1.0, 1.0, 0.0));
    map.write_vertex(4, v3(0.0, 1.0, 0.0));

    map.link::<1>(5, 6).unwrap();
    map.link::<1>(6, 7).unwrap();
    map.link::<1>(7, 8).unwrap();
    map.link::<1>(8, 5).unwrap();
    map.write_vertex(5, v3(0.0, 0.0, 1.0));
    map.write_vertex(6, v3(0.0, 1.0, 1.0));
    map.write_vertex(7, v3(1.0, 1.0, 1.0));
    map.write_vertex(8, v3(1.0, 0.0, 1.0));

    map.sew::<3>(1, 8).unwrap();

    assert_eq!(map.read_vertex(1), Some(v3(0.0, 0.0, 0.5)));
    assert_eq!(map.read_vertex(2), Some(v3(1.0, 0.0, 0.5)));
    assert_eq!(map.read_vertex(3), Some(v3(1.0, 1.0, 0.5)));
    assert_eq!(map.read_vertex(4), Some(v3(0.0, 1.0, 0.5)));
}

#[test]
fn topo_b2_image() {}

#[test]
fn tests_geom_no_orbit_3() {
    // two single-dart faces without vertex values
    let mut map: CMap3<Vertex3> = CMap3::new(2);
    map.sew::<3>(1, 2).unwrap();
    assert_eq!(map.beta::<3>(1), 2);
    assert_eq!(map.beta::<3>(2), 1);
    assert_eq!(map.read_vertex(1), None);
    assert_eq!(map.read_vertex(2), None);
}

#[test]
fn geom_no_b2_image_3() {}

#[test]
fn tests_geom_no_b1_image() {}

#[test]
fn geom_full_orbit_3() {}

#[test]
fn geom_missing_data_3() {
    // only the first face has vertex values: they are kept
    let mut map: CMap3<Vertex3> = CMap3::new(8);
    map.link::<1>(1, 2).unwrap();
    map.link::<1>(2, 3).unwrap();
    map.link::<1>(3, 4).unwrap();
    map.link::<1>(4, 1).unwrap();
    map.link::<1>(5, 6).unwrap();
    map.link::<1>(6, 7).unwrap();
    map.link::<1>(7, 8).unwrap();
    map.link::<1>(8, 5).unwrap();
    map.write_vertex(1, v3(0.0, 0.0, 0.0));
    map.write_vertex(2, v3(1.0, 0.0, 0.0));
    map.write_vertex(3, v3(1.0, 1.0, 0.0));
    map.write_vertex(4, v3(0.0, 1.0, 0.0));
    map.sew::<3>(1, 8).unwrap();
    assert_eq!(map.beta::<3>(1), 8);
    assert_eq!(map.read_vertex(1), Some(v3(0.0, 0.0, 0.0)));
    assert_eq!(map.read_vertex(2), Some(v3(1.0, 0.0, 0.0)));
    assert_eq!(map.read_vertex(3), Some(v3(1.0, 1.0, 0.0)));
    assert_eq!(map.read_vertex(4), Some(v3(0.0, 1.0, 0.0)));
}

#[test]
fn tests_geom_bad_orientation() {
    let mut map = two_quads_map();
    assert_eq!(map.force_sew::<3>(1, 5), Err(SewError::BadGeometry(3, 1, 5)));
    assert_eq!(map.beta::<3>(1), 0);
}

#[test]
fn three_sew() {
    let mut map: CMap3<Vertex3> = CMap3::new(6);
    map.link::<1>(1, 2).unwrap();
    map.link::<1>(2, 3).unwrap();
    map.link::<1>(3, 1).unwrap();
    map.link::<1>(4, 5).unwrap();
    map.link::<1>(5, 6).unwrap();
    map.link::<1>(6, 4).unwrap();
    map.write_vertex(1, v3(0.0, 0.0, 0.0));
    map.write_vertex(2, v3(1.0, 0.0, 0.0));
    map.write_vertex(3, v3(0.0, 1.0, 0.0));
    map.write_vertex(4, v3(0.0, 0.0, 1.0));
    map.write_vertex(5, v3(0.0, 1.0, 1.0));
    map.write_vertex(6, v3(1.0, 0.0, 1.0));
    map.sew::<3>(1, 6).unwrap();
    assert_eq!(map.beta::<3>(1), 6);
    assert_eq!(map.beta::<3>(2), 5);
    assert_eq!(map.beta::<3>(3), 4);
    assert_eq!(map.beta::<3>(4), 3);
    assert_eq!(map.read_vertex(1), Some(v3(0.0, 0.0, 0.5)));
    assert_eq!(map.read_vertex(2), Some(v3(1.0, 0.0, 0.5)));
    assert_eq!(map.read_vertex(3), Some(v3(0.0, 1.0, 0.5)));
    map.unsew::<3>(1).unwrap();
    assert_eq!(map.beta::<3>(1), 0);
    assert_eq!(map.beta::<3>(3), 0);
}

#[test]
fn three_sew_asymmetrical_faces() {
    // a closed quad against an open triangle
    let mut map: CMap3<Vertex3> = CMap3::new(7);
    map.link::<1>(1, 2).unwrap();
    map.link::<1>(2, 3).unwrap();
    map.link::<1>(3, 4).unwrap();
    map.link::<1>(4, 1).unwrap();
    map.link::<1>(5, 6).unwrap();
    map.link::<1>(6, 7).unwrap();
    assert_eq!(map.force_sew::<3>(1, 5), Err(SewError::FailedLink(LinkError::AsymmetricalFaces(1, 5))));
    assert_eq!(map.force_link::<3>(1, 5), Err(LinkError::AsymmetricalFaces(1, 5)));
    // the failed link leaves no 3-link behind
    for d in 1..=7 {
        assert_eq!(map.beta::<3>(d), 0);
    }
}

#[test]
fn three_link_faces_of_different_sizes() {
    // a closed quad against a closed triangle: the triangle is met twice
    let mut map: CMap3<Vertex3> = CMap3::new(7);
    map.link::<1>(1, 2).unwrap();
    map.link::<1>(2, 3).unwrap();
    map.link::<1>(3, 4).unwrap();
    map.link::<1>(4, 1).unwrap();
    map.link::<1>(5, 6).unwrap();
    map.link::<1>(6, 7).unwrap();
    map.link::<1>(7, 5).unwrap();
    assert_eq!(map.force_sew::<3>(1, 5), Err(SewError::FailedLink(LinkError::NonFreeImage(3, 4, 5))));
    assert_eq!(map.force_link::<3>(1, 5), Err(LinkError::NonFreeImage(3, 4, 5)));
    for d in 1..=7 {
        assert_eq!(map.beta::<3>(d), 0);
    }
}

#[test]
fn three_link_then_unlink() {
    let mut map = two_quads_map();
    map.force_link::<3>(1, 5).unwrap();
    // faces are paired in reverse order
    assert_eq!(map.beta::<3>(1), 5);
    assert_eq!(map.beta::<3>(2), 8);
    assert_eq!(map.beta::<3>(3), 7);
    assert_eq!(map.beta::<3>(4), 6);
    assert_eq!(map.beta::<3>(6), 4);
    assert_eq!(map.force_link::<3>(2, 6), Err(LinkError::NonFreeBase(3, 2, 6)));
    map.force_unlink::<3>(3).unwrap();
    for d in 1..=8 {
        assert_eq!(map.beta::<3>(d), 0);
    }
}

#[test]
fn volume_and_cell_ids() {
    let map = build_tet_map();
    for d in 1..=12 {
        assert_eq!(map.volume_id(d), 1);
    }
    assert_eq!(map.face_id(11), 10);
    assert_eq!(map.edge_id(12), 5);
    assert_eq!(map.i_cell::<1>(5), vec![5, 12]);
    assert_eq!(map.i_cell::<3>(1).len(), 12);
    assert!(map.is_free(0));
    assert!(!map.is_free(1));
    assert!(map.is_i_free::<3>(1));
    assert_eq!(map.beta_runtime(1, 12), 10);
}

#[test]
fn set_betas_overwrites_images() {
    let mut map: CMap3<Vertex3> = CMap3::new(4);
    map.set_betas(1, [4, 2, 3, 0]);
    assert_eq!(map.beta::<0>(1), 4);
    assert_eq!(map.beta::<1>(1), 2);
    assert_eq!(map.beta::<2>(1), 3);
    assert_eq!(map.beta::<3>(1), 0);
    map.set_beta::<3>(1, 2);
    assert_eq!(map.beta::<3>(1), 2);
    assert_eq!(map.beta::<1>(2), 0);
}

fn assert_consistent_3(map: &CMap3<Vertex3>) {
    for d in 1..map.n_darts() as u32 {
        let b1 = map.beta::<1>(d);
        if b1 != 0 {
            assert_eq!(map.beta::<0>(b1), d);
        }
        let b0 = map.beta::<0>(d);
        if b0 != 0 {
            assert_eq!(map.beta::<1>(b0), d);
        }
        let b2 = map.beta::<2>(d);
        if b2 != 0 {
            assert_eq!(map.beta::<2>(b2), d);
        }
        let b3 = map.beta::<3>(d);
        if b3 != 0 {
            assert_eq!(map.beta::<3>(b3), d);
        }
    }
}

#[test]
fn links_and_sews_keep_the_map_consistent() {
    let mut map = facing_quads_map();
    assert_consistent_3(&map);
    map.sew::<2>(1, 5).unwrap();
    assert_consistent_3(&map);
    map.unsew::<2>(1).unwrap();
    assert_consistent_3(&map);
    map.force_link::<3>(9, 10).unwrap();
    assert_consistent_3(&map);
    map.force_unlink::<1>(1).unwrap();
    assert_consistent_3(&map);
}

fn all_images_3(map: &CMap3<Vertex3>) -> Vec<[DartIdType; 4]> {
    let mut imgs = Vec::new();
    for d in 0..map.n_darts() as u32 {
        imgs.push([map.beta::<0>(d), map.beta::<1>(d), map.beta::<2>(d), map.beta::<3>(d)]);
    }
    imgs
}

#[test]
fn sews_then_unsews_restore_images_3() {
    let mut map = facing_quads_map();
    let before = all_images_3(&map);
    map.sew::<2>(1, 5).unwrap();
    map.unsew::<2>(1).unwrap();
    assert_eq!(all_images_3(&map), before);

    let mut map: CMap3<Vertex3> = CMap3::new(4);
    map.write_vertex(1, v3(0.0, 0.0, 0.0));
    map.write_vertex(2, v3(1.0, 0.0, 0.0));
    let before = all_images_3(&map);
    map.sew::<1>(1, 2).unwrap();
    assert_eq!(map.beta::<1>(1), 2);
    map.unsew::<1>(1).unwrap();
    assert_eq!(all_images_3(&map), before);

    let mut map: CMap3<Vertex3> = CMap3::new(6);
    map.link::<1>(1, 2).unwrap();
    map.link::<1>(2, 3).unwrap();
    map.link::<1>(3, 1).unwrap();
    map.link::<1>(4, 5).unwrap();
    map.link::<1>(5, 6).unwrap();
    map.link::<1>(6, 4).unwrap();
    map.write_vertex(1, v3(0.0, 0.0, 0.0));
    map.write_vertex(2, v3(1.0, 0.0, 0.0));
    map.write_vertex(3, v3(0.0, 1.0, 0.0));
    map.write_vertex(4, v3(0.0, 0.0, 1.0));
    map.write_vertex(5, v3(0.0, 1.0, 1.0));
    map.write_vertex(6, v3(1.0, 0.0, 1.0));
    let before = all_images_3(&map);
    map.sew::<3>(1, 6).unwrap();
    assert_consistent_3(&map);
    map.unsew::<3>(1).unwrap();
    assert_consistent_3(&map);
    assert_eq!(all_images_3(&map), before);
}

#[test]
fn cell_ids_constant_on_orbits_3() {
    let map = sew_tets_map();
    for d in 1..=24u32 {
        let vid = map.vertex_id(d);
        for x in map.orbit(OrbitPolicy::Vertex, d) {
            assert_eq!(map.vertex_id(x), vid);
        }
        let vol = map.volume_id(d);
        for x in map.orbit(OrbitPolicy::Volume, d) {
            assert_eq!(map.volume_id(x), vol);
        }
        let fid = map.face_id(d);
        for x in map.orbit(OrbitPolicy::Face, d) {
            assert_eq!(map.face_id(x), fid);
        }
    }
}
