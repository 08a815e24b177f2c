use honeycomb_core::attributes::{AttributeUpdate, VertexAttribute};
use honeycomb_core::cmap2::structure::CMap2;
use honeycomb_core::ids::NULL_DART_ID;

#[derive(Debug, Clone, Copy, PartialEq)]
struct P(f64, f64);

impl AttributeUpdate for P {
    fn merge(a: Self, b: Self) -> Self {
        P((a.0 + b.0) / 2.0, (a.1 + b.1) / 2.0)
    }

    fn split(a: Self) -> (Self, Self) {
        (a, a)
    }
}

impl VertexAttribute for P {
    fn opposite_directions(ls: Self, le: Self, rs: Self, re: Self) -> bool {
        (le.0 - ls.0) * (re.0 - rs.0) + (le.1 - ls.1) * (re.1 - rs.1) < 0.0
    }
}

fn lerp(a: P, b: P, t: f64) -> P {
    P(a.0 + (b.0 - a.0) * t, a.1 + (b.1 - a.1) * t)
}

fn segment(x1: f64) -> CMap2<P> {
    let mut map: CMap2<P> = CMap2::new(2);
    map.force_link::<2>(1, 2).unwrap();
    map.force_write_vertex(1, P(0.0, 0.0));
    map.force_write_vertex(2, P(x1, 0.0));
    map
}

#[test]
fn split_edge_two_darts() {
    //    +----1---->              +-1-> +-3->
    //  1             2    =>    1      3      2
    //    <----2----+              <-4-- <-2-+
    let mut map = segment(2.0);
    let (a, b) = map.split_ends(1).unwrap();
    assert_eq!((a, b), (P(0.0, 0.0), P(2.0, 0.0)));
    map.split_edge(1, lerp(a, b, 0.2));
    assert_eq!(map.n_darts(), 5);
    assert_eq!(map.beta::<1>(1), 3);
    assert_eq!(map.beta::<0>(3), 1);
    assert_eq!(map.beta::<1>(2), 4);
    assert_eq!(map.beta::<0>(4), 2);
    assert_eq!(map.beta::<2>(1), 4);
    assert_eq!(map.beta::<2>(4), 1);
    assert_eq!(map.beta::<2>(2), 3);
    assert_eq!(map.beta::<2>(3), 2);
    assert_eq!(map.beta::<1>(3), NULL_DART_ID);
    assert_eq!(map.beta::<1>(4), NULL_DART_ID);
    assert_eq!(map.vertex_id(3), 3);
    assert_eq!(map.vertex_id(4), 3);
    assert_eq!(map.read_vertex(3), Some(P(0.4, 0.0)));
    assert_eq!(map.read_vertex(1), Some(P(0.0, 0.0)));
    assert_eq!(map.read_vertex(2), Some(P(2.0, 0.0)));
}

#[test]
fn split_edge_boundary_dart() {
    // a triangle 1 -> 2 -> 3, split the edge of dart 1
    let mut map: CMap2<P> = CMap2::new(3);
    map.force_link::<1>(1, 2).unwrap();
    map.force_link::<1>(2, 3).unwrap();
    map.force_link::<1>(3, 1).unwrap();
    map.force_write_vertex(1, P(0.0, 0.0));
    map.force_write_vertex(2, P(1.0, 0.0));
    map.force_write_vertex(3, P(0.0, 1.0));
    let (a, b) = map.split_ends(1).unwrap();
    map.split_edge(1, P::merge(a, b));
    assert_eq!(map.n_darts(), 5);
    assert_eq!(map.beta::<1>(1), 4);
    assert_eq!(map.beta::<1>(4), 2);
    assert_eq!(map.beta::<0>(2), 4);
    assert_eq!(map.beta::<0>(4), 1);
    assert_eq!(map.read_vertex(map.vertex_id(4)), Some(P(0.5, 0.0)));
}

#[test]
fn split_edge_without_vertices_only_adds_darts() {
    let mut map: CMap2<P> = CMap2::new(2);
    map.force_link::<2>(1, 2).unwrap();
    map.force_write_vertex(1, P(0.0, 0.0));
    assert!(map.split_ends(1).is_none());
    map.split_edge(1, P(9.0, 9.0));
    assert_eq!(map.n_darts(), 5);
    assert_eq!(map.beta::<2>(1), 2);
    assert!(map.is_free(3));
    assert!(map.is_free(4));
    assert_eq!(map.read_vertex(3), None);
}

#[test]
fn splitn_edge_three_points() {
    // before
    //    <--2---
    //  1         2
    //    ---1-->
    let mut map = segment(1.0);
    let (a, b) = map.split_ends(1).unwrap();
    let mids: Vec<P> = [0.25, 0.50, 0.75].iter().map(|t| lerp(a, b, *t)).collect();
    let new_darts = map.splitn_edge(1, &mids);
    // after
    //    <-<-<-<
    //  1 -3-4-5- 2
    //    >->->->
    assert_eq!(&new_darts, &[3, 4, 5]);
    assert_eq!(map.read_vertex(3), Some(P(0.25, 0.0)));
    assert_eq!(map.read_vertex(4), Some(P(0.50, 0.0)));
    assert_eq!(map.read_vertex(5), Some(P(0.75, 0.0)));

    assert_eq!(map.beta::<1>(1), 3);
    assert_eq!(map.beta::<1>(3), 4);
    assert_eq!(map.beta::<1>(4), 5);
    assert_eq!(map.beta::<1>(5), NULL_DART_ID);

    assert_eq!(map.beta::<1>(2), 6);
    assert_eq!(map.beta::<1>(6), 7);
    assert_eq!(map.beta::<1>(7), 8);
    assert_eq!(map.beta::<1>(8), NULL_DART_ID);

    assert_eq!(map.beta::<2>(1), 8);
    assert_eq!(map.beta::<2>(3), 7);
    assert_eq!(map.beta::<2>(4), 6);
    assert_eq!(map.beta::<2>(5), 2);
}

#[test]
fn splitn_edge_boundary_dart() {
    let mut map: CMap2<P> = CMap2::new(2);
    map.force_link::<1>(1, 2).unwrap();
    map.force_write_vertex(1, P(0.0, 0.0));
    map.force_write_vertex(2, P(3.0, 0.0));
    let (a, b) = map.split_ends(1).unwrap();
    let mids = vec![lerp(a, b, 1.0 / 3.0), lerp(a, b, 2.0 / 3.0)];
    let new_darts = map.splitn_edge(1, &mids);
    assert_eq!(new_darts, vec![3, 4]);
    assert_eq!(map.n_darts(), 5);
    assert_eq!(map.beta::<1>(1), 3);
    assert_eq!(map.beta::<1>(3), 4);
    assert_eq!(map.beta::<1>(4), 2);
    assert_eq!(map.beta::<0>(2), 4);
    assert_eq!(map.read_vertex(3), Some(mids[0]));
    assert_eq!(map.read_vertex(4), Some(mids[1]));
}

#[test]
fn split_edge_noalloc_checks_darts() {
    let mut map = segment(2.0);
    let first = map.allocate_used_darts(2);
    assert_eq!(first, 3);
    // dart 3 is not free once linked: the split is skipped
    map.force_link::<1>(3, 4).unwrap();
    map.split_edge_noalloc(1, (3, 4), P(1.0, 0.0));
    assert_eq!(map.beta::<2>(1), 2);
    assert_eq!(map.beta::<1>(1), NULL_DART_ID);
    map.force_unlink::<1>(3).unwrap();
    // the other side needs a non-null dart
    map.split_edge_noalloc(1, (3, NULL_DART_ID), P(1.0, 0.0));
    assert_eq!(map.beta::<2>(1), 2);
    // both darts usable
    map.split_edge_noalloc(1, (3, 4), P(1.0, 0.0));
    assert_eq!(map.beta::<1>(1), 3);
    assert_eq!(map.beta::<2>(1), 4);
    assert_eq!(map.beta::<2>(2), 3);
    assert_eq!(map.read_vertex(map.vertex_id(3)), Some(P(1.0, 0.0)));
}

#[test]
fn splitn_edge_no_alloc_checks_darts() {
    let mut map = segment(1.0);
    let first = map.allocate_used_darts(4);
    assert_eq!(first, 3);
    let mids = vec![P(0.25, 0.0), P(0.75, 0.0)];
    // wrong number of darts
    map.splitn_edge_no_alloc(1, &vec![3, 4, 5], &mids);
    assert_eq!(map.beta::<2>(1), 2);
    // null dart in the second half of a 2-linked edge
    map.splitn_edge_no_alloc(1, &vec![3, 4, 5, NULL_DART_ID], &mids);
    assert_eq!(map.beta::<2>(1), 2);
    // usable darts
    map.splitn_edge_no_alloc(1, &vec![3, 4, 5, 6], &mids);
    assert_eq!(map.beta::<1>(1), 3);
    assert_eq!(map.beta::<1>(3), 4);
    assert_eq!(map.beta::<1>(2), 5);
    assert_eq!(map.beta::<1>(5), 6);
    assert_eq!(map.beta::<2>(1), 6);
    assert_eq!(map.beta::<2>(3), 5);
    assert_eq!(map.beta::<2>(4), 2);
    assert_eq!(map.read_vertex(3), Some(P(0.25, 0.0)));
    assert_eq!(map.read_vertex(4), Some(P(0.75, 0.0)));
}

fn assert_consistent(map: &CMap2<P>) {
    for d in 1..map.n_darts() as u32 {
        let b1 = map.beta::<1>(d);
        if b1 != NULL_DART_ID {
            assert_eq!(map.beta::<0>(b1), d);
        }
        let b0 = map.beta::<0>(d);
        if b0 != NULL_DART_ID {
            assert_eq!(map.beta::<1>(b0), d);
        }
        let b2 = map.beta::<2>(d);
        if b2 != NULL_DART_ID {
            assert_eq!(map.beta::<2>(b2), d);
        }
    }
}

#[test]
fn splits_keep_the_map_consistent() {
    // two triangles sharing the edge of darts 2 and 4
    let mut map: CMap2<P> = CMap2::new(6);
    map.force_link::<1>(1, 2).unwrap();
    map.force_link::<1>(2, 3).unwrap();
    map.force_link::<1>(3, 1).unwrap();
    map.force_link::<1>(4, 5).unwrap();
    map.force_link::<1>(5, 6).unwrap();
    map.force_link::<1>(6, 4).unwrap();
    map.force_link::<2>(2, 4).unwrap();
    map.force_write_vertex(1, P(0.0, 0.0));
    map.force_write_vertex(2, P(1.0, 0.0));
    map.force_write_vertex(3, P(0.0, 1.0));
    map.force_write_vertex(6, P(1.0, 1.0));
    assert_consistent(&map);
    let (a, b) = map.split_ends(2).unwrap();
    map.split_edge(2, P::merge(a, b));
    assert_consistent(&map);
    assert_eq!(map.beta::<1>(2), 7);
    assert_eq!(map.beta::<1>(7), 3);
    assert_eq!(map.beta::<2>(2), 8);
    assert_eq!(map.beta::<2>(7), 4);
    assert_eq!(map.read_vertex(map.vertex_id(7)), Some(P(0.5, 0.5)));
    let (a, b) = map.split_ends(1).unwrap();
    let news = map.splitn_edge(1, &vec![lerp(a, b, 0.25), lerp(a, b, 0.75)]);
    assert_eq!(news, vec![9, 10]);
    assert_consistent(&map);
}
