use voronoi_mosaic::edge_node2d::EdgeNode2d;
use voronoi_mosaic::edge_node3d::EdgeNode3d;
use voronoi_mosaic::geometry::Point2d;
use voronoi_mosaic::geometry3d::Point3d;
use voronoi_mosaic::tetrahedron_node::TetrahedronNode;
use voronoi_mosaic::triangle_node2d::TriangleNode2d;
use voronoi_mosaic::triangle_node3d::TriangleNode3d;

#[test]
fn edge_node2d_equality() {
    let a = 1;
    let b = 2;

    let edge_i = EdgeNode2d::new(a, b);
    let edge_j = EdgeNode2d::new(b, a);

    assert!(edge_i == edge_j)
}

#[test]
fn edge_node2d_inequality() {
    assert!(EdgeNode2d::new(1, 2) != EdgeNode2d::new(1, 3));
    assert_eq!(1, EdgeNode2d::new(1, 2).get_vertex_a_id());
    assert_eq!(2, EdgeNode2d::new(1, 2).get_vertex_b_id());
}

#[test]
fn edge_node3d_equality() {
    assert!(EdgeNode3d::new(4, 9) == EdgeNode3d::new(9, 4));
    assert!(EdgeNode3d::new(4, 9) != EdgeNode3d::new(4, 8));
}

#[test]
fn triangle_node2d_equality() {
    let a = 1;
    let b = 2;
    let c = 3;

    let tri_i = TriangleNode2d::new(a, b, c);
    let tri_j = TriangleNode2d::new(b, c, a);
    let tri_k = TriangleNode2d::new(c, a, b);
    let tri_h = TriangleNode2d::new(a, c, b);
    let tri_l = TriangleNode2d::new(b, a, c);

    assert!(tri_i == tri_j && tri_j == tri_k && tri_k == tri_h && tri_h == tri_l && tri_l == tri_i)
}

#[test]
fn sorting_vertices() {
    let a = 0;
    let b = 1;
    let c = 2;
    let vertex_lookup = vec![
        Point2d { x: -5, y: 0 },
        Point2d { x: 0, y: 10 },
        Point2d { x: 5, y: 0 },
    ];
    let mut triangle = TriangleNode2d::new(a, b, c);
    triangle.sort_vertices_anti_clockwise(&vertex_lookup);
    assert_eq!([c, b, a], *triangle.get_vertex_ids());
}

#[test]
fn sorting_vertices_clockwise_input() {
    let vertex_lookup = vec![
        Point2d { x: 0, y: 0 },
        Point2d { x: 0, y: 6 },
        Point2d { x: 6, y: 0 },
    ];
    let mut triangle = TriangleNode2d::new(0, 1, 2);
    triangle.sort_vertices_anti_clockwise(&vertex_lookup);
    assert_eq!([2, 1, 0], *triangle.get_vertex_ids());
}

#[test]
fn tetrahedron_node_equality() {
    let a = 1;
    let b = 2;
    let c = 3;
    let d = 4;

    let tet_i = TetrahedronNode::new(a, b, c, d);
    let tet_j = TetrahedronNode::new(b, c, d, a);
    let tet_k = TetrahedronNode::new(c, d, a, b);
    let tet_h = TetrahedronNode::new(d, a, b, c);
    let tet_l = TetrahedronNode::new(a, c, b, d);

    assert!(tet_i == tet_j && tet_j == tet_k && tet_k == tet_h && tet_h == tet_l && tet_l == tet_i)
}

#[test]
fn tetrahedron_node_edges() {
    let a = 0;
    let b = 1;
    let c = 2;
    let d = 3;
    let tetra = TetrahedronNode::new(a, b, c, d);
    let edges = tetra.get_edges();

    assert_eq!([a, b], [edges[0].get_vertex_a_id(), edges[0].get_vertex_b_id()]);
    assert_eq!([a, c], [edges[1].get_vertex_a_id(), edges[1].get_vertex_b_id()]);
    assert_eq!([a, d], [edges[2].get_vertex_a_id(), edges[2].get_vertex_b_id()]);
    assert_eq!([b, c], [edges[3].get_vertex_a_id(), edges[3].get_vertex_b_id()]);
    assert_eq!([c, d], [edges[4].get_vertex_a_id(), edges[4].get_vertex_b_id()]);
    assert_eq!([d, b], [edges[5].get_vertex_a_id(), edges[5].get_vertex_b_id()]);
}

#[test]
fn tetrahedron_node_faces() {
    let tetra = TetrahedronNode::new(0, 1, 2, 3);
    let faces = tetra.get_triangle_node_3d_faces();
    assert_eq!([0, 1, 2], *faces[0].get_vertex_ids());
    assert_eq!([0, 2, 3], *faces[1].get_vertex_ids());
    assert_eq!([0, 3, 1], *faces[2].get_vertex_ids());
    assert_eq!([1, 2, 3], *faces[3].get_vertex_ids());
    assert_eq!(3, tetra.get_vertex_d_id());
}

#[test]
fn triangle_node3d_equality() {
    let a = 1;
    let b = 2;
    let c = 3;

    let tri_i = TriangleNode3d::new(a, b, c);
    let tri_j = TriangleNode3d::new(b, c, a);
    let tri_k = TriangleNode3d::new(c, a, b);
    let tri_h = TriangleNode3d::new(a, c, b);
    let tri_l = TriangleNode3d::new(b, a, c);

    assert!(tri_i == tri_j && tri_j == tri_k && tri_k == tri_h && tri_h == tri_l && tri_l == tri_i)
}

#[test]
fn triangle_node3d_mut_ids() {
    let mut tri = TriangleNode3d::new(1, 2, 3);
    tri.get_vertex_ids_mut()[0] = 7;
    assert_eq!([7, 2, 3], *tri.get_vertex_ids());
    let edges = tri.get_edges();
    assert!(edges[2] == EdgeNode3d::new(7, 3));
}

fn face_lookup(edge_a: Point3d, edge_b: Point3d) -> Vec<Point3d> {
    vec![
        Point3d { x: 0, y: 0, z: 0 },
        Point3d { x: -5, y: 12, z: 0 },
        Point3d { x: 5, y: 12, z: 0 },
        edge_a,
        edge_b,
    ]
}

#[test]
fn triangle_node3d_does_intersect_face() {
    let vertex_lookup = face_lookup(Point3d { x: 0, y: 6, z: -5 }, Point3d { x: 0, y: 6, z: 5 });
    let triangle = TriangleNode3d::new(0, 1, 2);
    let edge = EdgeNode3d::new(3, 4);
    assert!(triangle.does_edge_intersect_id(&edge, &vertex_lookup));
}

#[test]
fn triangle_node3d_does_not_intersect_face() {
    let vertex_lookup = face_lookup(Point3d { x: 0, y: 6, z: -5 }, Point3d { x: 0, y: 6, z: -3 });
    let triangle = TriangleNode3d::new(0, 1, 2);
    let edge = EdgeNode3d::new(3, 4);
    assert!(!triangle.does_edge_intersect_id(&edge, &vertex_lookup));
}

#[test]
fn triangle_node3d_touches_face_but_not_intercept() {
    let vertex_lookup = face_lookup(Point3d { x: 0, y: 6, z: -5 }, Point3d { x: 0, y: 6, z: 0 });
    let triangle = TriangleNode3d::new(0, 1, 2);
    let edge = EdgeNode3d::new(3, 4);
    assert!(!triangle.does_edge_intersect_id(&edge, &vertex_lookup));
}

#[test]
fn edge_misses_face_beside_it() {
    let vertex_lookup = face_lookup(Point3d { x: 20, y: 6, z: -5 }, Point3d { x: 20, y: 6, z: 5 });
    let triangle = TriangleNode3d::new(0, 1, 2);
    let edge = EdgeNode3d::new(3, 4);
    assert!(!triangle.does_edge_intersect_id(&edge, &vertex_lookup));
}

#[test]
fn edge_through_a_corner_counts() {
    let vertex_lookup = face_lookup(Point3d { x: 0, y: 0, z: -5 }, Point3d { x: 0, y: 0, z: 5 });
    let triangle = TriangleNode3d::new(0, 1, 2);
    let edge = EdgeNode3d::new(3, 4);
    assert!(triangle.does_edge_intersect_id(&edge, &vertex_lookup));
}

#[test]
fn triangle_compute_circumcircle() {
    let lookup = vec![Point2d { x: 5, y: 0 }, Point2d { x: 7, y: 3 }, Point2d { x: 2, y: 5 }];
    let circle = TriangleNode2d::new(0, 1, 2).compute_circumcircle(&lookup).unwrap();
    assert_eq!(Point2d { x: 4, y: 3 }, circle.get_centre());
    let flat = vec![Point2d { x: 0, y: 0 }, Point2d { x: 1, y: 1 }, Point2d { x: 3, y: 3 }];
    assert!(TriangleNode2d::new(0, 1, 2).compute_circumcircle(&flat).is_none());
}

#[test]
fn tetrahedron_compute_circumsphere() {
    let lookup = vec![
        Point3d { x: 10, y: 0, z: 0 },
        Point3d { x: 0, y: 0, z: 20 },
        Point3d { x: -10, y: 0, z: 0 },
        Point3d { x: 0, y: 12, z: 0 },
        Point3d { x: 0, y: 0, z: 0 },
    ];
    let sphere = TetrahedronNode::new(0, 1, 2, 3).compute_circumsphere(&lookup).unwrap();
    assert_eq!(Point3d { x: 0, y: 2, z: 8 }, sphere.get_centre());
    assert!(TetrahedronNode::new(0, 2, 4, 1).compute_circumsphere(&lookup).is_none());
}
