use voronoi_mosaic::voronoi3d::Circumsphere;
use voronoi_mosaic::delaunay3d::{compute_dimension_bounds, compute_super_tetra_vertices, Delaunay3d};
use voronoi_mosaic::geometry3d::Point3d;

fn p(x: i64, y: i64, z: i64) -> Point3d {
    Point3d { x, y, z }
}

fn cube_with_centre() -> Vec<Point3d> {
    vec![
        p(-50, -50, -50),
        p(50, -50, -50),
        p(50, -50, 50),
        p(-50, -50, 50),
        p(-50, 50, -50),
        p(50, 50, -50),
        p(50, 50, 50),
        p(-50, 50, 50),
        p(0, 0, 0),
    ]
}

#[test]
fn delaunay_dimension_bounds_3d() {
    let points = vec![p(50, 45, 0), p(-23, -11, 64), p(32, -3, -12)];
    let (min_bounds, max_bounds) = compute_dimension_bounds(&points);
    assert_eq!(p(-24, -12, -13), min_bounds);
    assert_eq!(p(51, 46, 65), max_bounds);
}

#[test]
fn delaunay_delaunay_too_few_points_3d() {
    let points = vec![p(50, 45, 0), p(-23, -11, 64), p(32, -3, -12)];
    let result = Delaunay3d::compute_triangulation_3d(&points);
    assert!(result.is_none());
}

#[test]
fn super_tetra() {
    let (min, max) = compute_dimension_bounds(&cube_with_centre());
    let s = compute_super_tetra_vertices(&min, &max);
    // the bounds run from -51 to 51 on each axis: extent 102, middle 0
    let reach = 64 * 102;
    assert_eq!(p(0, reach, 0), s[0]);
    assert_eq!(p(0, -reach, 0), s[1]);
    assert_eq!(p(0, 0, reach), s[2]);
    assert_eq!(p(0, 0, -reach), s[3]);
    assert_eq!(p(-reach, 0, 0), s[4]);
    assert_eq!(p(reach, 0, 0), s[5]);
}

#[test]
fn delaunay() {
    let delaunay = Delaunay3d::compute_triangulation_3d(&cube_with_centre()).unwrap();
    assert_eq!(12, delaunay.get_tetrahedra().len());
    assert!(delaunay.get_problematic_points().is_empty());
    // every tetrahedron joins the centre to two corners of a cube face
    for t in delaunay.get_tetrahedra() {
        assert!(t.get_vertex_ids().contains(&8));
        for id in t.get_vertex_ids() {
            assert!(*id < 9);
        }
    }
}

#[test]
fn coplanar_points_give_none() {
    let points = vec![p(0, 0, 0), p(10, 0, 0), p(0, 10, 0), p(10, 10, 0), p(5, 3, 0)];
    assert!(Delaunay3d::compute_triangulation_3d(&points).is_none());
}

#[test]
fn single_tetrahedron() {
    let points = vec![p(0, 0, 0), p(10, 0, 0), p(0, 10, 0), p(0, 0, 10)];
    let d = Delaunay3d::compute_triangulation_3d(&points).unwrap();
    assert_eq!(1, d.get_tetrahedra().len());
    assert_eq!(points, *d.get_vertex_lookup());
}

#[test]
fn delaunay_property_cube() {
    let points = cube_with_centre();
    let d = Delaunay3d::compute_triangulation_3d(&points).unwrap();
    let lookup = d.get_vertex_lookup();
    for t in d.get_tetrahedra() {
        let ids = t.get_vertex_ids();
        let sphere =
            Circumsphere::new(lookup[ids[0]], lookup[ids[1]], lookup[ids[2]], lookup[ids[3]]).unwrap();
        for (i, q) in points.iter().enumerate() {
            if !ids.contains(&i) {
                assert!(!sphere.is_point_within_sphere(q));
            }
        }
    }
}
