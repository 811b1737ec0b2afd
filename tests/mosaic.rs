use voronoi_mosaic::geometry::Point2d;
use voronoi_mosaic::geometry3d::Point3d;
use voronoi_mosaic::mosaic::{Mosaic2d, Mosaic3d};
use voronoi_mosaic::voronoi3d::{Circumsphere, Voronoi3d};
use voronoi_mosaic::delaunay3d::Delaunay3d;

fn pt(x: i64, y: i64, z: i64) -> Point3d {
    Point3d { x, y, z }
}

fn cube_with_centre() -> Vec<Point3d> {
    vec![
        pt(-50, -50, -50),
        pt(50, -50, -50),
        pt(50, -50, 50),
        pt(-50, -50, 50),
        pt(-50, 50, -50),
        pt(50, 50, -50),
        pt(50, 50, 50),
        pt(-50, 50, 50),
        pt(0, 0, 0),
    ]
}

#[test]
fn circumsphere_new_circumsphere() {
    let sphere = Circumsphere::new(pt(10, 0, 0), pt(0, 0, 20), pt(-10, 0, 0), pt(0, 12, 0)).unwrap();
    // the centre is (0, 11/6, 15/2): (10, 0, 0) plus (-10, 11/6, 15/2)
    assert_eq!(pt(0, 2, 8), sphere.get_centre());
    assert!(sphere.denom > 0);
    assert_eq!(-10 * sphere.denom, sphere.x_num);
    assert_eq!(11 * sphere.denom, 6 * sphere.y_num);
    assert_eq!(15 * sphere.denom, 2 * sphere.z_num);
}

#[test]
fn point_is_within_circumsphere() {
    let sphere = Circumsphere::new(pt(10, 0, 0), pt(0, 0, 20), pt(-10, 0, 0), pt(0, 12, 0)).unwrap();
    assert!(sphere.is_point_within_sphere(&pt(0, 5, 5)));
}

#[test]
fn point_is_not_within_circumsphere() {
    let sphere = Circumsphere::new(pt(10, 0, 0), pt(0, 0, 20), pt(-10, 0, 0), pt(0, 12, 0)).unwrap();
    assert!(!sphere.is_point_within_sphere(&pt(10, 20, 15)));
    assert!(!sphere.is_point_within_sphere(&pt(10, 0, 0)));
}

#[test]
fn sphere_is_none() {
    assert!(Circumsphere::new(pt(0, 0, 0), pt(1, 0, 0), pt(0, 1, 0), pt(1, 1, 0)).is_none());
}

#[test]
fn voronoi_3d_of_cube() {
    let d = Delaunay3d::compute_triangulation_3d(&cube_with_centre()).unwrap();
    let v = Voronoi3d::from_delaunay_3d(&d).unwrap();
    assert_eq!(12, v.get_vertex_lookup().len());
    // seven corners and the centre are met by four or more tetrahedra
    let sites: Vec<usize> = v.get_cells().iter().map(|c| *c.get_generating_point()).collect();
    assert_eq!(vec![0, 1, 2, 3, 4, 5, 6, 8], sites);
    // every tetrahedron has the centre as a corner
    let cell = &v.get_cells()[7];
    assert_eq!(12, cell.get_vertex_ids().len());
    // each tetrahedron shares a face with three others about the centre
    assert_eq!(18, cell.get_edges().len());
    // each circumcentre lies 75 out from the centre along an axis, two
    // along each direction, so their centroid is the cube's centre
    assert_eq!(pt(0, 0, 0), cell.get_centre_position(v.get_vertex_lookup()));
    for centre in v.get_vertex_lookup() {
        let coords = [centre.x.abs(), centre.y.abs(), centre.z.abs()];
        assert_eq!(1, coords.iter().filter(|c| **c == 75).count());
        assert_eq!(2, coords.iter().filter(|c| **c == 0).count());
    }
}

#[test]
fn mosaic_2d_has_both() {
    let points = vec![
        Point2d { x: -190, y: 90 },
        Point2d { x: -145, y: 120 },
        Point2d { x: -120, y: -45 },
        Point2d { x: -60, y: -120 },
        Point2d { x: -20, y: 190 },
        Point2d { x: 60, y: -10 },
        Point2d { x: 80, y: -190 },
        Point2d { x: 100, y: 140 },
        Point2d { x: 190, y: -60 },
    ];
    let mosaic = Mosaic2d::new(&points);
    assert_eq!(8, mosaic.get_delaunay().unwrap().get_triangles().len());
    assert_eq!(3, mosaic.get_voronoi().unwrap().get_cells().len());
}

#[test]
fn mosaic_2d_too_few_points() {
    let mosaic = Mosaic2d::new(&vec![Point2d { x: 0, y: 0 }, Point2d { x: 5, y: 5 }]);
    assert!(mosaic.get_delaunay().is_none());
    assert!(mosaic.get_voronoi().is_none());
}

#[test]
fn mosaic_3d_has_both() {
    let mosaic = Mosaic3d::new(&cube_with_centre());
    assert_eq!(12, mosaic.get_delaunay().unwrap().get_tetrahedra().len());
    assert_eq!(8, mosaic.get_voronoi().unwrap().get_cells().len());
}

#[test]
fn mosaic_3d_too_few_points() {
    let mosaic = Mosaic3d::new(&vec![pt(0, 0, 0), pt(1, 0, 0), pt(0, 1, 0)]);
    assert!(mosaic.get_delaunay().is_none());
    assert!(mosaic.get_voronoi().is_none());
}
