use voronoi_mosaic::circumcircle::Circumcircle;
use voronoi_mosaic::clipping::clip_vertices_to_boundary;
use voronoi_mosaic::delaunay::Delaunay2d;
use voronoi_mosaic::geometry::Point2d;
use voronoi_mosaic::mesh::{compute_uv_bounds, triangulate_mesh};
use voronoi_mosaic::voronoi::Voronoi2d;

fn p(x: i64, y: i64) -> Point2d {
    Point2d { x, y }
}

fn nine_points() -> Vec<Point2d> {
    vec![
        p(-190, 90),
        p(-145, 120),
        p(-120, -45),
        p(-60, -120),
        p(-20, 190),
        p(60, -10),
        p(80, -190),
        p(100, 140),
        p(190, -60),
    ]
}

#[test]
fn delaunay_into_voronoi_2d() {
    let points = nine_points();
    let delaunay = Delaunay2d::compute_triangulation_2d(&points).unwrap();
    let voronoi = Voronoi2d::from_delaunay_2d(&delaunay).unwrap();

    let expected_cell_count = 3;
    assert_eq!(expected_cell_count, voronoi.get_cells().len());
}

#[test]
fn mesh_count_unclipped() {
    let points = nine_points();
    let delaunay = Delaunay2d::compute_triangulation_2d(&points).unwrap();
    let voronoi = Voronoi2d::from_delaunay_2d(&delaunay).unwrap();

    let expected_mesh_count = 3;
    assert_eq!(expected_mesh_count, voronoi.as_bevy2d_meshes().len());
}

#[test]
fn mesh_count_clipped() {
    let points = vec![
        p(-380, -380),
        p(-355, -375),
        p(-350, -233),
        p(-241, -296),
        p(-169, -201),
        p(-124, -86),
        p(-53, -124),
        p(-94, -75),
        p(-22, -35),
        p(366, -24),
        p(340, -284),
        p(285, -165),
        p(236, -94),
        p(156, -156),
        p(120, -85),
        p(99, -33),
        p(72, -199),
        p(16, -350),
        p(352, 42),
        p(326, 107),
        p(256, 251),
        p(175, 365),
        p(142, 168),
        p(102, 72),
        p(84, 192),
        p(58, 247),
        p(19, 27),
        p(-385, 36),
        p(-321, 354),
        p(-276, 68),
        p(-244, 302),
        p(-153, 168),
        p(-122, 272),
        p(-84, 196),
        p(-63, 241),
        p(-24, 202),
        p(399, 399),
        p(-399, 399),
        p(-399, -399),
        p(399, -399),
        p(0, 399),
        p(-399, 0),
        p(0, -399),
        p(399, 0),
    ];
    let delaunay = Delaunay2d::compute_triangulation_2d(&points).unwrap();
    let voronoi = Voronoi2d::from_delaunay_2d(&delaunay).unwrap();
    let boundary = vec![p(200, 200), p(-200, 200), p(-200, -200), p(200, -200)];

    let expected_mesh_count = 18;
    assert_eq!(expected_mesh_count, voronoi.as_clipped_bevy2d_meshes(&boundary).len());
}

#[test]
fn cells_surround_their_sites() {
    let points = nine_points();
    let delaunay = Delaunay2d::compute_triangulation_2d(&points).unwrap();
    let voronoi = Voronoi2d::from_delaunay_2d(&delaunay).unwrap();
    let sites: Vec<usize> = voronoi.get_cells().iter().map(|c| *c.get_generating_point()).collect();
    assert_eq!(vec![1, 2, 5], sites);
    let lookup = voronoi.get_vertex_lookup();
    assert_eq!(8, lookup.len());
    assert_eq!(7, voronoi.get_cells()[2].get_vertex_ids().len());
}

#[test]
fn circumcircle_new_circumcircle() {
    let circle = Circumcircle::new(p(5, 0), p(7, 3), p(2, 5)).unwrap();
    // the centre is (153/38, 107/38), about (4.026, 2.816)
    assert_eq!(153 * circle.denom, 38 * circle.x_num);
    assert_eq!(107 * circle.denom, 38 * circle.y_num);
    assert_eq!(p(4, 3), circle.get_centre());
    // the squared radius is 12818/1444, about 8.877
    assert_eq!(
        12818 * circle.denom * circle.denom,
        1444 * circle.get_radius_squared()
    );
}

#[test]
fn new_circumcircle_is_none() {
    assert!(Circumcircle::new(p(0, 2), p(0, 2), p(2, 3)).is_none());
    assert!(Circumcircle::new(p(0, 0), p(1, 1), p(2, 2)).is_none());
}

#[test]
fn circumcircle_point_is_within_circumcircle() {
    let circle = Circumcircle::new(p(5, 0), p(7, 3), p(2, 5)).unwrap();
    assert!(circle.is_point_within_circle(&p(5, 3)));
}

#[test]
fn circumcircle_point_is_not_within_circumcircle() {
    let circle = Circumcircle::new(p(5, 0), p(7, 3), p(2, 5)).unwrap();
    assert!(!circle.is_point_within_circle(&p(10, 3)));
    // a corner lies on the circle, not strictly inside
    assert!(!circle.is_point_within_circle(&p(7, 3)));
}

#[test]
fn clip_all_inside_is_unchanged() {
    let boundary = vec![p(200, 200), p(-200, 200), p(-200, -200), p(200, -200)];
    let cell = vec![p(10, -5), p(20, 10), p(0, 20), p(-10, 0)];
    assert_eq!(Some(cell.clone()), clip_vertices_to_boundary(cell, &boundary));
}

#[test]
fn clip_all_outside_is_dropped() {
    let boundary = vec![p(10, 10), p(-10, 10), p(-10, -10), p(10, -10)];
    let cell = vec![p(20, 20), p(30, 20), p(30, 30)];
    assert_eq!(None, clip_vertices_to_boundary(cell, &boundary));
}

#[test]
fn clip_straddling_cell() {
    let boundary = vec![p(10, 10), p(-10, 10), p(-10, -10), p(10, -10)];
    // a square from (0, 0) to (20, 20): a quarter of it lies inside
    let cell = vec![p(0, 0), p(20, 0), p(20, 20), p(0, 20)];
    let clipped = clip_vertices_to_boundary(cell, &boundary).unwrap();
    assert_eq!(4, clipped.len());
    assert!(clipped.contains(&p(10, 10)));
    assert!(clipped.contains(&p(10, 0)));
    assert!(clipped.contains(&p(0, 10)));
    assert!(clipped.contains(&p(0, 0)));
    // counter-clockwise about the centroid (5, 5), from the downward direction
    assert_eq!(vec![p(10, 0), p(10, 10), p(0, 10), p(0, 0)], clipped);
}

#[test]
fn mesh_of_square() {
    let square = vec![p(-5, -5), p(5, -5), p(5, 5), p(-5, 5)];
    let mesh = triangulate_mesh(&square, p(100, 200)).unwrap();
    assert_eq!(square, mesh.positions);
    assert_eq!(6, mesh.indices.len());
    assert_eq!(p(100, 200), mesh.origin);
    assert!(mesh.indices.iter().all(|i| *i < 4));
}

#[test]
fn mesh_of_two_points_is_none() {
    assert!(triangulate_mesh(&vec![p(0, 0), p(1, 1)], p(0, 0)).is_none());
}

#[test]
fn mesh_uvs() {
    let vertices = vec![p(-5, -5), p(5, -5), p(5, 5), p(-5, 5)];
    let (min, max) = compute_uv_bounds(&vertices);
    assert_eq!(p(-5, -5), min);
    assert_eq!(p(5, 5), max);
}

#[test]
fn uv_bounds_are_the_vertices_own_box() {
    let (min, max) = compute_uv_bounds(&vec![p(1, 2), p(7, 3), p(4, 9)]);
    assert_eq!(p(1, 2), min);
    assert_eq!(p(7, 9), max);
}

#[test]
fn clipped_polygon_has_no_repeated_point() {
    let boundary = vec![p(10, 10), p(-10, 10), p(-10, -10), p(10, -10)];
    // the cell's corner (10, 10) lies on a boundary corner and a crossing
    let cell = vec![p(0, 0), p(20, 0), p(20, 20), p(0, 20)];
    let clipped = clip_vertices_to_boundary(cell, &boundary).unwrap();
    for (i, a) in clipped.iter().enumerate() {
        for b in clipped.iter().skip(i + 1) {
            assert_ne!(a, b);
        }
    }
}

#[test]
fn clipping_a_cell_inside_keeps_its_mesh() {
    let points = nine_points();
    let delaunay = Delaunay2d::compute_triangulation_2d(&points).unwrap();
    let voronoi = Voronoi2d::from_delaunay_2d(&delaunay).unwrap();
    let wide = vec![p(1000, 1000), p(-1000, 1000), p(-1000, -1000), p(1000, -1000)];
    let clipped = voronoi.as_clipped_bevy2d_meshes(&wide);
    let unclipped = voronoi.as_bevy2d_meshes();
    assert_eq!(unclipped.len(), clipped.len());
    for ((i, a), (j, b)) in unclipped.iter().zip(clipped.iter()) {
        assert_eq!(i, j);
        assert_eq!(a.positions, b.positions);
        assert_eq!(a.indices, b.indices);
        assert_eq!(a.origin, b.origin);
    }
}
