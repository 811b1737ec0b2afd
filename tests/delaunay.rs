use voronoi_mosaic::circumcircle::Circumcircle;
use voronoi_mosaic::delaunay::{compute_dimension_bounds, Delaunay2d};
use voronoi_mosaic::geometry::Point2d;

fn p(x: i64, y: i64) -> Point2d {
    Point2d { x, y }
}

#[test]
fn delaunay_dimension_bounds() {
    let points = vec![p(50, 45), p(-23, -11), p(32, -3)];
    let (min_bounds, max_bounds) = compute_dimension_bounds(&points);
    assert_eq!(p(-24, -12), min_bounds);
    assert_eq!(p(51, 46), max_bounds);
}

#[test]
fn dimension_bounds_of_the_points_alone() {
    let points = vec![p(5, 7), p(9, 3)];
    let (min_bounds, max_bounds) = compute_dimension_bounds(&points);
    assert_eq!(p(4, 2), min_bounds);
    assert_eq!(p(10, 8), max_bounds);
    let (min_bounds, max_bounds) = compute_dimension_bounds(&vec![p(5, 5), p(6, 6)]);
    assert_eq!(p(4, 4), min_bounds);
    assert_eq!(p(7, 7), max_bounds);
}

#[test]
fn delaunay_edge_count() {
    let points = vec![p(-50, 0), p(0, 50), p(50, 0)];
    let data = Delaunay2d::compute_triangulation_2d(&points).unwrap();
    assert_eq!(1, data.get_triangles().len());
    assert_eq!(3, data.get_triangles()[0].get_edges().len());
    assert_eq!(points, *data.get_vertex_lookup());
}

#[test]
fn delaunay_delaunay_too_few_points() {
    let points = vec![p(50, 0), p(-50, 0)];
    let result = Delaunay2d::compute_triangulation_2d(&points);
    assert!(result.is_none());
}

#[test]
fn triangulation_is_none() {
    let points = vec![p(0, 0); 3];
    assert!(Delaunay2d::compute_triangulation_2d(&points).is_none());
}

#[test]
fn collinear_points_give_none() {
    let points = vec![p(0, 0), p(10, 0), p(20, 0)];
    assert!(Delaunay2d::compute_triangulation_2d(&points).is_none());
}

#[test]
fn square_gives_two_triangles() {
    let points = vec![p(0, 0), p(10, 0), p(10, 10), p(0, 11)];
    let data = Delaunay2d::compute_triangulation_2d(&points).unwrap();
    assert_eq!(2, data.get_triangles().len());
    for t in data.get_triangles() {
        for id in t.get_vertex_ids() {
            assert!(*id < 4);
        }
    }
}

fn assert_delaunay(points: &Vec<Point2d>) {
    let data = Delaunay2d::compute_triangulation_2d(points).unwrap();
    let lookup = data.get_vertex_lookup();
    for t in data.get_triangles() {
        let ids = t.get_vertex_ids();
        if let Some(circle) = Circumcircle::new(lookup[ids[0]], lookup[ids[1]], lookup[ids[2]]) {
            for (i, q) in points.iter().enumerate() {
                if !ids.contains(&i) {
                    assert!(!circle.is_point_within_circle(q), "point {} inside {:?}", i, ids);
                }
            }
        }
    }
}

#[test]
fn delaunay_property_nine_points() {
    let points = vec![
        p(-190, 90),
        p(-145, 120),
        p(-120, -45),
        p(-60, -120),
        p(-20, 190),
        p(60, -10),
        p(80, -190),
        p(100, 140),
        p(190, -60),
    ];
    assert_delaunay(&points);
}

#[test]
fn delaunay_property_scattered_points() {
    // a fixed linear congruential sequence gives scattered distinct points
    let mut state: u64 = 12345;
    let mut points: Vec<Point2d> = Vec::new();
    while points.len() < 60 {
        state = state.wrapping_mul(6364136223846793005).wrapping_add(1442695040888963407);
        let x = ((state >> 33) % 1001) as i64 - 500;
        state = state.wrapping_mul(6364136223846793005).wrapping_add(1442695040888963407);
        let y = ((state >> 33) % 1001) as i64 - 500;
        if !points.contains(&p(x, y)) {
            points.push(p(x, y));
        }
    }
    assert_delaunay(&points);
}
