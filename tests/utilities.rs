use voronoi_mosaic::clipping::{
    is_point_within_edge_range_limt, is_vertex_left_of_edge, is_vertex_within_polygon,
    sort_vertices_2d,
};
use voronoi_mosaic::geometry::Point2d;

fn p(x: i64, y: i64) -> Point2d {
    Point2d { x, y }
}

#[test]
fn vertex_angular_order() {
    let mut vertices = vec![
        p(10, 20),
        p(10, 0),
        p(0, 10),
        p(20, 10),
    ];
    let point = p(10, 10);
    sort_vertices_2d(&mut vertices, &point);
    assert_eq!(
        vec![
            p(10, 0),
            p(20, 10),
            p(10, 20),
            p(0, 10)
        ],
        vertices
    );
}

#[test]
fn is_vertex_left_of_edge1() {
    let v = p(-5, 3);
    let edge = (p(2, -4), p(5, 9));
    let n = is_vertex_left_of_edge(&v, edge);
    assert!(n > 0);
}
#[test]
fn is_vertex_left_of_edge2() {
    let v = p(15, 3);
    let edge = (p(2, -4), p(5, 9));
    let n = is_vertex_left_of_edge(&v, edge);
    assert!(n < 0);
}
#[test]
fn is_vertex_left_of_edge3() {
    let v = p(2, -4);
    let edge = (p(2, -4), p(5, 9));
    let n = is_vertex_left_of_edge(&v, edge);
    assert!(n == 0);
}
#[test]
fn is_vertex_left_of_edge4() {
    let v = p(-5, 3);
    let edge = (p(5, 9), p(2, -4));
    let n = is_vertex_left_of_edge(&v, edge);
    assert!(n < 0);
}
#[test]
fn is_vertex_left_of_edge5() {
    let v = p(15, 3);
    let edge = (p(5, 9), p(2, -4));
    let n = is_vertex_left_of_edge(&v, edge);
    assert!(n > 0);
}
#[test]
fn is_vertex_left_of_edge6() {
    let v = p(2, -4);
    let edge = (p(5, 9), p(2, -4));
    let n = is_vertex_left_of_edge(&v, edge);
    assert!(n == 0);
}
#[test]
fn is_vertex_left_of_edge7() {
    let v = p(1, -4);
    let edge = (p(2, 2), p(2, 9));
    let n = is_vertex_left_of_edge(&v, edge);
    assert!(n > 0);
}
#[test]
fn is_vertex_left_of_edge8() {
    let v = p(5, -4);
    let edge = (p(2, 2), p(2, 9));
    let n = is_vertex_left_of_edge(&v, edge);
    assert!(n < 0);
}
#[test]
fn is_vertex_left_of_edge9() {
    let v = p(2, 5);
    let edge = (p(2, 2), p(2, 9));
    let n = is_vertex_left_of_edge(&v, edge);
    assert!(n == 0);
}
#[test]
fn is_vertex_left_of_edge10() {
    let v = p(3, 6);
    let edge = (p(2, 5), p(8, 5));
    let n = is_vertex_left_of_edge(&v, edge);
    assert!(n > 0);
}
#[test]
fn is_vertex_left_of_edge11() {
    let v = p(3, -6);
    let edge = (p(2, 5), p(8, 5));
    let n = is_vertex_left_of_edge(&v, edge);
    assert!(n < 0);
}
#[test]
fn is_vertex_left_of_edge12() {
    let v = p(3, 5);
    let edge = (p(2, 5), p(8, 5));
    let n = is_vertex_left_of_edge(&v, edge);
    assert!(n == 0);
}

#[test]
fn vertex_within_polygon1() {
    let polygon_edges = vec![
        (p(0, 0), p(10, 0)),
        (p(10, 0), p(10, 10)),
        (p(10, 10), p(0, 10)),
        (p(0, 10), p(0, 0)),
    ];
    let vertex = p(5, 5);
    assert!(is_vertex_within_polygon(&vertex, &polygon_edges));
}
#[test]
fn vertex_within_polygon2() {
    let polygon_edges = vec![
        (p(0, 0), p(10, 0)),
        (p(10, 0), p(10, 10)),
        (p(10, 10), p(0, 10)),
        (p(0, 10), p(0, 0)),
    ];
    let vertex = p(5, 11);
    assert!(!is_vertex_within_polygon(&vertex, &polygon_edges));
}
#[test]
fn vertex_within_polygon3() {
    let polygon_edges = vec![
        (p(0, 0), p(10, 0)),
        (p(10, 0), p(10, 10)),
        (p(10, 10), p(0, 10)),
        (p(0, 10), p(0, 0)),
    ];
    let vertex = p(5, -1);
    assert!(!is_vertex_within_polygon(&vertex, &polygon_edges));
}
#[test]
fn vertex_within_polygon4() {
    let polygon_edges = vec![
        (p(0, 0), p(10, 0)),
        (p(10, 0), p(10, 10)),
        (p(10, 10), p(0, 10)),
        (p(0, 10), p(0, 0)),
    ];
    let vertex = p(12, 5);
    assert!(!is_vertex_within_polygon(&vertex, &polygon_edges));
}
#[test]
fn vertex_within_polygon5() {
    let polygon_edges = vec![
        (p(0, 0), p(10, 0)),
        (p(10, 0), p(10, 10)),
        (p(10, 10), p(0, 10)),
        (p(0, 10), p(0, 0)),
    ];
    let vertex = p(-1, 5);
    assert!(!is_vertex_within_polygon(&vertex, &polygon_edges));
}
#[test]
fn vertex_within_polygon6() {
    let polygon_edges = vec![
        (p(2, -10), p(5, 3)),
        (p(5, 3), p(2, 10)),
        (p(2, 10), p(-5, 1)),
        (p(-5, 1), p(2, -10)),
    ];
    let vertex = p(-1, 1);
    assert!(is_vertex_within_polygon(&vertex, &polygon_edges));
}
#[test]
fn vertex_within_polygon7() {
    let polygon_edges = vec![
        (p(2, -10), p(5, 3)),
        (p(5, 3), p(2, 10)),
        (p(2, 10), p(-5, 1)),
        (p(-5, 1), p(2, -10)),
    ];
    let vertex = p(10, 1);
    assert!(!is_vertex_within_polygon(&vertex, &polygon_edges));
}
#[test]
fn vertex_within_polygon8() {
    let polygon_edges = vec![
        (p(2, -10), p(5, 3)),
        (p(5, 3), p(2, 10)),
        (p(2, 10), p(-5, 1)),
        (p(-5, 1), p(2, -10)),
    ];
    let vertex = p(-10, 1);
    assert!(!is_vertex_within_polygon(&vertex, &polygon_edges));
}
#[test]
fn vertex_within_polygon9() {
    let polygon_edges = vec![
        (p(2, -10), p(5, 3)),
        (p(5, 3), p(2, 10)),
        (p(2, 10), p(-5, 1)),
        (p(-5, 1), p(2, -10)),
    ];
    let vertex = p(-6, 1);
    assert!(!is_vertex_within_polygon(&vertex, &polygon_edges));
}
#[test]
fn vertex_within_polygon10() {
    let polygon_edges = vec![
        (p(2, -10), p(5, 3)),
        (p(5, 3), p(2, 10)),
        (p(2, 10), p(-5, 1)),
        (p(-5, 1), p(2, -10)),
    ];
    let vertex = p(2, 10);
    assert!(!is_vertex_within_polygon(&vertex, &polygon_edges));
}
#[test]
fn point_in_range() {
    let point = p(3, 5);
    let edge_start = p(1, 3);
    let edge_end = p(7, 9);
    assert!(is_point_within_edge_range_limt(&point, &edge_start, &edge_end));
}
#[test]
fn point_out_range() {
    let point = p(-4, 12);
    let edge_start = p(1, 3);
    let edge_end = p(7, 9);
    assert!(!is_point_within_edge_range_limt(&point, &edge_start, &edge_end));
}

