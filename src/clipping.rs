//! Point-in-polygon tests by winding number, and the clipping of a Voronoi
//! cell to a boundary polygon.

use vstd::prelude::*;
use crate::geometry::lemma_mul_bound;
use vstd::multiset::Multiset;
use crate::circumcircle::{round_div, round_quotient, lemma_round_div_bound};
use crate::geometry::{Point2d, within, angle_before, is_angle_before, lemma_angle_before_asymmetric, DIR_LIMIT};

verus! {

/// Largest magnitude of a coordinate that clipping takes.
pub const CLIP_LIMIT: i64 = 1099511627776;

/// An edge of a polygon, from its first point to its second.
pub type Edge = (Point2d, Point2d);

/// Whether every point of `s` lies within the clipping limit.
pub open spec fn pts_in_limit(s: Seq<Point2d>) -> bool {
    forall|k: int| 0 <= k < s.len() ==> within(#[trigger] s[k], CLIP_LIMIT as int)
}

/// Whether both ends of every edge of `s` lie within the clipping limit.
pub open spec fn edges_in_limit(s: Seq<Edge>) -> bool {
    forall|k: int|
        0 <= k < s.len() ==> within((#[trigger] s[k]).0, CLIP_LIMIT as int) && within(
            s[k].1,
            CLIP_LIMIT as int,
        )
}

/// Positive when `v` lies left of the line through `edge`, seen along it;
/// zero on the line; negative on the right.
pub open spec fn side_of(v: Point2d, edge: Edge) -> int {
    (edge.1.x - edge.0.x) * (v.y - edge.0.y) - (v.x - edge.0.x) * (edge.1.y - edge.0.y)
}

/// What `edge` adds to the winding number of `v`: one when it crosses the
/// level of `v` upwards with `v` on its left, minus one when it crosses
/// downwards with `v` on its right.
pub open spec fn winding_step(v: Point2d, edge: Edge) -> int {
    if edge.0.y <= v.y {
        if edge.1.y > v.y && side_of(v, edge) > 0 {
            1
        } else {
            0
        }
    } else {
        if edge.1.y <= v.y && side_of(v, edge) < 0 {
            -1
        } else {
            0
        }
    }
}

/// The winding number of the edges `s` about `v`.
pub open spec fn winding(v: Point2d, s: Seq<Edge>) -> int
    decreases s.len(),
{
    if s.len() == 0 {
        0
    } else {
        winding(v, s.drop_last()) + winding_step(v, s.last())
    }
}

/// Whether `v` lies inside the polygon with edges `s`.
pub open spec fn inside(v: Point2d, s: Seq<Edge>) -> bool {
    winding(v, s) != 0
}

/// The edges of the closed ring through the points of `s`, the last one
/// running back to the first point.
pub open spec fn ring_edges(s: Seq<Point2d>) -> Seq<Edge> {
    Seq::new(s.len(), |i: int| (s[i], s[(i + 1) % (s.len() as int)]))
}

fn cross_of(ax: i128, ay: i128, bx: i128, by: i128) -> (r: i128)
    requires
        -2199023255552 <= ax <= 2199023255552,
        -2199023255552 <= ay <= 2199023255552,
        -2199023255552 <= bx <= 2199023255552,
        -2199023255552 <= by <= 2199023255552,
    ensures
        r == ax * by - ay * bx,
        -9671406556917033397649408 <= r <= 9671406556917033397649408,
{
    proof {
        lemma_mul_bound(ax as int, by as int, 2199023255552, 2199023255552);
        lemma_mul_bound(ay as int, bx as int, 2199023255552, 2199023255552);
    }
    ax * by - ay * bx
}

/// Which side of the line through `edge` the point `vertex` lies on:
/// positive on the left, seen along the edge, zero on it, negative on the
/// right.
pub fn is_vertex_left_of_edge(vertex: &Point2d, edge: (Point2d, Point2d)) -> (r: i128)
    requires
        within(*vertex, CLIP_LIMIT as int),
        within(edge.0, CLIP_LIMIT as int),
        within(edge.1, CLIP_LIMIT as int),
    ensures
        r == side_of(*vertex, edge),
{
    cross_of(
        edge.1.x as i128 - edge.0.x as i128,
        edge.1.y as i128 - edge.0.y as i128,
        vertex.x as i128 - edge.0.x as i128,
        vertex.y as i128 - edge.0.y as i128,
    )
}

/// Whether `vertex` lies inside the polygon with edges `polygon_edges`, by
/// winding number: inside exactly when the number is not zero. The polygon
/// runs counter-clockwise.
pub fn is_vertex_within_polygon(vertex: &Point2d, polygon_edges: &Vec<(Point2d, Point2d)>) -> (r: bool)
    requires
        within(*vertex, CLIP_LIMIT as int),
        edges_in_limit(polygon_edges@),
    ensures
        r == inside(*vertex, polygon_edges@),
{
    let mut winding_number: i128 = 0;
    let mut k: usize = 0;
    while k < polygon_edges.len()
        invariant
            k <= polygon_edges@.len(),
            within(*vertex, CLIP_LIMIT as int),
            edges_in_limit(polygon_edges@),
            winding_number == winding(*vertex, polygon_edges@.subrange(0, k as int)),
            -k <= winding_number <= k,
        decreases polygon_edges@.len() - k,
    {
        assert(polygon_edges@.subrange(0, k + 1).drop_last() =~= polygon_edges@.subrange(0, k as int));
        let edge = polygon_edges[k];
        assert(within(polygon_edges@[k as int].0, CLIP_LIMIT as int));
        if edge.0.y <= vertex.y {
            if edge.1.y > vertex.y && is_vertex_left_of_edge(vertex, edge) > 0 {
                winding_number = winding_number + 1;
            }
        } else {
            if edge.1.y <= vertex.y && is_vertex_left_of_edge(vertex, edge) < 0 {
                winding_number = winding_number - 1;
            }
        }
        k = k + 1;
    }
    assert(polygon_edges@.subrange(0, k as int) =~= polygon_edges@);
    winding_number != 0
}

/// Whether `point` lies within the box spanned by `edge_start` and
/// `edge_end`, borders included.
pub fn is_point_within_edge_range_limt(point: &Point2d, edge_start: &Point2d, edge_end: &Point2d) -> (r: bool)
    ensures
        r == (((edge_start.x <= point.x <= edge_end.x) || (edge_end.x <= point.x <= edge_start.x))
            && ((edge_start.y <= point.y <= edge_end.y) || (edge_end.y <= point.y
            <= edge_start.y))),
{
    ((point.x >= edge_start.x && point.x <= edge_end.x) || (point.x >= edge_end.x && point.x
        <= edge_start.x)) && ((point.y >= edge_start.y && point.y <= edge_end.y) || (point.y
        >= edge_end.y && point.y <= edge_start.y))
}

/// The edges of the closed ring through `points`.
pub fn ring_of(points: &Vec<Point2d>) -> (r: Vec<(Point2d, Point2d)>)
    ensures
        r@ == ring_edges(points@),
{
    let n = points.len();
    let mut edges: Vec<(Point2d, Point2d)> = Vec::new();
    let mut i: usize = 0;
    while i < n
        invariant
            i <= n,
            n == points@.len(),
            edges@.len() == i,
            forall|k: int| 0 <= k < i ==> #[trigger] edges@[k] == ring_edges(points@)[k],
        decreases n - i,
    {
        let next = if i + 1 < n {
            i + 1
        } else {
            0
        };
        proof {
            if i + 1 < n {
                vstd::arithmetic::div_mod::lemma_small_mod((i + 1) as nat, n as nat);
            } else {
                vstd::arithmetic::div_mod::lemma_mod_self_0(n as int);
            }
        }
        assert(next as int == (i + 1) % (n as int));
        edges.push((points[i], points[next]));
        i = i + 1;
    }
    assert(edges@ =~= ring_edges(points@));
    edges
}

/// Whether no point appears twice in `s`.
pub open spec fn no_dup(s: Seq<Point2d>) -> bool {
    forall|i: int, j: int| #![trigger s[i], s[j]] 0 <= i < j < s.len() ==> s[i] != s[j]
}

/// The sums of the `x` and of the `y` coordinates of the points of `s`.
pub open spec fn point_sums(s: Seq<Point2d>) -> (int, int)
    decreases s.len(),
{
    if s.len() == 0 {
        (0, 0)
    } else {
        (point_sums(s.drop_last()).0 + s.last().x, point_sums(s.drop_last()).1 + s.last().y)
    }
}

/// The centroid of the points of `s`, rounded to the integer grid.
pub open spec fn mean_point(s: Seq<Point2d>) -> Point2d {
    Point2d {
        x: round_div(point_sums(s).0, s.len() as int) as i64,
        y: round_div(point_sums(s).1, s.len() as int) as i64,
    }
}

/// `p` seen from `c`.
pub open spec fn seen_from(p: Point2d, c: Point2d) -> Point2d {
    Point2d { x: (p.x - c.x) as i64, y: (p.y - c.y) as i64 }
}

/// Whether the points of `s` run by angle about `c`, measured from the
/// `+y` axis within `[-pi, pi)`.
pub open spec fn sorted_around(s: Seq<Point2d>, c: Point2d) -> bool {
    forall|k: int|
        0 <= k && k + 1 < s.len() ==> !angle_before(
            seen_from(#[trigger] s[k + 1], c),
            seen_from(s[k], c),
        )
}

proof fn lemma_sums_remove(s: Seq<Point2d>, k: int)
    requires
        0 <= k < s.len(),
    ensures
        point_sums(s) == (point_sums(s.remove(k)).0 + s[k].x, point_sums(s.remove(k)).1 + s[k].y),
    decreases s.len(),
{
    if k == s.len() - 1 {
        assert(s.remove(k) =~= s.drop_last());
    } else {
        lemma_sums_remove(s.drop_last(), k);
        assert(s.remove(k).drop_last() =~= s.drop_last().remove(k));
        assert(s.remove(k).last() == s.last());
    }
}

/// Reordering points keeps the sums of their coordinates.
proof fn lemma_sums_permutation(s1: Seq<Point2d>, s2: Seq<Point2d>)
    requires
        s1.to_multiset() == s2.to_multiset(),
    ensures
        point_sums(s1) == point_sums(s2),
    decreases s1.len(),
{
    broadcast use vstd::seq_lib::group_to_multiset_ensures;
    broadcast use vstd::multiset::group_multiset_axioms;

    if s1.len() == 0 {
        vstd::seq_lib::to_multiset_len(s1);
        vstd::seq_lib::to_multiset_len(s2);
        assert(s2.len() == 0);
        assert(s1 =~= s2);
    } else {
        let x = s1.last();
        let rest = s1.drop_last();
        assert(s1 =~= rest.push(x));
        assert(s1.to_multiset() =~= rest.to_multiset().insert(x));
        assert(s1.contains(x)) by {
            assert(s1[s1.len() - 1] == x);
        }
        assert(s2.to_multiset().count(x) > 0);
        assert(s2.contains(x));
        let k = choose|k: int| 0 <= k < s2.len() && s2[k] == x;
        let s2r = s2.remove(k);
        vstd::seq_lib::to_multiset_remove(s2, k);
        assert(s2r.to_multiset() =~= s2.to_multiset().remove(x));
        assert(rest.to_multiset() =~= s1.to_multiset().remove(x));
        lemma_sums_permutation(rest, s2r);
        lemma_sums_remove(s2, k);
    }
}

/// Reorders `vertices` by the angle of each about `point`, measured from
/// the `+y` axis within `[-pi, pi)`: counter-clockwise, starting from the
/// downward direction.
pub fn sort_vertices_2d(vertices: &mut Vec<Point2d>, point: &Point2d)
    requires
        pts_in_limit(old(vertices)@),
        within(*point, CLIP_LIMIT as int),
    ensures
        final(vertices)@.to_multiset() == old(vertices)@.to_multiset(),
        sorted_around(final(vertices)@, *point),
        pts_in_limit(final(vertices)@),
        no_dup(old(vertices)@) ==> no_dup(final(vertices)@),
{
    broadcast use vstd::seq_lib::to_multiset_update;
    let n = vertices.len();
    if n == 0 {
        return;
    }
    let mut i: usize = 1;
    while i < n
        invariant
            1 <= i <= n,
            n == vertices@.len(),
            within(*point, CLIP_LIMIT as int),
            vertices@.to_multiset() == old(vertices)@.to_multiset(),
            pts_in_limit(vertices@),
            no_dup(old(vertices)@) ==> no_dup(vertices@),
            forall|k: int|
                0 <= k && k + 1 < i ==> !angle_before(
                    seen_from(#[trigger] vertices@[k + 1], *point),
                    seen_from(vertices@[k], *point),
                ),
        decreases n - i,
    {
        let mut j: usize = i;
        while j > 0 && is_angle_before(direction(vertices[j], *point), direction(vertices[j - 1], *point))
            invariant
                0 <= j <= i < n,
                n == vertices@.len(),
                within(*point, CLIP_LIMIT as int),
                vertices@.to_multiset() == old(vertices)@.to_multiset(),
                pts_in_limit(vertices@),
                no_dup(old(vertices)@) ==> no_dup(vertices@),
                forall|k: int|
                    0 <= k < i && k != j - 1 && k != j ==> !angle_before(
                        seen_from(#[trigger] vertices@[k + 1], *point),
                        seen_from(vertices@[k], *point),
                    ),
                0 < j < i ==> !angle_before(
                    seen_from(vertices@[j + 1], *point),
                    seen_from(vertices@[j - 1], *point),
                ),
                j < i ==> angle_before(
                    seen_from(vertices@[j as int], *point),
                    seen_from(vertices@[j + 1], *point),
                ),
            decreases j,
        {
            let x = vertices[j];
            let y = vertices[j - 1];
            let ghost s0 = vertices@;
            proof {
                if j >= 2 {
                    assert(!angle_before(
                        seen_from(s0[(j - 2) + 1], *point),
                        seen_from(s0[j - 2], *point),
                    ));
                }
            }
            vertices.set(j, y);
            vertices.set(j - 1, x);
            proof {
                let s1 = s0.update(j as int, y);
                assert(vertices@ == s1.update(j - 1, x));
                assert(s1[j - 1] == y);
                let m0 = s0.to_multiset();
                vstd::seq_lib::to_multiset_update(s0, j as int, y);
                vstd::seq_lib::to_multiset_update(s1, j - 1, x);
                assert(m0.count(x) > 0) by {
                    vstd::seq_lib::to_multiset_contains(s0, x);
                    assert(s0[j as int] == x);
                    assert(s0.contains(x));
                }
                assert(m0.insert(y).remove(x).insert(x).remove(y) =~= m0);
                let swapped = |k: int| if k == j - 1 { j as int } else if k == j { j - 1 } else { k };
                assert forall|k: int| 0 <= k < vertices@.len() implies #[trigger] vertices@[k] == s0[swapped(k)] by {}
                if no_dup(old(vertices)@) {
                    assert forall|a: int, b: int| #![trigger vertices@[a], vertices@[b]] 0 <= a < b < vertices@.len() implies vertices@[a] != vertices@[b] by {
                        assert(vertices@[a] == s0[swapped(a)]);
                        assert(vertices@[b] == s0[swapped(b)]);
                        if swapped(a) < swapped(b) {
                            assert(s0[swapped(a)] != s0[swapped(b)]);
                        } else {
                            assert(s0[swapped(b)] != s0[swapped(a)]);
                        }
                    }
                }
                assert forall|k: int| 0 <= k < vertices@.len() implies within(
                    #[trigger] vertices@[k],
                    CLIP_LIMIT as int,
                ) by {
                    if k == j - 1 {
                        assert(vertices@[k] == s0[j as int]);
                    } else if k == j {
                        assert(vertices@[k] == s0[j - 1]);
                    } else {
                        assert(vertices@[k] == s0[k]);
                    }
                }
            }
            j = j - 1;
        }
        proof {
            if j < i {
                lemma_angle_before_asymmetric(
                    seen_from(vertices@[j as int], *point),
                    seen_from(vertices@[j + 1], *point),
                );
            }
        }
        i = i + 1;
    }
}

fn direction(p: Point2d, c: Point2d) -> (r: Point2d)
    requires
        within(p, CLIP_LIMIT as int),
        within(c, CLIP_LIMIT as int),
    ensures
        r == seen_from(p, c),
        within(r, DIR_LIMIT as int),
{
    Point2d { x: p.x - c.x, y: p.y - c.y }
}

/// Where the segment from `p` to `q` meets the line through `r` and `s`,
/// rounded to the integer grid; `None` when the two are parallel or the
/// meeting point lies off the segment. With `t` the fraction of the way
/// from `p` to `q`, the point is `p + t (q - p)`.
pub open spec fn crossing(p: Point2d, q: Point2d, r: Point2d, s: Point2d) -> Option<Point2d> {
    let d = (q.x - p.x) * (s.y - r.y) - (q.y - p.y) * (s.x - r.x);
    let t = (r.x - p.x) * (s.y - r.y) - (r.y - p.y) * (s.x - r.x);
    let dd = if d > 0 {
        d
    } else {
        -d
    };
    let tt = if d > 0 {
        t
    } else {
        -t
    };
    if d == 0 || tt < 0 || tt > dd {
        None
    } else {
        Some(
            Point2d {
                x: (p.x + round_div(tt * (q.x - p.x), dd)) as i64,
                y: (p.y + round_div(tt * (q.y - p.y), dd)) as i64,
            },
        )
    }
}

/// `n / d` rounded, for `n` between zero and `d * delta`: the result lies
/// between zero and `delta`.
fn scaled_step(n: i128, d: i128, delta: i128) -> (r: i128)
    requires
        0 < d <= 9671406556917033397649408,
        -2199023255552 <= delta <= 2199023255552,
        delta >= 0 ==> 0 <= n <= d * delta,
        delta < 0 ==> d * delta <= n <= 0,
    ensures
        r == round_div(n as int, d as int),
        delta >= 0 ==> 0 <= r <= delta,
        delta < 0 ==> delta <= r <= 0,
{
    proof {
        lemma_mul_bound(d as int, delta as int, 9671406556917033397649408, 2199023255552);
    }
    if n >= 0 {
        let q = (2 * n + d) / (2 * d);
        proof {
            if delta >= 0 {
                assert(0 <= q <= delta) by (nonlinear_arith)
                    requires
                        q == (2 * n + d) / (2 * d),
                        d >= 1,
                        0 <= n <= d * delta,
                ;
            } else {
                assert(q == 0) by (nonlinear_arith)
                    requires
                        q == (2 * n + d) / (2 * d),
                        d >= 1,
                        n == 0,
                ;
            }
        }
        q
    } else {
        let q = (-2 * n + d) / (2 * d);
        proof {
            assert(0 <= q <= -delta) by (nonlinear_arith)
                requires
                    q == (-2 * n + d) / (2 * d),
                    d >= 1,
                    d * delta <= n < 0,
            ;
        }
        -q
    }
}

/// Where the segment from `p` to `q` meets the line through `r` and `s`.
fn intersect(p: Point2d, q: Point2d, r: Point2d, s: Point2d) -> (res: Option<Point2d>)
    requires
        within(p, CLIP_LIMIT as int),
        within(q, CLIP_LIMIT as int),
        within(r, CLIP_LIMIT as int),
        within(s, CLIP_LIMIT as int),
    ensures
        res == crossing(p, q, r, s),
        res matches Some(x) ==> within(x, CLIP_LIMIT as int),
{
    let qpx = q.x as i128 - p.x as i128;
    let qpy = q.y as i128 - p.y as i128;
    let srx = s.x as i128 - r.x as i128;
    let sry = s.y as i128 - r.y as i128;
    let d = cross_of(qpx, qpy, srx, sry);
    let t = cross_of(r.x as i128 - p.x as i128, r.y as i128 - p.y as i128, srx, sry);
    if d == 0 {
        return None;
    }
    let dd = if d > 0 {
        d
    } else {
        -d
    };
    let tt = if d > 0 {
        t
    } else {
        -t
    };
    if tt < 0 || tt > dd {
        return None;
    }
    proof {
        lemma_mul_bound(tt as int, qpx as int, 9671406556917033397649408, 2199023255552);
        lemma_mul_bound(tt as int, qpy as int, 9671406556917033397649408, 2199023255552);
        assert(qpx >= 0 ==> 0 <= tt * qpx <= dd * qpx) by (nonlinear_arith)
            requires 0 <= tt <= dd;
        assert(qpx < 0 ==> dd * qpx <= tt * qpx <= 0) by (nonlinear_arith)
            requires 0 <= tt <= dd;
        assert(qpy >= 0 ==> 0 <= tt * qpy <= dd * qpy) by (nonlinear_arith)
            requires 0 <= tt <= dd;
        assert(qpy < 0 ==> dd * qpy <= tt * qpy <= 0) by (nonlinear_arith)
            requires 0 <= tt <= dd;
    }
    let sx = scaled_step(tt * qpx, dd, qpx);
    let sy = scaled_step(tt * qpy, dd, qpy);
    Some(Point2d { x: (p.x as i128 + sx) as i64, y: (p.y as i128 + sy) as i64 })
}

/// Adds `x` to `v` unless it is there already.
fn push_unique(v: &mut Vec<Point2d>, x: Point2d)
    requires
        pts_in_limit(old(v)@),
        within(x, CLIP_LIMIT as int),
    ensures
        forall|y: Point2d| final(v)@.contains(y) <==> (old(v)@.contains(y) || y == x),
        pts_in_limit(final(v)@),
        no_dup(old(v)@) ==> no_dup(final(v)@),
{
    let mut k: usize = 0;
    while k < v.len()
        invariant
            k <= v@.len(),
            v@ == old(v)@,
            pts_in_limit(v@),
            forall|m: int| 0 <= m < k ==> v@[m] != x,
        decreases v@.len() - k,
    {
        if v[k] == x {
            assert(v@[k as int] == x);
            return;
        }
        k = k + 1;
    }
    let ghost v0 = v@;
    v.push(x);
    proof {
        if no_dup(v0) {
            assert forall|a: int, b: int| #![trigger v@[a], v@[b]] 0 <= a < b < v@.len() implies v@[a] != v@[b] by {
                assert(v@[a] == v0[a]);
                if b < v0.len() {
                    assert(v@[b] == v0[b]);
                } else {
                    assert(v0.contains(v@[a]));
                }
            }
        }
    }
    assert forall|y: Point2d| v@.contains(y) <==> (v0.contains(y) || y == x) by {
        if v@.contains(y) {
            let m = choose|m: int| 0 <= m < v@.len() && v@[m] == y;
            if m < v0.len() {
                assert(v0[m] == y);
            }
        }
        if v0.contains(y) {
            let m = choose|m: int| 0 <= m < v0.len() && v0[m] == y;
            assert(v@[m] == y);
        }
        if y == x {
            assert(v@[v0.len() as int] == y);
        }
    }
    assert forall|m: int| 0 <= m < v@.len() implies within(#[trigger] v@[m], CLIP_LIMIT as int) by {
        if m < v0.len() {
            assert(v@[m] == v0[m]);
        }
    }
}

/// The `i`-th edge of the walk round `cell` that clipping follows: from
/// each vertex to the next, the last one joining the first vertex to the
/// last.
pub open spec fn walk_edge(cell: Seq<Point2d>, i: int) -> Edge {
    if i < cell.len() - 1 {
        (cell[i], cell[i + 1])
    } else {
        (cell[0], cell[i])
    }
}

/// Whether the `i`-th walk edge of `cell` has one end inside the polygon
/// `b` and the other outside, and meets the line of the `j`-th edge of `b`
/// at `x`.
pub open spec fn cut_at(cell: Seq<Point2d>, b: Seq<Edge>, i: int, j: int, x: Point2d) -> bool {
    let e = walk_edge(cell, i);
    &&& inside(e.0, b) != inside(e.1, b)
    &&& crossing(e.0, e.1, b[j].0, b[j].1) == Some(x)
}

/// Whether `x` belongs to `cell` clipped to `boundary`: a boundary vertex
/// inside the cell, a point where a cell edge leaves the boundary, or a
/// cell vertex inside the boundary.
pub open spec fn in_clipped(x: Point2d, cell: Seq<Point2d>, boundary: Seq<Point2d>) -> bool {
    let b = ring_edges(boundary);
    ||| boundary.contains(x) && inside(x, ring_edges(cell))
    ||| exists|i: int, j: int|
        0 <= i < cell.len() && 0 <= j < b.len() && #[trigger] cut_at(cell, b, i, j, x)
    ||| cell.contains(x) && inside(x, b)
}

/// Clips the cell with vertices `cell_vertices` to the polygon `boundary`,
/// whose vertices run counter-clockwise. A cell with no vertex inside the
/// boundary is dropped; one with every vertex inside is returned as it is.
/// Otherwise the result holds the boundary vertices inside the cell, the
/// points where cell edges cross the boundary lines, and the cell vertices
/// inside the boundary, each once, in order of angle about their centroid.
pub fn clip_vertices_to_boundary(cell_vertices: Vec<Point2d>, boundary: &Vec<Point2d>) -> (r: Option<Vec<Point2d>>)
    requires
        pts_in_limit(cell_vertices@),
        pts_in_limit(boundary@),
    ensures
        (forall|k: int|
            0 <= k < cell_vertices@.len() ==> !inside(
                #[trigger] cell_vertices@[k],
                ring_edges(boundary@),
            )) ==> r is None,
        (exists|k: int|
            0 <= k < cell_vertices@.len() && inside(
                #[trigger] cell_vertices@[k],
                ring_edges(boundary@),
            )) ==> r is Some,
        (forall|k: int|
            0 <= k < cell_vertices@.len() ==> inside(
                #[trigger] cell_vertices@[k],
                ring_edges(boundary@),
            )) && cell_vertices@.len() > 0 ==> r == Some(cell_vertices),
        r matches Some(v) ==> pts_in_limit(v@),
        (exists|k: int|
            0 <= k < cell_vertices@.len() && !inside(
                #[trigger] cell_vertices@[k],
                ring_edges(boundary@),
            )) ==> (r matches Some(v) ==> {
            &&& forall|x: Point2d| v@.contains(x) <==> in_clipped(x, cell_vertices@, boundary@)
            &&& v@.len() > 0 ==> sorted_around(v@, mean_point(v@))
            &&& no_dup(v@)
        }),
{
    let bounding_edges = ring_of(boundary);
    assert(edges_in_limit(bounding_edges@)) by {
        assert forall|k: int| 0 <= k < bounding_edges@.len() implies within(
            (#[trigger] bounding_edges@[k]).0,
            CLIP_LIMIT as int,
        ) && within(bounding_edges@[k].1, CLIP_LIMIT as int) by {
            assert(within(boundary@[k], CLIP_LIMIT as int));
            let nb = boundary@.len() as int;
            assert(0 <= (k + 1) % nb < nb) by (nonlinear_arith)
                requires nb > 0;
            assert(within(boundary@[(k + 1) % nb], CLIP_LIMIT as int));
        }
    }
    let ghost b = bounding_edges@;
    let n = cell_vertices.len();
    let mut inside_flags: Vec<bool> = Vec::new();
    let mut outside_count: usize = 0;
    let mut k: usize = 0;
    while k < n
        invariant
            k <= n,
            n == cell_vertices@.len(),
            pts_in_limit(cell_vertices@),
            edges_in_limit(bounding_edges@),
            b == bounding_edges@,
            inside_flags@.len() == k,
            forall|m: int| 0 <= m < k ==> #[trigger] inside_flags@[m] == inside(cell_vertices@[m], b),
            outside_count <= k,
            outside_count == k ==> forall|m: int| 0 <= m < k ==> !inside(#[trigger] cell_vertices@[m], b),
            outside_count == 0 ==> forall|m: int| 0 <= m < k ==> inside(#[trigger] cell_vertices@[m], b),
            outside_count < k ==> exists|m: int| 0 <= m < k && inside(#[trigger] cell_vertices@[m], b),
            outside_count > 0 ==> exists|m: int| 0 <= m < k && !inside(#[trigger] cell_vertices@[m], b),
        decreases n - k,
    {
        let flag = is_vertex_within_polygon(&cell_vertices[k], &bounding_edges);
        inside_flags.push(flag);
        if !flag {
            outside_count = outside_count + 1;
        }
        proof {
            if !flag && outside_count == k + 1 {
                assert forall|m: int| 0 <= m < k + 1 implies !inside(#[trigger] cell_vertices@[m], b) by {}
            }
        }
        k = k + 1;
    }
    if outside_count == n {
        return None;
    }
    if outside_count == 0 {
        return Some(cell_vertices);
    }
    let existing_edges = ring_of(&cell_vertices);
    assert(edges_in_limit(existing_edges@)) by {
        assert forall|k: int| 0 <= k < existing_edges@.len() implies within(
            (#[trigger] existing_edges@[k]).0,
            CLIP_LIMIT as int,
        ) && within(existing_edges@[k].1, CLIP_LIMIT as int) by {
            let nc = n as int;
            assert(0 <= (k + 1) % nc < nc) by (nonlinear_arith)
                requires nc > 0;
            assert(within(cell_vertices@[(k + 1) % nc], CLIP_LIMIT as int));
        }
    }
    let mut new_vertices: Vec<Point2d> = Vec::new();
    let nb = boundary.len();
    let mut k: usize = 0;
    while k < nb
        invariant
            k <= nb,
            nb == boundary@.len(),
            pts_in_limit(boundary@),
            edges_in_limit(existing_edges@),
            existing_edges@ == ring_edges(cell_vertices@),
            pts_in_limit(new_vertices@),
            no_dup(new_vertices@),
            forall|y: Point2d|
                #![trigger new_vertices@.contains(y)]
                new_vertices@.contains(y) <==> exists|m: int|
                    0 <= m < k && #[trigger] boundary@[m] == y && inside(y, existing_edges@),
        decreases nb - k,
    {
        let ghost v0 = new_vertices@;
        assert(within(boundary@[k as int], CLIP_LIMIT as int));
        if is_vertex_within_polygon(&boundary[k], &existing_edges) {
            push_unique(&mut new_vertices, boundary[k]);
        }
        assert forall|y: Point2d|
            #![trigger new_vertices@.contains(y)]
            new_vertices@.contains(y) <==> exists|m: int|
                0 <= m < k + 1 && #[trigger] boundary@[m] == y && inside(y, existing_edges@) by {
            if v0.contains(y) {
                let m = choose|m: int| 0 <= m < k && #[trigger] boundary@[m] == y && inside(y, existing_edges@);
            }
            if exists|m: int| 0 <= m < k + 1 && #[trigger] boundary@[m] == y && inside(y, existing_edges@) {
                let m = choose|m: int| 0 <= m < k + 1 && #[trigger] boundary@[m] == y && inside(y, existing_edges@);
                if m < k {
                    assert(v0.contains(y));
                }
            }
        }
        k = k + 1;
    }
    let ghost from_boundary = new_vertices@;
    assert(forall|y: Point2d|
        from_boundary.contains(y) <==> (boundary@.contains(y) && inside(y, ring_edges(cell_vertices@)))) by {
        assert forall|y: Point2d|
            from_boundary.contains(y) <==> (boundary@.contains(y) && inside(y, ring_edges(cell_vertices@))) by {
            if boundary@.contains(y) && inside(y, ring_edges(cell_vertices@)) {
                let m = choose|m: int| 0 <= m < nb && boundary@[m] == y;
                assert(boundary@[m] == y);
            }
        }
    }
    let mut i: usize = 0;
    while i < n
        invariant
            i <= n,
            n == cell_vertices@.len(),
            n > 0,
            nb == boundary@.len(),
            b == bounding_edges@,
            b.len() == nb,
            pts_in_limit(cell_vertices@),
            edges_in_limit(bounding_edges@),
            inside_flags@.len() == n,
            forall|m: int| 0 <= m < n ==> #[trigger] inside_flags@[m] == inside(cell_vertices@[m], b),
            pts_in_limit(new_vertices@),
            no_dup(new_vertices@),
            forall|y: Point2d|
                #![trigger new_vertices@.contains(y)]
                new_vertices@.contains(y) <==> (from_boundary.contains(y) || exists|i2: int, j2: int|
                    0 <= i2 < i && 0 <= j2 < nb && #[trigger] cut_at(cell_vertices@, b, i2, j2, y)),
        decreases n - i,
    {
        let (start, end) = if i + 1 < n {
            (cell_vertices[i], cell_vertices[i + 1])
        } else {
            (cell_vertices[0], cell_vertices[i])
        };
        let (start_flag, end_flag) = if i + 1 < n {
            (inside_flags[i], inside_flags[i + 1])
        } else {
            (inside_flags[0], inside_flags[i])
        };
        assert(walk_edge(cell_vertices@, i as int) == (start, end));
        assert(start_flag == inside(start, b) && end_flag == inside(end, b));
        let ghost vi = new_vertices@;
        let mut j: usize = 0;
        while j < nb
            invariant
                j <= nb,
                i < n,
                n == cell_vertices@.len(),
                nb == boundary@.len(),
                b == bounding_edges@,
                b.len() == nb,
                pts_in_limit(cell_vertices@),
                edges_in_limit(bounding_edges@),
                walk_edge(cell_vertices@, i as int) == (start, end),
                within(start, CLIP_LIMIT as int),
                within(end, CLIP_LIMIT as int),
                start_flag == inside(start, b),
                end_flag == inside(end, b),
                pts_in_limit(new_vertices@),
                no_dup(new_vertices@),
            no_dup(new_vertices@),
                forall|y: Point2d|
                    #![trigger new_vertices@.contains(y)]
                    new_vertices@.contains(y) <==> (vi.contains(y) || exists|j2: int|
                        0 <= j2 < j && #[trigger] cut_at(cell_vertices@, b, i as int, j2, y)),
            decreases nb - j,
        {
            let ghost v0 = new_vertices@;
            let edge = bounding_edges[j];
            assert(within(b[j as int].0, CLIP_LIMIT as int));
            if start_flag != end_flag {
                match intersect(start, end, edge.0, edge.1) {
                    Some(x) => {
                        push_unique(&mut new_vertices, x);
                        assert(cut_at(cell_vertices@, b, i as int, j as int, x));
                    },
                    None => {},
                }
            }
            assert forall|y: Point2d|
                #![trigger new_vertices@.contains(y)]
                new_vertices@.contains(y) <==> (vi.contains(y) || exists|j2: int|
                    0 <= j2 < j + 1 && #[trigger] cut_at(cell_vertices@, b, i as int, j2, y)) by {
                if exists|j2: int| 0 <= j2 < j + 1 && #[trigger] cut_at(cell_vertices@, b, i as int, j2, y) {
                    let j2 = choose|j2: int| 0 <= j2 < j + 1 && #[trigger] cut_at(cell_vertices@, b, i as int, j2, y);
                    if j2 < j {
                        assert(v0.contains(y));
                    }
                }
                if v0.contains(y) && !vi.contains(y) {
                    let j2 = choose|j2: int| 0 <= j2 < j && #[trigger] cut_at(cell_vertices@, b, i as int, j2, y);
                }
            }
            j = j + 1;
        }
        assert forall|y: Point2d|
            #![trigger new_vertices@.contains(y)]
            new_vertices@.contains(y) <==> (from_boundary.contains(y) || exists|i2: int, j2: int|
                0 <= i2 < i + 1 && 0 <= j2 < nb && #[trigger] cut_at(cell_vertices@, b, i2, j2, y)) by {
            if exists|i2: int, j2: int| 0 <= i2 < i + 1 && 0 <= j2 < nb && #[trigger] cut_at(cell_vertices@, b, i2, j2, y) {
                let (i2, j2) = choose|i2: int, j2: int| 0 <= i2 < i + 1 && 0 <= j2 < nb && #[trigger] cut_at(cell_vertices@, b, i2, j2, y);
                if i2 < i {
                    assert(vi.contains(y));
                } else {
                    assert(new_vertices@.contains(y));
                }
            }
            if new_vertices@.contains(y) && !vi.contains(y) {
                let j2 = choose|j2: int| 0 <= j2 < nb && #[trigger] cut_at(cell_vertices@, b, i as int, j2, y);
                assert(cut_at(cell_vertices@, b, i as int, j2, y));
            }
            if vi.contains(y) && !from_boundary.contains(y) {
                let (i2, j2) = choose|i2: int, j2: int| 0 <= i2 < i && 0 <= j2 < nb && #[trigger] cut_at(cell_vertices@, b, i2, j2, y);
                assert(cut_at(cell_vertices@, b, i2, j2, y));
            }
        }
        i = i + 1;
    }
    let ghost with_cuts = new_vertices@;
    let mut k: usize = 0;
    while k < n
        invariant
            k <= n,
            n == cell_vertices@.len(),
            b == bounding_edges@,
            pts_in_limit(cell_vertices@),
            inside_flags@.len() == n,
            forall|m: int| 0 <= m < n ==> #[trigger] inside_flags@[m] == inside(cell_vertices@[m], b),
            pts_in_limit(new_vertices@),
            no_dup(new_vertices@),
            forall|y: Point2d|
                #![trigger new_vertices@.contains(y)]
                new_vertices@.contains(y) <==> (with_cuts.contains(y) || exists|m: int|
                    0 <= m < k && #[trigger] cell_vertices@[m] == y && inside(y, b)),
        decreases n - k,
    {
        let ghost v0 = new_vertices@;
        if inside_flags[k] {
            push_unique(&mut new_vertices, cell_vertices[k]);
        }
        assert forall|y: Point2d|
            #![trigger new_vertices@.contains(y)]
            new_vertices@.contains(y) <==> (with_cuts.contains(y) || exists|m: int|
                0 <= m < k + 1 && #[trigger] cell_vertices@[m] == y && inside(y, b)) by {
            if exists|m: int| 0 <= m < k + 1 && #[trigger] cell_vertices@[m] == y && inside(y, b) {
                let m = choose|m: int| 0 <= m < k + 1 && #[trigger] cell_vertices@[m] == y && inside(y, b);
                if m < k {
                    assert(v0.contains(y));
                }
            }
            if v0.contains(y) && !with_cuts.contains(y) {
                let m = choose|m: int| 0 <= m < k && #[trigger] cell_vertices@[m] == y && inside(y, b);
            }
        }
        k = k + 1;
    }
    assert forall|x: Point2d| new_vertices@.contains(x) <==> in_clipped(x, cell_vertices@, boundary@) by {
        if cell_vertices@.contains(x) && inside(x, b) {
            let m = choose|m: int| 0 <= m < n && cell_vertices@[m] == x;
            assert(cell_vertices@[m] == x);
        }
        if new_vertices@.contains(x) && !with_cuts.contains(x) {
            let m = choose|m: int| 0 <= m < n && #[trigger] cell_vertices@[m] == x && inside(x, b);
            assert(cell_vertices@.contains(x));
        }
    }
    if new_vertices.len() > 0 {
        let centre = mean_of(&new_vertices);
        let ghost before = new_vertices@;
        sort_vertices_2d(&mut new_vertices, &centre);
        proof {
            broadcast use vstd::seq_lib::group_to_multiset_ensures;
            lemma_sums_permutation(before, new_vertices@);
            vstd::seq_lib::to_multiset_len(before);
            vstd::seq_lib::to_multiset_len(new_vertices@);
            assert forall|x: Point2d| new_vertices@.contains(x) <==> before.contains(x) by {
                vstd::seq_lib::to_multiset_contains(before, x);
                vstd::seq_lib::to_multiset_contains(new_vertices@, x);
            }
            assert(mean_point(new_vertices@) == centre);
            assert forall|x: Point2d| new_vertices@.contains(x) <==> in_clipped(x, cell_vertices@, boundary@) by {
                assert(new_vertices@.contains(x) <==> before.contains(x));
            }
        }
    }
    Some(new_vertices)
}

/// The centroid of `points`, rounded to the integer grid.
pub fn mean_of(points: &Vec<Point2d>) -> (r: Point2d)
    requires
        points@.len() > 0,
        pts_in_limit(points@),
    ensures
        r == mean_point(points@),
        within(r, CLIP_LIMIT as int),
{
    let mut sx: i128 = 0;
    let mut sy: i128 = 0;
    let mut k: usize = 0;
    while k < points.len()
        invariant
            k <= points@.len(),
            pts_in_limit(points@),
            (sx as int, sy as int) == point_sums(points@.subrange(0, k as int)),
            -(k * CLIP_LIMIT) <= sx <= k * CLIP_LIMIT,
            -(k * CLIP_LIMIT) <= sy <= k * CLIP_LIMIT,
        decreases points@.len() - k,
    {
        assert(points@.subrange(0, k + 1).drop_last() =~= points@.subrange(0, k as int));
        let p = points[k];
        assert(within(points@[k as int], CLIP_LIMIT as int));
        proof {
            assert(k * CLIP_LIMIT <= 18446744073709551615int * 1099511627776int) by (nonlinear_arith)
                requires k < 18446744073709551616int;
        }
        sx = sx + p.x as i128;
        sy = sy + p.y as i128;
        k = k + 1;
        assert((k - 1) * CLIP_LIMIT + CLIP_LIMIT == k * CLIP_LIMIT) by (nonlinear_arith);
    }
    assert(points@.subrange(0, k as int) =~= points@);
    let n = points.len() as i128;
    Point2d { x: mean_coord(sx, n), y: mean_coord(sy, n) }
}

fn mean_coord(s: i128, n: i128) -> (r: i64)
    requires
        0 < n <= 18446744073709551615,
        -(n * CLIP_LIMIT) <= s <= n * CLIP_LIMIT,
    ensures
        r == round_div(s as int, n as int),
        -CLIP_LIMIT <= r <= CLIP_LIMIT,
{
    let q = round_quotient(s, n);
    proof {
        lemma_round_div_bound(s as int, n as int, CLIP_LIMIT as int);
    }
    q as i64
}

} // verus!
