//! Delaunay triangulation of points of the plane by the Bowyer-Watson
//! algorithm.
//!
//! A bootstrap triangle far larger than the points is laid down first. Each
//! point in turn removes the triangles whose circumcircle holds it strictly
//! inside; the edges met by exactly one removed triangle bound the hole, and
//! each of them is joined to the point to fill it. At the end every triangle
//! that touches a bootstrap corner is dropped.
//!
//! The input point with index `i` has vertex id `i`; the bootstrap corners
//! take the ids `n`, `n + 1` and `n + 2` after the `n` input points, so
//! dropping them is a test on the id alone.

use vstd::prelude::*;
use crate::edge_node2d::EdgeNode2d;
use crate::geometry::{Point2d, within, orient_spec, in_circumcircle, circumcircle_contains, COORD_LIMIT, WORK_LIMIT};
use crate::triangle_node2d::{TriangleNode2d, all_within, reorders, sorted_ids};

verus! {

/// How far the bootstrap triangle reaches, in multiples of the extent of the
/// bounds.
pub const SUPER_SCALE: i64 = 512;

/// A triangulation: triangles over vertex ids, and the point of each id.
pub struct Delaunay2d {
    triangles: Vec<TriangleNode2d>,
    vertex_lookup: Vec<Point2d>,
}

/// Whether every corner of every triangle of `ts` is an id below `n`.
pub open spec fn all_ids_below(ts: Seq<TriangleNode2d>, n: int) -> bool {
    forall|k: int| 0 <= k < ts.len() ==> #[trigger] ids_below(ts[k], n)
}

/// Whether every corner of `t` is an id below `n`.
pub open spec fn ids_below(t: TriangleNode2d, n: int) -> bool {
    t.ids()[0] < n && t.ids()[1] < n && t.ids()[2] < n
}

/// Whether no two triangles of `ts` share their corners.
pub open spec fn no_repeats(ts: Seq<TriangleNode2d>) -> bool {
    forall|i: int, j: int|
        #![trigger ts[i], ts[j]]
        0 <= i < ts.len() && 0 <= j < ts.len() && i != j ==> !ts[i].same_triangle(&ts[j])
}

/// Whether every point of `points` lies within the input limit.
pub open spec fn points_in_limit(points: Seq<Point2d>) -> bool {
    forall|k: int| 0 <= k < points.len() ==> within(#[trigger] points[k], COORD_LIMIT as int)
}

/// Whether every corner of `t` is an input point below `lo`, or a
/// bootstrap corner, whose id is `n` or more.
pub open spec fn settled(t: TriangleNode2d, lo: int, n: int) -> bool {
    &&& (t.ids()[0] < lo || t.ids()[0] >= n)
    &&& (t.ids()[1] < lo || t.ids()[1] >= n)
    &&& (t.ids()[2] < lo || t.ids()[2] >= n)
}

/// The largest id of an input point among the corners of `t`, where the
/// ids from `n` on are bootstrap corners; `-1` when there is none.
pub open spec fn newest_real(t: TriangleNode2d, n: int) -> int {
    let a: int = if t.ids()[0] < n { t.ids()[0] as int } else { -1 };
    let b: int = if t.ids()[1] < n { t.ids()[1] as int } else { -1 };
    let c: int = if t.ids()[2] < n { t.ids()[2] as int } else { -1 };
    if a >= b && a >= c {
        a
    } else if b >= c {
        b
    } else {
        c
    }
}

/// The largest id among the corners of `t`.
pub open spec fn newest_corner(t: TriangleNode2d) -> int {
    let a = t.ids()[0] as int;
    let b = t.ids()[1] as int;
    let c = t.ids()[2] as int;
    if a >= b && a >= c {
        a
    } else if b >= c {
        b
    } else {
        c
    }
}

/// Whether the three corners of `t` are distinct ids.
pub open spec fn distinct_corners(t: TriangleNode2d) -> bool {
    t.ids()[0] != t.ids()[1] && t.ids()[1] != t.ids()[2] && t.ids()[0] != t.ids()[2]
}

/// Whether every triangle of `ts` has three distinct corners.
pub open spec fn all_distinct(ts: Seq<TriangleNode2d>) -> bool {
    forall|k: int| 0 <= k < ts.len() ==> #[trigger] distinct_corners(ts[k])
}

/// Whether `p` lies strictly inside the circumcircle of `t`.
pub open spec fn is_bad(t: TriangleNode2d, lookup: Seq<Point2d>, p: Point2d) -> bool {
    in_circumcircle(t.corner(lookup, 0), t.corner(lookup, 1), t.corner(lookup, 2), p)
}

/// The corner ids of each triangle of `ts`.
pub open spec fn ids_of(ts: Seq<TriangleNode2d>) -> Seq<Seq<usize>> {
    ts.map_values(|t: TriangleNode2d| t.ids())
}

/// Whether `p` lies strictly inside the circumcircle of the corners `t`.
pub open spec fn bad_ids(t: Seq<usize>, lookup: Seq<Point2d>, p: Point2d) -> bool {
    in_circumcircle(lookup[t[0] as int], lookup[t[1] as int], lookup[t[2] as int], p)
}

/// The triangles of `ts` whose circumcircle does not hold `p`, in order.
pub open spec fn keep_good(ts: Seq<Seq<usize>>, lookup: Seq<Point2d>, p: Point2d) -> Seq<Seq<usize>>
    decreases ts.len(),
{
    if ts.len() == 0 {
        ts
    } else if bad_ids(ts.last(), lookup, p) {
        keep_good(ts.drop_last(), lookup, p)
    } else {
        keep_good(ts.drop_last(), lookup, p).push(ts.last())
    }
}

/// The triangles of `ts` whose circumcircle holds `p`, in order.
pub open spec fn keep_bad(ts: Seq<Seq<usize>>, lookup: Seq<Point2d>, p: Point2d) -> Seq<Seq<usize>>
    decreases ts.len(),
{
    if ts.len() == 0 {
        ts
    } else if bad_ids(ts.last(), lookup, p) {
        keep_bad(ts.drop_last(), lookup, p).push(ts.last())
    } else {
        keep_bad(ts.drop_last(), lookup, p)
    }
}

/// Whether `e` joins two consecutive corners of `t`, in either direction.
pub open spec fn has_pair(t: Seq<usize>, e: (usize, usize)) -> bool {
    ||| (e.0 == t[0] && e.1 == t[1]) || (e.0 == t[1] && e.1 == t[0])
    ||| (e.0 == t[1] && e.1 == t[2]) || (e.0 == t[2] && e.1 == t[1])
    ||| (e.0 == t[2] && e.1 == t[0]) || (e.0 == t[0] && e.1 == t[2])
}

/// How many triangles of `ts` have the edge `e`.
pub open spec fn pair_count(ts: Seq<Seq<usize>>, e: (usize, usize)) -> nat
    decreases ts.len(),
{
    if ts.len() == 0 {
        0
    } else {
        pair_count(ts.drop_last(), e) + if has_pair(ts.last(), e) {
            1nat
        } else {
            0nat
        }
    }
}

/// The edges `a-b`, `b-c`, `c-a` of the triangle `t`, each kept when exactly
/// one triangle of `all` has it.
pub open spec fn once_pairs(t: Seq<usize>, all: Seq<Seq<usize>>) -> Seq<(usize, usize)> {
    let e0 = (t[0], t[1]);
    let e1 = (t[1], t[2]);
    let e2 = (t[2], t[0]);
    (if pair_count(all, e0) == 1 { seq![e0] } else { Seq::empty() }) + (if pair_count(all, e1) == 1 {
        seq![e1]
    } else {
        Seq::empty()
    }) + (if pair_count(all, e2) == 1 { seq![e2] } else { Seq::empty() })
}

/// The edges of the triangles of `prefix`, in order, that exactly one
/// triangle of `all` has: the border of the hole `all` leaves.
pub open spec fn boundary_pairs(prefix: Seq<Seq<usize>>, all: Seq<Seq<usize>>) -> Seq<(usize, usize)>
    decreases prefix.len(),
{
    if prefix.len() == 0 {
        Seq::empty()
    } else {
        boundary_pairs(prefix.drop_last(), all) + once_pairs(prefix.last(), all)
    }
}

/// Whether every corner of `a` is a corner of `b`.
pub open spec fn same_ids(a: Seq<usize>, b: Seq<usize>) -> bool {
    b.contains(a[0]) && b.contains(a[1]) && b.contains(a[2])
}

/// `ts` with `t` added at the end, unless a triangle with the same corners
/// is there.
pub open spec fn insert_ids(ts: Seq<Seq<usize>>, t: Seq<usize>) -> Seq<Seq<usize>> {
    if exists|k: int| 0 <= k < ts.len() && (same_ids(ts[k], t) || same_ids(t, #[trigger] ts[k])) {
        ts
    } else {
        ts.push(t)
    }
}

/// `ts` with the triangles that join the point `i` to each edge of `bnd`,
/// in order, each with its corners sorted.
pub open spec fn fill_hole(ts: Seq<Seq<usize>>, bnd: Seq<(usize, usize)>, i: usize, lookup: Seq<Point2d>) -> Seq<Seq<usize>>
    decreases bnd.len(),
{
    if bnd.len() == 0 {
        ts
    } else {
        insert_ids(
            fill_hole(ts, bnd.drop_last(), i, lookup),
            sorted_ids(seq![i, bnd.last().0, bnd.last().1], lookup),
        )
    }
}

/// One step of the algorithm: the point `i` removes the triangles whose
/// circumcircle holds it and fills the hole they leave.
pub open spec fn insert_point(ts: Seq<Seq<usize>>, i: usize, lookup: Seq<Point2d>) -> Seq<Seq<usize>> {
    let p = lookup[i as int];
    let bad = keep_bad(ts, lookup, p);
    let kept = keep_good(ts, lookup, p);
    if bad.len() == 0 {
        kept
    } else {
        fill_hole(kept, boundary_pairs(bad, bad), i, lookup)
    }
}

/// The triangles after the first `i` of `n` points have been inserted into
/// the bootstrap triangle with corners `n`, `n + 1`, `n + 2`.
pub open spec fn bowyer_watson(lookup: Seq<Point2d>, n: nat, i: nat) -> Seq<Seq<usize>>
    decreases i,
{
    if i == 0 {
        seq![seq![n as usize, (n + 1) as usize, (n + 2) as usize]]
    } else {
        insert_point(bowyer_watson(lookup, n, (i - 1) as nat), (i - 1) as usize, lookup)
    }
}

/// The triangles of `ts` whose corners are all below `n`, in order.
pub open spec fn real_only(ts: Seq<Seq<usize>>, n: int) -> Seq<Seq<usize>>
    decreases ts.len(),
{
    if ts.len() == 0 {
        ts
    } else if ts.last()[0] < n && ts.last()[1] < n && ts.last()[2] < n {
        real_only(ts.drop_last(), n).push(ts.last())
    } else {
        real_only(ts.drop_last(), n)
    }
}

/// The corners of the bootstrap triangle for the box from `lo` to `hi`.
pub open spec fn super_corners(lo: Point2d, hi: Point2d) -> (Point2d, Point2d, Point2d) {
    let w = if hi.x - lo.x > hi.y - lo.y { hi.x - lo.x } else { hi.y - lo.y };
    let reach = SUPER_SCALE * w;
    (
        Point2d { x: (lo.x - reach) as i64, y: (lo.y - reach) as i64 },
        Point2d { x: (hi.x + 2 * reach) as i64, y: (lo.y - reach) as i64 },
        Point2d { x: (lo.x - reach) as i64, y: (hi.y + 2 * reach) as i64 },
    )
}

/// The points and then the three bootstrap corners for them.
pub open spec fn working_lookup(points: Seq<Point2d>) -> Seq<Point2d> {
    let lo = Point2d { x: (low_corner(points).0 - 1) as i64, y: (low_corner(points).1 - 1) as i64 };
    let hi = Point2d { x: (high_corner(points).0 + 1) as i64, y: (high_corner(points).1 + 1) as i64 };
    let c = super_corners(lo, hi);
    points + seq![c.0, c.1, c.2]
}

/// The corner ids of the triangles the algorithm leaves for `points` once
/// the bootstrap corners are dropped.
pub open spec fn triangulation_of(points: Seq<Point2d>) -> Seq<Seq<usize>> {
    let n = points.len();
    real_only(bowyer_watson(working_lookup(points), n, n), n as int)
}

impl Delaunay2d {
    /// The triangles.
    pub closed spec fn triangles_view(&self) -> Seq<TriangleNode2d> {
        self.triangles@
    }

    /// The point of each vertex id.
    pub closed spec fn lookup_view(&self) -> Seq<Point2d> {
        self.vertex_lookup@
    }

    /// Every triangle's corners name points of the lookup, and no triangle
    /// is there twice.
    pub open spec fn wf(&self) -> bool {
        &&& all_ids_below(self.triangles_view(), self.lookup_view().len() as int)
        &&& no_repeats(self.triangles_view())
        &&& self.triangles_view().len() > 0
        &&& points_in_limit(self.lookup_view())
    }

    /// Triangulates `points` by the Bowyer-Watson algorithm. The triangles
    /// are exactly those of `triangulation_of(points)`, the run of the
    /// algorithm written out step by step over vertex ids, and there is a
    /// result exactly when that run leaves a triangle; fewer than three
    /// points give `None`. The vertex id of each input point is its index,
    /// the lookup holds the input points alone, no triangle uses a
    /// bootstrap corner, and every triangle has three distinct corners. Of
    /// the empty-circle property, the part that the order of insertion
    /// gives is stated: no input point whose id is larger than every corner
    /// of a triangle lies strictly inside that triangle's circumcircle.
    pub fn compute_triangulation_2d(points: &Vec<Point2d>) -> (r: Option<Delaunay2d>)
        requires
            points_in_limit(points@),
            points@.len() + 3 <= usize::MAX,
        ensures
            points@.len() < 3 ==> r.is_none(),
            points@.len() >= 3 ==> (r.is_some() <==> triangulation_of(points@).len() > 0),
            r matches Some(d) ==> {
                &&& ids_of(d.triangles_view()) == triangulation_of(points@)
                &&& all_distinct(d.triangles_view())
                &&& d.wf()
                &&& d.lookup_view() == points@
                &&& all_ids_below(d.triangles_view(), points@.len() as int)
                &&& forall|k: int, m: int|
                    #![trigger d.triangles_view()[k], points@[m]]
                    0 <= k < d.triangles_view().len() && newest_corner(d.triangles_view()[k]) < m
                        < points@.len() ==> !is_bad(d.triangles_view()[k], points@, points@[m])
            },
    {
        let n = points.len();
        if n < 3 {
            return None;
        }
        let (min_bounds, max_bounds) = compute_dimension_bounds(points);
        let corners = compute_super_triangle(&min_bounds, &max_bounds);
        let mut vertex_lookup: Vec<Point2d> = Vec::new();
        let mut i: usize = 0;
        while i < n
            invariant
                i <= n,
                n == points@.len(),
                vertex_lookup@ == points@.subrange(0, i as int),
            decreases n - i,
        {
            vertex_lookup.push(points[i]);
            i = i + 1;
            assert(vertex_lookup@ =~= points@.subrange(0, i as int));
        }
        vertex_lookup.push(corners.0);
        vertex_lookup.push(corners.1);
        vertex_lookup.push(corners.2);
        assert(vertex_lookup@.subrange(0, n as int) =~= points@);
        assert(min_bounds == Point2d { x: (low_corner(points@).0 - 1) as i64, y: (low_corner(points@).1 - 1) as i64 });
        assert(max_bounds == Point2d { x: (high_corner(points@).0 + 1) as i64, y: (high_corner(points@).1 + 1) as i64 });
        assert(vertex_lookup@ =~= working_lookup(points@));
        assert forall|k: int| 0 <= k < vertex_lookup@.len() implies within(
            #[trigger] vertex_lookup@[k],
            WORK_LIMIT as int,
        ) by {
            if k < n {
                assert(vertex_lookup@[k] == points@[k]);
            }
        }
        let mut triangles: Vec<TriangleNode2d> = Vec::new();
        let first = TriangleNode2d::new(n, n + 1, n + 2);
        triangles.push(first);
        assert(ids_of(triangles@) =~= bowyer_watson(vertex_lookup@, n as nat, 0));
        assert(distinct_corners(triangles@[0]));
        let mut i: usize = 0;
        while i < n
            invariant
                i <= n,
                n == points@.len(),
                vertex_lookup@ == working_lookup(points@),
                ids_of(triangles@) == bowyer_watson(vertex_lookup@, n as nat, i as nat),
                all_distinct(triangles@),
                vertex_lookup@.len() == n + 3,
                vertex_lookup@.subrange(0, n as int) == points@,
                all_within(vertex_lookup@, WORK_LIMIT as int),
                all_ids_below(triangles@, n + 3),
                no_repeats(triangles@),
                forall|k: int| 0 <= k < triangles@.len() ==> #[trigger] settled(triangles@[k], i as int, n as int),
                forall|k: int, m: int|
                    #![trigger triangles@[k], vertex_lookup@[m]]
                    0 <= k < triangles@.len() && newest_real(triangles@[k], n as int) < m < i ==> !is_bad(
                        triangles@[k],
                        vertex_lookup@,
                        vertex_lookup@[m],
                    ),
            decreases n - i,
        {
            let point = points[i];
            assert(point == vertex_lookup@[i as int]);
            let ghost before = triangles@;
            let (kept, bad) = split_bad_triangles(point, &triangles, &vertex_lookup);
            let ghost kept_ids = ids_of(kept@);
            let ghost bad_ids_now = ids_of(bad@);
            assert(bowyer_watson(vertex_lookup@, n as nat, (i + 1) as nat) == insert_point(
                ids_of(before),
                i,
                vertex_lookup@,
            ));
            assert forall|k: int| 0 <= k < bad@.len() implies #[trigger] settled(bad@[k], i as int, n as int) by {
                let w = choose|w: int| 0 <= w < before.len() && before[w] == bad@[k];
                assert(settled(before[w], i as int, n as int));
            }
            triangles = kept;
            assert forall|k: int| 0 <= k < triangles@.len() implies #[trigger] settled(triangles@[k], i + 1, n as int) by {
                let w = choose|w: int| 0 <= w < before.len() && before[w] == triangles@[k];
                assert(settled(before[w], i as int, n as int));
            }
            assert forall|k: int, m: int|
                #![trigger triangles@[k], vertex_lookup@[m]]
                0 <= k < triangles@.len() && newest_real(triangles@[k], n as int) < m < i + 1 implies !is_bad(
                    triangles@[k],
                    vertex_lookup@,
                    vertex_lookup@[m],
                ) by {
                let w = choose|w: int| 0 <= w < before.len() && before[w] == triangles@[k];
                assert(before[w] == triangles@[k]);
                if m < i {
                    assert(!is_bad(before[w], vertex_lookup@, vertex_lookup@[m]));
                } else {
                    assert(!is_bad(triangles@[k], vertex_lookup@, point));
                }
            }
            if bad.len() > 0 {
                let boundary = hole_boundary(&bad, Ghost((n + 3) as int), Ghost(i as int), Ghost(n as int));
                let mut j: usize = 0;
                while j < boundary.len()
                    invariant
                        j <= boundary@.len(),
                        i < n,
                        n == points@.len(),
                        vertex_lookup@ == working_lookup(points@),
                        all_distinct(triangles@),
                        forall|x: int| 0 <= x < boundary@.len() ==> (#[trigger] boundary@[x]).a() != boundary@[x].b(),
                        ids_of(triangles@) == fill_hole(kept_ids, edge_pairs(boundary@).subrange(0, j as int), i, vertex_lookup@),
                        vertex_lookup@.len() == n + 3,
                        all_within(vertex_lookup@, WORK_LIMIT as int),
                        all_ids_below(triangles@, n + 3),
                        no_repeats(triangles@),
                        forall|k: int|
                            0 <= k < boundary@.len() ==> (#[trigger] boundary@[k]).a() < n + 3
                                && boundary@[k].b() < n + 3,
                        forall|k: int|
                            0 <= k < boundary@.len() ==> ((#[trigger] boundary@[k]).a() < i || boundary@[k].a() >= n)
                                && (boundary@[k].b() < i || boundary@[k].b() >= n),
                        forall|k: int| 0 <= k < triangles@.len() ==> #[trigger] settled(triangles@[k], i + 1, n as int),
                        forall|k: int, m: int|
                            #![trigger triangles@[k], vertex_lookup@[m]]
                            0 <= k < triangles@.len() && newest_real(triangles@[k], n as int) < m < i + 1 ==> !is_bad(
                                triangles@[k],
                                vertex_lookup@,
                                vertex_lookup@[m],
                            ),
                    decreases boundary@.len() - j,
                {
                    let edge = boundary[j];
                    let mut new_tri = TriangleNode2d::new(
                        i,
                        edge.get_vertex_a_id(),
                        edge.get_vertex_b_id(),
                    );
                    let ghost unsorted = new_tri.ids();
                    new_tri.sort_vertices_anti_clockwise(&vertex_lookup);
                    assert(edge_pairs(boundary@).subrange(0, j + 1).drop_last() =~= edge_pairs(boundary@).subrange(0, j as int));
                    assert(edge_pairs(boundary@).subrange(0, j + 1).last() == (edge.a(), edge.b()));
                    assert(unsorted =~= seq![i, edge.a(), edge.b()]);
                    assert(distinct_corners(new_tri)) by {
                        assert(unsorted == seq![i, edge.a(), edge.b()]);
                        assert(reorders(unsorted, new_tri.ids()));
                        assert(boundary@[j as int].a() != boundary@[j as int].b());
                    }
                    assert(settled(new_tri, i + 1, n as int) && newest_real(new_tri, n as int) == i) by {
                        assert(unsorted == seq![i, edge.a(), edge.b()]);
                        assert(reorders(unsorted, new_tri.ids()));
                    }
                    let ghost t0 = triangles@;
                    insert_triangle(&mut triangles, new_tri, Ghost((n + 3) as int));
                    assert forall|k: int| 0 <= k < triangles@.len() implies #[trigger] settled(triangles@[k], i + 1, n as int) by {
                        if k < t0.len() {
                            assert(triangles@[k] == t0[k]);
                        }
                    }
                    assert forall|k: int, m: int|
                        #![trigger triangles@[k], vertex_lookup@[m]]
                        0 <= k < triangles@.len() && newest_real(triangles@[k], n as int) < m < i + 1 implies !is_bad(
                            triangles@[k],
                            vertex_lookup@,
                            vertex_lookup@[m],
                        ) by {
                        if k < t0.len() {
                            assert(triangles@[k] == t0[k]);
                        }
                    }
                    j = j + 1;
                }
                assert(edge_pairs(boundary@).subrange(0, j as int) =~= edge_pairs(boundary@));
            }
            i = i + 1;
        }
        let final_triangles = drop_bootstrap(&triangles, n);
        let ghost full = vertex_lookup@;
        vertex_lookup.truncate(n);
        assert(vertex_lookup@ =~= points@);
        if final_triangles.len() > 0 {
            let d = Delaunay2d { triangles: final_triangles, vertex_lookup };
            assert forall|k: int, m: int|
                #![trigger d.triangles_view()[k], points@[m]]
                0 <= k < d.triangles_view().len() && newest_corner(d.triangles_view()[k]) < m
                    < points@.len() implies !is_bad(d.triangles_view()[k], points@, points@[m]) by {
                let t = d.triangles_view()[k];
                assert(ids_below(t, n as int));
                let w = choose|w: int| 0 <= w < triangles@.len() && triangles@[w] == t;
                assert(triangles@[w] == t);
                assert(newest_real(t, n as int) == newest_corner(t));
                assert(full[m] == points@[m]) by {
                    assert(full.subrange(0, n as int)[m] == full[m]);
                }
                assert(!is_bad(triangles@[w], full, full[m]));
                assert(t.corner(full, 0) == t.corner(points@, 0)) by {
                    assert(full.subrange(0, n as int)[t.ids()[0] as int] == full[t.ids()[0] as int]);
                }
                assert(t.corner(full, 1) == t.corner(points@, 1)) by {
                    assert(full.subrange(0, n as int)[t.ids()[1] as int] == full[t.ids()[1] as int]);
                }
                assert(t.corner(full, 2) == t.corner(points@, 2)) by {
                    assert(full.subrange(0, n as int)[t.ids()[2] as int] == full[t.ids()[2] as int]);
                }
            }
            Some(d)
        } else {
            None
        }
    }

    /// The triangles.
    pub fn get_triangles(&self) -> (r: &Vec<TriangleNode2d>)
        ensures
            r@ == self.triangles_view(),
    {
        &self.triangles
    }

    /// The point of each vertex id.
    pub fn get_vertex_lookup(&self) -> (r: &Vec<Point2d>)
        ensures
            r@ == self.lookup_view(),
    {
        &self.vertex_lookup
    }
}

/// Adds `t` to `triangles` unless a triangle with the same corners is there.
fn insert_triangle(triangles: &mut Vec<TriangleNode2d>, t: TriangleNode2d, bound: Ghost<int>)
    requires
        all_ids_below(old(triangles)@, bound@),
        ids_below(t, bound@),
        no_repeats(old(triangles)@),
    ensures
        all_ids_below(final(triangles)@, bound@),
        no_repeats(final(triangles)@),
        final(triangles)@ == old(triangles)@ || final(triangles)@ == old(triangles)@.push(t),
        ids_of(final(triangles)@) == insert_ids(ids_of(old(triangles)@), t.ids()),
        all_distinct(old(triangles)@) && distinct_corners(t) ==> all_distinct(final(triangles)@),
{
    let mut k: usize = 0;
    while k < triangles.len()
        invariant
            k <= triangles@.len(),
            triangles@ == old(triangles)@,
            all_ids_below(triangles@, bound@),
            no_repeats(triangles@),
            forall|m: int|
                0 <= m < k ==> !(#[trigger] triangles@[m]).same_triangle(&t)
                    && !t.same_triangle(&triangles@[m]),
        decreases triangles@.len() - k,
    {
        if triangles[k] == t || t == triangles[k] {
            assert(ids_of(triangles@)[k as int] == triangles@[k as int].ids());
            assert(same_ids(ids_of(triangles@)[k as int], t.ids()) || same_ids(t.ids(), ids_of(triangles@)[k as int]));
            return;
        }
        k = k + 1;
    }
    let ghost before = triangles@;
    assert(!exists|m: int| 0 <= m < ids_of(before).len() && (same_ids(ids_of(before)[m], t.ids()) || same_ids(t.ids(), #[trigger] ids_of(before)[m]))) by {
        assert forall|m: int| 0 <= m < ids_of(before).len() implies !(same_ids(ids_of(before)[m], t.ids()) || same_ids(t.ids(), #[trigger] ids_of(before)[m])) by {
            assert(ids_of(before)[m] == before[m].ids());
            assert(!before[m].same_triangle(&t) && !t.same_triangle(&before[m]));
        }
    }
    triangles.push(t);
    assert(ids_of(triangles@) =~= ids_of(before).push(t.ids()));
    assert(all_distinct(before) && distinct_corners(t) ==> all_distinct(triangles@)) by {
        if all_distinct(before) && distinct_corners(t) {
            assert forall|m: int| 0 <= m < triangles@.len() implies #[trigger] distinct_corners(triangles@[m]) by {
                if m < before.len() {
                    assert(triangles@[m] == before[m]);
                }
            }
        }
    }
    proof {
        let after = triangles@;
        assert forall|m: int| 0 <= m < after.len() implies #[trigger] ids_below(after[m], bound@) by {
            if m < before.len() {
                assert(after[m] == before[m]);
            }
        }
        assert forall|x: int, y: int|
            #![trigger after[x], after[y]]
            0 <= x < after.len() && 0 <= y < after.len() && x != y implies !after[x].same_triangle(&after[y]) by {
            if x < before.len() && y < before.len() {
                assert(after[x] == before[x] && after[y] == before[y]);
            } else if x < before.len() {
                assert(after[x] == before[x]);
            } else {
                assert(after[y] == before[y]);
            }
        }
    }
}

/// The least `x` and least `y` over `points`, which are not empty.
pub open spec fn low_corner(points: Seq<Point2d>) -> (int, int)
    decreases points.len(),
{
    if points.len() <= 1 {
        (points[0].x as int, points[0].y as int)
    } else {
        let (x, y) = low_corner(points.drop_last());
        let p = points.last();
        (if p.x < x { p.x as int } else { x }, if p.y < y { p.y as int } else { y })
    }
}

/// The greatest `x` and greatest `y` over `points`, which are not empty.
pub open spec fn high_corner(points: Seq<Point2d>) -> (int, int)
    decreases points.len(),
{
    if points.len() <= 1 {
        (points[0].x as int, points[0].y as int)
    } else {
        let (x, y) = high_corner(points.drop_last());
        let p = points.last();
        (if p.x > x { p.x as int } else { x }, if p.y > y { p.y as int } else { y })
    }
}

proof fn lemma_corners_within(points: Seq<Point2d>)
    requires
        points.len() > 0,
        points_in_limit(points),
    ensures
        -COORD_LIMIT <= low_corner(points).0 <= high_corner(points).0 <= COORD_LIMIT,
        -COORD_LIMIT <= low_corner(points).1 <= high_corner(points).1 <= COORD_LIMIT,
        forall|k: int|
            0 <= k < points.len() ==> low_corner(points).0 <= (#[trigger] points[k]).x
                <= high_corner(points).0 && low_corner(points).1 <= points[k].y
                <= high_corner(points).1,
    decreases points.len(),
{
    assert(within(points[0], COORD_LIMIT as int));
    if points.len() > 1 {
        let rest = points.drop_last();
        assert forall|k: int| 0 <= k < rest.len() implies within(#[trigger] rest[k], COORD_LIMIT as int) by {
            assert(rest[k] == points[k]);
        }
        lemma_corners_within(rest);
        assert(within(points[points.len() - 1], COORD_LIMIT as int));
        assert forall|k: int|
            0 <= k < points.len() implies low_corner(points).0 <= (#[trigger] points[k]).x
                <= high_corner(points).0 && low_corner(points).1 <= points[k].y
                <= high_corner(points).1 by {
            if k < rest.len() {
                assert(rest[k] == points[k]);
            }
        }
    }
}

/// The box that holds every point, grown by one unit on each side so that
/// no point lies on its border.
pub fn compute_dimension_bounds(points: &Vec<Point2d>) -> (r: (Point2d, Point2d))
    requires
        points@.len() > 0,
        points_in_limit(points@),
    ensures
        r.0.x == low_corner(points@).0 - 1,
        r.0.y == low_corner(points@).1 - 1,
        r.1.x == high_corner(points@).0 + 1,
        r.1.y == high_corner(points@).1 + 1,
        -COORD_LIMIT - 1 <= r.0.x < r.1.x <= COORD_LIMIT + 1,
        -COORD_LIMIT - 1 <= r.0.y < r.1.y <= COORD_LIMIT + 1,
        forall|k: int|
            0 <= k < points@.len() ==> r.0.x < (#[trigger] points@[k]).x < r.1.x && r.0.y
                < points@[k].y < r.1.y,
{
    let mut min_x: i64 = points[0].x;
    let mut min_y: i64 = points[0].y;
    let mut max_x: i64 = points[0].x;
    let mut max_y: i64 = points[0].y;
    assert(points@.subrange(0, 1).len() == 1);
    let mut i: usize = 1;
    while i < points.len()
        invariant
            1 <= i <= points@.len(),
            points_in_limit(points@),
            (min_x as int, min_y as int) == low_corner(points@.subrange(0, i as int)),
            (max_x as int, max_y as int) == high_corner(points@.subrange(0, i as int)),
        decreases points@.len() - i,
    {
        let p = points[i];
        assert(points@.subrange(0, i + 1).drop_last() =~= points@.subrange(0, i as int));
        if p.x < min_x {
            min_x = p.x;
        }
        if p.y < min_y {
            min_y = p.y;
        }
        if p.x > max_x {
            max_x = p.x;
        }
        if p.y > max_y {
            max_y = p.y;
        }
        i = i + 1;
    }
    assert(points@.subrange(0, i as int) =~= points@);
    proof {
        lemma_corners_within(points@);
    }
    (Point2d { x: min_x - 1, y: min_y - 1 }, Point2d { x: max_x + 1, y: max_y + 1 })
}

/// The corners of a bootstrap triangle that holds the box from `min_bounds`
/// to `max_bounds` deep inside it: a right angle below and left of the box,
/// with legs that reach far past it.
fn compute_super_triangle(min_bounds: &Point2d, max_bounds: &Point2d) -> (r: (
    Point2d,
    Point2d,
    Point2d,
))
    requires
        -COORD_LIMIT - 1 <= min_bounds.x < max_bounds.x <= COORD_LIMIT + 1,
        -COORD_LIMIT - 1 <= min_bounds.y < max_bounds.y <= COORD_LIMIT + 1,
    ensures
        forall|p: Point2d|
            min_bounds.x <= p.x <= max_bounds.x && min_bounds.y <= p.y <= max_bounds.y ==> {
                &&& #[trigger] orient_spec(r.0, r.1, p) > 0
                &&& orient_spec(r.1, r.2, p) > 0
                &&& orient_spec(r.2, r.0, p) > 0
            },
        within(r.0, WORK_LIMIT as int),
        within(r.1, WORK_LIMIT as int),
        within(r.2, WORK_LIMIT as int),
        r == super_corners(*min_bounds, *max_bounds),
{
    let wx = max_bounds.x - min_bounds.x;
    let wy = max_bounds.y - min_bounds.y;
    let w = if wx > wy {
        wx
    } else {
        wy
    };
    let reach = SUPER_SCALE * w;
    proof {
        let (lx, ly, hx, hy) = (min_bounds.x as int, min_bounds.y as int, max_bounds.x as int, max_bounds.y as int);
        let rr = reach as int;
        let ww = w as int;
        assert(rr == 512 * ww && ww >= hx - lx && ww >= hy - ly && ww >= 1);
        assert(ww <= 131074 && rr <= 67109888);
        let pa = Point2d { x: (lx - rr) as i64, y: (ly - rr) as i64 };
        let pb = Point2d { x: (hx + 2 * rr) as i64, y: (ly - rr) as i64 };
        let pc = Point2d { x: (lx - rr) as i64, y: (hy + 2 * rr) as i64 };
        assert(pa.x == lx - rr && pa.y == ly - rr && pb.x == hx + 2 * rr && pb.y == ly - rr);
        assert(pc.x == lx - rr && pc.y == hy + 2 * rr);
        assert forall|p: Point2d|
            min_bounds.x <= p.x <= max_bounds.x && min_bounds.y <= p.y <= max_bounds.y implies {
                &&& #[trigger] orient_spec(
                    Point2d { x: (lx - rr) as i64, y: (ly - rr) as i64 },
                    Point2d { x: (hx + 2 * rr) as i64, y: (ly - rr) as i64 },
                    p,
                ) > 0
                &&& orient_spec(
                    Point2d { x: (hx + 2 * rr) as i64, y: (ly - rr) as i64 },
                    Point2d { x: (lx - rr) as i64, y: (hy + 2 * rr) as i64 },
                    p,
                ) > 0
                &&& orient_spec(
                    Point2d { x: (lx - rr) as i64, y: (hy + 2 * rr) as i64 },
                    Point2d { x: (lx - rr) as i64, y: (ly - rr) as i64 },
                    p,
                ) > 0
            } by {
            let (px, py) = (p.x as int, p.y as int);
            assert(orient_spec(pa, pb, p) == (hx + 2 * rr - (lx - rr)) * (py - (ly - rr)) - 0 * (px - (lx - rr)));
            assert(orient_spec(pb, pc, p) == ((lx - rr) - (hx + 2 * rr)) * (py - (ly - rr)) - ((hy + 2 * rr) - (ly - rr)) * (px - (hx + 2 * rr)));
            assert(orient_spec(pc, pa, p) == 0 * (py - (hy + 2 * rr)) - ((ly - rr) - (hy + 2 * rr)) * (px - (lx - rr)));
            assert((hx + 2 * rr - (lx - rr)) * (py - (ly - rr)) > 0) by (nonlinear_arith)
                requires hx > lx, rr >= 512, py >= ly;
            assert(((lx - rr) - (hx + 2 * rr)) * (py - (ly - rr)) - ((hy + 2 * rr) - (ly - rr)) * (px - (hx + 2 * rr)) > 0) by (nonlinear_arith)
                requires
                    lx <= px <= hx,
                    ly <= py <= hy,
                    rr == 512 * ww,
                    ww >= hx - lx,
                    ww >= hy - ly,
                    ww >= 1,
            ;
            assert((hy + 2 * rr - (ly - rr)) * (px - (lx - rr)) > 0) by (nonlinear_arith)
                requires hy > ly, rr >= 512, px >= lx;
            assert(0 * (px - (lx - rr)) == 0 && 0 * (py - (hy + 2 * rr)) == 0);
            assert(-(((ly - rr) - (hy + 2 * rr)) * (px - (lx - rr))) == (hy + 2 * rr - (ly - rr)) * (px - (lx - rr))) by (nonlinear_arith);
        }
    }
    (
        Point2d { x: min_bounds.x - reach, y: min_bounds.y - reach },
        Point2d { x: max_bounds.x + 2 * reach, y: min_bounds.y - reach },
        Point2d { x: min_bounds.x - reach, y: max_bounds.y + 2 * reach },
    )
}

/// Splits `triangles` into those whose circumcircle does not hold `point`
/// strictly inside, and those whose circumcircle does; both keep their order.
fn split_bad_triangles(
    point: Point2d,
    triangles: &Vec<TriangleNode2d>,
    lookup: &Vec<Point2d>,
) -> (r: (Vec<TriangleNode2d>, Vec<TriangleNode2d>))
    requires
        within(point, WORK_LIMIT as int),
        all_within(lookup@, WORK_LIMIT as int),
        all_ids_below(triangles@, lookup@.len() as int),
        no_repeats(triangles@),
    ensures
        all_ids_below(r.0@, lookup@.len() as int),
        no_repeats(r.0@),
        all_ids_below(r.1@, lookup@.len() as int),
        forall|k: int| 0 <= k < r.0@.len() ==> !is_bad(#[trigger] r.0@[k], lookup@, point),
        forall|k: int| 0 <= k < r.1@.len() ==> is_bad(#[trigger] r.1@[k], lookup@, point),
        r.0@.len() + r.1@.len() == triangles@.len(),
        forall|x: int| 0 <= x < r.0@.len() ==> triangles@.contains(#[trigger] r.0@[x]),
        forall|x: int| 0 <= x < r.1@.len() ==> triangles@.contains(#[trigger] r.1@[x]),
        ids_of(r.0@) == keep_good(ids_of(triangles@), lookup@, point),
        ids_of(r.1@) == keep_bad(ids_of(triangles@), lookup@, point),
        all_distinct(triangles@) ==> all_distinct(r.0@) && all_distinct(r.1@),
{
    let mut kept: Vec<TriangleNode2d> = Vec::new();
    let mut bad: Vec<TriangleNode2d> = Vec::new();
    let ghost mut from: Seq<int> = Seq::empty();
    let mut k: usize = 0;
    while k < triangles.len()
        invariant
            k <= triangles@.len(),
            within(point, WORK_LIMIT as int),
            all_within(lookup@, WORK_LIMIT as int),
            all_ids_below(triangles@, lookup@.len() as int),
            no_repeats(triangles@),
            from.len() == kept@.len(),
            forall|x: int| 0 <= x < from.len() ==> 0 <= #[trigger] from[x] < k,
            forall|x: int, y: int| 0 <= x < y < from.len() ==> #[trigger] from[x] < #[trigger] from[y],
            forall|x: int| 0 <= x < kept@.len() ==> #[trigger] kept@[x] == triangles@[from[x]],
            forall|x: int| 0 <= x < kept@.len() ==> !is_bad(#[trigger] kept@[x], lookup@, point),
            forall|x: int| 0 <= x < bad@.len() ==> is_bad(#[trigger] bad@[x], lookup@, point),
            forall|x: int| 0 <= x < bad@.len() ==> triangles@.contains(#[trigger] bad@[x]),
            all_ids_below(bad@, lookup@.len() as int),
            kept@.len() + bad@.len() == k,
            ids_of(kept@) == keep_good(ids_of(triangles@).subrange(0, k as int), lookup@, point),
            ids_of(bad@) == keep_bad(ids_of(triangles@).subrange(0, k as int), lookup@, point),
        decreases triangles@.len() - k,
    {
        let t = triangles[k];
        assert(ids_of(triangles@).subrange(0, k + 1).drop_last() =~= ids_of(triangles@).subrange(0, k as int));
        assert(ids_of(triangles@).subrange(0, k + 1).last() == t.ids());
        assert(ids_below(triangles@[k as int], lookup@.len() as int));
        proof { t.lemma_len(); }
        let inside = circumcircle_contains(
            lookup[t.get_vertex_a_id()],
            lookup[t.get_vertex_b_id()],
            lookup[t.get_vertex_c_id()],
            point,
        );
        let ghost kept0 = kept@;
        let ghost bad0 = bad@;
        if inside {
            bad.push(t);
            assert(ids_of(bad@) =~= ids_of(bad0).push(t.ids()));
            assert forall|x: int| 0 <= x < bad@.len() implies #[trigger] ids_below(bad@[x], lookup@.len() as int) by {
                if x < bad0.len() {
                    assert(bad@[x] == bad0[x]);
                }
            }
            assert forall|x: int| 0 <= x < bad@.len() implies is_bad(#[trigger] bad@[x], lookup@, point) by {
                if x < bad0.len() {
                    assert(bad@[x] == bad0[x]);
                }
            }
            assert forall|x: int| 0 <= x < bad@.len() implies triangles@.contains(#[trigger] bad@[x]) by {
                if x < bad0.len() {
                    assert(bad@[x] == bad0[x]);
                } else {
                    assert(bad@[x] == triangles@[k as int]);
                }
            }
        } else {
            kept.push(t);
            assert(ids_of(kept@) =~= ids_of(kept0).push(t.ids()));
            proof {
                from = from.push(k as int);
            }
            assert forall|x: int| 0 <= x < kept@.len() implies #[trigger] kept@[x] == triangles@[from[x]] by {
                if x < kept0.len() {
                    assert(kept@[x] == kept0[x]);
                }
            }
            assert forall|x: int| 0 <= x < kept@.len() implies !is_bad(#[trigger] kept@[x], lookup@, point) by {
                if x < kept0.len() {
                    assert(kept@[x] == kept0[x]);
                }
            }
        }
        k = k + 1;
    }
    assert(ids_of(triangles@).subrange(0, k as int) =~= ids_of(triangles@));
    assert forall|x: int| 0 <= x < kept@.len() implies #[trigger] ids_below(kept@[x], lookup@.len() as int) by {
        assert(kept@[x] == triangles@[from[x]]);
    }
    assert forall|x: int| 0 <= x < kept@.len() implies triangles@.contains(#[trigger] kept@[x]) by {
        assert(kept@[x] == triangles@[from[x]]);
    }
    assert forall|x: int, y: int|
        #![trigger kept@[x], kept@[y]]
        0 <= x < kept@.len() && 0 <= y < kept@.len() && x != y implies !kept@[x].same_triangle(&kept@[y]) by {
        assert(kept@[x] == triangles@[from[x]]);
        assert(kept@[y] == triangles@[from[y]]);
        if x < y {
            assert(from[x] < from[y]);
        } else {
            assert(from[y] < from[x]);
        }
    }
    proof {
        if all_distinct(triangles@) {
            assert forall|x: int| 0 <= x < kept@.len() implies #[trigger] distinct_corners(kept@[x]) by {
                let w = choose|w: int| 0 <= w < triangles@.len() && triangles@[w] == kept@[x];
            }
            assert forall|x: int| 0 <= x < bad@.len() implies #[trigger] distinct_corners(bad@[x]) by {
                let w = choose|w: int| 0 <= w < triangles@.len() && triangles@[w] == bad@[x];
            }
        }
    }
    (kept, bad)
}

/// Whether `e` joins two consecutive corners of `t`, in either direction.
pub open spec fn has_edge(t: TriangleNode2d, e: EdgeNode2d) -> bool {
    has_pair(t.ids(), (e.a(), e.b()))
}

/// How many triangles of `ts` have the edge `e`.
pub open spec fn touching(ts: Seq<TriangleNode2d>, e: EdgeNode2d) -> nat {
    pair_count(ids_of(ts), (e.a(), e.b()))
}

/// The two end ids of each edge of `es`.
pub open spec fn edge_pairs(es: Seq<EdgeNode2d>) -> Seq<(usize, usize)> {
    es.map_values(|e: EdgeNode2d| (e.a(), e.b()))
}

fn has_edge_exec(t: &TriangleNode2d, e: &EdgeNode2d) -> (r: bool)
    ensures
        r == has_edge(*t, *e),
{
    let a = e.get_vertex_a_id();
    let b = e.get_vertex_b_id();
    let i = t.get_vertex_ids();
    (a == i[0] && b == i[1]) || (a == i[1] && b == i[0]) || (a == i[1] && b == i[2]) || (a == i[2]
        && b == i[1]) || (a == i[2] && b == i[0]) || (a == i[0] && b == i[2])
}

fn count_touching(ts: &Vec<TriangleNode2d>, e: &EdgeNode2d) -> (r: usize)
    ensures
        r == touching(ts@, *e),
{
    let mut c: usize = 0;
    let mut k: usize = 0;
    while k < ts.len()
        invariant
            k <= ts@.len(),
            c == pair_count(ids_of(ts@).subrange(0, k as int), (e.a(), e.b())),
            c <= k,
        decreases ts@.len() - k,
    {
        assert(ids_of(ts@).subrange(0, k + 1).drop_last() =~= ids_of(ts@).subrange(0, k as int));
        assert(ids_of(ts@).subrange(0, k + 1).last() == ts@[k as int].ids());
        if has_edge_exec(&ts[k], e) {
            c = c + 1;
        }
        k = k + 1;
    }
    assert(ids_of(ts@).subrange(0, k as int) =~= ids_of(ts@));
    c
}

/// The edges that bound the hole left by removing `bad`: those that exactly
/// one of the removed triangles has. Edges met by two removed triangles lie
/// inside the hole and are left out.
fn hole_boundary(bad: &Vec<TriangleNode2d>, bound: Ghost<int>, lo: Ghost<int>, n: Ghost<int>) -> (r: Vec<EdgeNode2d>)
    requires
        all_ids_below(bad@, bound@),
        forall|k: int| 0 <= k < bad@.len() ==> #[trigger] settled(bad@[k], lo@, n@),
        all_distinct(bad@),
    ensures
        edge_pairs(r@) == boundary_pairs(ids_of(bad@), ids_of(bad@)),
        forall|x: int| 0 <= x < r@.len() ==> (#[trigger] r@[x]).a() != r@[x].b(),
        forall|x: int|
            0 <= x < r@.len() ==> (#[trigger] r@[x]).a() < bound@ && r@[x].b() < bound@,
        forall|x: int|
            0 <= x < r@.len() ==> ((#[trigger] r@[x]).a() < lo@ || r@[x].a() >= n@) && (r@[x].b()
                < lo@ || r@[x].b() >= n@),
{
    let ghost all = ids_of(bad@);
    let mut boundary: Vec<EdgeNode2d> = Vec::new();
    let mut k: usize = 0;
    while k < bad.len()
        invariant
            k <= bad@.len(),
            all == ids_of(bad@),
            all_ids_below(bad@, bound@),
            forall|k: int| 0 <= k < bad@.len() ==> #[trigger] settled(bad@[k], lo@, n@),
            edge_pairs(boundary@) == boundary_pairs(all.subrange(0, k as int), all),
            all_distinct(bad@),
            forall|x: int| 0 <= x < boundary@.len() ==> (#[trigger] boundary@[x]).a() != boundary@[x].b(),
            forall|x: int|
                0 <= x < boundary@.len() ==> (#[trigger] boundary@[x]).a() < bound@ && boundary@[x].b() < bound@,
            forall|x: int|
                0 <= x < boundary@.len() ==> ((#[trigger] boundary@[x]).a() < lo@ || boundary@[x].a() >= n@)
                    && (boundary@[x].b() < lo@ || boundary@[x].b() >= n@),
        decreases bad@.len() - k,
    {
        let t = bad[k];
        assert(ids_below(bad@[k as int], bound@));
        assert(settled(bad@[k as int], lo@, n@));
        assert(all.subrange(0, k + 1).drop_last() =~= all.subrange(0, k as int));
        assert(all.subrange(0, k + 1).last() == t.ids());
        let edges = t.get_edges();
        let ghost b0 = boundary@;
        let e0 = edges[0];
        let e1 = edges[1];
        let e2 = edges[2];
        let keep0 = count_touching(bad, &e0) == 1;
        let keep1 = count_touching(bad, &e1) == 1;
        let keep2 = count_touching(bad, &e2) == 1;
        if keep0 {
            boundary.push(e0);
        }
        let ghost b1 = boundary@;
        if keep1 {
            boundary.push(e1);
        }
        let ghost b2 = boundary@;
        if keep2 {
            boundary.push(e2);
        }
        proof {
            let t3 = t.ids();
            assert(edge_pairs(b1) =~= edge_pairs(b0) + (if keep0 { seq![(t3[0], t3[1])] } else { Seq::empty() }));
            assert(edge_pairs(b2) =~= edge_pairs(b1) + (if keep1 { seq![(t3[1], t3[2])] } else { Seq::empty() }));
            assert(edge_pairs(boundary@) =~= edge_pairs(b2) + (if keep2 { seq![(t3[2], t3[0])] } else { Seq::empty() }));
            assert(once_pairs(t3, all) =~= (if keep0 { seq![(t3[0], t3[1])] } else { Seq::empty() }) + (if keep1 {
                seq![(t3[1], t3[2])]
            } else {
                Seq::empty()
            }) + (if keep2 { seq![(t3[2], t3[0])] } else { Seq::empty() }));
            assert(edge_pairs(boundary@) =~= boundary_pairs(all.subrange(0, k + 1), all));
            assert forall|x: int|
                0 <= x < boundary@.len() implies (#[trigger] boundary@[x]).a() < bound@ && boundary@[x].b() < bound@
                    && (boundary@[x].a() < lo@ || boundary@[x].a() >= n@) && (boundary@[x].b() < lo@ || boundary@[x].b() >= n@)
                    && boundary@[x].a() != boundary@[x].b() by {
                assert(distinct_corners(bad@[k as int]));
                if x < b0.len() {
                    assert(boundary@[x] == b0[x]);
                } else if x < b1.len() {
                    assert(boundary@[x] == b1[x]);
                } else if x < b2.len() {
                    assert(boundary@[x] == b2[x]);
                }
            }
        }
        k = k + 1;
    }
    assert(all.subrange(0, k as int) =~= all);
    boundary
}

/// The triangles of `triangles` whose corners are all input points, that
/// is, ids below `n`; their order is kept.
fn drop_bootstrap(triangles: &Vec<TriangleNode2d>, n: usize) -> (r: Vec<TriangleNode2d>)
    requires
        no_repeats(triangles@),
    ensures
        all_ids_below(r@, n as int),
        no_repeats(r@),
        forall|x: int| 0 <= x < r@.len() ==> triangles@.contains(#[trigger] r@[x]),
        forall|k: int|
            0 <= k < triangles@.len() && ids_below(#[trigger] triangles@[k], n as int)
                ==> r@.contains(triangles@[k]),
        ids_of(r@) == real_only(ids_of(triangles@), n as int),
        all_distinct(triangles@) ==> all_distinct(r@),
{
    let mut kept: Vec<TriangleNode2d> = Vec::new();
    let ghost mut from: Seq<int> = Seq::empty();
    let mut k: usize = 0;
    while k < triangles.len()
        invariant
            k <= triangles@.len(),
            no_repeats(triangles@),
            from.len() == kept@.len(),
            forall|x: int| 0 <= x < from.len() ==> 0 <= #[trigger] from[x] < k,
            forall|x: int, y: int| 0 <= x < y < from.len() ==> #[trigger] from[x] < #[trigger] from[y],
            forall|x: int| 0 <= x < kept@.len() ==> #[trigger] kept@[x] == triangles@[from[x]],
            all_ids_below(kept@, n as int),
            forall|m: int|
                0 <= m < k && ids_below(#[trigger] triangles@[m], n as int) ==> kept@.contains(
                    triangles@[m],
                ),
            ids_of(kept@) == real_only(ids_of(triangles@).subrange(0, k as int), n as int),
        decreases triangles@.len() - k,
    {
        let t = triangles[k];
        assert(ids_of(triangles@).subrange(0, k + 1).drop_last() =~= ids_of(triangles@).subrange(0, k as int));
        assert(ids_of(triangles@).subrange(0, k + 1).last() == t.ids());
        proof { t.lemma_len(); }
        let ids = t.get_vertex_ids();
        let ghost kept0 = kept@;
        if ids[0] < n && ids[1] < n && ids[2] < n {
            kept.push(t);
            assert(ids_of(kept@) =~= ids_of(kept0).push(t.ids()));
            proof {
                from = from.push(k as int);
                assert(kept@[kept@.len() - 1] == t);
            }
            assert forall|x: int| 0 <= x < kept@.len() implies #[trigger] kept@[x] == triangles@[from[x]] by {
                if x < kept0.len() {
                    assert(kept@[x] == kept0[x]);
                }
            }
            assert forall|x: int| 0 <= x < kept@.len() implies #[trigger] ids_below(kept@[x], n as int) by {
                if x < kept0.len() {
                    assert(kept@[x] == kept0[x]);
                }
            }
            assert forall|m: int|
                0 <= m < k + 1 && ids_below(#[trigger] triangles@[m], n as int) implies kept@.contains(
                triangles@[m],
            ) by {
                if m < k {
                    let w = choose|w: int| 0 <= w < kept0.len() && kept0[w] == triangles@[m];
                    assert(kept@[w] == triangles@[m]);
                } else {
                    assert(kept@[kept@.len() - 1] == triangles@[m]);
                }
            }
        }
        k = k + 1;
    }
    assert(ids_of(triangles@).subrange(0, k as int) =~= ids_of(triangles@));
    assert forall|x: int, y: int|
        #![trigger kept@[x], kept@[y]]
        0 <= x < kept@.len() && 0 <= y < kept@.len() && x != y implies !kept@[x].same_triangle(&kept@[y]) by {
        assert(kept@[x] == triangles@[from[x]]);
        assert(kept@[y] == triangles@[from[y]]);
        if x < y {
            assert(from[x] < from[y]);
        } else {
            assert(from[y] < from[x]);
        }
    }
    assert forall|x: int| 0 <= x < kept@.len() implies triangles@.contains(#[trigger] kept@[x]) by {
        assert(kept@[x] == triangles@[from[x]]);
    }
    proof {
        if all_distinct(triangles@) {
            assert forall|x: int| 0 <= x < kept@.len() implies #[trigger] distinct_corners(kept@[x]) by {
                assert(kept@[x] == triangles@[from[x]]);
            }
        }
    }
    kept
}

} // verus!
