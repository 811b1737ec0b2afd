//! The Voronoi tessellation dual to a Delaunay triangulation.
//!
//! Each triangle with a circumcircle gives one Voronoi vertex: its
//! circumcentre, rounded to the integer grid. Each input point met by three
//! or more triangles gives one cell: the circumcentres of those triangles,
//! ordered counter-clockwise by angle about their centroid.
//!
//! A cell whose site lies on the convex hull of the input is open: part of
//! it lay in the region that the bootstrap triangle covered, and only
//! clipping to a boundary closes it.

use vstd::prelude::*;
use vstd::multiset::Multiset;
use crate::circumcircle::{Circumcircle, rounded_centre, round_div, round_quotient, lemma_round_div_bound};
use crate::delaunay::{Delaunay2d, points_in_limit, all_ids_below, ids_below};
use crate::geometry::{Point2d, within, orient_spec, angle_before, sort_by_angle, COORD_LIMIT, DIR_LIMIT};
use crate::triangle_node2d::TriangleNode2d;

verus! {

/// Largest magnitude of a Voronoi vertex coordinate.
pub const VERTEX_LIMIT: i64 = 4503599627370496;

/// One cell: ids of Voronoi vertices, and the id of the input point, the
/// site, that the cell surrounds.
pub struct VoronoiCell2d {
    vertices: Vec<usize>,
    generating_point: usize,
}

/// The cells, and the point of each Voronoi vertex id.
pub struct Voronoi2d {
    cells: Vec<VoronoiCell2d>,
    vertex_lookup: Vec<Point2d>,
}

/// Whether `v` is a corner of `t`.
pub open spec fn has_corner(t: TriangleNode2d, v: usize) -> bool {
    t.ids()[0] == v || t.ids()[1] == v || t.ids()[2] == v
}

/// Whether the corners of `t` are not collinear, so that it has a
/// circumcircle.
pub open spec fn has_circle(t: TriangleNode2d, lookup: Seq<Point2d>) -> bool {
    orient_spec(t.corner(lookup, 0), t.corner(lookup, 1), t.corner(lookup, 2)) != 0
}

/// The Voronoi vertex of `t`.
pub open spec fn centre_of(t: TriangleNode2d, lookup: Seq<Point2d>) -> Point2d {
    rounded_centre(t.corner(lookup, 0), t.corner(lookup, 1), t.corner(lookup, 2))
}

/// How many triangles of `ts` have `v` as a corner.
pub open spec fn count_with(ts: Seq<TriangleNode2d>, v: usize) -> nat
    decreases ts.len(),
{
    if ts.len() == 0 {
        0
    } else {
        count_with(ts.drop_last(), v) + if has_corner(ts.last(), v) {
            1nat
        } else {
            0nat
        }
    }
}

/// How many triangles of `ts` have `v` as a corner and a circumcircle.
pub open spec fn count_with_circle(ts: Seq<TriangleNode2d>, lookup: Seq<Point2d>, v: usize) -> nat
    decreases ts.len(),
{
    if ts.len() == 0 {
        0
    } else {
        count_with_circle(ts.drop_last(), lookup, v) + if has_corner(ts.last(), v) && has_circle(
            ts.last(),
            lookup,
        ) {
            1nat
        } else {
            0nat
        }
    }
}

/// The sums of the `x` and of the `y` coordinates of the points that `m`
/// holds, each counted as often as `m` holds it, over the ids below `n`.
pub open spec fn coord_sums(m: Multiset<usize>, lookup: Seq<Point2d>, n: nat) -> (int, int)
    decreases n,
{
    if n == 0 {
        (0, 0)
    } else {
        let (x, y) = coord_sums(m, lookup, (n - 1) as nat);
        let p = lookup[n - 1];
        let c = m.count((n - 1) as usize) as int;
        (x + c * p.x, y + c * p.y)
    }
}

/// The centroid of the points of `ids`, rounded to the integer grid. It
/// depends on which ids are there and how often, not on their order.
pub open spec fn centroid_of(ids: Seq<usize>, lookup: Seq<Point2d>) -> Point2d {
    let (x, y) = coord_sums(ids.to_multiset(), lookup, lookup.len());
    Point2d { x: round_div(x, ids.len() as int) as i64, y: round_div(y, ids.len() as int) as i64 }
}

proof fn lemma_coord_sums_empty(lookup: Seq<Point2d>, n: nat)
    requires
        n <= lookup.len(),
        lookup.len() <= usize::MAX,
    ensures
        coord_sums(Multiset::empty(), lookup, n) == (0int, 0int),
    decreases n,
{
    broadcast use vstd::multiset::group_multiset_axioms;

    if n > 0 {
        lemma_coord_sums_empty(lookup, (n - 1) as nat);
        assert(Multiset::<usize>::empty().count((n - 1) as usize) == 0);
    }
}

proof fn lemma_coord_sums_insert(m: Multiset<usize>, lookup: Seq<Point2d>, n: nat, v: usize)
    requires
        n <= lookup.len(),
        lookup.len() <= usize::MAX,
    ensures
        coord_sums(m.insert(v), lookup, n) == (if v < n {
            (coord_sums(m, lookup, n).0 + lookup[v as int].x, coord_sums(m, lookup, n).1
                + lookup[v as int].y)
        } else {
            coord_sums(m, lookup, n)
        }),
    decreases n,
{
    broadcast use vstd::multiset::group_multiset_axioms;

    if n > 0 {
        lemma_coord_sums_insert(m, lookup, (n - 1) as nat, v);
        let k = (n - 1) as usize;
        let c = m.count(k) as int;
        let p = lookup[n - 1];
        if v == k {
            assert(m.insert(v).count(k) == c + 1);
            assert((c + 1) * p.x == c * p.x + p.x) by (nonlinear_arith);
            assert((c + 1) * p.y == c * p.y + p.y) by (nonlinear_arith);
        } else {
            assert(m.insert(v).count(k) == c);
        }
    }
}

/// `p` seen from `c`.
pub open spec fn offset(p: Point2d, c: Point2d) -> Point2d {
    Point2d { x: (p.x - c.x) as i64, y: (p.y - c.y) as i64 }
}

/// Whether the points of `ids` run by angle about `c`: no point comes
/// before the one ahead of it.
pub open spec fn sorted_about(ids: Seq<usize>, lookup: Seq<Point2d>, c: Point2d) -> bool {
    forall|k: int|
        0 <= k && k + 1 < ids.len() ==> !angle_before(
            offset(lookup[#[trigger] ids[k + 1] as int], c),
            offset(lookup[ids[k] as int], c),
        )
}

/// Whether every point of `lookup` lies within the Voronoi vertex limit.
pub open spec fn vertices_in_limit(lookup: Seq<Point2d>) -> bool {
    forall|k: int| 0 <= k < lookup.len() ==> within(#[trigger] lookup[k], VERTEX_LIMIT as int)
}

impl VoronoiCell2d {
    /// The Voronoi vertex ids of the cell.
    pub closed spec fn vertices_view(&self) -> Seq<usize> {
        self.vertices@
    }

    /// The id of the site.
    pub closed spec fn site(&self) -> usize {
        self.generating_point
    }

    /// The Voronoi vertex ids of the cell, in order about the centroid.
    pub fn get_vertex_ids(&self) -> (r: &Vec<usize>)
        ensures
            r@ == self.vertices_view(),
    {
        &self.vertices
    }

    /// The id of the input point that the cell surrounds.
    pub fn get_generating_point(&self) -> (r: &usize)
        ensures
            *r == self.site(),
    {
        &self.generating_point
    }

    /// The centroid of the cell's vertices, rounded to the integer grid.
    pub fn get_centre_position(&self, vertex_lookup: &Vec<Point2d>) -> (r: Point2d)
        requires
            self.vertices_view().len() > 0,
            forall|k: int|
                0 <= k < self.vertices_view().len() ==> #[trigger] self.vertices_view()[k]
                    < vertex_lookup@.len(),
            vertices_in_limit(vertex_lookup@),
        ensures
            r == centroid_of(self.vertices_view(), vertex_lookup@),
            within(r, VERTEX_LIMIT as int),
    {
        centroid(&self.vertices, vertex_lookup)
    }
}

/// The centroid of the points of `ids`, rounded to the integer grid.
pub fn centroid(ids: &Vec<usize>, lookup: &Vec<Point2d>) -> (r: Point2d)
    requires
        ids@.len() > 0,
        forall|k: int| 0 <= k < ids@.len() ==> #[trigger] ids@[k] < lookup@.len(),
        vertices_in_limit(lookup@),
    ensures
        r == centroid_of(ids@, lookup@),
        within(r, VERTEX_LIMIT as int),
{
    let mut sx: i128 = 0;
    let mut sy: i128 = 0;
    let mut k: usize = 0;
    let lookup_len = lookup.len();
    proof {
        lemma_coord_sums_empty(lookup@, lookup@.len());
        assert(ids@.subrange(0, 0) =~= Seq::<usize>::empty());
        vstd::seq_lib::to_multiset_len(ids@.subrange(0, 0));
        broadcast use vstd::multiset::group_multiset_axioms;
        assert(ids@.subrange(0, 0).to_multiset() =~= Multiset::empty());
    }
    while k < ids.len()
        invariant
            k <= ids@.len(),
            forall|j: int| 0 <= j < ids@.len() ==> #[trigger] ids@[j] < lookup@.len(),
            vertices_in_limit(lookup@),
            lookup@.len() == lookup_len,
            (sx as int, sy as int) == coord_sums(
                ids@.subrange(0, k as int).to_multiset(),
                lookup@,
                lookup@.len(),
            ),
            -(k * VERTEX_LIMIT) <= sx <= k * VERTEX_LIMIT,
            -(k * VERTEX_LIMIT) <= sy <= k * VERTEX_LIMIT,
        decreases ids@.len() - k,
    {
        let p = lookup[ids[k]];
        proof {
            let pre = ids@.subrange(0, k as int);
            assert(ids@.subrange(0, k + 1) =~= pre.push(ids@[k as int]));
            vstd::seq_lib::to_multiset_build(pre, ids@[k as int]);
            lemma_coord_sums_insert(pre.to_multiset(), lookup@, lookup@.len(), ids@[k as int]);
        }
        assert(within(lookup@[ids@[k as int] as int], VERTEX_LIMIT as int));
        proof {
            assert(k * VERTEX_LIMIT <= 18446744073709551615int * 4503599627370496int) by (nonlinear_arith)
                requires k < 18446744073709551616int;
        }
        sx = sx + p.x as i128;
        sy = sy + p.y as i128;
        k = k + 1;
        assert((k - 1) * VERTEX_LIMIT + VERTEX_LIMIT == k * VERTEX_LIMIT) by (nonlinear_arith);
    }
    assert(ids@.subrange(0, k as int) =~= ids@);
    let n = ids.len() as i128;
    Point2d { x: round_mean(sx, n), y: round_mean(sy, n) }
}

fn round_mean(s: i128, n: i128) -> (r: i64)
    requires
        0 < n <= 18446744073709551615,
        -(n * VERTEX_LIMIT) <= s <= n * VERTEX_LIMIT,
    ensures
        r == round_div(s as int, n as int),
        -VERTEX_LIMIT <= r <= VERTEX_LIMIT,
{
    let q = round_quotient(s, n);
    proof {
        lemma_round_div_bound(s as int, n as int, VERTEX_LIMIT as int);
    }
    q as i64
}

/// How many triangles of `ts` have a circumcircle.
pub open spec fn count_circles(ts: Seq<TriangleNode2d>, lookup: Seq<Point2d>) -> nat
    decreases ts.len(),
{
    if ts.len() == 0 {
        0
    } else {
        count_circles(ts.drop_last(), lookup) + if has_circle(ts.last(), lookup) {
            1nat
        } else {
            0nat
        }
    }
}

/// The Voronoi vertex ids of the triangles of `ts` around `site` that have
/// a circumcircle, in triangle order: the vertex id of a triangle is the
/// number of triangles with a circumcircle before it.
pub open spec fn around_ids(ts: Seq<TriangleNode2d>, lookup: Seq<Point2d>, site: usize) -> Seq<usize>
    decreases ts.len(),
{
    if ts.len() == 0 {
        Seq::empty()
    } else if has_corner(ts.last(), site) && has_circle(ts.last(), lookup) {
        around_ids(ts.drop_last(), lookup, site).push(count_circles(ts.drop_last(), lookup) as usize)
    } else {
        around_ids(ts.drop_last(), lookup, site)
    }
}

/// Whether `c` is the cell about `site`: it holds one Voronoi vertex for
/// each triangle around `site` that has a circumcircle, each the rounded
/// circumcentre of such a triangle, ordered by angle about their centroid.
pub open spec fn is_cell_of(
    c: VoronoiCell2d,
    site: usize,
    tris: Seq<TriangleNode2d>,
    lookup: Seq<Point2d>,
    vl: Seq<Point2d>,
) -> bool {
    &&& c.site() == site
    &&& c.vertices_view().to_multiset() == around_ids(tris, lookup, site).to_multiset()
    &&& c.vertices_view().len() == count_with_circle(tris, lookup, site)
    &&& forall|j: int|
        0 <= j < c.vertices_view().len() ==> #[trigger] c.vertices_view()[j] < vl.len() && exists|
            k: int,
        |
            0 <= k < tris.len() && has_corner(tris[k], site) && has_circle(tris[k], lookup) && vl[c.vertices_view()[j] as int]
                == centre_of(#[trigger] tris[k], lookup)
    &&& c.vertices_view().len() > 0 ==> sorted_about(
        c.vertices_view(),
        vl,
        centroid_of(c.vertices_view(), vl),
    )
}

/// The Voronoi vertex of each triangle that has one: the table of vertex
/// points, and for each triangle the id of its vertex.
fn circumcentres(tris: &Vec<TriangleNode2d>, lookup: &Vec<Point2d>) -> (r: (
    Vec<Point2d>,
    Vec<Option<usize>>,
))
    requires
        all_ids_below(tris@, lookup@.len() as int),
        points_in_limit(lookup@),
    ensures
        vertices_in_limit(r.0@),
        r.1@.len() == tris@.len(),
        forall|k: int| 0 <= k < tris@.len() ==> (#[trigger] r.1@[k] is Some) == has_circle(tris@[k], lookup@),
        forall|k: int|
            0 <= k < tris@.len() && #[trigger] r.1@[k] is Some ==> r.1@[k]->0 < r.0@.len()
                && r.0@[r.1@[k]->0 as int] == centre_of(tris@[k], lookup@),
        r.0@.len() == count_circles(tris@, lookup@),
        forall|k: int|
            0 <= k < tris@.len() && #[trigger] r.1@[k] is Some ==> r.1@[k]->0 == count_circles(
                tris@.subrange(0, k),
                lookup@,
            ),
{
    let mut vl: Vec<Point2d> = Vec::new();
    let mut tv: Vec<Option<usize>> = Vec::new();
    let mut k: usize = 0;
    while k < tris.len()
        invariant
            k <= tris@.len(),
            all_ids_below(tris@, lookup@.len() as int),
            points_in_limit(lookup@),
            vertices_in_limit(vl@),
            tv@.len() == k,
            forall|m: int| 0 <= m < k ==> (#[trigger] tv@[m] is Some) == has_circle(tris@[m], lookup@),
            forall|m: int|
                0 <= m < k && #[trigger] tv@[m] is Some ==> tv@[m]->0 < vl@.len()
                    && vl@[tv@[m]->0 as int] == centre_of(tris@[m], lookup@),
            vl@.len() == count_circles(tris@.subrange(0, k as int), lookup@),
            forall|m: int|
                0 <= m < k && #[trigger] tv@[m] is Some ==> tv@[m]->0 == count_circles(
                    tris@.subrange(0, m),
                    lookup@,
                ),
        decreases tris@.len() - k,
    {
        let t = tris[k];
        assert(tris@.subrange(0, k + 1).drop_last() =~= tris@.subrange(0, k as int));
        assert(tris@.subrange(0, k + 1).last() == tris@[k as int]);
        assert(ids_below(tris@[k as int], lookup@.len() as int));
        let a = lookup[t.get_vertex_a_id()];
        let b = lookup[t.get_vertex_b_id()];
        let c = lookup[t.get_vertex_c_id()];
        assert(within(a, COORD_LIMIT as int) && within(b, COORD_LIMIT as int) && within(c, COORD_LIMIT as int)) by {
            assert(within(lookup@[t.ids()[0] as int], COORD_LIMIT as int));
            assert(within(lookup@[t.ids()[1] as int], COORD_LIMIT as int));
            assert(within(lookup@[t.ids()[2] as int], COORD_LIMIT as int));
        }
        let ghost vl0 = vl@;
        let ghost tv0 = tv@;
        match Circumcircle::new(a, b, c) {
            Some(circle) => {
                let id = vl.len();
                vl.push(circle.get_centre());
                tv.push(Some(id));
                assert forall|m: int| 0 <= m < vl@.len() implies within(#[trigger] vl@[m], VERTEX_LIMIT as int) by {
                    if m < vl0.len() {
                        assert(vl@[m] == vl0[m]);
                    }
                }
            },
            None => {
                tv.push(None);
            },
        }
        assert forall|m: int| 0 <= m < k + 1 implies (#[trigger] tv@[m] is Some) == has_circle(tris@[m], lookup@) by {
            if m < k {
                assert(tv@[m] == tv0[m]);
            }
        }
        assert forall|m: int|
            0 <= m < k + 1 && #[trigger] tv@[m] is Some implies tv@[m]->0 < vl@.len()
                && vl@[tv@[m]->0 as int] == centre_of(tris@[m], lookup@) by {
            if m < k {
                assert(tv@[m] == tv0[m]);
                assert(vl@[tv@[m]->0 as int] == vl0[tv@[m]->0 as int]);
            }
        }
        assert forall|m: int|
            0 <= m < k + 1 && #[trigger] tv@[m] is Some implies tv@[m]->0 == count_circles(
                tris@.subrange(0, m),
                lookup@,
            ) by {
            if m < k {
                assert(tv@[m] == tv0[m]);
            }
        }
        k = k + 1;
    }
    assert(tris@.subrange(0, k as int) =~= tris@);
    (vl, tv)
}

fn has_corner_exec(t: &TriangleNode2d, v: usize) -> (r: bool)
    ensures
        r == has_corner(*t, v),
{
    let ids = t.get_vertex_ids();
    ids[0] == v || ids[1] == v || ids[2] == v
}

/// The cell about `site`, or `None` when fewer than three triangles have
/// `site` as a corner.
fn cell_about(
    site: usize,
    tris: &Vec<TriangleNode2d>,
    lookup: &Vec<Point2d>,
    tv: &Vec<Option<usize>>,
    vl: &Vec<Point2d>,
) -> (r: Option<VoronoiCell2d>)
    requires
        vertices_in_limit(vl@),
        tv@.len() == tris@.len(),
        forall|k: int| 0 <= k < tris@.len() ==> (#[trigger] tv@[k] is Some) == has_circle(tris@[k], lookup@),
        forall|k: int|
            0 <= k < tris@.len() && #[trigger] tv@[k] is Some ==> tv@[k]->0 < vl@.len()
                && vl@[tv@[k]->0 as int] == centre_of(tris@[k], lookup@),
        forall|k: int|
            0 <= k < tris@.len() && #[trigger] tv@[k] is Some ==> tv@[k]->0 == count_circles(
                tris@.subrange(0, k),
                lookup@,
            ),
    ensures
        r.is_some() == (count_with(tris@, site) >= 3),
        r matches Some(c) ==> is_cell_of(c, site, tris@, lookup@, vl@),
{
    let mut count: usize = 0;
    let mut k: usize = 0;
    while k < tris.len()
        invariant
            k <= tris@.len(),
            count == count_with(tris@.subrange(0, k as int), site),
            count <= k,
        decreases tris@.len() - k,
    {
        assert(tris@.subrange(0, k + 1).drop_last() =~= tris@.subrange(0, k as int));
        if has_corner_exec(&tris[k], site) {
            count = count + 1;
        }
        k = k + 1;
    }
    assert(tris@.subrange(0, k as int) =~= tris@);
    if count < 3 {
        return None;
    }
    let mut ids: Vec<usize> = Vec::new();
    let mut k: usize = 0;
    while k < tris.len()
        invariant
            k <= tris@.len(),
            tv@.len() == tris@.len(),
            forall|m: int| 0 <= m < tris@.len() ==> (#[trigger] tv@[m] is Some) == has_circle(tris@[m], lookup@),
            forall|m: int|
                0 <= m < tris@.len() && #[trigger] tv@[m] is Some ==> tv@[m]->0 < vl@.len()
                    && vl@[tv@[m]->0 as int] == centre_of(tris@[m], lookup@),
            ids@.len() == count_with_circle(tris@.subrange(0, k as int), lookup@, site),
            ids@ == around_ids(tris@.subrange(0, k as int), lookup@, site),
            forall|m: int|
                0 <= m < tris@.len() && #[trigger] tv@[m] is Some ==> tv@[m]->0 == count_circles(
                    tris@.subrange(0, m),
                    lookup@,
                ),
            forall|j: int|
                0 <= j < ids@.len() ==> #[trigger] ids@[j] < vl@.len() && exists|m: int|
                    0 <= m < tris@.len() && has_corner(tris@[m], site) && has_circle(tris@[m], lookup@)
                        && vl@[ids@[j] as int] == centre_of(#[trigger] tris@[m], lookup@),
        decreases tris@.len() - k,
    {
        assert(tris@.subrange(0, k + 1).drop_last() =~= tris@.subrange(0, k as int));
        assert(tris@.subrange(0, k + 1).last() == tris@[k as int]);
        if has_corner_exec(&tris[k], site) {
            match tv[k] {
                Some(id) => {
                    let ghost ids0 = ids@;
                    ids.push(id);
                    assert forall|j: int|
                        0 <= j < ids@.len() implies #[trigger] ids@[j] < vl@.len() && exists|m: int|
                            0 <= m < tris@.len() && has_corner(tris@[m], site) && has_circle(
                                tris@[m],
                                lookup@,
                            ) && vl@[ids@[j] as int] == centre_of(#[trigger] tris@[m], lookup@) by {
                        if j < ids0.len() {
                            assert(ids@[j] == ids0[j]);
                        } else {
                            assert(tv@[k as int] is Some);
                            assert(has_corner(tris@[k as int], site));
                        }
                    }
                },
                None => {
                    assert(!(tv@[k as int] is Some));
                },
            }
        }
        k = k + 1;
    }
    assert(tris@.subrange(0, k as int) =~= tris@);
    if ids.len() == 0 {
        let cell = VoronoiCell2d { vertices: ids, generating_point: site };
        return Some(cell);
    }
    let c = centroid(&ids, vl);
    let mut dirs: Vec<Point2d> = Vec::new();
    let mut i: usize = 0;
    while i < vl.len()
        invariant
            i <= vl@.len(),
            vertices_in_limit(vl@),
            within(c, VERTEX_LIMIT as int),
            dirs@.len() == i,
            forall|m: int| 0 <= m < i ==> #[trigger] dirs@[m] == offset(vl@[m], c),
            forall|m: int| 0 <= m < i ==> within(#[trigger] dirs@[m], DIR_LIMIT as int),
        decreases vl@.len() - i,
    {
        let p = vl[i];
        assert(within(vl@[i as int], VERTEX_LIMIT as int));
        dirs.push(Point2d { x: p.x - c.x, y: p.y - c.y });
        i = i + 1;
    }
    let ghost before = ids@;
    assert(before == around_ids(tris@, lookup@, site));
    sort_by_angle(&mut ids, &dirs);
    proof {
        broadcast use vstd::seq_lib::group_to_multiset_ensures;
        vstd::seq_lib::to_multiset_len(ids@);
        vstd::seq_lib::to_multiset_len(before);
        assert(ids@.len() == before.len());
        assert forall|j: int|
            0 <= j < ids@.len() implies #[trigger] ids@[j] < vl@.len() && exists|m: int|
                0 <= m < tris@.len() && has_corner(tris@[m], site) && has_circle(tris@[m], lookup@)
                    && vl@[ids@[j] as int] == centre_of(#[trigger] tris@[m], lookup@) by {
            assert(ids@.contains(ids@[j]));
            assert(ids@.to_multiset().count(ids@[j]) > 0);
            assert(before.contains(ids@[j]));
            let w = choose|w: int| 0 <= w < before.len() && before[w] == ids@[j];
            assert(before[w] < vl@.len());
        }
        assert(centroid_of(ids@, vl@) == c);
        assert forall|k: int|
            0 <= k && k + 1 < ids@.len() implies !angle_before(
            offset(vl@[#[trigger] ids@[k + 1] as int], c),
            offset(vl@[ids@[k] as int], c),
        ) by {
            assert(dirs@[ids@[k + 1] as int] == offset(vl@[ids@[k + 1] as int], c));
            assert(dirs@[ids@[k] as int] == offset(vl@[ids@[k] as int], c));
        }
    }
    Some(VoronoiCell2d { vertices: ids, generating_point: site })
}

impl Voronoi2d {
    /// The cells.
    pub closed spec fn cells_view(&self) -> Seq<VoronoiCell2d> {
        self.cells@
    }

    /// The point of each Voronoi vertex id.
    pub closed spec fn lookup_view(&self) -> Seq<Point2d> {
        self.vertex_lookup@
    }

    /// Every vertex id of every cell names a point of the lookup, and those
    /// points lie within the Voronoi vertex limit.
    pub open spec fn wf(&self) -> bool {
        &&& vertices_in_limit(self.lookup_view())
        &&& forall|i: int|
            0 <= i < self.cells_view().len() ==> forall|k: int|
                0 <= k < (#[trigger] self.cells_view()[i]).vertices_view().len()
                    ==> #[trigger] self.cells_view()[i].vertices_view()[k]
                    < self.lookup_view().len()
    }

    /// Whether `self` is the Voronoi tessellation dual to the triangles
    /// `tris` over the points `lookup`: one cell for each input point that
    /// three or more triangles have as a corner, in order of point id.
    pub open spec fn is_dual_of(&self, tris: Seq<TriangleNode2d>, lookup: Seq<Point2d>) -> bool {
        &&& vertices_in_limit(self.lookup_view())
        &&& self.lookup_view().len() == count_circles(tris, lookup)
        &&& forall|i: int|
            0 <= i < self.cells_view().len() ==> #[trigger] self.cells_view()[i].site() < lookup.len()
                && is_cell_of(
                self.cells_view()[i],
                self.cells_view()[i].site(),
                tris,
                lookup,
                self.lookup_view(),
            )
        &&& forall|i: int, j: int|
            #![trigger self.cells_view()[i], self.cells_view()[j]]
            0 <= i < j < self.cells_view().len() ==> self.cells_view()[i].site()
                < self.cells_view()[j].site()
        &&& forall|v: usize|
            v < lookup.len() ==> (count_with(tris, v) >= 3 <==> exists|i: int|
                0 <= i < self.cells_view().len() && #[trigger] self.cells_view()[i].site() == v)
    }

    /// The Voronoi tessellation dual to `delaunay`.
    pub fn from_delaunay_2d(delaunay: &Delaunay2d) -> (r: Option<Voronoi2d>)
        requires
            delaunay.wf(),
        ensures
            r matches Some(v) && v.wf() && v.is_dual_of(
                delaunay.triangles_view(),
                delaunay.lookup_view(),
            ),
    {
        let tris = delaunay.get_triangles();
        let lookup = delaunay.get_vertex_lookup();
        let (vl, tv) = circumcentres(tris, lookup);
        let mut cells: Vec<VoronoiCell2d> = Vec::new();
        let mut v: usize = 0;
        while v < lookup.len()
            invariant
                v <= lookup@.len(),
                tris@ == delaunay.triangles_view(),
                lookup@ == delaunay.lookup_view(),
                vertices_in_limit(vl@),
                tv@.len() == tris@.len(),
                forall|k: int| 0 <= k < tris@.len() ==> (#[trigger] tv@[k] is Some) == has_circle(tris@[k], lookup@),
                forall|k: int|
                    0 <= k < tris@.len() && #[trigger] tv@[k] is Some ==> tv@[k]->0 < vl@.len()
                        && vl@[tv@[k]->0 as int] == centre_of(tris@[k], lookup@),
                forall|k: int|
                    0 <= k < tris@.len() && #[trigger] tv@[k] is Some ==> tv@[k]->0 == count_circles(
                        tris@.subrange(0, k),
                        lookup@,
                    ),
                vl@.len() == count_circles(tris@, lookup@),
                forall|i: int|
                    0 <= i < cells@.len() ==> #[trigger] cells@[i].site() < v && is_cell_of(
                        cells@[i],
                        cells@[i].site(),
                        tris@,
                        lookup@,
                        vl@,
                    ),
                forall|i: int, j: int|
                    #![trigger cells@[i], cells@[j]]
                    0 <= i < j < cells@.len() ==> cells@[i].site() < cells@[j].site(),
                forall|w: usize|
                    w < v ==> (count_with(tris@, w) >= 3 <==> exists|i: int|
                        0 <= i < cells@.len() && #[trigger] cells@[i].site() == w),
            decreases lookup@.len() - v,
        {
            let ghost cells0 = cells@;
            match cell_about(v, tris, lookup, &tv, &vl) {
                Some(cell) => {
                    cells.push(cell);
                    assert forall|i: int|
                        0 <= i < cells@.len() implies #[trigger] cells@[i].site() < v + 1 && is_cell_of(
                        cells@[i],
                        cells@[i].site(),
                        tris@,
                        lookup@,
                        vl@,
                    ) by {
                        if i < cells0.len() {
                            assert(cells@[i] == cells0[i]);
                        }
                    }
                    assert forall|i: int, j: int|
                        #![trigger cells@[i], cells@[j]]
                        0 <= i < j < cells@.len() implies cells@[i].site() < cells@[j].site() by {
                        assert(cells@[i] == cells0[i] || i == cells0.len());
                        if j < cells0.len() {
                            assert(cells@[j] == cells0[j]);
                        }
                        assert(cells@[i] == cells0[i]);
                    }
                    assert forall|w: usize|
                        w < v + 1 implies (count_with(tris@, w) >= 3 <==> exists|i: int|
                            0 <= i < cells@.len() && #[trigger] cells@[i].site() == w) by {
                        if w < v {
                            if count_with(tris@, w) >= 3 {
                                let i = choose|i: int| 0 <= i < cells0.len() && #[trigger] cells0[i].site() == w;
                                assert(cells@[i] == cells0[i]);
                            } else {
                                if exists|i: int| 0 <= i < cells@.len() && #[trigger] cells@[i].site() == w {
                                    let i = choose|i: int| 0 <= i < cells@.len() && #[trigger] cells@[i].site() == w;
                                    if i < cells0.len() {
                                        assert(cells@[i] == cells0[i]);
                                    }
                                }
                            }
                        } else {
                            assert(cells@[cells0.len() as int].site() == w);
                        }
                    }
                },
                None => {
                    assert forall|w: usize|
                        w < v + 1 implies (count_with(tris@, w) >= 3 <==> exists|i: int|
                            0 <= i < cells@.len() && #[trigger] cells@[i].site() == w) by {
                        if w == v {
                            if exists|i: int| 0 <= i < cells@.len() && #[trigger] cells@[i].site() == w {
                                let i = choose|i: int| 0 <= i < cells@.len() && #[trigger] cells@[i].site() == w;
                                assert(cells@[i].site() < v);
                            }
                        }
                    }
                },
            }
            v = v + 1;
        }
        let r = Voronoi2d { cells, vertex_lookup: vl };
        assert(r.cells_view() == cells@);
        assert(r.lookup_view() == vl@);
        assert(vertices_in_limit(r.lookup_view()));
        assert forall|i: int|
            0 <= i < r.cells_view().len() implies forall|k: int|
                0 <= k < (#[trigger] r.cells_view()[i]).vertices_view().len()
                    ==> #[trigger] r.cells_view()[i].vertices_view()[k] < r.lookup_view().len() by {
            assert(is_cell_of(cells@[i], cells@[i].site(), tris@, lookup@, vl@));
        }
        assert forall|w: usize|
            w < lookup@.len() implies (count_with(tris@, w) >= 3 <==> exists|i: int|
                0 <= i < r.cells_view().len() && #[trigger] r.cells_view()[i].site() == w) by {
            if count_with(tris@, w) >= 3 {
                let i = choose|i: int| 0 <= i < cells@.len() && #[trigger] cells@[i].site() == w;
                assert(r.cells_view()[i].site() == w);
            }
        }
        Some(r)
    }

    /// The cells, one for each input point that three or more triangles
    /// have as a corner, in order of that point's id.
    pub fn get_cells(&self) -> (r: &Vec<VoronoiCell2d>)
        ensures
            r@ == self.cells_view(),
    {
        &self.cells
    }

    /// The point of each Voronoi vertex id.
    pub fn get_vertex_lookup(&self) -> (r: &Vec<Point2d>)
        ensures
            r@ == self.lookup_view(),
    {
        &self.vertex_lookup
    }
}

} // verus!
