//! The circumsphere of a tetrahedron, and the Voronoi tessellation dual to
//! a Delaunay tetrahedralization.
//!
//! Each tetrahedron gives one Voronoi vertex: its circumcentre, rounded to
//! the integer grid, under the same id as the tetrahedron. Each input point
//! met by four or more tetrahedra gives one cell: the circumcentres of
//! those tetrahedra, and an edge between the circumcentres of every two of
//! them that share a face. A cell in space has no single ring of vertices,
//! so it is held as a vertex list and an edge list.

use vstd::prelude::*;
use crate::geometry::lemma_mul_bound;
use crate::circumcircle::{round_div, round_quotient, lemma_round_div_bound};
use crate::delaunay3d::{
    Delaunay3d, corner3, has_sphere, ids_below3, points3_in_limit,
};
use crate::edge_node3d::EdgeNode3d;
use crate::geometry3d::{
    Point3d, within3, orient3_spec, in_circumsphere, circumsphere_contains, lift3,
    COORD3_LIMIT, WORK3_LIMIT,
};
use crate::tetrahedron_node::{TetrahedronNode, contains_id4};

verus! {

/// The numerators of the circumcentre of `a b c d` less `a`, over the
/// denominator `2 * orient3_spec(a, b, c, d)`.
pub open spec fn sphere_nums(a: Point3d, b: Point3d, c: Point3d, d: Point3d) -> (int, int, int) {
    let (bx, by, bz) = (b.x - a.x, b.y - a.y, b.z - a.z);
    let (cx, cy, cz) = (c.x - a.x, c.y - a.y, c.z - a.z);
    let (dx, dy, dz) = (d.x - a.x, d.y - a.y, d.z - a.z);
    let lb = lift3(bx, by, bz);
    let lc = lift3(cx, cy, cz);
    let ld = lift3(dx, dy, dz);
    (
        lb * (cy * dz - cz * dy) + lc * (dy * bz - dz * by) + ld * (by * cz - bz * cy),
        lb * (cz * dx - cx * dz) + lc * (dz * bx - dx * bz) + ld * (bz * cx - bx * cz),
        lb * (cx * dy - cy * dx) + lc * (dx * by - dy * bx) + ld * (bx * cy - by * cx),
    )
}

/// The circumcentre of `a b c d` rounded to the integer grid; meaningful
/// when they are not coplanar.
pub open spec fn rounded_centre3(a: Point3d, b: Point3d, c: Point3d, d: Point3d) -> Point3d {
    let den = 2 * orient3_spec(a, b, c, d);
    let (nx, ny, nz) = sphere_nums(a, b, c, d);
    let s: int = if den > 0 {
        1
    } else {
        -1
    };
    Point3d {
        x: (a.x + round_div(s * nx, s * den)) as i64,
        y: (a.y + round_div(s * ny, s * den)) as i64,
        z: (a.z + round_div(s * nz, s * den)) as i64,
    }
}

/// The sphere through the four corners of a tetrahedron. Its centre is
/// `corner + (x_num, y_num, z_num) / denom` with a positive `denom`.
pub struct Circumsphere {
    pub corners: [Point3d; 4],
    pub x_num: i128,
    pub y_num: i128,
    pub z_num: i128,
    pub denom: i128,
}

/// Largest magnitude of a circumcentre coordinate offset from its corner.
pub const CENTRE3_LIMIT: i64 = 81064793292668928;

/// Largest magnitude of a Voronoi vertex coordinate in space.
pub const VERTEX3_LIMIT: i64 = 81064793292673024;

/// One coordinate of the circumcentre numerator, for offsets of at most
/// `2^13`.
fn num_term(lb: i128, lc: i128, ld: i128, m1: i128, m2: i128, m3: i128) -> (r: i128)
    requires
        0 <= lb <= 201326592,
        0 <= lc <= 201326592,
        0 <= ld <= 201326592,
        -134217728 <= m1 <= 134217728,
        -134217728 <= m2 <= 134217728,
        -134217728 <= m3 <= 134217728,
    ensures
        r == lb * m1 + lc * m2 + ld * m3,
        -CENTRE3_LIMIT <= r <= CENTRE3_LIMIT,
{
    proof {
        lemma_mul_bound(lb as int, m1 as int, 201326592, 134217728);
        lemma_mul_bound(lc as int, m2 as int, 201326592, 134217728);
        lemma_mul_bound(ld as int, m3 as int, 201326592, 134217728);
    }
    lb * m1 + lc * m2 + ld * m3
}

fn minor(p: i128, q: i128, r: i128, s: i128) -> (res: i128)
    requires
        -8192 <= p <= 8192,
        -8192 <= q <= 8192,
        -8192 <= r <= 8192,
        -8192 <= s <= 8192,
    ensures
        res == p * q - r * s,
        -134217728 <= res <= 134217728,
{
    proof {
        lemma_mul_bound(p as int, q as int, 8192, 8192);
        lemma_mul_bound(r as int, s as int, 8192, 8192);
    }
    p * q - r * s
}

fn sq_len(x: i128, y: i128, z: i128) -> (r: i128)
    requires
        -8192 <= x <= 8192,
        -8192 <= y <= 8192,
        -8192 <= z <= 8192,
    ensures
        r == lift3(x as int, y as int, z as int),
        0 <= r <= 201326592,
{
    proof {
        lemma_mul_bound(x as int, x as int, 8192, 8192);
        lemma_mul_bound(y as int, y as int, 8192, 8192);
        lemma_mul_bound(z as int, z as int, 8192, 8192);
        assert(x * x >= 0 && y * y >= 0 && z * z >= 0) by (nonlinear_arith);
    }
    x * x + y * y + z * z
}

fn volume(bx: i128, by: i128, bz: i128, m1: i128, m2: i128, m3: i128) -> (r: i128)
    requires
        -8192 <= bx <= 8192,
        -8192 <= by <= 8192,
        -8192 <= bz <= 8192,
        -134217728 <= m1 <= 134217728,
        -134217728 <= m2 <= 134217728,
        -134217728 <= m3 <= 134217728,
    ensures
        r == bx * m1 - by * m2 + bz * m3,
        -3298534883328 <= r <= 3298534883328,
{
    proof {
        lemma_mul_bound(bx as int, m1 as int, 8192, 134217728);
        lemma_mul_bound(by as int, m2 as int, 8192, 134217728);
        lemma_mul_bound(bz as int, m3 as int, 8192, 134217728);
    }
    bx * m1 - by * m2 + bz * m3
}

fn round_step(n: i128, d: i128) -> (r: i64)
    requires
        0 < d <= 1000000000000000,
        -CENTRE3_LIMIT <= n <= CENTRE3_LIMIT,
    ensures
        r == round_div(n as int, d as int),
        -CENTRE3_LIMIT <= r <= CENTRE3_LIMIT,
{
    round_quotient(n, d) as i64
}

impl Circumsphere {
    /// Whether the fields hold a sphere through corners within the input
    /// limit.
    pub open spec fn wf(&self) -> bool {
        &&& 0 < self.denom <= 6597069766656
        &&& -CENTRE3_LIMIT <= self.x_num <= CENTRE3_LIMIT
        &&& -CENTRE3_LIMIT <= self.y_num <= CENTRE3_LIMIT
        &&& -CENTRE3_LIMIT <= self.z_num <= CENTRE3_LIMIT
        &&& forall|k: int| 0 <= k < 4 ==> within3(#[trigger] self.corners_view()[k], COORD3_LIMIT as int)
    }

    /// The four corners the sphere passes through.
    pub open spec fn corners_view(&self) -> Seq<Point3d> {
        self.corners@
    }

    /// The sphere through `a`, `b`, `c` and `d`, or `None` when they are
    /// coplanar and no sphere passes through all four.
    pub fn new(a: Point3d, b: Point3d, c: Point3d, d: Point3d) -> (r: Option<Circumsphere>)
        requires
            within3(a, COORD3_LIMIT as int),
            within3(b, COORD3_LIMIT as int),
            within3(c, COORD3_LIMIT as int),
            within3(d, COORD3_LIMIT as int),
        ensures
            r.is_none() <==> orient3_spec(a, b, c, d) == 0,
            r matches Some(s) ==> {
                &&& s.corners_view() == seq![a, b, c, d]
                &&& s.wf()
                &&& orient3_spec(a, b, c, d) > 0 ==> s.denom == 2 * orient3_spec(a, b, c, d)
                    && s.x_num == sphere_nums(a, b, c, d).0 && s.y_num == sphere_nums(a, b, c, d).1
                    && s.z_num == sphere_nums(a, b, c, d).2
                &&& orient3_spec(a, b, c, d) < 0 ==> s.denom == -2 * orient3_spec(a, b, c, d)
                    && s.x_num == -sphere_nums(a, b, c, d).0 && s.y_num == -sphere_nums(a, b, c, d).1
                    && s.z_num == -sphere_nums(a, b, c, d).2
            },
    {
        let bx = b.x as i128 - a.x as i128;
        let by = b.y as i128 - a.y as i128;
        let bz = b.z as i128 - a.z as i128;
        let cx = c.x as i128 - a.x as i128;
        let cy = c.y as i128 - a.y as i128;
        let cz = c.z as i128 - a.z as i128;
        let dx = d.x as i128 - a.x as i128;
        let dy = d.y as i128 - a.y as i128;
        let dz = d.z as i128 - a.z as i128;
        let o = volume(bx, by, bz, minor(cy, dz, cz, dy), minor(cx, dz, cz, dx), minor(cx, dy, cy, dx));
        assert(o == orient3_spec(a, b, c, d));
        if o == 0 {
            return None;
        }
        let lb = sq_len(bx, by, bz);
        let lc = sq_len(cx, cy, cz);
        let ld = sq_len(dx, dy, dz);
        let nx = num_term(lb, lc, ld, minor(cy, dz, cz, dy), minor(dy, bz, dz, by), minor(by, cz, bz, cy));
        let ny = num_term(lb, lc, ld, minor(cz, dx, cx, dz), minor(dz, bx, dx, bz), minor(bz, cx, bx, cz));
        let nz = num_term(lb, lc, ld, minor(cx, dy, cy, dx), minor(dx, by, dy, bx), minor(bx, cy, by, cx));
        let (x_num, y_num, z_num, denom) = if o > 0 {
            (nx, ny, nz, 2 * o)
        } else {
            (-nx, -ny, -nz, -2 * o)
        };
        let s = Circumsphere { corners: [a, b, c, d], x_num, y_num, z_num, denom };
        assert(s.corners_view() =~= seq![a, b, c, d]);
        assert forall|k: int| 0 <= k < 4 implies within3(#[trigger] s.corners_view()[k], COORD3_LIMIT as int) by {
            assert(s.corners_view()[k] == seq![a, b, c, d][k]);
        }
        Some(s)
    }

    /// The centre, rounded to the nearest point of the integer grid.
    pub fn get_centre(&self) -> (r: Point3d)
        requires
            self.wf(),
        ensures
            within3(r, VERTEX3_LIMIT as int),
            r.x == self.corners_view()[0].x + round_div(self.x_num as int, self.denom as int),
            r.y == self.corners_view()[0].y + round_div(self.y_num as int, self.denom as int),
            r.z == self.corners_view()[0].z + round_div(self.z_num as int, self.denom as int),
    {
        let a = self.corners[0];
        assert(within3(self.corners_view()[0], COORD3_LIMIT as int));
        Point3d {
            x: a.x + round_step(self.x_num, self.denom),
            y: a.y + round_step(self.y_num, self.denom),
            z: a.z + round_step(self.z_num, self.denom),
        }
    }

    /// The squared radius, scaled by `denom^2`: the squared length of the
    /// centre's offset from the first corner.
    pub fn get_radius_squared(&self) -> (r: i128)
        requires
            self.wf(),
        ensures
            r == self.x_num * self.x_num + self.y_num * self.y_num + self.z_num * self.z_num,
    {
        proof {
            let c: int = CENTRE3_LIMIT as int;
            lemma_mul_bound(self.x_num as int, self.x_num as int, c, c);
            lemma_mul_bound(self.y_num as int, self.y_num as int, c, c);
            lemma_mul_bound(self.z_num as int, self.z_num as int, c, c);
            assert(c * c == 6571500711583141217358909416669184int);
        }
        self.x_num * self.x_num + self.y_num * self.y_num + self.z_num * self.z_num
    }

    /// Whether `point` lies strictly inside the sphere; a point on it is
    /// not inside.
    pub fn is_point_within_sphere(&self, point: &Point3d) -> (r: bool)
        requires
            self.wf(),
            within3(*point, WORK3_LIMIT as int),
        ensures
            r == in_circumsphere(
                self.corners_view()[0],
                self.corners_view()[1],
                self.corners_view()[2],
                self.corners_view()[3],
                *point,
            ),
    {
        assert(within3(self.corners_view()[0], WORK3_LIMIT as int));
        assert(within3(self.corners_view()[1], WORK3_LIMIT as int));
        assert(within3(self.corners_view()[2], WORK3_LIMIT as int));
        assert(within3(self.corners_view()[3], WORK3_LIMIT as int));
        circumsphere_contains(self.corners[0], self.corners[1], self.corners[2], self.corners[3], *point)
    }
}

impl TetrahedronNode {
    /// The sphere through the four corners, looked up in `vertex_lookup`;
    /// `None` when the corners are coplanar.
    pub fn compute_circumsphere(&self, vertex_lookup: &Vec<Point3d>) -> (r: Option<Circumsphere>)
        requires
            ids_below3(*self, vertex_lookup@.len() as int),
            points3_in_limit(vertex_lookup@),
        ensures
            r.is_none() <==> !has_sphere(*self, vertex_lookup@),
            r matches Some(s) ==> s.wf() && s.corners_view() == seq![
                corner3(*self, vertex_lookup@, 0),
                corner3(*self, vertex_lookup@, 1),
                corner3(*self, vertex_lookup@, 2),
                corner3(*self, vertex_lookup@, 3),
            ],
    {
        let a = vertex_lookup[self.get_vertex_a_id()];
        let b = vertex_lookup[self.get_vertex_b_id()];
        let c = vertex_lookup[self.get_vertex_c_id()];
        let d = vertex_lookup[self.get_vertex_d_id()];
        Circumsphere::new(a, b, c, d)
    }
}

/// One cell in space: the ids of its Voronoi vertices, the edges between
/// them, and the id of the input point that the cell surrounds.
pub struct VoronoiCell3d {
    vertices: Vec<usize>,
    edges: Vec<EdgeNode3d>,
    generating_point: usize,
}

/// The cells, and the point of each Voronoi vertex id.
pub struct Voronoi3d {
    cells: Vec<VoronoiCell3d>,
    vertex_lookup: Vec<Point3d>,
}

/// Whether `v` is a corner of `t`.
pub open spec fn has_corner3(t: TetrahedronNode, v: usize) -> bool {
    t.ids().contains(v)
}

/// The indices of the tetrahedra of `ts` that have `v` as a corner, in
/// increasing order.
pub open spec fn tets_around(ts: Seq<TetrahedronNode>, v: usize) -> Seq<usize>
    decreases ts.len(),
{
    if ts.len() == 0 {
        Seq::empty()
    } else if has_corner3(ts.last(), v) {
        tets_around(ts.drop_last(), v).push((ts.len() - 1) as usize)
    } else {
        tets_around(ts.drop_last(), v)
    }
}

/// How many corners of `t` are corners of `u`.
pub open spec fn common_corners(t: TetrahedronNode, u: TetrahedronNode) -> int {
    (if u.ids().contains(t.ids()[0]) { 1int } else { 0int }) + (if u.ids().contains(t.ids()[1]) {
        1int
    } else {
        0int
    }) + (if u.ids().contains(t.ids()[2]) { 1int } else { 0int }) + (if u.ids().contains(
        t.ids()[3],
    ) {
        1int
    } else {
        0int
    })
}

/// The Voronoi vertex of `t`.
pub open spec fn centre3_of(t: TetrahedronNode, lookup: Seq<Point3d>) -> Point3d {
    rounded_centre3(corner3(t, lookup, 0), corner3(t, lookup, 1), corner3(t, lookup, 2), corner3(t, lookup, 3))
}

impl VoronoiCell3d {
    /// The Voronoi vertex ids of the cell.
    pub closed spec fn vertices_view(&self) -> Seq<usize> {
        self.vertices@
    }

    /// The edges of the cell.
    pub closed spec fn edges_view(&self) -> Seq<EdgeNode3d> {
        self.edges@
    }

    /// The id of the site.
    pub closed spec fn site(&self) -> usize {
        self.generating_point
    }

    /// The Voronoi vertex ids of the cell.
    pub fn get_vertex_ids(&self) -> (r: &Vec<usize>)
        ensures
            r@ == self.vertices_view(),
    {
        &self.vertices
    }

    /// The id of the input point that the cell surrounds.
    pub fn get_generating_point(&self) -> (r: &usize)
        ensures
            *r == self.site(),
    {
        &self.generating_point
    }

    /// The centroid of the cell's vertices, rounded to the integer grid.
    pub fn get_centre_position(&self, vertex_lookup: &Vec<Point3d>) -> (r: Point3d)
        requires
            self.vertices_view().len() > 0,
            forall|k: int|
                0 <= k < self.vertices_view().len() ==> #[trigger] self.vertices_view()[k]
                    < vertex_lookup@.len(),
            forall|k: int| 0 <= k < vertex_lookup@.len() ==> within3(#[trigger] vertex_lookup@[k], VERTEX3_LIMIT as int),
        ensures
            r == centroid3_of(self.vertices_view(), vertex_lookup@),
    {
        let ids = &self.vertices;
        let mut sx: i128 = 0;
        let mut sy: i128 = 0;
        let mut sz: i128 = 0;
        let mut k: usize = 0;
        while k < ids.len()
            invariant
                k <= ids@.len(),
                ids@ == self.vertices_view(),
                forall|j: int| 0 <= j < ids@.len() ==> #[trigger] ids@[j] < vertex_lookup@.len(),
                forall|j: int| 0 <= j < vertex_lookup@.len() ==> within3(#[trigger] vertex_lookup@[j], VERTEX3_LIMIT as int),
                (sx as int, sy as int, sz as int) == sums3(ids@.subrange(0, k as int), vertex_lookup@),
                -(k * VERTEX3_LIMIT) <= sx <= k * VERTEX3_LIMIT,
                -(k * VERTEX3_LIMIT) <= sy <= k * VERTEX3_LIMIT,
                -(k * VERTEX3_LIMIT) <= sz <= k * VERTEX3_LIMIT,
            decreases ids@.len() - k,
        {
            assert(ids@.subrange(0, k + 1).drop_last() =~= ids@.subrange(0, k as int));
            let p = vertex_lookup[ids[k]];
            assert(within3(vertex_lookup@[ids@[k as int] as int], VERTEX3_LIMIT as int));
            proof {
                assert(k * VERTEX3_LIMIT <= 18446744073709551615int * 81064793292673024int) by (nonlinear_arith)
                    requires k < 18446744073709551616int;
            }
            sx = sx + p.x as i128;
            sy = sy + p.y as i128;
            sz = sz + p.z as i128;
            k = k + 1;
            assert((k - 1) * VERTEX3_LIMIT + VERTEX3_LIMIT == k * VERTEX3_LIMIT) by (nonlinear_arith);
        }
        assert(ids@.subrange(0, k as int) =~= ids@);
        let n = ids.len() as i128;
        Point3d { x: mean3(sx, n), y: mean3(sy, n), z: mean3(sz, n) }
    }

    /// The edges of the cell, each between the Voronoi vertices of two
    /// tetrahedra that share a face.
    pub fn get_edges(&self) -> (r: &Vec<EdgeNode3d>)
        ensures
            r@ == self.edges_view(),
    {
        &self.edges
    }
}

/// The sums of the `x`, `y` and `z` coordinates of the points of `ids`.
pub open spec fn sums3(ids: Seq<usize>, lookup: Seq<Point3d>) -> (int, int, int)
    decreases ids.len(),
{
    if ids.len() == 0 {
        (0, 0, 0)
    } else {
        let (x, y, z) = sums3(ids.drop_last(), lookup);
        let p = lookup[ids.last() as int];
        (x + p.x, y + p.y, z + p.z)
    }
}

/// The centroid of the points of `ids`, rounded to the integer grid.
pub open spec fn centroid3_of(ids: Seq<usize>, lookup: Seq<Point3d>) -> Point3d {
    let (x, y, z) = sums3(ids, lookup);
    let n = ids.len() as int;
    Point3d { x: round_div(x, n) as i64, y: round_div(y, n) as i64, z: round_div(z, n) as i64 }
}

fn mean3(s: i128, n: i128) -> (r: i64)
    requires
        0 < n <= 18446744073709551615,
        -(n * VERTEX3_LIMIT) <= s <= n * VERTEX3_LIMIT,
    ensures
        r == round_div(s as int, n as int),
{
    let q = round_quotient(s, n);
    proof {
        lemma_round_div_bound(s as int, n as int, VERTEX3_LIMIT as int);
    }
    q as i64
}

/// Whether `c` is the cell about `site` over the tetrahedra `ts`: its
/// vertices are the ids of the tetrahedra around `site`, and each edge
/// joins two of them that share a face.
pub open spec fn is_cell3_of(c: VoronoiCell3d, site: usize, ts: Seq<TetrahedronNode>) -> bool {
    &&& c.site() == site
    &&& c.vertices_view() == tets_around(ts, site)
    &&& forall|k: int|
        0 <= k < c.edges_view().len() ==> {
            let e = #[trigger] c.edges_view()[k];
            &&& e.a() < ts.len()
            &&& e.b() < ts.len()
            &&& e.a() < e.b()
            &&& has_corner3(ts[e.a() as int], site)
            &&& has_corner3(ts[e.b() as int], site)
            &&& common_corners(ts[e.a() as int], ts[e.b() as int]) == 3
        }
    &&& forall|x: int, y: int|
        #![trigger c.vertices_view()[x], c.vertices_view()[y]]
        0 <= x < y < c.vertices_view().len() && common_corners(
            ts[c.vertices_view()[x] as int],
            ts[c.vertices_view()[y] as int],
        ) == 3 ==> has_edge3(c.edges_view(), c.vertices_view()[x], c.vertices_view()[y])
}

/// Whether some edge of `es` runs from `a` to `b`.
pub open spec fn has_edge3(es: Seq<EdgeNode3d>, a: usize, b: usize) -> bool {
    exists|k: int| 0 <= k < es.len() && (#[trigger] es[k]).a() == a && es[k].b() == b
}

fn common_corners_exec(t: &TetrahedronNode, u: &TetrahedronNode) -> (r: usize)
    ensures
        r == common_corners(*t, *u),
{
    let ui = u.get_vertex_ids();
    let mut c: usize = 0;
    if contains_id4(ui, t.get_vertex_a_id()) {
        c = c + 1;
    }
    if contains_id4(ui, t.get_vertex_b_id()) {
        c = c + 1;
    }
    if contains_id4(ui, t.get_vertex_c_id()) {
        c = c + 1;
    }
    if contains_id4(ui, t.get_vertex_d_id()) {
        c = c + 1;
    }
    c
}

/// The cell about `site`, or `None` when fewer than four tetrahedra have
/// `site` as a corner.
fn cell3_about(site: usize, ts: &Vec<TetrahedronNode>) -> (r: Option<VoronoiCell3d>)
    ensures
        r.is_some() == (tets_around(ts@, site).len() >= 4),
        r matches Some(c) ==> is_cell3_of(c, site, ts@),
{
    let mut ids: Vec<usize> = Vec::new();
    let mut k: usize = 0;
    while k < ts.len()
        invariant
            k <= ts@.len(),
            ids@ == tets_around(ts@.subrange(0, k as int), site),
        decreases ts@.len() - k,
    {
        assert(ts@.subrange(0, k + 1).drop_last() =~= ts@.subrange(0, k as int));
        let t = ts[k];
        let corner = contains_id4(t.get_vertex_ids(), site);
        if corner {
            ids.push(k);
        }
        k = k + 1;
    }
    assert(ts@.subrange(0, k as int) =~= ts@);
    if ids.len() < 4 {
        return None;
    }
    proof {
        lemma_tets_around(ts@, site);
    }
    let mut edges: Vec<EdgeNode3d> = Vec::new();
    let mut p: usize = 0;
    while p < ids.len()
        invariant
            ids@ == tets_around(ts@, site),
            forall|x: int| 0 <= x < ids@.len() ==> #[trigger] ids@[x] < ts@.len() && has_corner3(ts@[ids@[x] as int], site),
            forall|x: int, y: int| 0 <= x < y < ids@.len() ==> #[trigger] ids@[x] < #[trigger] ids@[y],
            forall|k: int|
                0 <= k < edges@.len() ==> {
                    let e = #[trigger] edges@[k];
                    &&& e.a() < ts@.len()
                    &&& e.b() < ts@.len()
                    &&& e.a() < e.b()
                    &&& has_corner3(ts@[e.a() as int], site)
                    &&& has_corner3(ts@[e.b() as int], site)
                    &&& common_corners(ts@[e.a() as int], ts@[e.b() as int]) == 3
                },
            p <= ids@.len(),
            forall|x: int, y: int|
                #![trigger ids@[x], ids@[y]]
                0 <= x < p && x < y < ids@.len() && common_corners(ts@[ids@[x] as int], ts@[ids@[y] as int]) == 3
                    ==> has_edge3(edges@, ids@[x], ids@[y]),
        decreases ids@.len() - p,
    {
        let mut q: usize = p + 1;
        while q < ids.len()
            invariant
                p < q <= ids@.len() || (q == p + 1 && p + 1 > ids@.len()) || p < ids@.len(),
                p < ids@.len(),
                ids@ == tets_around(ts@, site),
                forall|x: int| 0 <= x < ids@.len() ==> #[trigger] ids@[x] < ts@.len() && has_corner3(ts@[ids@[x] as int], site),
                forall|x: int, y: int| 0 <= x < y < ids@.len() ==> #[trigger] ids@[x] < #[trigger] ids@[y],
                p < q,
                forall|k: int|
                    0 <= k < edges@.len() ==> {
                        let e = #[trigger] edges@[k];
                        &&& e.a() < ts@.len()
                        &&& e.b() < ts@.len()
                        &&& e.a() < e.b()
                        &&& has_corner3(ts@[e.a() as int], site)
                        &&& has_corner3(ts@[e.b() as int], site)
                        &&& common_corners(ts@[e.a() as int], ts@[e.b() as int]) == 3
                    },
                forall|x: int, y: int|
                    #![trigger ids@[x], ids@[y]]
                    0 <= x < p && x < y < ids@.len() && common_corners(ts@[ids@[x] as int], ts@[ids@[y] as int]) == 3
                        ==> has_edge3(edges@, ids@[x], ids@[y]),
                forall|y: int|
                    p < y < q && y < ids@.len() && common_corners(ts@[ids@[p as int] as int], #[trigger] ts@[ids@[y] as int]) == 3
                        ==> has_edge3(edges@, ids@[p as int], ids@[y]),
            decreases ids@.len() - q,
        {
            let a = ids[p];
            let b = ids[q];
            assert(ids@[p as int] < ids@[q as int]);
            let ghost e0 = edges@;
            if common_corners_exec(&ts[a], &ts[b]) == 3 {
                let e = EdgeNode3d::new(a, b);
                edges.push(e);
                assert(edges@[e0.len() as int] == e);
                assert forall|k: int|
                    0 <= k < edges@.len() implies {
                        let e = #[trigger] edges@[k];
                        &&& e.a() < ts@.len()
                        &&& e.b() < ts@.len()
                        &&& e.a() < e.b()
                        &&& has_corner3(ts@[e.a() as int], site)
                        &&& has_corner3(ts@[e.b() as int], site)
                        &&& common_corners(ts@[e.a() as int], ts@[e.b() as int]) == 3
                    } by {
                    if k < e0.len() {
                        assert(edges@[k] == e0[k]);
                    }
                }
            }
            proof {
                assert forall|x: int, y: int|
                    #![trigger ids@[x], ids@[y]]
                    0 <= x < p && x < y < ids@.len() && common_corners(ts@[ids@[x] as int], ts@[ids@[y] as int]) == 3
                        implies has_edge3(edges@, ids@[x], ids@[y]) by {
                    let k = choose|k: int| 0 <= k < e0.len() && (#[trigger] e0[k]).a() == ids@[x] && e0[k].b() == ids@[y];
                    assert(edges@[k] == e0[k]);
                }
                assert forall|y: int|
                    p < y < q + 1 && y < ids@.len() && common_corners(ts@[ids@[p as int] as int], #[trigger] ts@[ids@[y] as int]) == 3
                        implies has_edge3(edges@, ids@[p as int], ids@[y]) by {
                    if y < q {
                        let k = choose|k: int| 0 <= k < e0.len() && (#[trigger] e0[k]).a() == ids@[p as int] && e0[k].b() == ids@[y];
                        assert(edges@[k] == e0[k]);
                    } else {
                        assert(edges@[e0.len() as int].a() == ids@[p as int]);
                    }
                }
            }
            q = q + 1;
        }
        p = p + 1;
    }
    let cell = VoronoiCell3d { vertices: ids, edges, generating_point: site };
    assert forall|x: int, y: int|
        #![trigger cell.vertices_view()[x], cell.vertices_view()[y]]
        0 <= x < y < cell.vertices_view().len() && common_corners(
            ts@[cell.vertices_view()[x] as int],
            ts@[cell.vertices_view()[y] as int],
        ) == 3 implies has_edge3(cell.edges_view(), cell.vertices_view()[x], cell.vertices_view()[y]) by {
        assert(ids@[x] == cell.vertices_view()[x]);
        assert(ids@[y] == cell.vertices_view()[y]);
    }
    Some(cell)
}

/// The indices that `tets_around` lists are increasing and name
/// tetrahedra with the corner.
proof fn lemma_tets_around(ts: Seq<TetrahedronNode>, v: usize)
    requires
        ts.len() <= usize::MAX,
    ensures
        forall|x: int|
            0 <= x < tets_around(ts, v).len() ==> #[trigger] tets_around(ts, v)[x] < ts.len()
                && has_corner3(ts[tets_around(ts, v)[x] as int], v),
        forall|x: int, y: int|
            0 <= x < y < tets_around(ts, v).len() ==> #[trigger] tets_around(ts, v)[x]
                < #[trigger] tets_around(ts, v)[y],
    decreases ts.len(),
{
    if ts.len() > 0 {
        let rest = ts.drop_last();
        lemma_tets_around(rest, v);
        let s = tets_around(ts, v);
        let sr = tets_around(rest, v);
        if has_corner3(ts.last(), v) {
            assert(s == sr.push((ts.len() - 1) as usize));
            assert forall|x: int| 0 <= x < s.len() implies #[trigger] s[x] < ts.len() && has_corner3(ts[s[x] as int], v) by {
                if x < sr.len() {
                    assert(s[x] == sr[x]);
                    assert(ts[s[x] as int] == rest[s[x] as int]);
                }
            }
            assert forall|x: int, y: int| 0 <= x < y < s.len() implies #[trigger] s[x] < #[trigger] s[y] by {
                assert(s[x] == sr[x]);
                if y < sr.len() {
                    assert(s[y] == sr[y]);
                }
            }
        } else {
            assert forall|x: int| 0 <= x < s.len() implies #[trigger] s[x] < ts.len() && has_corner3(ts[s[x] as int], v) by {
                assert(ts[s[x] as int] == rest[s[x] as int]);
            }
        }
    }
}

impl Voronoi3d {
    /// The cells.
    pub closed spec fn cells_view(&self) -> Seq<VoronoiCell3d> {
        self.cells@
    }

    /// The point of each Voronoi vertex id.
    pub closed spec fn lookup_view(&self) -> Seq<Point3d> {
        self.vertex_lookup@
    }

    /// Every Voronoi vertex lies within the vertex limit, and every vertex
    /// id of every cell names one of them.
    pub open spec fn wf(&self) -> bool {
        &&& forall|k: int| 0 <= k < self.lookup_view().len() ==> within3(#[trigger] self.lookup_view()[k], VERTEX3_LIMIT as int)
        &&& forall|i: int|
            0 <= i < self.cells_view().len() ==> forall|k: int|
                0 <= k < (#[trigger] self.cells_view()[i]).vertices_view().len()
                    ==> #[trigger] self.cells_view()[i].vertices_view()[k]
                    < self.lookup_view().len()
    }

    /// Whether `self` is the tessellation dual to the tetrahedra `ts` over
    /// the points `lookup`: the Voronoi vertex of each id is the rounded
    /// circumcentre of the tetrahedron with that id, and there is one cell
    /// for each input point that four or more tetrahedra have as a corner,
    /// in order of point id.
    pub open spec fn is_dual_of(&self, ts: Seq<TetrahedronNode>, lookup: Seq<Point3d>) -> bool {
        &&& self.lookup_view().len() == ts.len()
        &&& forall|k: int| 0 <= k < ts.len() ==> #[trigger] self.lookup_view()[k] == centre3_of(ts[k], lookup)
        &&& forall|i: int|
            0 <= i < self.cells_view().len() ==> #[trigger] self.cells_view()[i].site() < lookup.len()
                && is_cell3_of(self.cells_view()[i], self.cells_view()[i].site(), ts)
        &&& forall|i: int, j: int|
            #![trigger self.cells_view()[i], self.cells_view()[j]]
            0 <= i < j < self.cells_view().len() ==> self.cells_view()[i].site()
                < self.cells_view()[j].site()
        &&& forall|v: usize|
            v < lookup.len() ==> (tets_around(ts, v).len() >= 4 <==> exists|i: int|
                0 <= i < self.cells_view().len() && #[trigger] self.cells_view()[i].site() == v)
    }

    /// The Voronoi tessellation dual to `delaunay`.
    pub fn from_delaunay_3d(delaunay: &Delaunay3d) -> (r: Option<Voronoi3d>)
        requires
            delaunay.wf(),
        ensures
            r matches Some(v) && v.wf() && v.is_dual_of(
                delaunay.tetrahedra_view(),
                delaunay.lookup_view(),
            ),
    {
        let ts = delaunay.get_tetrahedra();
        let lookup = delaunay.get_vertex_lookup();
        let mut vl: Vec<Point3d> = Vec::new();
        let mut k: usize = 0;
        while k < ts.len()
            invariant
                k <= ts@.len(),
                ts@ == delaunay.tetrahedra_view(),
                lookup@ == delaunay.lookup_view(),
                delaunay.wf(),
                vl@.len() == k,
                forall|m: int| 0 <= m < k ==> #[trigger] vl@[m] == centre3_of(ts@[m], lookup@),
                forall|m: int| 0 <= m < k ==> within3(#[trigger] vl@[m], VERTEX3_LIMIT as int),
            decreases ts@.len() - k,
        {
            let t = ts[k];
            proof { t.lemma_len(); }
            assert(ids_below3(ts@[k as int], lookup@.len() as int));
            assert(has_sphere(ts@[k as int], lookup@));
            let a = lookup[t.get_vertex_a_id()];
            let b = lookup[t.get_vertex_b_id()];
            let c = lookup[t.get_vertex_c_id()];
            let d = lookup[t.get_vertex_d_id()];
            assert(within3(a, COORD3_LIMIT as int) && within3(b, COORD3_LIMIT as int) && within3(
                c,
                COORD3_LIMIT as int,
            ) && within3(d, COORD3_LIMIT as int)) by {
                assert(within3(lookup@[t.ids()[0] as int], COORD3_LIMIT as int));
                assert(within3(lookup@[t.ids()[1] as int], COORD3_LIMIT as int));
                assert(within3(lookup@[t.ids()[2] as int], COORD3_LIMIT as int));
                assert(within3(lookup@[t.ids()[3] as int], COORD3_LIMIT as int));
            }
            match Circumsphere::new(a, b, c, d) {
                Some(sphere) => {
                    let centre = sphere.get_centre();
                    proof {
                        assert(a == corner3(t, lookup@, 0) && b == corner3(t, lookup@, 1));
                        assert(c == corner3(t, lookup@, 2) && d == corner3(t, lookup@, 3));
                        assert(sphere.corners_view()[0] == a);
                        let den = 2 * orient3_spec(a, b, c, d);
                        let (nx, ny, nz) = sphere_nums(a, b, c, d);
                        if den > 0 {
                            assert(1 * nx == nx && 1 * den == den && 1 * ny == ny && 1 * nz == nz);
                        } else {
                            assert(-1 * nx == -nx && -1 * den == -den && -1 * ny == -ny && -1 * nz == -nz);
                        }
                        assert(centre == rounded_centre3(a, b, c, d));
                    }
                    let ghost v0 = vl@;
                    vl.push(centre);
                    assert forall|m: int| 0 <= m < k + 1 implies #[trigger] vl@[m] == centre3_of(ts@[m], lookup@) by {
                        if m < k {
                            assert(vl@[m] == v0[m]);
                        }
                    }
                    assert forall|m: int| 0 <= m < k + 1 implies within3(#[trigger] vl@[m], VERTEX3_LIMIT as int) by {
                        if m < k {
                            assert(vl@[m] == v0[m]);
                        }
                    }
                },
                None => {
                    assert(false);
                },
            }
            k = k + 1;
        }
        let ghost nt = ts@.len();
        let mut cells: Vec<VoronoiCell3d> = Vec::new();
        let mut v: usize = 0;
        while v < lookup.len()
            invariant
                v <= lookup@.len(),
                ts@ == delaunay.tetrahedra_view(),
                lookup@ == delaunay.lookup_view(),
                forall|i: int|
                    0 <= i < cells@.len() ==> #[trigger] cells@[i].site() < v && is_cell3_of(
                        cells@[i],
                        cells@[i].site(),
                        ts@,
                    ),
                forall|i: int, j: int|
                    #![trigger cells@[i], cells@[j]]
                    0 <= i < j < cells@.len() ==> cells@[i].site() < cells@[j].site(),
                forall|w: usize|
                    w < v ==> (tets_around(ts@, w).len() >= 4 <==> exists|i: int|
                        0 <= i < cells@.len() && #[trigger] cells@[i].site() == w),
            decreases lookup@.len() - v,
        {
            let ghost cells0 = cells@;
            match cell3_about(v, ts) {
                Some(cell) => {
                    cells.push(cell);
                    assert forall|i: int|
                        0 <= i < cells@.len() implies #[trigger] cells@[i].site() < v + 1 && is_cell3_of(
                        cells@[i],
                        cells@[i].site(),
                        ts@,
                    ) by {
                        if i < cells0.len() {
                            assert(cells@[i] == cells0[i]);
                        }
                    }
                    assert forall|i: int, j: int|
                        #![trigger cells@[i], cells@[j]]
                        0 <= i < j < cells@.len() implies cells@[i].site() < cells@[j].site() by {
                        assert(cells@[i] == cells0[i]);
                        if j < cells0.len() {
                            assert(cells@[j] == cells0[j]);
                        }
                    }
                    assert forall|w: usize|
                        w < v + 1 implies (tets_around(ts@, w).len() >= 4 <==> exists|i: int|
                            0 <= i < cells@.len() && #[trigger] cells@[i].site() == w) by {
                        if w < v {
                            if tets_around(ts@, w).len() >= 4 {
                                let i = choose|i: int| 0 <= i < cells0.len() && #[trigger] cells0[i].site() == w;
                                assert(cells@[i] == cells0[i]);
                            } else {
                                if exists|i: int| 0 <= i < cells@.len() && #[trigger] cells@[i].site() == w {
                                    let i = choose|i: int| 0 <= i < cells@.len() && #[trigger] cells@[i].site() == w;
                                    if i < cells0.len() {
                                        assert(cells@[i] == cells0[i]);
                                    }
                                }
                            }
                        } else {
                            assert(cells@[cells0.len() as int].site() == w);
                        }
                    }
                },
                None => {
                    assert forall|w: usize|
                        w < v + 1 implies (tets_around(ts@, w).len() >= 4 <==> exists|i: int|
                            0 <= i < cells@.len() && #[trigger] cells@[i].site() == w) by {
                        if w == v {
                            if exists|i: int| 0 <= i < cells@.len() && #[trigger] cells@[i].site() == w {
                                let i = choose|i: int| 0 <= i < cells@.len() && #[trigger] cells@[i].site() == w;
                                assert(cells@[i].site() < v);
                            }
                        }
                    }
                },
            }
            v = v + 1;
        }
        let r = Voronoi3d { cells, vertex_lookup: vl };
        assert(r.cells_view() == cells@);
        assert forall|i: int|
            0 <= i < r.cells_view().len() implies forall|k: int|
                0 <= k < (#[trigger] r.cells_view()[i]).vertices_view().len()
                    ==> #[trigger] r.cells_view()[i].vertices_view()[k] < r.lookup_view().len() by {
            assert(is_cell3_of(cells@[i], cells@[i].site(), ts@));
            lemma_tets_around(ts@, cells@[i].site());
        }
        assert(r.lookup_view() == vl@);
        assert forall|w: usize|
            w < lookup@.len() implies (tets_around(ts@, w).len() >= 4 <==> exists|i: int|
                0 <= i < r.cells_view().len() && #[trigger] r.cells_view()[i].site() == w) by {
            if tets_around(ts@, w).len() >= 4 {
                let i = choose|i: int| 0 <= i < cells@.len() && #[trigger] cells@[i].site() == w;
                assert(r.cells_view()[i].site() == w);
            }
        }
        Some(r)
    }

    /// The cells, one for each input point that four or more tetrahedra
    /// have as a corner, in order of that point's id.
    pub fn get_cells(&self) -> (r: &Vec<VoronoiCell3d>)
        ensures
            r@ == self.cells_view(),
    {
        &self.cells
    }

    /// The point of each Voronoi vertex id.
    pub fn get_vertex_lookup(&self) -> (r: &Vec<Point3d>)
        ensures
            r@ == self.lookup_view(),
    {
        &self.vertex_lookup
    }
}

} // verus!
