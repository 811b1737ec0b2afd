//! Render meshes for Voronoi cells: each cell polygon, moved so that the
//! cell's centroid is the origin, split into triangles by the Delaunay
//! engine. Turning a mesh into vertex buffers, normals and texture
//! coordinates is left to the renderer.

use vstd::prelude::*;
use crate::clipping::{
    clip_vertices_to_boundary, pts_in_limit, no_dup, inside, ring_edges, in_clipped, sorted_around, mean_point,
    CLIP_LIMIT,
};
use crate::delaunay::{Delaunay2d, all_ids_below, ids_below, ids_of, points_in_limit, triangulation_of};
use crate::geometry::{Point2d, within, COORD_LIMIT};
use crate::voronoi::{Voronoi2d, VoronoiCell2d, centroid_of, VERTEX_LIMIT};

verus! {

/// A polygon split into triangles: its vertex positions, three indices
/// into `positions` for each triangle, and where the origin of the
/// positions lies in the plane.
pub struct RenderMesh {
    pub positions: Vec<Point2d>,
    pub indices: Vec<usize>,
    pub origin: Point2d,
}

/// Whether every index of `indices` names one of `n` positions, and they
/// come in threes.
pub open spec fn indices_ok(indices: Seq<usize>, n: int) -> bool {
    &&& indices.len() % 3 == 0
    &&& forall|k: int| 0 <= k < indices.len() ==> #[trigger] indices[k] < n
}

/// The ids of the triangles of `ts`, three after three.
pub open spec fn flat_ids(ts: Seq<Seq<usize>>) -> Seq<usize>
    decreases ts.len(),
{
    if ts.len() == 0 {
        Seq::empty()
    } else {
        flat_ids(ts.drop_last()) + ts.last()
    }
}

/// Whether the Delaunay engine splits the polygon `vs` into at least one
/// triangle: it has three or more vertices, all within the engine's
/// coordinate limit, and they are not all collinear in the way that
/// leaves the engine no triangle.
pub open spec fn meshable(vs: Seq<Point2d>) -> bool {
    &&& vs.len() >= 3
    &&& vs.len() + 3 <= usize::MAX
    &&& points_in_limit(vs)
    &&& triangulation_of(vs).len() > 0
}

/// Whether `m` is the mesh of the polygon `vs` placed at `origin`.
pub open spec fn is_mesh_of(m: RenderMesh, vs: Seq<Point2d>, origin: Point2d) -> bool {
    &&& m.positions@ == vs
    &&& m.origin == origin
    &&& m.indices@ == flat_ids(triangulation_of(vs))
}

/// Splits the polygon `offset_cell_vertices` into triangles with the
/// Delaunay engine. There is a mesh exactly when the engine finds a
/// triangle; a vertex beyond the engine's coordinate limit, more than
/// `COORD_LIMIT` from the origin on an axis, leaves no mesh.
pub fn triangulate_mesh(offset_cell_vertices: &Vec<Point2d>, origin: Point2d) -> (r: Option<RenderMesh>)
    ensures
        r.is_some() <==> meshable(offset_cell_vertices@),
        r matches Some(m) ==> {
            &&& is_mesh_of(m, offset_cell_vertices@, origin)
            &&& m.indices@.len() > 0
            &&& indices_ok(m.indices@, m.positions@.len() as int)
        },
{
    let n = offset_cell_vertices.len();
    if n < 3 || n > usize::MAX - 3 {
        return None;
    }
    let mut k: usize = 0;
    while k < n
        invariant
            k <= n,
            n == offset_cell_vertices@.len(),
            forall|m: int| 0 <= m < k ==> within(#[trigger] offset_cell_vertices@[m], COORD_LIMIT as int),
        decreases n - k,
    {
        let p = offset_cell_vertices[k];
        if p.x < -COORD_LIMIT || p.x > COORD_LIMIT || p.y < -COORD_LIMIT || p.y > COORD_LIMIT {
            assert(!within(offset_cell_vertices@[k as int], COORD_LIMIT as int));
            return None;
        }
        k = k + 1;
    }
    match Delaunay2d::compute_triangulation_2d(offset_cell_vertices) {
        None => None,
        Some(delaunay) => {
            let tris = delaunay.get_triangles();
            let mut indices: Vec<usize> = Vec::new();
            let mut t: usize = 0;
            while t < tris.len()
                invariant
                    t <= tris@.len(),
                    all_ids_below(tris@, n as int),
                    ids_of(tris@) == triangulation_of(offset_cell_vertices@),
                    indices@ == flat_ids(ids_of(tris@).subrange(0, t as int)),
                    indices@.len() == 3 * t,
                    forall|m: int| 0 <= m < indices@.len() ==> #[trigger] indices@[m] < n,
                decreases tris@.len() - t,
            {
                assert(ids_below(tris@[t as int], n as int));
                let ids = tris[t].get_vertex_ids();
                let ghost i0 = indices@;
                proof { tris@[t as int].lemma_len(); }
                indices.push(ids[0]);
                indices.push(ids[1]);
                indices.push(ids[2]);
                assert(ids_of(tris@).subrange(0, t + 1).drop_last() =~= ids_of(tris@).subrange(0, t as int));
                assert(ids_of(tris@).subrange(0, t + 1).last() == tris@[t as int].ids());
                assert(indices@ =~= i0 + tris@[t as int].ids());
                assert forall|m: int| 0 <= m < indices@.len() implies #[trigger] indices@[m] < n by {
                    if m < i0.len() {
                        assert(indices@[m] == i0[m]);
                    }
                }
                t = t + 1;
            }
            assert(indices@.len() % 3 == 0);
            assert(ids_of(tris@).subrange(0, t as int) =~= ids_of(tris@));
            let positions = offset_cell_vertices.clone();
            assert(positions@ == offset_cell_vertices@);
            Some(RenderMesh { positions, indices, origin })
        },
    }
}

/// The smallest and largest `x` and `y` over `positions`, which are not
/// empty: the box that texture coordinates are spread over, `[0, 1]` on
/// each axis.
pub fn compute_uv_bounds(positions: &Vec<Point2d>) -> (r: (Point2d, Point2d))
    requires
        positions@.len() > 0,
    ensures
        forall|k: int|
            0 <= k < positions@.len() ==> r.0.x <= (#[trigger] positions@[k]).x <= r.1.x && r.0.y
                <= positions@[k].y <= r.1.y,
        exists|k: int| 0 <= k < positions@.len() && (#[trigger] positions@[k]).x == r.0.x,
        exists|k: int| 0 <= k < positions@.len() && (#[trigger] positions@[k]).y == r.0.y,
        exists|k: int| 0 <= k < positions@.len() && (#[trigger] positions@[k]).x == r.1.x,
        exists|k: int| 0 <= k < positions@.len() && (#[trigger] positions@[k]).y == r.1.y,
{
    let mut min = positions[0];
    let mut max = positions[0];
    let mut k: usize = 1;
    while k < positions.len()
        invariant
            1 <= k <= positions@.len(),
            forall|m: int|
                0 <= m < k ==> min.x <= (#[trigger] positions@[m]).x <= max.x && min.y
                    <= positions@[m].y <= max.y,
            exists|m: int| 0 <= m < k && (#[trigger] positions@[m]).x == min.x,
            exists|m: int| 0 <= m < k && (#[trigger] positions@[m]).y == min.y,
            exists|m: int| 0 <= m < k && (#[trigger] positions@[m]).x == max.x,
            exists|m: int| 0 <= m < k && (#[trigger] positions@[m]).y == max.y,
        decreases positions@.len() - k,
    {
        let p = positions[k];
        if p.x < min.x {
            min.x = p.x;
        }
        if p.y < min.y {
            min.y = p.y;
        }
        if p.x > max.x {
            max.x = p.x;
        }
        if p.y > max.y {
            max.y = p.y;
        }
        k = k + 1;
    }
    (min, max)
}

/// The points of the vertex ids of `cell`.
fn cell_points(cell: &VoronoiCell2d, lookup: &Vec<Point2d>) -> (r: Vec<Point2d>)
    requires
        forall|k: int|
            0 <= k < cell.vertices_view().len() ==> #[trigger] cell.vertices_view()[k] < lookup@.len(),
    ensures
        r@.len() == cell.vertices_view().len(),
        forall|k: int| 0 <= k < r@.len() ==> #[trigger] r@[k] == lookup@[cell.vertices_view()[k] as int],
{
    let ids = cell.get_vertex_ids();
    let mut pts: Vec<Point2d> = Vec::new();
    let mut k: usize = 0;
    while k < ids.len()
        invariant
            k <= ids@.len(),
            ids@ == cell.vertices_view(),
            forall|m: int| 0 <= m < ids@.len() ==> #[trigger] ids@[m] < lookup@.len(),
            pts@.len() == k,
            forall|m: int| 0 <= m < k ==> #[trigger] pts@[m] == lookup@[ids@[m] as int],
        decreases ids@.len() - k,
    {
        pts.push(lookup[ids[k]]);
        k = k + 1;
    }
    pts
}

/// `points` moved by `-centre`.
fn moved(points: &Vec<Point2d>, centre: Point2d) -> (r: Vec<Point2d>)
    requires
        within(centre, VERTEX_LIMIT as int),
        forall|k: int| 0 <= k < points@.len() ==> within(#[trigger] points@[k], VERTEX_LIMIT as int),
    ensures
        r@.len() == points@.len(),
        forall|k: int|
            0 <= k < r@.len() ==> (#[trigger] r@[k]).x == points@[k].x - centre.x && r@[k].y
                == points@[k].y - centre.y,
{
    let mut out: Vec<Point2d> = Vec::new();
    let mut k: usize = 0;
    while k < points.len()
        invariant
            k <= points@.len(),
            within(centre, VERTEX_LIMIT as int),
            forall|m: int| 0 <= m < points@.len() ==> within(#[trigger] points@[m], VERTEX_LIMIT as int),
            out@.len() == k,
            forall|m: int|
                0 <= m < k ==> (#[trigger] out@[m]).x == points@[m].x - centre.x && out@[m].y
                    == points@[m].y - centre.y,
        decreases points@.len() - k,
    {
        let p = points[k];
        assert(within(points@[k as int], VERTEX_LIMIT as int));
        out.push(Point2d { x: p.x - centre.x, y: p.y - centre.y });
        k = k + 1;
    }
    out
}

/// Whether every point of `points` lies within the clipping limit.
fn all_clippable(points: &Vec<Point2d>) -> (r: bool)
    ensures
        r == pts_in_limit(points@),
{
    let mut k: usize = 0;
    while k < points.len()
        invariant
            k <= points@.len(),
            forall|m: int| 0 <= m < k ==> within(#[trigger] points@[m], CLIP_LIMIT as int),
        decreases points@.len() - k,
    {
        let p = points[k];
        if p.x < -CLIP_LIMIT || p.x > CLIP_LIMIT || p.y < -CLIP_LIMIT || p.y > CLIP_LIMIT {
            assert(!within(points@[k as int], CLIP_LIMIT as int));
            return false;
        }
        k = k + 1;
    }
    true
}

/// The points of the vertex ids of `c`.
pub open spec fn cell_pts(c: VoronoiCell2d, lookup: Seq<Point2d>) -> Seq<Point2d> {
    c.vertices_view().map_values(|id: usize| lookup[id as int])
}

/// The points of `ps` seen from `c`.
pub open spec fn shifted(ps: Seq<Point2d>, c: Point2d) -> Seq<Point2d> {
    ps.map_values(|p: Point2d| Point2d { x: (p.x - c.x) as i64, y: (p.y - c.y) as i64 })
}

/// Whether some entry of `r` is for the cell with index `i`.
pub open spec fn has_key(r: Seq<(usize, RenderMesh)>, i: int) -> bool {
    exists|k: int| 0 <= k < r.len() && #[trigger] r[k].0 == i
}

/// Whether the cell indices of `r` increase.
pub open spec fn keys_increasing(r: Seq<(usize, RenderMesh)>) -> bool {
    forall|x: int, y: int| #![trigger r[x], r[y]] 0 <= x < y < r.len() ==> r[x].0 < r[y].0
}

/// Whether the cell `c`, seen from its centroid, can be split into
/// triangles.
pub open spec fn cell_meshable(c: VoronoiCell2d, lookup: Seq<Point2d>) -> bool {
    c.vertices_view().len() > 0 && meshable(
        shifted(cell_pts(c, lookup), centroid_of(c.vertices_view(), lookup)),
    )
}

/// Whether `w` is what clipping the cell `cell` to `boundary` gives when it
/// gives something: the cell itself when every vertex is inside, and
/// otherwise the clipped vertices in order of angle about their centroid.
pub open spec fn clipped_ok(cell: Seq<Point2d>, boundary: Seq<Point2d>, w: Seq<Point2d>) -> bool {
    &&& pts_in_limit(w)
    &&& (forall|k: int| 0 <= k < cell.len() ==> inside(#[trigger] cell[k], ring_edges(boundary)))
        && cell.len() > 0 ==> w == cell
    &&& (exists|k: int| 0 <= k < cell.len() && !inside(#[trigger] cell[k], ring_edges(boundary)))
        ==> (forall|x: Point2d| w.contains(x) <==> in_clipped(x, cell, boundary)) && (w.len() > 0
        ==> sorted_around(w, mean_point(w))) && no_dup(w)
}

/// Whether `present`, the cell `c` having a clipped mesh, agrees with what
/// clipping to `boundary` gives: no mesh for a cell wholly outside or with
/// a vertex beyond the clipping limit; for a cell wholly inside, a mesh
/// exactly when the unclipped cell has one; otherwise no mesh only when the
/// clipped polygon cannot be split into triangles.
pub open spec fn clip_cell_ok(present: bool, c: VoronoiCell2d, lookup: Seq<Point2d>, boundary: Seq<Point2d>) -> bool {
    let pts = cell_pts(c, lookup);
    let cen = centroid_of(c.vertices_view(), lookup);
    let b = ring_edges(boundary);
    &&& (forall|k: int| 0 <= k < pts.len() ==> !inside(#[trigger] pts[k], b)) ==> !present
    &&& !pts_in_limit(pts) ==> !present
    &&& pts.len() > 0 && pts_in_limit(pts) && (forall|k: int| 0 <= k < pts.len() ==> inside(#[trigger] pts[k], b))
        ==> (present <==> meshable(shifted(pts, cen)))
    &&& pts_in_limit(pts) && (exists|k: int| 0 <= k < pts.len() && !inside(#[trigger] pts[k], b))
        && (exists|k: int| 0 <= k < pts.len() && inside(#[trigger] pts[k], b)) && !present ==> exists|w: Seq<Point2d>| clipped_ok(pts, boundary, w) && !meshable(#[trigger] shifted(w, cen))
}

/// Whether `m` is the mesh of the cell `c` clipped to `boundary`.
pub open spec fn clip_mesh_ok(m: RenderMesh, c: VoronoiCell2d, lookup: Seq<Point2d>, boundary: Seq<Point2d>) -> bool {
    let pts = cell_pts(c, lookup);
    let cen = centroid_of(c.vertices_view(), lookup);
    &&& pts_in_limit(pts)
    &&& exists|w: Seq<Point2d>| clipped_ok(pts, boundary, w) && is_mesh_of(m, #[trigger] shifted(w, cen), cen)
}

impl Voronoi2d {
    /// The render mesh of each cell clipped to `boundary`, whose vertices
    /// run counter-clockwise, with the cell's index, in order of index.
    /// Cells that fall wholly outside the boundary have none, nor do cells
    /// with a vertex beyond the clipping limit; a cell wholly inside has the
    /// same mesh as unclipped. Each mesh is centred on the centroid of its
    /// whole, unclipped cell, which is its origin.
    pub fn as_clipped_bevy2d_meshes(&self, boundary: &Vec<Point2d>) -> (r: Vec<(usize, RenderMesh)>)
        requires
            self.wf(),
            pts_in_limit(boundary@),
        ensures
            r@.len() <= self.cells_view().len(),
            forall|k: int| 0 <= k < r@.len() ==> (#[trigger] r@[k]).0 < self.cells_view().len(),
            keys_increasing(r@),
            forall|i: int|
                0 <= i < self.cells_view().len() ==> clip_cell_ok(
                    has_key(r@, i),
                    #[trigger] self.cells_view()[i],
                    self.lookup_view(),
                    boundary@,
                ),
            forall|k: int|
                0 <= k < r@.len() ==> clip_mesh_ok(
                    (#[trigger] r@[k]).1,
                    self.cells_view()[r@[k].0 as int],
                    self.lookup_view(),
                    boundary@,
                ),
    {
        let cells = self.get_cells();
        let lookup = self.get_vertex_lookup();
        let mut meshes: Vec<(usize, RenderMesh)> = Vec::new();
        let mut i: usize = 0;
        while i < cells.len()
            invariant
                i <= cells@.len(),
                cells@ == self.cells_view(),
                lookup@ == self.lookup_view(),
                self.wf(),
                pts_in_limit(boundary@),
                meshes@.len() <= i,
                forall|k: int| 0 <= k < meshes@.len() ==> (#[trigger] meshes@[k]).0 < i,
                keys_increasing(meshes@),
                forall|c: int|
                    0 <= c < i ==> clip_cell_ok(has_key(meshes@, c), #[trigger] cells@[c], lookup@, boundary@),
                forall|k: int|
                    0 <= k < meshes@.len() ==> clip_mesh_ok(
                        (#[trigger] meshes@[k]).1,
                        cells@[meshes@[k].0 as int],
                        lookup@,
                        boundary@,
                    ),
            decreases cells@.len() - i,
        {
            let cell = &cells[i];
            let ghost m0 = meshes@;
            let ghost pts = cell_pts(*cell, lookup@);
            let ghost cen = centroid_of(cell.vertices_view(), lookup@);
            assert(cells@[i as int] == self.cells_view()[i as int]);
            let mut added = false;
            if cell.get_vertex_ids().len() > 0 {
                let points = cell_points(cell, lookup);
                assert(points@ =~= pts);
                assert forall|k: int| 0 <= k < points@.len() implies within(
                    #[trigger] points@[k],
                    VERTEX_LIMIT as int,
                ) by {
                    assert(within(lookup@[cell.vertices_view()[k] as int], VERTEX_LIMIT as int));
                }
                if all_clippable(&points) {
                    let centre = cell.get_centre_position(lookup);
                    match clip_vertices_to_boundary(points, boundary) {
                        Some(clipped) => {
                            assert(clipped_ok(pts, boundary@, clipped@));
                            let offset = moved(&clipped, centre);
                            assert(offset@ =~= shifted(clipped@, cen));
                            match triangulate_mesh(&offset, centre) {
                                Some(mesh) => {
                                    meshes.push((i, mesh));
                                    added = true;
                                    assert(clip_mesh_ok(mesh, cells@[i as int], lookup@, boundary@));
                                },
                                None => {
                                    assert(clip_cell_ok(false, cells@[i as int], lookup@, boundary@)) by {
                                        if forall|k: int| 0 <= k < pts.len() ==> inside(#[trigger] pts[k], ring_edges(boundary@)) {
                                            assert(clipped@ == pts);
                                        }
                                    }
                                },
                            }
                            proof {
                                if added {
                                    assert(clip_cell_ok(true, cells@[i as int], lookup@, boundary@)) by {
                                        if forall|k: int| 0 <= k < pts.len() ==> inside(#[trigger] pts[k], ring_edges(boundary@)) {
                                            assert(clipped@ == pts);
                                        }
                                    }
                                }
                            }
                        },
                        None => {
                            assert(forall|k: int| 0 <= k < pts.len() ==> !inside(#[trigger] pts[k], ring_edges(boundary@)));
                            assert(!inside(pts[0], ring_edges(boundary@)));
                            assert(clip_cell_ok(false, cells@[i as int], lookup@, boundary@));
                        },
                    }
                } else {
                    assert(!pts_in_limit(pts));
                    assert(clip_cell_ok(false, cells@[i as int], lookup@, boundary@));
                }
            } else {
                assert(pts.len() == 0);
                assert(clip_cell_ok(false, cells@[i as int], lookup@, boundary@));
            }
            proof {
                assert(clip_cell_ok(added, cells@[i as int], lookup@, boundary@));
                if added {
                    assert(meshes@ == m0.push(meshes@[m0.len() as int]));
                    assert(meshes@[m0.len() as int].0 == i);
                } else {
                    assert(meshes@ == m0);
                }
                assert forall|k: int| 0 <= k < meshes@.len() implies (#[trigger] meshes@[k]).0 < i + 1 by {
                    if k < m0.len() {
                        assert(meshes@[k] == m0[k]);
                    }
                }
                assert forall|x: int, y: int| #![trigger meshes@[x], meshes@[y]] 0 <= x < y < meshes@.len() implies meshes@[x].0 < meshes@[y].0 by {
                    assert(meshes@[x] == m0[x]);
                    if y < m0.len() {
                        assert(meshes@[y] == m0[y]);
                    }
                }
                assert forall|k: int|
                    0 <= k < meshes@.len() implies clip_mesh_ok(
                        (#[trigger] meshes@[k]).1,
                        cells@[meshes@[k].0 as int],
                        lookup@,
                        boundary@,
                    ) by {
                    if k < m0.len() {
                        assert(meshes@[k] == m0[k]);
                    }
                }
                assert forall|c: int|
                    0 <= c < i + 1 implies clip_cell_ok(has_key(meshes@, c), #[trigger] cells@[c], lookup@, boundary@) by {
                    if c < i {
                        if has_key(meshes@, c) {
                            let k = choose|k: int| 0 <= k < meshes@.len() && #[trigger] meshes@[k].0 == c;
                            if k < m0.len() {
                                assert(meshes@[k] == m0[k]);
                            }
                            assert(has_key(m0, c));
                        }
                        if has_key(m0, c) {
                            let k = choose|k: int| 0 <= k < m0.len() && #[trigger] m0[k].0 == c;
                            assert(meshes@[k] == m0[k]);
                        }
                    } else {
                        if added {
                            assert(meshes@[m0.len() as int].0 == c);
                        }
                        if has_key(meshes@, c) {
                            let k = choose|k: int| 0 <= k < meshes@.len() && #[trigger] meshes@[k].0 == c;
                            if k < m0.len() {
                                assert(meshes@[k] == m0[k]);
                            }
                        }
                        assert(has_key(meshes@, c) == added);
                    }
                }
            }
            i = i + 1;
        }
        meshes
    }

    /// A render mesh for each cell that the Delaunay engine can split into
    /// triangles, with the cell's index, in order of index. Each mesh is the
    /// cell seen from its centroid, which is its origin; a cell with a vertex
    /// farther than `COORD_LIMIT` from the centroid on an axis has none.
    pub fn as_bevy2d_meshes(&self) -> (r: Vec<(usize, RenderMesh)>)
        requires
            self.wf(),
        ensures
            r@.len() <= self.cells_view().len(),
            forall|k: int| 0 <= k < r@.len() ==> (#[trigger] r@[k]).0 < self.cells_view().len(),
            keys_increasing(r@),
            forall|i: int|
                0 <= i < self.cells_view().len() ==> (has_key(r@, i) <==> cell_meshable(
                    #[trigger] self.cells_view()[i],
                    self.lookup_view(),
                )),
            forall|k: int|
                0 <= k < r@.len() ==> is_mesh_of(
                    (#[trigger] r@[k]).1,
                    shifted(
                        cell_pts(self.cells_view()[r@[k].0 as int], self.lookup_view()),
                        centroid_of(self.cells_view()[r@[k].0 as int].vertices_view(), self.lookup_view()),
                    ),
                    centroid_of(self.cells_view()[r@[k].0 as int].vertices_view(), self.lookup_view()),
                ),
    {
        let cells = self.get_cells();
        let lookup = self.get_vertex_lookup();
        let mut meshes: Vec<(usize, RenderMesh)> = Vec::new();
        let mut i: usize = 0;
        while i < cells.len()
            invariant
                i <= cells@.len(),
                cells@ == self.cells_view(),
                lookup@ == self.lookup_view(),
                self.wf(),
                meshes@.len() <= i,
                forall|k: int| 0 <= k < meshes@.len() ==> (#[trigger] meshes@[k]).0 < i,
                keys_increasing(meshes@),
                forall|c: int|
                    0 <= c < i ==> (has_key(meshes@, c) <==> cell_meshable(
                        #[trigger] cells@[c],
                        lookup@,
                    )),
                forall|k: int|
                    0 <= k < meshes@.len() ==> is_mesh_of(
                        (#[trigger] meshes@[k]).1,
                        shifted(
                            cell_pts(cells@[meshes@[k].0 as int], lookup@),
                            centroid_of(cells@[meshes@[k].0 as int].vertices_view(), lookup@),
                        ),
                        centroid_of(cells@[meshes@[k].0 as int].vertices_view(), lookup@),
                    ),
            decreases cells@.len() - i,
        {
            let cell = &cells[i];
            let ghost m0 = meshes@;
            assert(cells@[i as int] == self.cells_view()[i as int]);
            let mut added = false;
            if cell.get_vertex_ids().len() > 0 {
                let points = cell_points(cell, lookup);
                assert(points@ =~= cell_pts(*cell, lookup@));
                assert forall|k: int| 0 <= k < points@.len() implies within(
                    #[trigger] points@[k],
                    VERTEX_LIMIT as int,
                ) by {
                    assert(within(lookup@[cell.vertices_view()[k] as int], VERTEX_LIMIT as int));
                }
                let centre = cell.get_centre_position(lookup);
                let offset = moved(&points, centre);
                assert(offset@ =~= shifted(points@, centre));
                if let Some(mesh) = triangulate_mesh(&offset, centre) {
                    meshes.push((i, mesh));
                    added = true;
                }
            }
            proof {
                assert(added <==> cell_meshable(cells@[i as int], lookup@));
                if added {
                    assert(meshes@ == m0.push(meshes@[m0.len() as int]));
                    assert(meshes@[m0.len() as int].0 == i);
                } else {
                    assert(meshes@ == m0);
                }
                assert forall|k: int| 0 <= k < meshes@.len() implies (#[trigger] meshes@[k]).0 < i + 1 by {
                    if k < m0.len() {
                        assert(meshes@[k] == m0[k]);
                    }
                }
                assert forall|x: int, y: int| #![trigger meshes@[x], meshes@[y]] 0 <= x < y < meshes@.len() implies meshes@[x].0 < meshes@[y].0 by {
                    assert(meshes@[x] == m0[x]);
                    if y < m0.len() {
                        assert(meshes@[y] == m0[y]);
                    }
                }
                assert forall|k: int|
                    0 <= k < meshes@.len() implies is_mesh_of(
                        (#[trigger] meshes@[k]).1,
                        shifted(
                            cell_pts(cells@[meshes@[k].0 as int], lookup@),
                            centroid_of(cells@[meshes@[k].0 as int].vertices_view(), lookup@),
                        ),
                        centroid_of(cells@[meshes@[k].0 as int].vertices_view(), lookup@),
                    ) by {
                    if k < m0.len() {
                        assert(meshes@[k] == m0[k]);
                    }
                }
                assert forall|c: int|
                    0 <= c < i + 1 implies (has_key(meshes@, c) <==> cell_meshable(
                        #[trigger] cells@[c],
                        lookup@,
                    )) by {
                    if has_key(meshes@, c) {
                        let k = choose|k: int| 0 <= k < meshes@.len() && #[trigger] meshes@[k].0 == c;
                        if k < m0.len() {
                            assert(meshes@[k] == m0[k]);
                            assert(has_key(m0, c));
                        }
                    }
                    if c < i && has_key(m0, c) {
                        let k = choose|k: int| 0 <= k < m0.len() && #[trigger] m0[k].0 == c;
                        assert(meshes@[k] == m0[k]);
                    }
                    if c == i && added {
                        assert(meshes@[m0.len() as int].0 == c);
                    }
                    if c == i && has_key(m0, c) {
                        let k = choose|k: int| 0 <= k < m0.len() && #[trigger] m0[k].0 == c;
                    }
                }
            }
            i = i + 1;
        }
        meshes
    }
}

} // verus!
