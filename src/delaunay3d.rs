//! Delaunay tetrahedralization of points of space by the Bowyer-Watson
//! algorithm.
//!
//! Six bootstrap vertices lie far out along the `+y`, `-y`, `+z`, `-z`, `-x`
//! and `+x` directions from the middle of the points' bounds; the four
//! tetrahedra that share the `-x`/`+x` axis fill the octahedron they span.
//! Each point in turn removes the tetrahedra whose circumsphere holds it
//! strictly inside; the faces met by exactly one removed tetrahedron bound
//! the hole, and each is joined to the point, save where the four corners
//! are coplanar. A point that lies inside no circumsphere cannot be merged:
//! it is recorded as problematic and skipped. At the end every tetrahedron
//! that touches a bootstrap vertex is dropped.
//!
//! The containment test is exact and strict in space as in the plane: a
//! point on the sphere is not inside it.
//!
//! New tetrahedra are not tested for crossing existing ones: the engine
//! does not use `TriangleNode3d::does_edge_intersect`, and relies on the
//! hole's border faces alone, dropping only tetrahedra whose four corners
//! are coplanar.
//!
//! The input point with index `i` has vertex id `i`; the bootstrap
//! vertices take the six ids after the input points.

use vstd::prelude::*;
use crate::geometry3d::{
    Point3d, within3, orient3, orient3_spec, in_circumsphere, circumsphere_contains, COORD3_LIMIT,
    WORK3_LIMIT,
};
use crate::tetrahedron_node::TetrahedronNode;
use crate::triangle_node3d::TriangleNode3d;

verus! {

/// How far the bootstrap vertices reach, in multiples of the extent of the
/// bounds.
pub const SUPER3_SCALE: i64 = 64;

/// A tetrahedralization: tetrahedra over vertex ids, the point of each id,
/// and the ids of the points that could not be merged.
pub struct Delaunay3d {
    tetrahedra: Vec<TetrahedronNode>,
    vertex_lookup: Vec<Point3d>,
    problematic: Vec<usize>,
}

/// Whether every corner of `t` is an id below `n`.
pub open spec fn ids_below3(t: TetrahedronNode, n: int) -> bool {
    t.ids()[0] < n && t.ids()[1] < n && t.ids()[2] < n && t.ids()[3] < n
}

/// Whether every corner of every tetrahedron of `ts` is an id below `n`.
pub open spec fn all_ids_below3(ts: Seq<TetrahedronNode>, n: int) -> bool {
    forall|k: int| 0 <= k < ts.len() ==> #[trigger] ids_below3(ts[k], n)
}

/// Whether no two tetrahedra of `ts` share their corners.
pub open spec fn no_repeats3(ts: Seq<TetrahedronNode>) -> bool {
    forall|i: int, j: int|
        #![trigger ts[i], ts[j]]
        0 <= i < ts.len() && 0 <= j < ts.len() && i != j ==> !ts[i].same_tetrahedron(&ts[j])
}

/// Corner `k` of `t`, looked up in `lookup`.
pub open spec fn corner3(t: TetrahedronNode, lookup: Seq<Point3d>, k: int) -> Point3d {
    lookup[t.ids()[k] as int]
}

/// Whether the corners of `t` are not coplanar, so that it has a
/// circumsphere.
pub open spec fn has_sphere(t: TetrahedronNode, lookup: Seq<Point3d>) -> bool {
    orient3_spec(corner3(t, lookup, 0), corner3(t, lookup, 1), corner3(t, lookup, 2), corner3(t, lookup, 3)) != 0
}

/// Whether every tetrahedron of `ts` has a circumsphere.
pub open spec fn all_have_spheres(ts: Seq<TetrahedronNode>, lookup: Seq<Point3d>) -> bool {
    forall|k: int| 0 <= k < ts.len() ==> #[trigger] has_sphere(ts[k], lookup)
}

/// Whether every point of `points` lies within the input limit.
pub open spec fn points3_in_limit(points: Seq<Point3d>) -> bool {
    forall|k: int| 0 <= k < points.len() ==> within3(#[trigger] points[k], COORD3_LIMIT as int)
}

/// Whether every point of `lookup` lies within the working limit.
pub open spec fn all_within3(lookup: Seq<Point3d>) -> bool {
    forall|k: int| 0 <= k < lookup.len() ==> within3(#[trigger] lookup[k], WORK3_LIMIT as int)
}

/// Whether `p` lies strictly inside the circumsphere of `t`.
pub open spec fn is_bad3(t: TetrahedronNode, lookup: Seq<Point3d>, p: Point3d) -> bool {
    in_circumsphere(corner3(t, lookup, 0), corner3(t, lookup, 1), corner3(t, lookup, 2), corner3(t, lookup, 3), p)
}

/// Whether every corner of `t` is an input point below `lo`, or a
/// bootstrap vertex, whose id is `n` or more.
pub open spec fn settled3(t: TetrahedronNode, lo: int, n: int) -> bool {
    forall|k: int| 0 <= k < 4 ==> (#[trigger] t.ids()[k] < lo || t.ids()[k] >= n)
}

/// The largest id of an input point among the corners of `t`, where the
/// ids from `n` on are bootstrap vertices; `-1` when there is none.
pub open spec fn newest_real3(t: TetrahedronNode, n: int) -> int {
    let v = |k: int| if t.ids()[k] < n { t.ids()[k] as int } else { -1int };
    let ab = if v(0) >= v(1) { v(0) } else { v(1) };
    let cd = if v(2) >= v(3) { v(2) } else { v(3) };
    if ab >= cd { ab } else { cd }
}

/// The largest id among the corners of `t`.
pub open spec fn newest_corner3(t: TetrahedronNode) -> int {
    let v = |k: int| t.ids()[k] as int;
    let ab = if v(0) >= v(1) { v(0) } else { v(1) };
    let cd = if v(2) >= v(3) { v(2) } else { v(3) };
    if ab >= cd { ab } else { cd }
}

/// Whether every corner of the face `f` is an input point below `lo`, or a
/// bootstrap vertex, whose id is `n` or more.
pub open spec fn face_settled(f: TriangleNode3d, lo: int, n: int) -> bool {
    forall|j: int| 0 <= j < 3 ==> (#[trigger] f.ids()[j] < lo || f.ids()[j] >= n)
}

/// Whether the three corners of `f` are all corners of `t`.
pub open spec fn has_face(t: TetrahedronNode, f: TriangleNode3d) -> bool {
    has_face_ids(t.ids(), f.ids())
}

/// How many tetrahedra of `ts` have the face `f`.
pub open spec fn face_count(ts: Seq<TetrahedronNode>, f: TriangleNode3d) -> nat {
    face_count_ids(ids_of3(ts), f.ids())
}

/// The corner ids of each face of `fs`.
pub open spec fn faces_ids(fs: Seq<TriangleNode3d>) -> Seq<Seq<usize>> {
    fs.map_values(|f: TriangleNode3d| f.ids())
}

/// The corner ids of each tetrahedron of `ts`.
pub open spec fn ids_of3(ts: Seq<TetrahedronNode>) -> Seq<Seq<usize>> {
    ts.map_values(|t: TetrahedronNode| t.ids())
}

/// Whether `p` lies strictly inside the circumsphere of the corners `t`.
pub open spec fn bad3_ids(t: Seq<usize>, lookup: Seq<Point3d>, p: Point3d) -> bool {
    in_circumsphere(lookup[t[0] as int], lookup[t[1] as int], lookup[t[2] as int], lookup[t[3] as int], p)
}

/// The tetrahedra of `ts` whose circumsphere does not hold `p`, in order.
pub open spec fn keep_good3(ts: Seq<Seq<usize>>, lookup: Seq<Point3d>, p: Point3d) -> Seq<Seq<usize>>
    decreases ts.len(),
{
    if ts.len() == 0 {
        ts
    } else if bad3_ids(ts.last(), lookup, p) {
        keep_good3(ts.drop_last(), lookup, p)
    } else {
        keep_good3(ts.drop_last(), lookup, p).push(ts.last())
    }
}

/// The tetrahedra of `ts` whose circumsphere holds `p`, in order.
pub open spec fn keep_bad3(ts: Seq<Seq<usize>>, lookup: Seq<Point3d>, p: Point3d) -> Seq<Seq<usize>>
    decreases ts.len(),
{
    if ts.len() == 0 {
        ts
    } else if bad3_ids(ts.last(), lookup, p) {
        keep_bad3(ts.drop_last(), lookup, p).push(ts.last())
    } else {
        keep_bad3(ts.drop_last(), lookup, p)
    }
}

/// Whether the three corners `f` are all corners of `t`.
pub open spec fn has_face_ids(t: Seq<usize>, f: Seq<usize>) -> bool {
    t.contains(f[0]) && t.contains(f[1]) && t.contains(f[2])
}

/// How many tetrahedra of `ts` have the face `f`.
pub open spec fn face_count_ids(ts: Seq<Seq<usize>>, f: Seq<usize>) -> nat
    decreases ts.len(),
{
    if ts.len() == 0 {
        0
    } else {
        face_count_ids(ts.drop_last(), f) + if has_face_ids(ts.last(), f) {
            1nat
        } else {
            0nat
        }
    }
}

/// `seq![f]` when exactly one tetrahedron of `all` has the face `f`.
pub open spec fn if_once(f: Seq<usize>, all: Seq<Seq<usize>>) -> Seq<Seq<usize>> {
    if face_count_ids(all, f) == 1 { seq![f] } else { Seq::empty() }
}

/// The faces `a-b-c`, `a-c-d`, `a-d-b`, `b-c-d` of `t` that exactly one
/// tetrahedron of `all` has.
pub open spec fn once_faces(t: Seq<usize>, all: Seq<Seq<usize>>) -> Seq<Seq<usize>> {
    if_once(seq![t[0], t[1], t[2]], all) + if_once(seq![t[0], t[2], t[3]], all) + if_once(
        seq![t[0], t[3], t[1]],
        all,
    ) + if_once(seq![t[1], t[2], t[3]], all)
}

/// The faces of the tetrahedra of `prefix`, in order, that exactly one
/// tetrahedron of `all` has: the border of the hole `all` leaves.
pub open spec fn boundary_faces(prefix: Seq<Seq<usize>>, all: Seq<Seq<usize>>) -> Seq<Seq<usize>>
    decreases prefix.len(),
{
    if prefix.len() == 0 {
        Seq::empty()
    } else {
        boundary_faces(prefix.drop_last(), all) + once_faces(prefix.last(), all)
    }
}

/// Whether every corner of `a` is a corner of `b`.
pub open spec fn same_ids4(a: Seq<usize>, b: Seq<usize>) -> bool {
    b.contains(a[0]) && b.contains(a[1]) && b.contains(a[2]) && b.contains(a[3])
}

/// `ts` with `t` added at the end, unless a tetrahedron with the same
/// corners is there.
pub open spec fn insert_ids4(ts: Seq<Seq<usize>>, t: Seq<usize>) -> Seq<Seq<usize>> {
    if exists|k: int| 0 <= k < ts.len() && (same_ids4(ts[k], t) || same_ids4(t, #[trigger] ts[k])) {
        ts
    } else {
        ts.push(t)
    }
}

/// `ts` with the tetrahedra that join the point `i` to each face of `bnd`,
/// in order, save those whose four corners are coplanar.
pub open spec fn fill_hole3(ts: Seq<Seq<usize>>, bnd: Seq<Seq<usize>>, i: usize, lookup: Seq<Point3d>) -> Seq<Seq<usize>>
    decreases bnd.len(),
{
    if bnd.len() == 0 {
        ts
    } else {
        let prev = fill_hole3(ts, bnd.drop_last(), i, lookup);
        let f = bnd.last();
        if orient3_spec(lookup[i as int], lookup[f[0] as int], lookup[f[1] as int], lookup[f[2] as int]) != 0 {
            insert_ids4(prev, seq![i, f[0], f[1], f[2]])
        } else {
            prev
        }
    }
}

/// One step of the algorithm: the point `i` removes the tetrahedra whose
/// circumsphere holds it and fills the hole they leave; when none holds
/// it, nothing changes.
pub open spec fn insert_point3(ts: Seq<Seq<usize>>, i: usize, lookup: Seq<Point3d>) -> Seq<Seq<usize>> {
    let p = lookup[i as int];
    let bad = keep_bad3(ts, lookup, p);
    let kept = keep_good3(ts, lookup, p);
    if bad.len() == 0 {
        kept
    } else {
        fill_hole3(kept, boundary_faces(bad, bad), i, lookup)
    }
}

/// The tetrahedra after the first `i` of `n` points have been inserted
/// into the four bootstrap tetrahedra.
pub open spec fn tetrahedralize(lookup: Seq<Point3d>, n: nat, i: nat) -> Seq<Seq<usize>>
    decreases i,
{
    if i == 0 {
        seq![
            seq![n as usize, (n + 5) as usize, (n + 2) as usize, (n + 4) as usize],
            seq![n as usize, (n + 5) as usize, (n + 3) as usize, (n + 4) as usize],
            seq![(n + 1) as usize, (n + 5) as usize, (n + 2) as usize, (n + 4) as usize],
            seq![(n + 1) as usize, (n + 5) as usize, (n + 3) as usize, (n + 4) as usize],
        ]
    } else {
        insert_point3(tetrahedralize(lookup, n, (i - 1) as nat), (i - 1) as usize, lookup)
    }
}

/// The ids, below `i`, of the points that no circumsphere held when they
/// were inserted.
pub open spec fn problematic_of(lookup: Seq<Point3d>, n: nat, i: nat) -> Seq<usize>
    decreases i,
{
    if i == 0 {
        Seq::empty()
    } else {
        let prev = problematic_of(lookup, n, (i - 1) as nat);
        let ts = tetrahedralize(lookup, n, (i - 1) as nat);
        if keep_bad3(ts, lookup, lookup[i - 1]).len() == 0 {
            prev.push((i - 1) as usize)
        } else {
            prev
        }
    }
}

/// The tetrahedra of `ts` whose corners are all below `n`, in order.
pub open spec fn real_only3(ts: Seq<Seq<usize>>, n: int) -> Seq<Seq<usize>>
    decreases ts.len(),
{
    if ts.len() == 0 {
        ts
    } else if ts.last()[0] < n && ts.last()[1] < n && ts.last()[2] < n && ts.last()[3] < n {
        real_only3(ts.drop_last(), n).push(ts.last())
    } else {
        real_only3(ts.drop_last(), n)
    }
}

/// The six bootstrap vertices for the box from `lo` to `hi`: from the
/// middle of the box out along `+y`, `-y`, `+z`, `-z`, `-x` and `+x`.
pub open spec fn super_vertices(lo: Point3d, hi: Point3d) -> Seq<Point3d> {
    let (dx, dy, dz) = (hi.x - lo.x, hi.y - lo.y, hi.z - lo.z);
    let w = if dx >= dy && dx >= dz { dx } else if dy >= dz { dy } else { dz };
    let r = SUPER3_SCALE * w;
    let (mx, my, mz) = (lo.x + dx / 2, lo.y + dy / 2, lo.z + dz / 2);
    seq![
        Point3d { x: mx as i64, y: (my + r) as i64, z: mz as i64 },
        Point3d { x: mx as i64, y: (my - r) as i64, z: mz as i64 },
        Point3d { x: mx as i64, y: my as i64, z: (mz + r) as i64 },
        Point3d { x: mx as i64, y: my as i64, z: (mz - r) as i64 },
        Point3d { x: (mx - r) as i64, y: my as i64, z: mz as i64 },
        Point3d { x: (mx + r) as i64, y: my as i64, z: mz as i64 },
    ]
}

/// The points and then the six bootstrap vertices for them.
pub open spec fn working_lookup3(points: Seq<Point3d>) -> Seq<Point3d> {
    let (l, h) = (low_corner3(points), high_corner3(points));
    let lo = Point3d { x: (l.0 - 1) as i64, y: (l.1 - 1) as i64, z: (l.2 - 1) as i64 };
    let hi = Point3d { x: (h.0 + 1) as i64, y: (h.1 + 1) as i64, z: (h.2 + 1) as i64 };
    points + super_vertices(lo, hi)
}

/// The corner ids of the tetrahedra the algorithm leaves for `points` once
/// the bootstrap vertices are dropped.
pub open spec fn tetrahedralization_of(points: Seq<Point3d>) -> Seq<Seq<usize>> {
    let n = points.len();
    real_only3(tetrahedralize(working_lookup3(points), n, n), n as int)
}

/// The ids of the points of `points` that could not be merged.
pub open spec fn problematic_points_of(points: Seq<Point3d>) -> Seq<usize> {
    let n = points.len();
    problematic_of(working_lookup3(points), n, n)
}

impl Delaunay3d {
    /// The tetrahedra.
    pub closed spec fn tetrahedra_view(&self) -> Seq<TetrahedronNode> {
        self.tetrahedra@
    }

    /// The point of each vertex id.
    pub closed spec fn lookup_view(&self) -> Seq<Point3d> {
        self.vertex_lookup@
    }

    /// The ids of the points that could not be merged.
    pub closed spec fn problematic_view(&self) -> Seq<usize> {
        self.problematic@
    }

    /// Every tetrahedron's corners name points of the lookup and are not
    /// coplanar, no tetrahedron is there twice, and there is at least one.
    pub open spec fn wf(&self) -> bool {
        &&& all_ids_below3(self.tetrahedra_view(), self.lookup_view().len() as int)
        &&& no_repeats3(self.tetrahedra_view())
        &&& all_have_spheres(self.tetrahedra_view(), self.lookup_view())
        &&& self.tetrahedra_view().len() > 0
        &&& points3_in_limit(self.lookup_view())
    }

    /// Tetrahedralizes `points` by the Bowyer-Watson algorithm. The
    /// tetrahedra are exactly those of `tetrahedralization_of(points)`, the
    /// run of the algorithm written out step by step over vertex ids, and
    /// there is a result exactly when that run leaves a tetrahedron; fewer
    /// than four points give `None`. The points listed as problematic are
    /// exactly those that no circumsphere held when they were inserted, in
    /// increasing order. The vertex id of each input point is its index,
    /// the lookup holds the input points alone, no tetrahedron uses a
    /// bootstrap vertex, and every tetrahedron has a circumsphere. Of the
    /// empty-sphere property, the part that the order of insertion gives is
    /// stated: no input point whose id is larger than every corner of a
    /// tetrahedron lies strictly inside that tetrahedron's circumsphere.
    pub fn compute_triangulation_3d(points: &Vec<Point3d>) -> (r: Option<Delaunay3d>)
        requires
            points3_in_limit(points@),
            points@.len() + 6 <= usize::MAX,
        ensures
            points@.len() < 4 ==> r.is_none(),
            points@.len() >= 4 ==> (r.is_some() <==> tetrahedralization_of(points@).len() > 0),
            r matches Some(d) ==> {
                &&& ids_of3(d.tetrahedra_view()) == tetrahedralization_of(points@)
                &&& d.problematic_view() == problematic_points_of(points@)
                &&& d.wf()
                &&& d.lookup_view() == points@
                &&& all_ids_below3(d.tetrahedra_view(), points@.len() as int)
                &&& forall|k: int|
                    0 <= k < d.problematic_view().len() ==> #[trigger] d.problematic_view()[k]
                        < points@.len()
                &&& forall|i: int, j: int|
                    0 <= i < j < d.problematic_view().len() ==> d.problematic_view()[i]
                        < d.problematic_view()[j]
                &&& forall|k: int, m: int|
                    #![trigger d.tetrahedra_view()[k], points@[m]]
                    0 <= k < d.tetrahedra_view().len() && newest_corner3(d.tetrahedra_view()[k]) < m
                        < points@.len() ==> !is_bad3(d.tetrahedra_view()[k], points@, points@[m])
            },
    {
        let n = points.len();
        if n < 4 {
            return None;
        }
        let (min_bounds, max_bounds) = compute_dimension_bounds(points);
        let corners = compute_super_tetra_vertices(&min_bounds, &max_bounds);
        let mut vertex_lookup: Vec<Point3d> = Vec::new();
        let mut i: usize = 0;
        while i < n
            invariant
                i <= n,
                n == points@.len(),
                vertex_lookup@ == points@.subrange(0, i as int),
            decreases n - i,
        {
            vertex_lookup.push(points[i]);
            i = i + 1;
            assert(vertex_lookup@ =~= points@.subrange(0, i as int));
        }
        let mut c: usize = 0;
        while c < 6
            invariant
                c <= 6,
                n == points@.len(),
                vertex_lookup@.len() == n + c,
                vertex_lookup@.subrange(0, n as int) == points@,
                corners@.len() == 6,
                forall|m: int| 0 <= m < 6 ==> within3(#[trigger] corners@[m], WORK3_LIMIT as int),
                forall|m: int| n <= m < n + c ==> within3(#[trigger] vertex_lookup@[m], WORK3_LIMIT as int),
                vertex_lookup@ == points@ + corners@.subrange(0, c as int),
            decreases 6 - c,
        {
            let ghost v0 = vertex_lookup@;
            vertex_lookup.push(corners[c]);
            assert(vertex_lookup@.subrange(0, n as int) =~= v0.subrange(0, n as int));
            assert(vertex_lookup@ =~= points@ + corners@.subrange(0, c + 1));
            assert forall|m: int| n <= m < n + c + 1 implies within3(#[trigger] vertex_lookup@[m], WORK3_LIMIT as int) by {
                if m < n + c {
                    assert(vertex_lookup@[m] == v0[m]);
                }
            }
            c = c + 1;
        }
        assert forall|k: int| 0 <= k < vertex_lookup@.len() implies within3(
            #[trigger] vertex_lookup@[k],
            WORK3_LIMIT as int,
        ) by {
            if k < n {
                assert(vertex_lookup@[k] == vertex_lookup@.subrange(0, n as int)[k]);
                assert(within3(points@[k], COORD3_LIMIT as int));
            }
        }
        assert(vertex_lookup@ =~= points@ + corners@);
        assert(min_bounds == Point3d { x: (low_corner3(points@).0 - 1) as i64, y: (low_corner3(points@).1 - 1) as i64, z: (low_corner3(points@).2 - 1) as i64 });
        assert(max_bounds == Point3d { x: (high_corner3(points@).0 + 1) as i64, y: (high_corner3(points@).1 + 1) as i64, z: (high_corner3(points@).2 + 1) as i64 });
        assert(vertex_lookup@ == working_lookup3(points@));
        let mut tetrahedra: Vec<TetrahedronNode> = Vec::new();
        tetrahedra.push(TetrahedronNode::new(n, n + 5, n + 2, n + 4));
        tetrahedra.push(TetrahedronNode::new(n, n + 5, n + 3, n + 4));
        tetrahedra.push(TetrahedronNode::new(n + 1, n + 5, n + 2, n + 4));
        tetrahedra.push(TetrahedronNode::new(n + 1, n + 5, n + 3, n + 4));
        assert(ids_of3(tetrahedra@) =~= tetrahedralize(vertex_lookup@, n as nat, 0));
        let mut problematic: Vec<usize> = Vec::new();
        assert(problematic@ =~= problematic_of(vertex_lookup@, n as nat, 0));
        let mut i: usize = 0;
        while i < n
            invariant
                i <= n,
                n == points@.len(),
                vertex_lookup@ == working_lookup3(points@),
                ids_of3(tetrahedra@) == tetrahedralize(vertex_lookup@, n as nat, i as nat),
                problematic@ == problematic_of(vertex_lookup@, n as nat, i as nat),
                vertex_lookup@.len() == n + 6,
                vertex_lookup@.subrange(0, n as int) == points@,
                all_within3(vertex_lookup@),
                all_ids_below3(tetrahedra@, n + 6),
                forall|k: int| 0 <= k < problematic@.len() ==> #[trigger] problematic@[k] < i,
                forall|a: int, b: int|
                    0 <= a < b < problematic@.len() ==> problematic@[a] < problematic@[b],
                forall|k: int|
                    0 <= k < tetrahedra@.len() && ids_below3(#[trigger] tetrahedra@[k], n as int)
                        ==> has_sphere(tetrahedra@[k], vertex_lookup@),
                no_repeats3(tetrahedra@),
                forall|k: int| 0 <= k < tetrahedra@.len() ==> #[trigger] settled3(tetrahedra@[k], i as int, n as int),
                forall|k: int, m: int|
                    #![trigger tetrahedra@[k], vertex_lookup@[m]]
                    0 <= k < tetrahedra@.len() && newest_real3(tetrahedra@[k], n as int) < m < i ==> !is_bad3(
                        tetrahedra@[k],
                        vertex_lookup@,
                        vertex_lookup@[m],
                    ),
            decreases n - i,
        {
            let point = points[i];
            assert(point == vertex_lookup@[i as int]) by {
                assert(vertex_lookup@.subrange(0, n as int)[i as int] == vertex_lookup@[i as int]);
            }
            let ghost before = tetrahedra@;
            let (kept, bad) = split_bad_tetrahedra(point, &tetrahedra, &vertex_lookup);
            let ghost kept_ids = ids_of3(kept@);
            assert(tetrahedralize(vertex_lookup@, n as nat, (i + 1) as nat) == insert_point3(
                ids_of3(before),
                i,
                vertex_lookup@,
            ));
            assert(problematic_of(vertex_lookup@, n as nat, (i + 1) as nat) == (if keep_bad3(ids_of3(before), vertex_lookup@, point).len() == 0 {
                problematic@.push(i)
            } else {
                problematic@
            }));
            assert forall|k: int| 0 <= k < bad@.len() implies #[trigger] settled3(bad@[k], i as int, n as int) by {
                let w = choose|w: int| 0 <= w < before.len() && before[w] == bad@[k];
                assert(settled3(before[w], i as int, n as int));
            }
            tetrahedra = kept;
            assert forall|k: int| 0 <= k < tetrahedra@.len() implies #[trigger] settled3(tetrahedra@[k], i + 1, n as int) by {
                let w = choose|w: int| 0 <= w < before.len() && before[w] == tetrahedra@[k];
                assert(settled3(before[w], i as int, n as int));
            }
            assert forall|k: int|
                0 <= k < tetrahedra@.len() && ids_below3(#[trigger] tetrahedra@[k], n as int)
                    implies has_sphere(tetrahedra@[k], vertex_lookup@) by {
                let w = choose|w: int| 0 <= w < before.len() && before[w] == tetrahedra@[k];
                assert(before[w] == tetrahedra@[k]);
            }
            assert forall|k: int, m: int|
                #![trigger tetrahedra@[k], vertex_lookup@[m]]
                0 <= k < tetrahedra@.len() && newest_real3(tetrahedra@[k], n as int) < m < i + 1 implies !is_bad3(
                    tetrahedra@[k],
                    vertex_lookup@,
                    vertex_lookup@[m],
                ) by {
                let w = choose|w: int| 0 <= w < before.len() && before[w] == tetrahedra@[k];
                assert(before[w] == tetrahedra@[k]);
                if m < i {
                    assert(!is_bad3(before[w], vertex_lookup@, vertex_lookup@[m]));
                } else {
                    assert(!is_bad3(tetrahedra@[k], vertex_lookup@, point));
                }
            }
            if bad.len() == 0 {
                let ghost prob0 = problematic@;
                problematic.push(i);
                assert forall|k: int| 0 <= k < problematic@.len() implies #[trigger] problematic@[k] < i + 1 by {
                    if k < prob0.len() {
                        assert(problematic@[k] == prob0[k]);
                    }
                }
            } else {
                let boundary = hole_faces(&bad, Ghost((n + 6) as int), Ghost(i as int), Ghost(n as int));
                let mut j: usize = 0;
                while j < boundary.len()
                    invariant
                        j <= boundary@.len(),
                        i < n,
                        n == points@.len(),
                        vertex_lookup@ == working_lookup3(points@),
                        ids_of3(tetrahedra@) == fill_hole3(kept_ids, faces_ids(boundary@).subrange(0, j as int), i, vertex_lookup@),
                        vertex_lookup@.len() == n + 6,
                        all_within3(vertex_lookup@),
                        all_ids_below3(tetrahedra@, n + 6),
                        no_repeats3(tetrahedra@),
                        forall|k: int|
                            0 <= k < tetrahedra@.len() && ids_below3(#[trigger] tetrahedra@[k], n as int)
                                ==> has_sphere(tetrahedra@[k], vertex_lookup@),
                        forall|k: int|
                            0 <= k < boundary@.len() ==> (#[trigger] boundary@[k]).ids()[0] < n + 6
                                && boundary@[k].ids()[1] < n + 6 && boundary@[k].ids()[2] < n + 6,
                        forall|x: int|
                            0 <= x < boundary@.len() ==> #[trigger] face_settled(boundary@[x], i as int, n as int),
                        forall|k: int| 0 <= k < tetrahedra@.len() ==> #[trigger] settled3(tetrahedra@[k], i + 1, n as int),
                        forall|k: int, m: int|
                            #![trigger tetrahedra@[k], vertex_lookup@[m]]
                            0 <= k < tetrahedra@.len() && newest_real3(tetrahedra@[k], n as int) < m < i + 1 ==> !is_bad3(
                                tetrahedra@[k],
                                vertex_lookup@,
                                vertex_lookup@[m],
                            ),
                    decreases boundary@.len() - j,
                {
                    let face = boundary[j];
                    proof { face.lemma_len(); }
                    assert(faces_ids(boundary@).subrange(0, j + 1).drop_last() =~= faces_ids(boundary@).subrange(0, j as int));
                    assert(faces_ids(boundary@).subrange(0, j + 1).last() == face.ids());
                    let new_tet = TetrahedronNode::new(
                        i,
                        face.get_vertex_a_id(),
                        face.get_vertex_b_id(),
                        face.get_vertex_c_id(),
                    );
                    let pa = vertex_lookup[i];
                    let pb = vertex_lookup[face.get_vertex_a_id()];
                    let pc = vertex_lookup[face.get_vertex_b_id()];
                    let pd = vertex_lookup[face.get_vertex_c_id()];
                    let ghost prev_ids = ids_of3(tetrahedra@);
                    let ghost fj = faces_ids(boundary@).subrange(0, j + 1);
                    assert(fj.last() == face.ids());
                    assert(fill_hole3(kept_ids, fj, i, vertex_lookup@) == (if orient3_spec(pa, pb, pc, pd) != 0 {
                        insert_ids4(prev_ids, seq![i, face.ids()[0], face.ids()[1], face.ids()[2]])
                    } else {
                        prev_ids
                    }));
                    if orient3(pa, pb, pc, pd) != 0 {
                        assert(has_sphere(new_tet, vertex_lookup@));
                        assert(settled3(new_tet, i + 1, n as int) && newest_real3(new_tet, n as int) == i) by {
                            assert(face_settled(boundary@[j as int], i as int, n as int));
                            assert(face.ids()[0] < i || face.ids()[0] >= n);
                            assert(face.ids()[1] < i || face.ids()[1] >= n);
                            assert(face.ids()[2] < i || face.ids()[2] >= n);
                        }
                        let ghost t0 = tetrahedra@;
                        assert(new_tet.ids() == seq![i, face.ids()[0], face.ids()[1], face.ids()[2]]);
                        insert_tetrahedron(&mut tetrahedra, new_tet, Ghost((n + 6) as int), Ghost(vertex_lookup@), Ghost(n as int));
                        assert(ids_of3(t0) == prev_ids);
                        assert(ids_of3(tetrahedra@) == insert_ids4(prev_ids, new_tet.ids()));
                        assert(orient3_spec(pa, pb, pc, pd) != 0);
                        assert forall|k: int| 0 <= k < tetrahedra@.len() implies #[trigger] settled3(tetrahedra@[k], i + 1, n as int) by {
                            if k < t0.len() {
                                assert(tetrahedra@[k] == t0[k]);
                            }
                        }
                        assert forall|k: int, m: int|
                            #![trigger tetrahedra@[k], vertex_lookup@[m]]
                            0 <= k < tetrahedra@.len() && newest_real3(tetrahedra@[k], n as int) < m < i + 1 implies !is_bad3(
                                tetrahedra@[k],
                                vertex_lookup@,
                                vertex_lookup@[m],
                            ) by {
                            if k < t0.len() {
                                assert(tetrahedra@[k] == t0[k]);
                            }
                        }
                    }
                    assert(ids_of3(tetrahedra@) == fill_hole3(kept_ids, fj, i, vertex_lookup@));
                    j = j + 1;
                }
                assert(faces_ids(boundary@).subrange(0, j as int) =~= faces_ids(boundary@));
            }
            i = i + 1;
        }
        let final_tetrahedra = drop_bootstrap3(&tetrahedra, n);
        let ghost full = vertex_lookup@;
        vertex_lookup.truncate(n);
        assert(vertex_lookup@ =~= points@);
        if final_tetrahedra.len() > 0 {
            let d = Delaunay3d { tetrahedra: final_tetrahedra, vertex_lookup, problematic };
            assert forall|k: int| 0 <= k < d.tetrahedra_view().len() implies #[trigger] has_sphere(
                d.tetrahedra_view()[k],
                d.lookup_view(),
            ) by {
                let t = d.tetrahedra_view()[k];
                assert(ids_below3(t, n as int));
                let w = choose|w: int| 0 <= w < tetrahedra@.len() && tetrahedra@[w] == t;
                assert(tetrahedra@[w] == t);
                assert(has_sphere(t, full));
                assert(t.ids().len() == 4) by { t.lemma_len(); }
                assert(corner3(t, full, 0) == corner3(t, d.lookup_view(), 0));
                assert(corner3(t, full, 1) == corner3(t, d.lookup_view(), 1));
                assert(corner3(t, full, 2) == corner3(t, d.lookup_view(), 2));
                assert(corner3(t, full, 3) == corner3(t, d.lookup_view(), 3));
            }
            assert forall|k: int, m: int|
                #![trigger d.tetrahedra_view()[k], points@[m]]
                0 <= k < d.tetrahedra_view().len() && newest_corner3(d.tetrahedra_view()[k]) < m
                    < points@.len() implies !is_bad3(d.tetrahedra_view()[k], points@, points@[m]) by {
                let t = d.tetrahedra_view()[k];
                assert(ids_below3(t, n as int));
                assert(t.ids().len() == 4) by { t.lemma_len(); }
                let w = choose|w: int| 0 <= w < tetrahedra@.len() && tetrahedra@[w] == t;
                assert(tetrahedra@[w] == t);
                assert(newest_real3(t, n as int) == newest_corner3(t));
                assert(full[m] == points@[m]) by {
                    assert(full.subrange(0, n as int)[m] == full[m]);
                }
                assert(!is_bad3(tetrahedra@[w], full, full[m]));
                assert forall|c: int| 0 <= c < 4 implies corner3(t, full, c) == #[trigger] corner3(t, points@, c) by {
                    assert(full.subrange(0, n as int)[t.ids()[c] as int] == full[t.ids()[c] as int]);
                }
                assert(corner3(t, full, 0) == corner3(t, points@, 0));
                assert(corner3(t, full, 1) == corner3(t, points@, 1));
                assert(corner3(t, full, 2) == corner3(t, points@, 2));
                assert(corner3(t, full, 3) == corner3(t, points@, 3));
            }
            Some(d)
        } else {
            None
        }
    }

    /// The tetrahedra.
    pub fn get_tetrahedra(&self) -> (r: &Vec<TetrahedronNode>)
        ensures
            r@ == self.tetrahedra_view(),
    {
        &self.tetrahedra
    }

    /// The point of each vertex id.
    pub fn get_vertex_lookup(&self) -> (r: &Vec<Point3d>)
        ensures
            r@ == self.lookup_view(),
    {
        &self.vertex_lookup
    }

    /// The ids of the points that could not be merged and were skipped.
    pub fn get_problematic_points(&self) -> (r: &Vec<usize>)
        ensures
            r@ == self.problematic_view(),
    {
        &self.problematic
    }
}

/// The least `x`, `y` and `z` over `points`, which are not empty.
pub open spec fn low_corner3(points: Seq<Point3d>) -> (int, int, int)
    decreases points.len(),
{
    if points.len() <= 1 {
        (points[0].x as int, points[0].y as int, points[0].z as int)
    } else {
        let (x, y, z) = low_corner3(points.drop_last());
        let p = points.last();
        (
            if p.x < x { p.x as int } else { x },
            if p.y < y { p.y as int } else { y },
            if p.z < z { p.z as int } else { z },
        )
    }
}

/// The greatest `x`, `y` and `z` over `points`, which are not empty.
pub open spec fn high_corner3(points: Seq<Point3d>) -> (int, int, int)
    decreases points.len(),
{
    if points.len() <= 1 {
        (points[0].x as int, points[0].y as int, points[0].z as int)
    } else {
        let (x, y, z) = high_corner3(points.drop_last());
        let p = points.last();
        (
            if p.x > x { p.x as int } else { x },
            if p.y > y { p.y as int } else { y },
            if p.z > z { p.z as int } else { z },
        )
    }
}

proof fn lemma_corners3_within(points: Seq<Point3d>)
    requires
        points.len() > 0,
        points3_in_limit(points),
    ensures
        -COORD3_LIMIT <= low_corner3(points).0 <= high_corner3(points).0 <= COORD3_LIMIT,
        -COORD3_LIMIT <= low_corner3(points).1 <= high_corner3(points).1 <= COORD3_LIMIT,
        -COORD3_LIMIT <= low_corner3(points).2 <= high_corner3(points).2 <= COORD3_LIMIT,
        forall|k: int|
            0 <= k < points.len() ==> low_corner3(points).0 <= (#[trigger] points[k]).x
                <= high_corner3(points).0 && low_corner3(points).1 <= points[k].y
                <= high_corner3(points).1 && low_corner3(points).2 <= points[k].z
                <= high_corner3(points).2,
    decreases points.len(),
{
    assert(within3(points[0], COORD3_LIMIT as int));
    if points.len() > 1 {
        let rest = points.drop_last();
        assert forall|k: int| 0 <= k < rest.len() implies within3(#[trigger] rest[k], COORD3_LIMIT as int) by {
            assert(rest[k] == points[k]);
        }
        lemma_corners3_within(rest);
        assert(within3(points[points.len() - 1], COORD3_LIMIT as int));
        assert forall|k: int|
            0 <= k < points.len() implies low_corner3(points).0 <= (#[trigger] points[k]).x
                <= high_corner3(points).0 && low_corner3(points).1 <= points[k].y
                <= high_corner3(points).1 && low_corner3(points).2 <= points[k].z
                <= high_corner3(points).2 by {
            if k < rest.len() {
                assert(rest[k] == points[k]);
            }
        }
    }
}

/// The box that holds every point, grown by one unit on each side so that
/// no point lies on its border.
pub fn compute_dimension_bounds(points: &Vec<Point3d>) -> (r: (Point3d, Point3d))
    requires
        points@.len() > 0,
        points3_in_limit(points@),
    ensures
        r.0.x == low_corner3(points@).0 - 1,
        r.0.y == low_corner3(points@).1 - 1,
        r.0.z == low_corner3(points@).2 - 1,
        r.1.x == high_corner3(points@).0 + 1,
        r.1.y == high_corner3(points@).1 + 1,
        r.1.z == high_corner3(points@).2 + 1,
        -COORD3_LIMIT - 1 <= r.0.x < r.1.x <= COORD3_LIMIT + 1,
        -COORD3_LIMIT - 1 <= r.0.y < r.1.y <= COORD3_LIMIT + 1,
        -COORD3_LIMIT - 1 <= r.0.z < r.1.z <= COORD3_LIMIT + 1,
        forall|k: int|
            0 <= k < points@.len() ==> r.0.x < (#[trigger] points@[k]).x < r.1.x && r.0.y
                < points@[k].y < r.1.y && r.0.z < points@[k].z < r.1.z,
{
    let mut lo = points[0];
    let mut hi = points[0];
    let mut i: usize = 1;
    while i < points.len()
        invariant
            1 <= i <= points@.len(),
            points3_in_limit(points@),
            (lo.x as int, lo.y as int, lo.z as int) == low_corner3(points@.subrange(0, i as int)),
            (hi.x as int, hi.y as int, hi.z as int) == high_corner3(points@.subrange(0, i as int)),
        decreases points@.len() - i,
    {
        let p = points[i];
        assert(points@.subrange(0, i + 1).drop_last() =~= points@.subrange(0, i as int));
        if p.x < lo.x {
            lo.x = p.x;
        }
        if p.y < lo.y {
            lo.y = p.y;
        }
        if p.z < lo.z {
            lo.z = p.z;
        }
        if p.x > hi.x {
            hi.x = p.x;
        }
        if p.y > hi.y {
            hi.y = p.y;
        }
        if p.z > hi.z {
            hi.z = p.z;
        }
        i = i + 1;
    }
    assert(points@.subrange(0, i as int) =~= points@);
    proof {
        lemma_corners3_within(points@);
    }
    (
        Point3d { x: lo.x - 1, y: lo.y - 1, z: lo.z - 1 },
        Point3d { x: hi.x + 1, y: hi.y + 1, z: hi.z + 1 },
    )
}

/// The six bootstrap vertices for the box from `min_dimensions` to
/// `max_dimensions`: from the middle of the box, out along `+y`, `-y`,
/// `+z`, `-z`, `-x` and `+x` by a multiple of its largest extent.
#[verifier::rlimit(60)]
pub fn compute_super_tetra_vertices(min_dimensions: &Point3d, max_dimensions: &Point3d) -> (r: [Point3d; 6])
    requires
        -COORD3_LIMIT - 1 <= min_dimensions.x <= max_dimensions.x <= COORD3_LIMIT + 1,
        -COORD3_LIMIT - 1 <= min_dimensions.y <= max_dimensions.y <= COORD3_LIMIT + 1,
        -COORD3_LIMIT - 1 <= min_dimensions.z <= max_dimensions.z <= COORD3_LIMIT + 1,
    ensures
        forall|k: int| 0 <= k < 6 ==> within3(#[trigger] r@[k], WORK3_LIMIT as int),
        r@ == super_vertices(*min_dimensions, *max_dimensions),
{
    let dx = max_dimensions.x - min_dimensions.x;
    let dy = max_dimensions.y - min_dimensions.y;
    let dz = max_dimensions.z - min_dimensions.z;
    let w = if dx >= dy && dx >= dz {
        dx
    } else if dy >= dz {
        dy
    } else {
        dz
    };
    let reach = SUPER3_SCALE * w;
    let hx = dx / 2;
    let hy = dy / 2;
    let hz = dz / 2;
    assert(0 <= hx <= dx && 0 <= hy <= dy && 0 <= hz <= dz);
    let mid = Point3d {
        x: min_dimensions.x + hx,
        y: min_dimensions.y + hy,
        z: min_dimensions.z + hz,
    };
    let r = [
        Point3d { x: mid.x, y: mid.y + reach, z: mid.z },
        Point3d { x: mid.x, y: mid.y - reach, z: mid.z },
        Point3d { x: mid.x, y: mid.y, z: mid.z + reach },
        Point3d { x: mid.x, y: mid.y, z: mid.z - reach },
        Point3d { x: mid.x - reach, y: mid.y, z: mid.z },
        Point3d { x: mid.x + reach, y: mid.y, z: mid.z },
    ];
    assert(r@ =~= super_vertices(*min_dimensions, *max_dimensions));
    r
}

/// Splits `tetrahedra` into those whose circumsphere does not hold `point`
/// strictly inside, and those whose circumsphere does; both keep their
/// order.
fn split_bad_tetrahedra(
    point: Point3d,
    tetrahedra: &Vec<TetrahedronNode>,
    lookup: &Vec<Point3d>,
) -> (r: (Vec<TetrahedronNode>, Vec<TetrahedronNode>))
    requires
        within3(point, WORK3_LIMIT as int),
        all_within3(lookup@),
        all_ids_below3(tetrahedra@, lookup@.len() as int),
        no_repeats3(tetrahedra@),
    ensures
        all_ids_below3(r.0@, lookup@.len() as int),
        no_repeats3(r.0@),
        all_ids_below3(r.1@, lookup@.len() as int),
        forall|k: int| 0 <= k < r.0@.len() ==> tetrahedra@.contains(#[trigger] r.0@[k]),
        forall|k: int| 0 <= k < r.0@.len() ==> !is_bad3(#[trigger] r.0@[k], lookup@, point),
        forall|k: int| 0 <= k < r.1@.len() ==> is_bad3(#[trigger] r.1@[k], lookup@, point),
        forall|k: int| 0 <= k < r.1@.len() ==> tetrahedra@.contains(#[trigger] r.1@[k]),
        ids_of3(r.0@) == keep_good3(ids_of3(tetrahedra@), lookup@, point),
        ids_of3(r.1@) == keep_bad3(ids_of3(tetrahedra@), lookup@, point),
{
    let mut kept: Vec<TetrahedronNode> = Vec::new();
    let mut bad: Vec<TetrahedronNode> = Vec::new();
    let ghost mut from: Seq<int> = Seq::empty();
    let mut k: usize = 0;
    while k < tetrahedra.len()
        invariant
            k <= tetrahedra@.len(),
            within3(point, WORK3_LIMIT as int),
            all_within3(lookup@),
            all_ids_below3(tetrahedra@, lookup@.len() as int),
            no_repeats3(tetrahedra@),
            from.len() == kept@.len(),
            forall|x: int| 0 <= x < from.len() ==> 0 <= #[trigger] from[x] < k,
            forall|x: int, y: int| 0 <= x < y < from.len() ==> #[trigger] from[x] < #[trigger] from[y],
            forall|x: int| 0 <= x < kept@.len() ==> #[trigger] kept@[x] == tetrahedra@[from[x]],
            forall|x: int| 0 <= x < bad@.len() ==> is_bad3(#[trigger] bad@[x], lookup@, point),
            forall|x: int| 0 <= x < bad@.len() ==> tetrahedra@.contains(#[trigger] bad@[x]),
            forall|x: int| 0 <= x < kept@.len() ==> !is_bad3(#[trigger] kept@[x], lookup@, point),
            all_ids_below3(bad@, lookup@.len() as int),
            ids_of3(kept@) == keep_good3(ids_of3(tetrahedra@).subrange(0, k as int), lookup@, point),
            ids_of3(bad@) == keep_bad3(ids_of3(tetrahedra@).subrange(0, k as int), lookup@, point),
        decreases tetrahedra@.len() - k,
    {
        let t = tetrahedra[k];
        assert(ids_of3(tetrahedra@).subrange(0, k + 1).drop_last() =~= ids_of3(tetrahedra@).subrange(0, k as int));
        assert(ids_of3(tetrahedra@).subrange(0, k + 1).last() == t.ids());
        assert(ids_below3(tetrahedra@[k as int], lookup@.len() as int));
        proof { t.lemma_len(); }
        let inside = circumsphere_contains(
            lookup[t.get_vertex_a_id()],
            lookup[t.get_vertex_b_id()],
            lookup[t.get_vertex_c_id()],
            lookup[t.get_vertex_d_id()],
            point,
        );
        let ghost kept0 = kept@;
        let ghost bad0 = bad@;
        if inside {
            bad.push(t);
            assert(ids_of3(bad@) =~= ids_of3(bad0).push(t.ids()));
            assert forall|x: int| 0 <= x < bad@.len() implies #[trigger] ids_below3(bad@[x], lookup@.len() as int) by {
                if x < bad0.len() {
                    assert(bad@[x] == bad0[x]);
                }
            }
            assert forall|x: int| 0 <= x < bad@.len() implies is_bad3(#[trigger] bad@[x], lookup@, point) by {
                if x < bad0.len() {
                    assert(bad@[x] == bad0[x]);
                }
            }
            assert forall|x: int| 0 <= x < bad@.len() implies tetrahedra@.contains(#[trigger] bad@[x]) by {
                if x < bad0.len() {
                    assert(bad@[x] == bad0[x]);
                } else {
                    assert(bad@[x] == tetrahedra@[k as int]);
                }
            }
        } else {
            kept.push(t);
            assert(ids_of3(kept@) =~= ids_of3(kept0).push(t.ids()));
            proof {
                from = from.push(k as int);
            }
            assert forall|x: int| 0 <= x < kept@.len() implies #[trigger] kept@[x] == tetrahedra@[from[x]] by {
                if x < kept0.len() {
                    assert(kept@[x] == kept0[x]);
                }
            }
            assert forall|x: int| 0 <= x < kept@.len() implies !is_bad3(#[trigger] kept@[x], lookup@, point) by {
                if x < kept0.len() {
                    assert(kept@[x] == kept0[x]);
                }
            }
        }
        k = k + 1;
    }
    assert(ids_of3(tetrahedra@).subrange(0, k as int) =~= ids_of3(tetrahedra@));
    assert forall|x: int| 0 <= x < kept@.len() implies #[trigger] ids_below3(kept@[x], lookup@.len() as int) by {
        assert(kept@[x] == tetrahedra@[from[x]]);
    }
    assert forall|x: int, y: int|
        #![trigger kept@[x], kept@[y]]
        0 <= x < kept@.len() && 0 <= y < kept@.len() && x != y implies !kept@[x].same_tetrahedron(&kept@[y]) by {
        assert(kept@[x] == tetrahedra@[from[x]]);
        assert(kept@[y] == tetrahedra@[from[y]]);
        if x < y {
            assert(from[x] < from[y]);
        } else {
            assert(from[y] < from[x]);
        }
    }
    assert forall|x: int| 0 <= x < kept@.len() implies tetrahedra@.contains(#[trigger] kept@[x]) by {
        assert(kept@[x] == tetrahedra@[from[x]]);
    }
    (kept, bad)
}

fn has_face_exec(t: &TetrahedronNode, f: &TriangleNode3d) -> (r: bool)
    ensures
        r == has_face(*t, *f),
{
    let ids = t.get_vertex_ids();
    proof { f.lemma_len(); }
    crate::tetrahedron_node::contains_id4(ids, f.get_vertex_a_id()) && crate::tetrahedron_node::contains_id4(
        ids,
        f.get_vertex_b_id(),
    ) && crate::tetrahedron_node::contains_id4(ids, f.get_vertex_c_id())
}

fn count_faces(ts: &Vec<TetrahedronNode>, f: &TriangleNode3d) -> (r: usize)
    ensures
        r == face_count(ts@, *f),
{
    let mut c: usize = 0;
    let mut k: usize = 0;
    while k < ts.len()
        invariant
            k <= ts@.len(),
            c == face_count_ids(ids_of3(ts@).subrange(0, k as int), f.ids()),
            c <= k,
        decreases ts@.len() - k,
    {
        assert(ids_of3(ts@).subrange(0, k + 1).drop_last() =~= ids_of3(ts@).subrange(0, k as int));
        assert(ids_of3(ts@).subrange(0, k + 1).last() == ts@[k as int].ids());
        if has_face_exec(&ts[k], f) {
            c = c + 1;
        }
        k = k + 1;
    }
    assert(ids_of3(ts@).subrange(0, k as int) =~= ids_of3(ts@));
    c
}

/// The faces that bound the hole left by removing `bad`: those that exactly
/// one of the removed tetrahedra has. Faces met by two lie inside the hole
/// and are left out.
fn hole_faces(bad: &Vec<TetrahedronNode>, bound: Ghost<int>, lo: Ghost<int>, n: Ghost<int>) -> (r: Vec<TriangleNode3d>)
    requires
        all_ids_below3(bad@, bound@),
        forall|k: int| 0 <= k < bad@.len() ==> #[trigger] settled3(bad@[k], lo@, n@),
    ensures
        faces_ids(r@) == boundary_faces(ids_of3(bad@), ids_of3(bad@)),
        forall|x: int|
            0 <= x < r@.len() ==> #[trigger] face_settled(r@[x], lo@, n@),
        forall|x: int|
            0 <= x < r@.len() ==> (#[trigger] r@[x]).ids()[0] < bound@
                && r@[x].ids()[1] < bound@ && r@[x].ids()[2] < bound@,
{
    let ghost all = ids_of3(bad@);
    let mut boundary: Vec<TriangleNode3d> = Vec::new();
    let mut k: usize = 0;
    while k < bad.len()
        invariant
            k <= bad@.len(),
            all == ids_of3(bad@),
            all_ids_below3(bad@, bound@),
            forall|k: int| 0 <= k < bad@.len() ==> #[trigger] settled3(bad@[k], lo@, n@),
            faces_ids(boundary@) == boundary_faces(all.subrange(0, k as int), all),
            forall|x: int|
                0 <= x < boundary@.len() ==> #[trigger] face_settled(boundary@[x], lo@, n@),
            forall|x: int|
                0 <= x < boundary@.len() ==> (#[trigger] boundary@[x]).ids()[0] < bound@
                    && boundary@[x].ids()[1] < bound@ && boundary@[x].ids()[2] < bound@,
        decreases bad@.len() - k,
    {
        let t = bad[k];
        assert(ids_below3(bad@[k as int], bound@));
        assert(settled3(bad@[k as int], lo@, n@));
        assert(all.subrange(0, k + 1).drop_last() =~= all.subrange(0, k as int));
        assert(all.subrange(0, k + 1).last() == t.ids());
        let faces = t.get_triangle_node_3d_faces();
        let ghost b0 = boundary@;
        let f0 = faces[0];
        let f1 = faces[1];
        let f2 = faces[2];
        let f3 = faces[3];
        let keep0 = count_faces(bad, &f0) == 1;
        let keep1 = count_faces(bad, &f1) == 1;
        let keep2 = count_faces(bad, &f2) == 1;
        let keep3 = count_faces(bad, &f3) == 1;
        if keep0 {
            boundary.push(f0);
        }
        let ghost b1 = boundary@;
        if keep1 {
            boundary.push(f1);
        }
        let ghost b2 = boundary@;
        if keep2 {
            boundary.push(f2);
        }
        let ghost b3 = boundary@;
        if keep3 {
            boundary.push(f3);
        }
        proof {
            t.lemma_len();
            assert(faces_ids(b1) =~= faces_ids(b0) + if_once(f0.ids(), all));
            assert(faces_ids(b2) =~= faces_ids(b1) + if_once(f1.ids(), all));
            assert(faces_ids(b3) =~= faces_ids(b2) + if_once(f2.ids(), all));
            assert(faces_ids(boundary@) =~= faces_ids(b3) + if_once(f3.ids(), all));
            assert(once_faces(t.ids(), all) == if_once(f0.ids(), all) + if_once(f1.ids(), all) + if_once(f2.ids(), all) + if_once(f3.ids(), all));
            assert(faces_ids(boundary@) =~= boundary_faces(all.subrange(0, k + 1), all));
            assert forall|x: int|
                0 <= x < boundary@.len() implies #[trigger] face_settled(boundary@[x], lo@, n@) && boundary@[x].ids()[0] < bound@
                    && boundary@[x].ids()[1] < bound@ && boundary@[x].ids()[2] < bound@ by {
                if x < b0.len() {
                    assert(boundary@[x] == b0[x]);
                } else if x < b1.len() {
                    assert(boundary@[x] == b1[x]);
                } else if x < b2.len() {
                    assert(boundary@[x] == b2[x]);
                } else if x < b3.len() {
                    assert(boundary@[x] == b3[x]);
                }
                let f = boundary@[x];
                if x >= b0.len() {
                    assert(f == f0 || f == f1 || f == f2 || f == f3);
                    assert forall|jj: int| 0 <= jj < 3 implies (#[trigger] f.ids()[jj] < lo@ || f.ids()[jj] >= n@) by {
                        assert(t.ids()[0] < lo@ || t.ids()[0] >= n@);
                        assert(t.ids()[1] < lo@ || t.ids()[1] >= n@);
                        assert(t.ids()[2] < lo@ || t.ids()[2] >= n@);
                        assert(t.ids()[3] < lo@ || t.ids()[3] >= n@);
                    }
                }
            }
        }
        k = k + 1;
    }
    assert(all.subrange(0, k as int) =~= all);
    boundary
}

/// Adds `t` to `tetrahedra` unless a tetrahedron with the same corners is
/// there.
fn insert_tetrahedron(
    tetrahedra: &mut Vec<TetrahedronNode>,
    t: TetrahedronNode,
    bound: Ghost<int>,
    lookup: Ghost<Seq<Point3d>>,
    n: Ghost<int>,
)
    requires
        all_ids_below3(old(tetrahedra)@, bound@),
        ids_below3(t, bound@),
        no_repeats3(old(tetrahedra)@),
        has_sphere(t, lookup@),
        forall|k: int|
            0 <= k < old(tetrahedra)@.len() && ids_below3(#[trigger] old(tetrahedra)@[k], n@)
                ==> has_sphere(old(tetrahedra)@[k], lookup@),
    ensures
        all_ids_below3(final(tetrahedra)@, bound@),
        no_repeats3(final(tetrahedra)@),
        final(tetrahedra)@ == old(tetrahedra)@ || final(tetrahedra)@ == old(tetrahedra)@.push(t),
        ids_of3(final(tetrahedra)@) == insert_ids4(ids_of3(old(tetrahedra)@), t.ids()),
        forall|k: int|
            0 <= k < final(tetrahedra)@.len() && ids_below3(#[trigger] final(tetrahedra)@[k], n@)
                ==> has_sphere(final(tetrahedra)@[k], lookup@),
{
    let mut k: usize = 0;
    while k < tetrahedra.len()
        invariant
            k <= tetrahedra@.len(),
            tetrahedra@ == old(tetrahedra)@,
            all_ids_below3(tetrahedra@, bound@),
            no_repeats3(tetrahedra@),
            forall|m: int|
                0 <= m < tetrahedra@.len() && ids_below3(#[trigger] tetrahedra@[m], n@)
                    ==> has_sphere(tetrahedra@[m], lookup@),
            forall|m: int|
                0 <= m < k ==> !(#[trigger] tetrahedra@[m]).same_tetrahedron(&t)
                    && !t.same_tetrahedron(&tetrahedra@[m]),
        decreases tetrahedra@.len() - k,
    {
        if tetrahedra[k] == t || t == tetrahedra[k] {
            assert(ids_of3(tetrahedra@)[k as int] == tetrahedra@[k as int].ids());
            assert(same_ids4(ids_of3(tetrahedra@)[k as int], t.ids()) || same_ids4(t.ids(), ids_of3(tetrahedra@)[k as int]));
            return;
        }
        k = k + 1;
    }
    let ghost before = tetrahedra@;
    assert(!exists|m: int| 0 <= m < ids_of3(before).len() && (same_ids4(ids_of3(before)[m], t.ids()) || same_ids4(t.ids(), #[trigger] ids_of3(before)[m]))) by {
        assert forall|m: int| 0 <= m < ids_of3(before).len() implies !(same_ids4(ids_of3(before)[m], t.ids()) || same_ids4(t.ids(), #[trigger] ids_of3(before)[m])) by {
            assert(ids_of3(before)[m] == before[m].ids());
            assert(!before[m].same_tetrahedron(&t) && !t.same_tetrahedron(&before[m]));
        }
    }
    tetrahedra.push(t);
    assert(ids_of3(tetrahedra@) =~= ids_of3(before).push(t.ids()));
    proof {
        let after = tetrahedra@;
        assert forall|m: int| 0 <= m < after.len() implies #[trigger] ids_below3(after[m], bound@) by {
            if m < before.len() {
                assert(after[m] == before[m]);
            }
        }
        assert forall|m: int|
            0 <= m < after.len() && ids_below3(#[trigger] after[m], n@) implies has_sphere(after[m], lookup@) by {
            if m < before.len() {
                assert(after[m] == before[m]);
            }
        }
        assert forall|x: int, y: int|
            #![trigger after[x], after[y]]
            0 <= x < after.len() && 0 <= y < after.len() && x != y implies !after[x].same_tetrahedron(&after[y]) by {
            if x < before.len() && y < before.len() {
                assert(after[x] == before[x] && after[y] == before[y]);
            } else if x < before.len() {
                assert(after[x] == before[x]);
            } else {
                assert(after[y] == before[y]);
            }
        }
    }
}

/// The tetrahedra of `tetrahedra` whose corners are all input points, that
/// is, ids below `n`; their order is kept.
fn drop_bootstrap3(tetrahedra: &Vec<TetrahedronNode>, n: usize) -> (r: Vec<TetrahedronNode>)
    requires
        no_repeats3(tetrahedra@),
    ensures
        all_ids_below3(r@, n as int),
        no_repeats3(r@),
        forall|x: int| 0 <= x < r@.len() ==> tetrahedra@.contains(#[trigger] r@[x]),
        ids_of3(r@) == real_only3(ids_of3(tetrahedra@), n as int),
{
    let mut kept: Vec<TetrahedronNode> = Vec::new();
    let ghost mut from: Seq<int> = Seq::empty();
    let mut k: usize = 0;
    while k < tetrahedra.len()
        invariant
            k <= tetrahedra@.len(),
            no_repeats3(tetrahedra@),
            from.len() == kept@.len(),
            forall|x: int| 0 <= x < from.len() ==> 0 <= #[trigger] from[x] < k,
            forall|x: int, y: int| 0 <= x < y < from.len() ==> #[trigger] from[x] < #[trigger] from[y],
            forall|x: int| 0 <= x < kept@.len() ==> #[trigger] kept@[x] == tetrahedra@[from[x]],
            all_ids_below3(kept@, n as int),
            ids_of3(kept@) == real_only3(ids_of3(tetrahedra@).subrange(0, k as int), n as int),
        decreases tetrahedra@.len() - k,
    {
        let t = tetrahedra[k];
        assert(ids_of3(tetrahedra@).subrange(0, k + 1).drop_last() =~= ids_of3(tetrahedra@).subrange(0, k as int));
        assert(ids_of3(tetrahedra@).subrange(0, k + 1).last() == t.ids());
        proof { t.lemma_len(); }
        let ids = t.get_vertex_ids();
        let ghost kept0 = kept@;
        if ids[0] < n && ids[1] < n && ids[2] < n && ids[3] < n {
            kept.push(t);
            assert(ids_of3(kept@) =~= ids_of3(kept0).push(t.ids()));
            proof {
                from = from.push(k as int);
            }
            assert forall|x: int| 0 <= x < kept@.len() implies #[trigger] kept@[x] == tetrahedra@[from[x]] by {
                if x < kept0.len() {
                    assert(kept@[x] == kept0[x]);
                }
            }
            assert forall|x: int| 0 <= x < kept@.len() implies #[trigger] ids_below3(kept@[x], n as int) by {
                if x < kept0.len() {
                    assert(kept@[x] == kept0[x]);
                }
            }
        }
        k = k + 1;
    }
    assert(ids_of3(tetrahedra@).subrange(0, k as int) =~= ids_of3(tetrahedra@));
    assert forall|x: int, y: int|
        #![trigger kept@[x], kept@[y]]
        0 <= x < kept@.len() && 0 <= y < kept@.len() && x != y implies !kept@[x].same_tetrahedron(&kept@[y]) by {
        assert(kept@[x] == tetrahedra@[from[x]]);
        assert(kept@[y] == tetrahedra@[from[y]]);
        if x < y {
            assert(from[x] < from[y]);
        } else {
            assert(from[y] < from[x]);
        }
    }
    assert forall|x: int| 0 <= x < kept@.len() implies tetrahedra@.contains(#[trigger] kept@[x]) by {
        assert(kept@[x] == tetrahedra@[from[x]]);
    }
    kept
}

} // verus!
