//! A triangle of the plane whose corners are vertex ids.

use vstd::prelude::*;
use crate::edge_node2d::EdgeNode2d;
use crate::triangle_node3d::contains_id3;
use crate::geometry::{
    Point2d, within, orient, orient_spec, angle_before, is_angle_before, WORK_LIMIT, DIR_LIMIT,
};

verus! {

/// A triangle, its corners named by vertex ids. Two triangles are equal
/// when every corner of the first is a corner of the second, so the order
/// of the ids does not matter.
#[derive(Clone, Copy, Debug)]
pub struct TriangleNode2d([usize; 3]);

impl TriangleNode2d {
    /// The corner ids, in the order they were given.
    pub closed spec fn ids(&self) -> Seq<usize> {
        self.0@
    }

    /// Whether every corner of `self` is a corner of `other`.
    pub open spec fn same_triangle(&self, other: &TriangleNode2d) -> bool {
        &&& other.ids().contains(self.ids()[0])
        &&& other.ids().contains(self.ids()[1])
        &&& other.ids().contains(self.ids()[2])
    }

    /// The ids of a triangle are always three.
    pub proof fn lemma_len(&self)
        ensures
            self.ids().len() == 3,
    {
    }

    /// Creates the triangle with corners `a`, `b` and `c`.
    pub fn new(a: usize, b: usize, c: usize) -> (r: TriangleNode2d)
        ensures
            r.ids() == seq![a, b, c],
    {
        let r = TriangleNode2d([a, b, c]);
        assert(r.ids() =~= seq![a, b, c]);
        r
    }

    /// The corner ids.
    pub fn get_vertex_ids(&self) -> (r: &[usize; 3])
        ensures
            r@ == self.ids(),
    {
        &self.0
    }

    /// The corner ids, to change in place.
    pub fn get_vertex_ids_mut(&mut self) -> (r: &mut [usize; 3])
        ensures
            r@ == old(self).ids(),
            final(self).ids() == final(r)@,
    {
        &mut self.0
    }

    /// The first corner.
    pub fn get_vertex_a_id(&self) -> (r: usize)
        ensures
            r == self.ids()[0],
    {
        self.0[0]
    }

    /// The second corner.
    pub fn get_vertex_b_id(&self) -> (r: usize)
        ensures
            r == self.ids()[1],
    {
        self.0[1]
    }

    /// The third corner.
    pub fn get_vertex_c_id(&self) -> (r: usize)
        ensures
            r == self.ids()[2],
    {
        self.0[2]
    }

    /// The three edges `a-b`, `b-c` and `c-a`.
    pub fn get_edges(&self) -> (r: [EdgeNode2d; 3])
        ensures
            r@[0].a() == self.ids()[0] && r@[0].b() == self.ids()[1],
            r@[1].a() == self.ids()[1] && r@[1].b() == self.ids()[2],
            r@[2].a() == self.ids()[2] && r@[2].b() == self.ids()[0],
    {
        [
            EdgeNode2d::new(self.0[0], self.0[1]),
            EdgeNode2d::new(self.0[1], self.0[2]),
            EdgeNode2d::new(self.0[2], self.0[0]),
        ]
    }
}

/// Whether `t` holds the three entries of `s` in some order.
pub open spec fn reorders(s: Seq<usize>, t: Seq<usize>) -> bool {
    ||| t == seq![s[0], s[1], s[2]]
    ||| t == seq![s[1], s[2], s[0]]
    ||| t == seq![s[2], s[0], s[1]]
    ||| t == seq![s[0], s[2], s[1]]
    ||| t == seq![s[2], s[1], s[0]]
    ||| t == seq![s[1], s[0], s[2]]
}

/// Whether every id of `ids` names an entry of `lookup`.
pub open spec fn ids_in(ids: Seq<usize>, lookup: Seq<Point2d>) -> bool {
    forall|k: int| 0 <= k < ids.len() ==> ids[k] < lookup.len()
}

/// Whether every point of `lookup` lies within `lim`.
pub open spec fn all_within(lookup: Seq<Point2d>, lim: int) -> bool {
    forall|k: int| 0 <= k < lookup.len() ==> within(lookup[k], lim)
}

/// The direction from the centroid of `a b c` to `p`, scaled by three so
/// that it stays integral.
pub open spec fn from_centroid(a: Point2d, b: Point2d, c: Point2d, p: Point2d) -> Point2d {
    Point2d { x: (3 * p.x - (a.x + b.x + c.x)) as i64, y: (3 * p.y - (a.y + b.y + c.y)) as i64 }
}

/// Whether `d0` comes no later than `d1` and `d2` by angle, or none of the
/// three does so against the other two.
pub open spec fn least_first(d0: Point2d, d1: Point2d, d2: Point2d) -> bool {
    let first0 = !angle_before(d1, d0) && !angle_before(d2, d0);
    let first1 = !angle_before(d0, d1) && !angle_before(d2, d1);
    let first2 = !angle_before(d0, d2) && !angle_before(d1, d2);
    first0 || (!first1 && !first2)
}

fn centroid_dir(a: Point2d, b: Point2d, c: Point2d, p: Point2d) -> (r: Point2d)
    requires
        within(a, WORK_LIMIT as int),
        within(b, WORK_LIMIT as int),
        within(c, WORK_LIMIT as int),
        within(p, WORK_LIMIT as int),
    ensures
        r == from_centroid(a, b, c, p),
        within(r, DIR_LIMIT as int),
        r.x == 3 * p.x - (a.x + b.x + c.x),
        r.y == 3 * p.y - (a.y + b.y + c.y),
{
    Point2d { x: 3 * p.x - (a.x + b.x + c.x), y: 3 * p.y - (a.y + b.y + c.y) }
}

/// The ids `t` reordered as `sort_vertices_anti_clockwise` leaves them:
/// turned counter-clockwise when they run clockwise, then rotated so that
/// the corner of least angle about the centroid comes first.
pub open spec fn sorted_ids(t: Seq<usize>, lookup: Seq<Point2d>) -> Seq<usize> {
    let cw = orient_spec(lookup[t[0] as int], lookup[t[1] as int], lookup[t[2] as int]) < 0;
    let a = t[0];
    let b = if cw { t[2] } else { t[1] };
    let c = if cw { t[1] } else { t[2] };
    let (pa, pb, pc) = (lookup[a as int], lookup[b as int], lookup[c as int]);
    let da = from_centroid(pa, pb, pc, pa);
    let db = from_centroid(pa, pb, pc, pb);
    let dc = from_centroid(pa, pb, pc, pc);
    if !angle_before(db, da) && !angle_before(dc, da) {
        seq![a, b, c]
    } else if !angle_before(da, db) && !angle_before(dc, db) {
        seq![b, c, a]
    } else if !angle_before(da, dc) && !angle_before(db, dc) {
        seq![c, a, b]
    } else {
        seq![a, b, c]
    }
}

impl TriangleNode2d {
    /// Two triangles with the same ids in the same order are the same value.
    pub proof fn lemma_ext(&self, other: &TriangleNode2d)
        requires
            self.ids() == other.ids(),
        ensures
            *self == *other,
    {
        assert(self.0@ =~= other.0@);
        assert(self.0 == other.0);
    }

    /// The corners of `self`, looked up in `lookup`.
    pub open spec fn corner(&self, lookup: Seq<Point2d>, k: int) -> Point2d {
        lookup[self.ids()[k] as int]
    }

    /// The direction from the centroid to corner `k`.
    pub open spec fn corner_dir(&self, lookup: Seq<Point2d>, k: int) -> Point2d {
        from_centroid(
            self.corner(lookup, 0),
            self.corner(lookup, 1),
            self.corner(lookup, 2),
            self.corner(lookup, k),
        )
    }

    /// Whether the corners run counter-clockwise (or are collinear) and the
    /// first corner has the least angle from the `+y` axis about the
    /// centroid, where one corner has the least angle.
    pub open spec fn is_anti_clockwise(&self, lookup: Seq<Point2d>) -> bool {
        &&& orient_spec(self.corner(lookup, 0), self.corner(lookup, 1), self.corner(lookup, 2))
            >= 0
        &&& least_first(
            self.corner_dir(lookup, 0),
            self.corner_dir(lookup, 1),
            self.corner_dir(lookup, 2),
        )
    }

    /// Reorders the corners counter-clockwise about their centroid, starting
    /// from the corner of least angle from the `+y` axis.
    pub fn sort_vertices_anti_clockwise(&mut self, lookup: &Vec<Point2d>)
        requires
            ids_in(old(self).ids(), lookup@),
            all_within(lookup@, WORK_LIMIT as int),
        ensures
            reorders(old(self).ids(), final(self).ids()),
            final(self).is_anti_clockwise(lookup@),
            final(self).ids() == sorted_ids(old(self).ids(), lookup@),
    {
        let ghost ids0 = self.ids();
        let mut a = self.0[0];
        let mut b = self.0[1];
        let mut c = self.0[2];
        assert(ids0[0] == a && ids0[1] == b && ids0[2] == c);
        if orient(lookup[a], lookup[b], lookup[c]) < 0 {
            let t = b;
            b = c;
            c = t;
        }
        let pa = lookup[a];
        let pb = lookup[b];
        let pc = lookup[c];
        let da = centroid_dir(pa, pb, pc, pa);
        let db = centroid_dir(pa, pb, pc, pb);
        let dc = centroid_dir(pa, pb, pc, pc);
        let r = if !is_angle_before(db, da) && !is_angle_before(dc, da) {
            TriangleNode2d([a, b, c])
        } else if !is_angle_before(da, db) && !is_angle_before(dc, db) {
            TriangleNode2d([b, c, a])
        } else if !is_angle_before(da, dc) && !is_angle_before(db, dc) {
            TriangleNode2d([c, a, b])
        } else {
            TriangleNode2d([a, b, c])
        };
        proof {
            let l = lookup@;
            assert(r.ids().len() == 3);
            assert(r.ids() =~= sorted_ids(ids0, l));
            assert(r.ids() =~= seq![a, b, c] || r.ids() =~= seq![b, c, a] || r.ids() =~= seq![c, a, b]);
            assert(orient_spec(pa, pb, pc) >= 0);
            assert(orient_spec(pb, pc, pa) == orient_spec(pa, pb, pc)) by (nonlinear_arith);
            assert(orient_spec(pc, pa, pb) == orient_spec(pa, pb, pc)) by (nonlinear_arith);
            if r.ids() =~= seq![a, b, c] {
                assert(r.corner_dir(l, 0) == da);
                assert(r.corner_dir(l, 1) == db);
                assert(r.corner_dir(l, 2) == dc);
            } else if r.ids() =~= seq![b, c, a] {
                assert(r.corner_dir(l, 0) == db);
                assert(r.corner_dir(l, 1) == dc);
                assert(r.corner_dir(l, 2) == da);
            } else {
                assert(r.corner_dir(l, 0) == dc);
                assert(r.corner_dir(l, 1) == da);
                assert(r.corner_dir(l, 2) == db);
            }
        }
        *self = r;
    }
}

impl PartialEq for TriangleNode2d {
    fn eq(&self, other: &TriangleNode2d) -> (r: bool)
        ensures
            r == self.same_triangle(other),
    {
        contains_id3(&other.0, self.0[0]) && contains_id3(&other.0, self.0[1]) && contains_id3(
            &other.0,
            self.0[2],
        )
    }
}

impl vstd::std_specs::cmp::PartialEqSpecImpl for TriangleNode2d {
    open spec fn obeys_eq_spec() -> bool {
        true
    }

    open spec fn eq_spec(&self, other: &TriangleNode2d) -> bool {
        self.same_triangle(other)
    }
}

} // verus!
