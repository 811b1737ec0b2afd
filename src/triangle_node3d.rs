//! A triangle in space whose corners are vertex ids.

use vstd::prelude::*;
use crate::geometry::lemma_mul_bound;
use crate::edge_node3d::EdgeNode3d;
use crate::geometry3d::{Point3d, within3, COORD3_LIMIT};

verus! {

/// A triangular face, its corners named by vertex ids. Two faces are equal
/// when every corner of the first is a corner of the second, so the order
/// of the ids does not matter.
#[derive(Clone, Copy, Debug)]
pub struct TriangleNode3d([usize; 3]);

impl TriangleNode3d {
    /// The corner ids, in the order they were given.
    pub closed spec fn ids(&self) -> Seq<usize> {
        self.0@
    }

    /// Whether every corner of `self` is a corner of `other`.
    pub open spec fn same_face(&self, other: &TriangleNode3d) -> bool {
        &&& other.ids().contains(self.ids()[0])
        &&& other.ids().contains(self.ids()[1])
        &&& other.ids().contains(self.ids()[2])
    }

    /// The ids of a face are always three.
    pub proof fn lemma_len(&self)
        ensures
            self.ids().len() == 3,
    {
    }

    /// Creates the face with corners `a`, `b` and `c`.
    pub fn new(a: usize, b: usize, c: usize) -> (r: TriangleNode3d)
        ensures
            r.ids() == seq![a, b, c],
    {
        let r = TriangleNode3d([a, b, c]);
        assert(r.ids() =~= seq![a, b, c]);
        r
    }

    /// The corner ids.
    pub fn get_vertex_ids(&self) -> (r: &[usize; 3])
        ensures
            r@ == self.ids(),
    {
        &self.0
    }

    /// The corner ids, to change in place.
    pub fn get_vertex_ids_mut(&mut self) -> (r: &mut [usize; 3])
        ensures
            r@ == old(self).ids(),
            final(self).ids() == final(r)@,
    {
        &mut self.0
    }

    /// The first corner.
    pub fn get_vertex_a_id(&self) -> (r: usize)
        ensures
            r == self.ids()[0],
    {
        self.0[0]
    }

    /// The second corner.
    pub fn get_vertex_b_id(&self) -> (r: usize)
        ensures
            r == self.ids()[1],
    {
        self.0[1]
    }

    /// The third corner.
    pub fn get_vertex_c_id(&self) -> (r: usize)
        ensures
            r == self.ids()[2],
    {
        self.0[2]
    }

    /// The three edges `a-b`, `b-c` and `c-a`.
    pub fn get_edges(&self) -> (r: [EdgeNode3d; 3])
        ensures
            r@[0].a() == self.ids()[0] && r@[0].b() == self.ids()[1],
            r@[1].a() == self.ids()[1] && r@[1].b() == self.ids()[2],
            r@[2].a() == self.ids()[2] && r@[2].b() == self.ids()[0],
    {
        [
            EdgeNode3d::new(self.0[0], self.0[1]),
            EdgeNode3d::new(self.0[1], self.0[2]),
            EdgeNode3d::new(self.0[2], self.0[0]),
        ]
    }
}

/// A vector of space over the integers.
pub type Vec3i = (int, int, int);

/// `q - p`.
pub open spec fn diff3(q: Point3d, p: Point3d) -> Vec3i {
    (q.x - p.x, q.y - p.y, q.z - p.z)
}

/// The cross product of `u` and `v`.
pub open spec fn cross3(u: Vec3i, v: Vec3i) -> Vec3i {
    (u.1 * v.2 - u.2 * v.1, u.2 * v.0 - u.0 * v.2, u.0 * v.1 - u.1 * v.0)
}

/// The dot product of `u` and `v`.
pub open spec fn dot3(u: Vec3i, v: Vec3i) -> int {
    u.0 * v.0 + u.1 * v.1 + u.2 * v.2
}

/// `-u`.
pub open spec fn neg3(u: Vec3i) -> Vec3i {
    (-u.0, -u.1, -u.2)
}

/// Whether the segment from `p` to `q` passes through the triangle `a b c`:
/// with `t` the fraction of the way along the segment where it meets the
/// plane of the triangle and `(u, v)` the barycentric weights of `b` and `c`
/// there, `0 < t < 1`, `u, v >= 0` and `u + v <= 1`. A segment that only
/// touches the plane at an end, or runs parallel to it, does not pass
/// through.
pub open spec fn edge_hits_face(a: Point3d, b: Point3d, c: Point3d, p: Point3d, q: Point3d) -> bool {
    let ab = diff3(b, a);
    let ac = diff3(c, a);
    let me = neg3(diff3(q, p));
    let w = diff3(p, a);
    let d = dot3(cross3(ab, ac), me);
    let s: int = if d > 0 {
        1
    } else {
        -1
    };
    let dd = s * d;
    let t = s * dot3(cross3(ab, ac), w);
    let u = s * dot3(cross3(ac, me), w);
    let v = s * dot3(cross3(me, ab), w);
    d != 0 && 0 < t < dd && 0 <= u && 0 <= v && u + v <= dd
}

fn cross_part(a: i128, b: i128, c: i128, d: i128) -> (r: i128)
    requires
        -16384 <= a <= 16384,
        -16384 <= b <= 16384,
        -16384 <= c <= 16384,
        -16384 <= d <= 16384,
    ensures
        r == a * b - c * d,
        -536870912 <= r <= 536870912,
{
    proof {
        lemma_mul_bound(a as int, b as int, 16384, 16384);
        lemma_mul_bound(c as int, d as int, 16384, 16384);
    }
    a * b - c * d
}

fn dot_part(u0: i128, u1: i128, u2: i128, w0: i128, w1: i128, w2: i128) -> (r: i128)
    requires
        -536870912 <= u0 <= 536870912,
        -536870912 <= u1 <= 536870912,
        -536870912 <= u2 <= 536870912,
        -16384 <= w0 <= 16384,
        -16384 <= w1 <= 16384,
        -16384 <= w2 <= 16384,
    ensures
        r == u0 * w0 + u1 * w1 + u2 * w2,
        -26388279066624 <= r <= 26388279066624,
{
    proof {
        lemma_mul_bound(u0 as int, w0 as int, 536870912, 16384);
        lemma_mul_bound(u1 as int, w1 as int, 536870912, 16384);
        lemma_mul_bound(u2 as int, w2 as int, 536870912, 16384);
    }
    u0 * w0 + u1 * w1 + u2 * w2
}

impl TriangleNode3d {
    /// Whether the segment from `edge_vertex_a` to `edge_vertex_b` passes
    /// through the triangle with corners `tri_vertex_a`, `tri_vertex_b` and
    /// `tri_vertex_c`. Touching the triangle's plane at an end of the
    /// segment does not count.
    pub fn does_edge_intersect(
        &self,
        tri_vertex_a: &Point3d,
        tri_vertex_b: &Point3d,
        tri_vertex_c: &Point3d,
        edge_vertex_a: &Point3d,
        edge_vertex_b: &Point3d,
    ) -> (r: bool)
        requires
            within3(*tri_vertex_a, COORD3_LIMIT as int),
            within3(*tri_vertex_b, COORD3_LIMIT as int),
            within3(*tri_vertex_c, COORD3_LIMIT as int),
            within3(*edge_vertex_a, COORD3_LIMIT as int),
            within3(*edge_vertex_b, COORD3_LIMIT as int),
        ensures
            r == edge_hits_face(*tri_vertex_a, *tri_vertex_b, *tri_vertex_c, *edge_vertex_a, *edge_vertex_b),
    {
        let (a, b, c, p, q) = (*tri_vertex_a, *tri_vertex_b, *tri_vertex_c, *edge_vertex_a, *edge_vertex_b);
        let (abx, aby, abz) = (b.x as i128 - a.x as i128, b.y as i128 - a.y as i128, b.z as i128 - a.z as i128);
        let (acx, acy, acz) = (c.x as i128 - a.x as i128, c.y as i128 - a.y as i128, c.z as i128 - a.z as i128);
        let (mex, mey, mez) = (p.x as i128 - q.x as i128, p.y as i128 - q.y as i128, p.z as i128 - q.z as i128);
        let (wx, wy, wz) = (p.x as i128 - a.x as i128, p.y as i128 - a.y as i128, p.z as i128 - a.z as i128);
        let (nx, ny, nz) = (
            cross_part(aby, acz, abz, acy),
            cross_part(abz, acx, abx, acz),
            cross_part(abx, acy, aby, acx),
        );
        let d = dot_part(nx, ny, nz, mex, mey, mez);
        if d == 0 {
            return false;
        }
        let t = dot_part(nx, ny, nz, wx, wy, wz);
        let u = dot_part(
            cross_part(acy, mez, acz, mey),
            cross_part(acz, mex, acx, mez),
            cross_part(acx, mey, acy, mex),
            wx,
            wy,
            wz,
        );
        let v = dot_part(
            cross_part(mey, abz, mez, aby),
            cross_part(mez, abx, mex, abz),
            cross_part(mex, aby, mey, abx),
            wx,
            wy,
            wz,
        );
        proof {
            let ab = diff3(b, a);
            let ac = diff3(c, a);
            let me = neg3(diff3(q, p));
            let w = diff3(p, a);
            assert(me == (mex as int, mey as int, mez as int));
            assert(d == dot3(cross3(ab, ac), me));
            assert(t == dot3(cross3(ab, ac), w));
            assert(u == dot3(cross3(ac, me), w));
            assert(v == dot3(cross3(me, ab), w));
            if d > 0 {
                assert(1 * d == d && 1 * t == t && 1 * u == u && 1 * v == v);
            } else {
                assert(-1 * d == -d && -1 * t == -t && -1 * u == -u && -1 * v == -v);
            }
        }
        let (dd, t, u, v) = if d > 0 {
            (d, t, u, v)
        } else {
            (-d, -t, -u, -v)
        };
        0 < t && t < dd && 0 <= u && 0 <= v && u + v <= dd
    }

    /// Whether `edge` passes through this triangle, the corners of both
    /// looked up in `vertex_lookup`.
    pub fn does_edge_intersect_id(&self, edge: &EdgeNode3d, vertex_lookup: &Vec<Point3d>) -> (r: bool)
        requires
            self.ids()[0] < vertex_lookup@.len(),
            self.ids()[1] < vertex_lookup@.len(),
            self.ids()[2] < vertex_lookup@.len(),
            edge.a() < vertex_lookup@.len(),
            edge.b() < vertex_lookup@.len(),
            forall|k: int| 0 <= k < vertex_lookup@.len() ==> within3(#[trigger] vertex_lookup@[k], COORD3_LIMIT as int),
        ensures
            r == edge_hits_face(
                vertex_lookup@[self.ids()[0] as int],
                vertex_lookup@[self.ids()[1] as int],
                vertex_lookup@[self.ids()[2] as int],
                vertex_lookup@[edge.a() as int],
                vertex_lookup@[edge.b() as int],
            ),
    {
        let a = vertex_lookup[self.get_vertex_a_id()];
        let b = vertex_lookup[self.get_vertex_b_id()];
        let c = vertex_lookup[self.get_vertex_c_id()];
        let p = vertex_lookup[edge.get_vertex_a_id()];
        let q = vertex_lookup[edge.get_vertex_b_id()];
        self.does_edge_intersect(&a, &b, &c, &p, &q)
    }
}

/// Whether `id` is one of the three entries of `ids`.
pub fn contains_id3(ids: &[usize; 3], id: usize) -> (r: bool)
    ensures
        r == ids@.contains(id),
{
    let r = ids[0] == id || ids[1] == id || ids[2] == id;
    proof {
        if r {
            if ids[0] == id {
                assert(ids@[0] == id);
            } else if ids[1] == id {
                assert(ids@[1] == id);
            } else {
                assert(ids@[2] == id);
            }
        } else {
            assert(ids@.len() == 3);
            assert forall|i: int| 0 <= i < ids@.len() implies ids@[i] != id by {}
        }
    }
    r
}

impl PartialEq for TriangleNode3d {
    fn eq(&self, other: &TriangleNode3d) -> (r: bool)
        ensures
            r == self.same_face(other),
    {
        contains_id3(&other.0, self.0[0]) && contains_id3(&other.0, self.0[1]) && contains_id3(
            &other.0,
            self.0[2],
        )
    }
}

impl vstd::std_specs::cmp::PartialEqSpecImpl for TriangleNode3d {
    open spec fn obeys_eq_spec() -> bool {
        true
    }

    open spec fn eq_spec(&self, other: &TriangleNode3d) -> bool {
        self.same_face(other)
    }
}

} // verus!
