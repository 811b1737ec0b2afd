//! A tetrahedron whose corners are vertex ids.

use vstd::prelude::*;
use crate::edge_node3d::EdgeNode3d;
use crate::triangle_node3d::TriangleNode3d;

verus! {

/// A tetrahedron, its corners named by vertex ids. Two tetrahedra are equal
/// when every corner of the first is a corner of the second.
#[derive(Clone, Copy, Debug)]
pub struct TetrahedronNode([usize; 4]);

impl TetrahedronNode {
    /// The corner ids, in the order they were given.
    pub closed spec fn ids(&self) -> Seq<usize> {
        self.0@
    }

    /// Whether every corner of `self` is a corner of `other`.
    pub open spec fn same_tetrahedron(&self, other: &TetrahedronNode) -> bool {
        &&& other.ids().contains(self.ids()[0])
        &&& other.ids().contains(self.ids()[1])
        &&& other.ids().contains(self.ids()[2])
        &&& other.ids().contains(self.ids()[3])
    }

    /// The ids of a tetrahedron are always four.
    pub proof fn lemma_len(&self)
        ensures
            self.ids().len() == 4,
    {
    }

    /// Creates the tetrahedron with corners `a`, `b`, `c` and `d`.
    pub fn new(a: usize, b: usize, c: usize, d: usize) -> (r: TetrahedronNode)
        ensures
            r.ids() == seq![a, b, c, d],
    {
        let r = TetrahedronNode([a, b, c, d]);
        assert(r.ids() =~= seq![a, b, c, d]);
        r
    }

    /// The corner ids.
    pub fn get_vertex_ids(&self) -> (r: &[usize; 4])
        ensures
            r@ == self.ids(),
    {
        &self.0
    }

    /// The corner ids, to change in place.
    pub fn get_vertex_ids_mut(&mut self) -> (r: &mut [usize; 4])
        ensures
            r@ == old(self).ids(),
            final(self).ids() == final(r)@,
    {
        &mut self.0
    }

    /// The first corner.
    pub fn get_vertex_a_id(&self) -> (r: usize)
        ensures
            r == self.ids()[0],
    {
        self.0[0]
    }

    /// The second corner.
    pub fn get_vertex_b_id(&self) -> (r: usize)
        ensures
            r == self.ids()[1],
    {
        self.0[1]
    }

    /// The third corner.
    pub fn get_vertex_c_id(&self) -> (r: usize)
        ensures
            r == self.ids()[2],
    {
        self.0[2]
    }

    /// The fourth corner.
    pub fn get_vertex_d_id(&self) -> (r: usize)
        ensures
            r == self.ids()[3],
    {
        self.0[3]
    }

    /// The six edges `a-b`, `a-c`, `a-d`, `b-c`, `c-d` and `d-b`.
    pub fn get_edges(&self) -> (r: [EdgeNode3d; 6])
        ensures
            r@[0].a() == self.ids()[0] && r@[0].b() == self.ids()[1],
            r@[1].a() == self.ids()[0] && r@[1].b() == self.ids()[2],
            r@[2].a() == self.ids()[0] && r@[2].b() == self.ids()[3],
            r@[3].a() == self.ids()[1] && r@[3].b() == self.ids()[2],
            r@[4].a() == self.ids()[2] && r@[4].b() == self.ids()[3],
            r@[5].a() == self.ids()[3] && r@[5].b() == self.ids()[1],
    {
        [
            EdgeNode3d::new(self.0[0], self.0[1]),
            EdgeNode3d::new(self.0[0], self.0[2]),
            EdgeNode3d::new(self.0[0], self.0[3]),
            EdgeNode3d::new(self.0[1], self.0[2]),
            EdgeNode3d::new(self.0[2], self.0[3]),
            EdgeNode3d::new(self.0[3], self.0[1]),
        ]
    }

    /// The four faces `a-b-c`, `a-c-d`, `a-d-b` and `b-c-d`.
    pub fn get_triangle_node_3d_faces(&self) -> (r: [TriangleNode3d; 4])
        ensures
            r@[0].ids() == seq![self.ids()[0], self.ids()[1], self.ids()[2]],
            r@[1].ids() == seq![self.ids()[0], self.ids()[2], self.ids()[3]],
            r@[2].ids() == seq![self.ids()[0], self.ids()[3], self.ids()[1]],
            r@[3].ids() == seq![self.ids()[1], self.ids()[2], self.ids()[3]],
    {
        [
            TriangleNode3d::new(self.get_vertex_a_id(), self.get_vertex_b_id(), self.get_vertex_c_id()),
            TriangleNode3d::new(self.get_vertex_a_id(), self.get_vertex_c_id(), self.get_vertex_d_id()),
            TriangleNode3d::new(self.get_vertex_a_id(), self.get_vertex_d_id(), self.get_vertex_b_id()),
            TriangleNode3d::new(self.get_vertex_b_id(), self.get_vertex_c_id(), self.get_vertex_d_id()),
        ]
    }
}

/// Whether `id` is one of the four entries of `ids`.
pub fn contains_id4(ids: &[usize; 4], id: usize) -> (r: bool)
    ensures
        r == ids@.contains(id),
{
    let r = ids[0] == id || ids[1] == id || ids[2] == id || ids[3] == id;
    proof {
        if r {
            if ids[0] == id {
                assert(ids@[0] == id);
            } else if ids[1] == id {
                assert(ids@[1] == id);
            } else if ids[2] == id {
                assert(ids@[2] == id);
            } else {
                assert(ids@[3] == id);
            }
        } else {
            assert(ids@.len() == 4);
            assert forall|i: int| 0 <= i < ids@.len() implies ids@[i] != id by {}
        }
    }
    r
}

impl PartialEq for TetrahedronNode {
    fn eq(&self, other: &TetrahedronNode) -> (r: bool)
        ensures
            r == self.same_tetrahedron(other),
    {
        contains_id4(&other.0, self.0[0]) && contains_id4(&other.0, self.0[1]) && contains_id4(
            &other.0,
            self.0[2],
        ) && contains_id4(&other.0, self.0[3])
    }
}

impl vstd::std_specs::cmp::PartialEqSpecImpl for TetrahedronNode {
    open spec fn obeys_eq_spec() -> bool {
        true
    }

    open spec fn eq_spec(&self, other: &TetrahedronNode) -> bool {
        self.same_tetrahedron(other)
    }
}

} // verus!
