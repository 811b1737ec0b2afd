//! An edge whose two ends are vertex ids.

use vstd::prelude::*;

verus! {

/// An edge between two vertices, named by their ids. Two edges are equal
/// when they join the same pair of ids, in either direction.
#[derive(Clone, Copy, Debug)]
pub struct EdgeNode2d([usize; 2]);

impl EdgeNode2d {
    /// The id at the first end.
    pub closed spec fn a(&self) -> usize {
        self.0@[0]
    }

    /// The id at the second end.
    pub closed spec fn b(&self) -> usize {
        self.0@[1]
    }

    /// Whether two edges join the same pair of ids.
    pub open spec fn same_edge(&self, other: &EdgeNode2d) -> bool {
        (self.a() == other.a() && self.b() == other.b()) || (self.a() == other.b() && self.b()
            == other.a())
    }

    /// Creates the edge from `a` to `b`.
    pub fn new(a: usize, b: usize) -> (r: EdgeNode2d)
        ensures
            r.a() == a,
            r.b() == b,
    {
        EdgeNode2d([a, b])
    }

    /// The id at the first end.
    pub fn get_vertex_a_id(&self) -> (r: usize)
        ensures
            r == self.a(),
    {
        self.0[0]
    }

    /// The id at the second end.
    pub fn get_vertex_b_id(&self) -> (r: usize)
        ensures
            r == self.b(),
    {
        self.0[1]
    }
}

impl PartialEq for EdgeNode2d {
    fn eq(&self, other: &EdgeNode2d) -> (r: bool)
        ensures
            r == self.same_edge(other),
    {
        (self.0[0] == other.0[0] && self.0[1] == other.0[1]) || (self.0[0] == other.0[1]
            && self.0[1] == other.0[0])
    }
}

impl vstd::std_specs::cmp::PartialEqSpecImpl for EdgeNode2d {
    open spec fn obeys_eq_spec() -> bool {
        true
    }

    open spec fn eq_spec(&self, other: &EdgeNode2d) -> bool {
        self.same_edge(other)
    }
}

} // verus!
