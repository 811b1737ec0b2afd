//! The Delaunay-Voronoi dual of a set of points, in the plane and in space.

use vstd::prelude::*;
use crate::delaunay::{Delaunay2d, points_in_limit, ids_below, ids_of, triangulation_of};
use crate::delaunay3d::{Delaunay3d, points3_in_limit, ids_below3, ids_of3, tetrahedralization_of};
use crate::geometry::Point2d;
use crate::geometry3d::Point3d;
use crate::voronoi::Voronoi2d;
use crate::voronoi3d::Voronoi3d;

verus! {

/// A triangulation of points of the plane and its dual tessellation, each
/// present when it could be computed.
pub struct Mosaic2d {
    delaunay: Option<Delaunay2d>,
    voronoi: Option<Voronoi2d>,
}

/// A tetrahedralization of points of space and its dual tessellation, each
/// present when it could be computed.
pub struct Mosaic3d {
    delaunay: Option<Delaunay3d>,
    voronoi: Option<Voronoi3d>,
}

impl Mosaic2d {
    /// The triangulation, if there is one.
    pub closed spec fn delaunay_view(&self) -> Option<Delaunay2d> {
        self.delaunay
    }

    /// The tessellation, if there is one.
    pub closed spec fn voronoi_view(&self) -> Option<Voronoi2d> {
        self.voronoi
    }

    /// Triangulates `data_points` and builds the dual tessellation. There
    /// is a tessellation exactly when there is a triangulation, and it is
    /// the dual of that triangulation.
    pub fn new(data_points: &Vec<Point2d>) -> (r: Mosaic2d)
        requires
            points_in_limit(data_points@),
            data_points@.len() + 3 <= usize::MAX,
        ensures
            data_points@.len() < 3 ==> r.delaunay_view() is None,
            data_points@.len() >= 3 ==> (r.delaunay_view() is Some <==> triangulation_of(data_points@).len() > 0),
            r.delaunay_view() is None <==> r.voronoi_view() is None,
            r.delaunay_view() matches Some(d) ==> {
                &&& ids_of(d.triangles_view()) == triangulation_of(data_points@)
                &&& d.wf()
                &&& d.lookup_view() == data_points@
                &&& r.voronoi_view() matches Some(v) && v.wf() && v.is_dual_of(
                    d.triangles_view(),
                    d.lookup_view(),
                )
            },
    {
        match Delaunay2d::compute_triangulation_2d(data_points) {
            Some(delaunay) => {
                let voronoi = Voronoi2d::from_delaunay_2d(&delaunay);
                Mosaic2d { delaunay: Some(delaunay), voronoi }
            },
            None => Mosaic2d { delaunay: None, voronoi: None },
        }
    }

    /// The triangulation, if there is one.
    pub fn get_delaunay(&self) -> (r: Option<&Delaunay2d>)
        ensures
            r is None <==> self.delaunay_view() is None,
            r matches Some(d) ==> self.delaunay_view() == Some(*d),
    {
        match &self.delaunay {
            Some(d) => Some(d),
            None => None,
        }
    }

    /// The tessellation, if there is one.
    pub fn get_voronoi(&self) -> (r: Option<&Voronoi2d>)
        ensures
            r is None <==> self.voronoi_view() is None,
            r matches Some(v) ==> self.voronoi_view() == Some(*v),
    {
        match &self.voronoi {
            Some(v) => Some(v),
            None => None,
        }
    }
}

impl Mosaic3d {
    /// The tetrahedralization, if there is one.
    pub closed spec fn delaunay_view(&self) -> Option<Delaunay3d> {
        self.delaunay
    }

    /// The tessellation, if there is one.
    pub closed spec fn voronoi_view(&self) -> Option<Voronoi3d> {
        self.voronoi
    }

    /// Tetrahedralizes `data_points` and builds the dual tessellation.
    /// There is a tessellation exactly when there is a tetrahedralization,
    /// and it is the dual of that tetrahedralization.
    pub fn new(data_points: &Vec<Point3d>) -> (r: Mosaic3d)
        requires
            points3_in_limit(data_points@),
            data_points@.len() + 6 <= usize::MAX,
        ensures
            data_points@.len() < 4 ==> r.delaunay_view() is None,
            data_points@.len() >= 4 ==> (r.delaunay_view() is Some <==> tetrahedralization_of(data_points@).len() > 0),
            r.delaunay_view() is None <==> r.voronoi_view() is None,
            r.delaunay_view() matches Some(d) ==> {
                &&& ids_of3(d.tetrahedra_view()) == tetrahedralization_of(data_points@)
                &&& d.wf()
                &&& d.lookup_view() == data_points@
                &&& r.voronoi_view() matches Some(v) && v.wf() && v.is_dual_of(
                    d.tetrahedra_view(),
                    d.lookup_view(),
                )
            },
    {
        match Delaunay3d::compute_triangulation_3d(data_points) {
            Some(delaunay) => {
                let voronoi = Voronoi3d::from_delaunay_3d(&delaunay);
                Mosaic3d { delaunay: Some(delaunay), voronoi }
            },
            None => Mosaic3d { delaunay: None, voronoi: None },
        }
    }

    /// The tetrahedralization, if there is one.
    pub fn get_delaunay(&self) -> (r: Option<&Delaunay3d>)
        ensures
            r is None <==> self.delaunay_view() is None,
            r matches Some(d) ==> self.delaunay_view() == Some(*d),
    {
        match &self.delaunay {
            Some(d) => Some(d),
            None => None,
        }
    }

    /// The tessellation, if there is one.
    pub fn get_voronoi(&self) -> (r: Option<&Voronoi3d>)
        ensures
            r is None <==> self.voronoi_view() is None,
            r matches Some(v) ==> self.voronoi_view() == Some(*v),
    {
        match &self.voronoi {
            Some(v) => Some(v),
            None => None,
        }
    }
}

/// No triangle and no cell of a planar mosaic refers to a bootstrap
/// vertex: every corner of every triangle, and the site of every cell, is
/// the id of one of the input points.
pub proof fn lemma_no_bootstrap_vertices_2d(points: Seq<Point2d>, m: Mosaic2d)
    requires
        m.delaunay_view() matches Some(d) && d.wf() && d.lookup_view() == points && (
        m.voronoi_view() matches Some(v) && v.is_dual_of(d.triangles_view(), d.lookup_view())),
    ensures
        forall|k: int|
            0 <= k < m.delaunay_view()->0.triangles_view().len() ==> ids_below(
                #[trigger] m.delaunay_view()->0.triangles_view()[k],
                points.len() as int,
            ),
        forall|i: int|
            0 <= i < m.voronoi_view()->0.cells_view().len() ==> (
            #[trigger] m.voronoi_view()->0.cells_view()[i]).site() < points.len(),
{
    let d = m.delaunay_view()->0;
    let v = m.voronoi_view()->0;
    assert forall|k: int| 0 <= k < d.triangles_view().len() implies ids_below(
        #[trigger] d.triangles_view()[k],
        points.len() as int,
    ) by {}
    assert forall|i: int| 0 <= i < v.cells_view().len() implies (
    #[trigger] v.cells_view()[i]).site() < points.len() by {}
}

/// No tetrahedron and no cell of a mosaic in space refers to a bootstrap
/// vertex: every corner of every tetrahedron, and the site of every cell,
/// is the id of one of the input points.
pub proof fn lemma_no_bootstrap_vertices_3d(points: Seq<Point3d>, m: Mosaic3d)
    requires
        m.delaunay_view() matches Some(d) && d.wf() && d.lookup_view() == points && (
        m.voronoi_view() matches Some(v) && v.is_dual_of(d.tetrahedra_view(), d.lookup_view())),
    ensures
        forall|k: int|
            0 <= k < m.delaunay_view()->0.tetrahedra_view().len() ==> ids_below3(
                #[trigger] m.delaunay_view()->0.tetrahedra_view()[k],
                points.len() as int,
            ),
        forall|i: int|
            0 <= i < m.voronoi_view()->0.cells_view().len() ==> (
            #[trigger] m.voronoi_view()->0.cells_view()[i]).site() < points.len(),
{
    let d = m.delaunay_view()->0;
    let v = m.voronoi_view()->0;
    assert forall|k: int| 0 <= k < d.tetrahedra_view().len() implies ids_below3(
        #[trigger] d.tetrahedra_view()[k],
        points.len() as int,
    ) by {}
    assert forall|i: int| 0 <= i < v.cells_view().len() implies (
    #[trigger] v.cells_view()[i]).site() < points.len() by {}
}

} // verus!
