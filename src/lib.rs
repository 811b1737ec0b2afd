//! Delaunay triangulation of points of the plane and tetrahedralization of
//! points of space, by the Bowyer-Watson algorithm, and the Voronoi
//! tessellations dual to them; in the plane, Voronoi cells can be clipped to
//! a boundary polygon and split into triangles for rendering.
//!
//! Coordinates are integers and every geometric predicate is exact: the
//! orientation of three or four points, and whether a point lies strictly
//! inside the circle or sphere through others, are signs of determinants
//! computed without rounding. The same strict containment test serves the
//! plane and space alike; a point on a circle or sphere is not inside it.
//!
//! Circumcentres are rational; the Voronoi vertex tables hold them rounded
//! to the nearest point of the integer grid, and clipping rounds the points
//! where cell edges cross the boundary the same way. Each module states the
//! coordinate limits its arithmetic is proved for.
//!
//! Module map:
//! - `geometry`, `geometry3d`: points and exact predicates;
//! - `edge_node2d`, `triangle_node2d`, `edge_node3d`, `triangle_node3d`,
//!   `tetrahedron_node`: simplices named by vertex ids, equal up to order;
//! - `delaunay`, `delaunay3d`: the Bowyer-Watson engines;
//! - `circumcircle`, `voronoi`, `voronoi3d`: circumcentres and the dual
//!   cells;
//! - `clipping`, `mesh`: clipping cells to a boundary and render meshes;
//! - `mosaic`: both structures together.

pub mod edge_node2d;
pub mod edge_node3d;
pub mod triangle_node3d;
pub mod tetrahedron_node;
pub mod geometry;
pub mod triangle_node2d;
pub mod delaunay;
pub mod circumcircle;
pub mod voronoi;
pub mod clipping;
pub mod mesh;
pub mod geometry3d;
pub mod delaunay3d;
pub mod voronoi3d;
pub mod mosaic;
