//! Procedural fracturing of flat rectangular glass panels into closed
//! three-dimensional shard meshes.
//!
//! A panel is a `width x height x thickness` cuboid carrying a grid
//! configuration. Shattering samples one jittered seed point per grid cell,
//! lets the host partition the panel surface into convex Voronoi cells around
//! those seeds and triangulate each cell, and then extrudes every cell into a
//! closed solid: a bottom face, a top face, and side walls bridging the
//! boundary edges of the cell's triangulation. Each resulting shard record
//! holds the mesh, the seed position it grew from, and the point set of its
//! convex collision volume.
//!
//! All geometry is carried in fixed-point micro-units (see [`units`]), so
//! every arithmetic step of the pipeline is exact and verified. The two
//! host-side steps that work on floating-point coordinates - the Voronoi
//! partition and the Delaunay triangulation of each cell - hand their results
//! back as plain integer polygons and index triples, which the library
//! validates before building any geometry from them.

pub mod geometry;
pub mod glass;
pub mod manifold;
pub mod mesh;
pub mod rng;
pub mod sample;
pub mod shatter;
pub mod triangulation;
pub mod units;
