//! Fixed-point units and the global size limits of the library.
//!
//! All lengths and coordinates are integers counting micro-units: [`SCALE`]
//! micro-units make one world unit. Working in micro-units keeps every
//! geometric computation exact.

use vstd::prelude::*;

verus! {

/// Micro-units per world unit.
pub const SCALE: i64 = 1_000_000;

/// Safety margin for the jittered grid sampler, in micro-units (0.001 world
/// units). A seed point always keeps at least this distance to the border of
/// its grid cell, so no two seeds can coincide or come pathologically close.
pub const EPSILON: i64 = 1_000;

/// Largest accepted panel dimension, in micro-units (one million world units).
pub const MAX_DIM: i64 = 1_000_000_000_000;

/// Bound on the magnitude of any coordinate accepted from the host, in
/// micro-units. Keeping coordinates below this bound lets every cross product
/// of the library be computed exactly in 128-bit arithmetic.
pub const COORD_LIMIT: i64 = 2_000_000_000_000;

/// Largest accepted number of vertices in one cell polygon.
pub const MAX_CELL_POINTS: usize = 65_536;

/// Largest accepted number of triangles in one cell triangulation.
pub const MAX_CELL_TRIS: usize = 131_072;

} // verus!
