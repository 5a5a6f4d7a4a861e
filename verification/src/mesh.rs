//! The shard mesh builder: extrusion of a triangulated cell into a closed
//! solid with a bottom face, a top face, and side walls along the boundary.

use vstd::prelude::*;
use crate::geometry::poly_bounded;
use crate::shatter::ShatterError;
use crate::triangulation::{
    boundary_edges, boundary_edges_spec, boundary_row, boundary_rows, edge_view, edges_view,
    in_range_tri, tri_view, tris_view, valid_triangulation,
};
use crate::units::{COORD_LIMIT, MAX_CELL_POINTS, MAX_CELL_TRIS, MAX_DIM, SCALE};

verus! {

/// A renderable shard mesh: three-dimensional vertex positions in micro-units
/// and a triangle index buffer.
#[derive(Debug, PartialEq, Eq)]
pub struct ShardMesh {
    pub positions: Vec<(i64, i64, i64)>,
    pub triangles: Vec<(usize, usize, usize)>,
}

/// All three coordinates lie within the accepted range.
pub open spec fn pos_bounded(p: (i64, i64, i64)) -> bool {
    &&& -COORD_LIMIT <= p.0 <= COORD_LIMIT
    &&& -COORD_LIMIT <= p.1 <= COORD_LIMIT
    &&& -COORD_LIMIT <= p.2 <= COORD_LIMIT
}

impl ShardMesh {
    /// Positions are bounded and every triangle indexes into them.
    pub open spec fn wf(self) -> bool {
        &&& forall|i: int|
            0 <= i < self.positions@.len() ==> pos_bounded(#[trigger] self.positions@[i])
        &&& forall|k: int|
            0 <= k < self.triangles@.len() ==> in_range_tri(
                #[trigger] tris_view(self.triangles@)[k],
                self.positions@.len() as int,
            )
    }
}

/// A triangle with its winding reversed, so that it faces the other way.
pub open spec fn rev_tri(t: (int, int, int)) -> (int, int, int) {
    (t.2, t.1, t.0)
}

/// A triangle with all indices shifted by `n`, onto the top vertex copies.
pub open spec fn shift_tri(t: (int, int, int), n: int) -> (int, int, int) {
    (t.0 + n, t.1 + n, t.2 + n)
}

/// The bottom face: every cell triangle with reversed winding, so the face
/// points away from the solid.
pub open spec fn bottom_tris(ts: Seq<(int, int, int)>) -> Seq<(int, int, int)>
    decreases ts.len(),
{
    if ts.len() == 0 {
        Seq::empty()
    } else {
        bottom_tris(ts.drop_last()).push(rev_tri(ts.last()))
    }
}

/// The top face: every cell triangle shifted onto the top vertex copies,
/// keeping its winding.
pub open spec fn top_tris(ts: Seq<(int, int, int)>, n: int) -> Seq<(int, int, int)>
    decreases ts.len(),
{
    if ts.len() == 0 {
        Seq::empty()
    } else {
        top_tris(ts.drop_last(), n).push(shift_tri(ts.last(), n))
    }
}

/// The two side-wall triangles bridging a boundary edge `(a, b)` of the
/// bottom face to the corresponding edge of the top face, wound to match the
/// outward direction of the boundary edge.
pub open spec fn side_quad(e: (int, int), n: int) -> Seq<(int, int, int)> {
    seq![(e.0, e.1, e.1 + n), (e.1 + n, e.0 + n, e.0)]
}

/// The side walls: two triangles for every boundary edge.
pub open spec fn side_tris(es: Seq<(int, int)>, n: int) -> Seq<(int, int, int)>
    decreases es.len(),
{
    if es.len() == 0 {
        Seq::empty()
    } else {
        side_tris(es.drop_last(), n) + side_quad(es.last(), n)
    }
}

/// The full index buffer of an extruded cell of `n` vertices: the reversed
/// bottom face, the shifted top face, and the side walls along the boundary
/// edges of the cell triangulation.
pub open spec fn mesh_tris_spec(ts: Seq<(int, int, int)>, n: int) -> Seq<(int, int, int)> {
    bottom_tris(ts) + top_tris(ts, n) + side_tris(boundary_edges_spec(ts, n), n)
}

/// The vertex buffer of an extruded cell: the cell polygon at depth zero,
/// followed by the same polygon at depth `-thickness`.
pub open spec fn extruded_positions(ps: Seq<(i64, i64)>, thickness: i64) -> Seq<(i64, i64, i64)> {
    ps.map_values(|p: (i64, i64)| (p.0, p.1, 0i64))
        + ps.map_values(|p: (i64, i64)| (p.0, p.1, (-thickness) as i64))
}

/// Why the mesh builder rejects a cell, or nothing if it accepts it. The
/// checks run in this order: the cell polygon's shape, the input sizes, the
/// triangulation.
pub open spec fn mesh_input_fault(ps: Seq<(i64, i64)>, ts: Seq<(int, int, int)>) -> Option<
    ShatterError,
> {
    if ps.len() < 3 || !poly_bounded(ps) {
        Some(ShatterError::DegenerateCell)
    } else if ps.len() > MAX_CELL_POINTS || ts.len() > MAX_CELL_TRIS {
        Some(ShatterError::Oversized)
    } else if !valid_triangulation(ts, ps.len() as int) {
        Some(ShatterError::InvalidTriangulation)
    } else {
        Option::None
    }
}

/// One step of the bottom- and top-face constructions along a prefix.
proof fn lemma_face_tris_take_step(ts: Seq<(int, int, int)>, i: int, n: int)
    requires
        0 <= i < ts.len(),
    ensures
        bottom_tris(ts.take(i + 1)) == bottom_tris(ts.take(i)).push(rev_tri(ts[i])),
        top_tris(ts.take(i + 1), n) == top_tris(ts.take(i), n).push(shift_tri(ts[i], n)),
{
    assert(ts.take(i + 1).drop_last() =~= ts.take(i));
    assert(ts.take(i + 1).last() == ts[i]);
}

/// One step of the side-wall construction along a prefix of the boundary.
proof fn lemma_side_tris_take_step(es: Seq<(int, int)>, i: int, n: int)
    requires
        0 <= i < es.len(),
    ensures
        side_tris(es.take(i + 1), n) == side_tris(es.take(i), n) + side_quad(es[i], n),
{
    assert(es.take(i + 1).drop_last() =~= es.take(i));
    assert(es.take(i + 1).last() == es[i]);
}

/// Every edge of a boundary row has source `a` and a target in `0..b_end`.
proof fn lemma_boundary_row_range(ts: Seq<(int, int, int)>, a: int, b_end: int)
    ensures
        forall|k: int|
            0 <= k < boundary_row(ts, a, b_end).len() ==> {
                &&& (#[trigger] boundary_row(ts, a, b_end)[k]).0 == a
                &&& 0 <= boundary_row(ts, a, b_end)[k].1 < b_end
                &&& boundary_row(ts, a, b_end)[k].1 != a
            },
    decreases b_end,
{
    if b_end > 0 {
        lemma_boundary_row_range(ts, a, b_end - 1);
        let row = boundary_row(ts, a, b_end);
        let prev = boundary_row(ts, a, b_end - 1);
        assert forall|k: int| 0 <= k < row.len() implies (#[trigger] row[k]).0 == a && 0 <= row[k].1
            < b_end && row[k].1 != a by {
            if k < prev.len() {
                assert(row[k] == prev[k]);
            } else {
                assert(row[k] == (a, b_end - 1));
            }
        }
    }
}

/// Every boundary edge of a triangulation over `n` vertices has both its
/// source and its target in `0..n`.
pub proof fn lemma_boundary_rows_range(ts: Seq<(int, int, int)>, n: int, a_end: int)
    ensures
        forall|k: int|
            0 <= k < boundary_rows(ts, n, a_end).len() ==> {
                &&& 0 <= (#[trigger] boundary_rows(ts, n, a_end)[k]).0 < a_end
                &&& 0 <= boundary_rows(ts, n, a_end)[k].1 < n
                &&& boundary_rows(ts, n, a_end)[k].0 != boundary_rows(ts, n, a_end)[k].1
            },
    decreases a_end,
{
    if a_end > 0 {
        lemma_boundary_rows_range(ts, n, a_end - 1);
        lemma_boundary_row_range(ts, a_end - 1, n);
        let rows = boundary_rows(ts, n, a_end);
        let prev = boundary_rows(ts, n, a_end - 1);
        let row = boundary_row(ts, a_end - 1, n);
        assert forall|k: int| 0 <= k < rows.len() implies 0 <= (#[trigger] rows[k]).0 < a_end && 0
            <= rows[k].1 < n && rows[k].0 != rows[k].1 by {
            if k < prev.len() {
                assert(rows[k] == prev[k]);
            } else {
                assert(rows[k] == row[k - prev.len()]);
            }
        }
    }
}

/// Builds the closed solid of one cell: validates the cell polygon and its
/// triangulation, extrudes the polygon to the panel thickness, and emits the
/// bottom face, top face and side walls. Succeeds exactly on inputs free of
/// [`mesh_input_fault`]s, and returns that fault otherwise.
pub fn build_shard_mesh(
    points: &Vec<(i64, i64)>,
    tris: &Vec<(usize, usize, usize)>,
    thickness: i64,
) -> (r: Result<ShardMesh, ShatterError>)
    requires
        0 < thickness <= MAX_DIM,
    ensures
        match r {
            Ok(m) => {
                &&& mesh_input_fault(points@, tris_view(tris@)) is None
                &&& m.positions@ == extruded_positions(points@, thickness)
                &&& tris_view(m.triangles@) == mesh_tris_spec(
                    tris_view(tris@),
                    points@.len() as int,
                )
                &&& m.wf()
            },
            Err(e) => Some(e) == mesh_input_fault(points@, tris_view(tris@)),
        },
{
    let ghost tv = tris_view(tris@);
    let n: usize = points.len();

    // The cell polygon's shape.
    if n < 3 {
        return Err(ShatterError::DegenerateCell);
    }
    let mut i: usize = 0;
    while i < n
        invariant
            n == points@.len(),
            i <= n,
            forall|j: int| 0 <= j < i ==> crate::geometry::coord_bounded(#[trigger] points@[j]),
        decreases n - i,
    {
        let p = points[i];
        if p.0 < -COORD_LIMIT || p.0 > COORD_LIMIT || p.1 < -COORD_LIMIT || p.1 > COORD_LIMIT {
            assert(!crate::geometry::coord_bounded(points@[i as int]));
            return Err(ShatterError::DegenerateCell);
        }
        i = i + 1;
    }
    assert(poly_bounded(points@));

    // The input sizes.
    if n > MAX_CELL_POINTS || tris.len() > MAX_CELL_TRIS {
        return Err(ShatterError::Oversized);
    }

    // The triangulation.
    if !crate::triangulation::check_triangulation(tris, n) {
        return Err(ShatterError::InvalidTriangulation);
    }

    // The vertex buffer: bottom copies at depth zero, top copies at the
    // negated thickness.
    let depth: i64 = -thickness;
    let mut positions: Vec<(i64, i64, i64)> = Vec::new();
    let mut i: usize = 0;
    while i < n
        invariant
            n == points@.len(),
            poly_bounded(points@),
            i <= n,
            positions@.len() == i as int,
            forall|j: int|
                0 <= j < i ==> #[trigger] positions@[j] == (points@[j].0, points@[j].1, 0i64),
        decreases n - i,
    {
        let p = points[i];
        positions.push((p.0, p.1, 0));
        i = i + 1;
    }
    let mut i: usize = 0;
    while i < n
        invariant
            n == points@.len(),
            poly_bounded(points@),
            depth == -thickness,
            0 < thickness <= MAX_DIM,
            i <= n,
            positions@.len() == n as int + i as int,
            forall|j: int|
                0 <= j < n ==> #[trigger] positions@[j] == (points@[j].0, points@[j].1, 0i64),
            forall|j: int|
                0 <= j < i ==> #[trigger] positions@[n as int + j] == (
                    points@[j].0,
                    points@[j].1,
                    depth,
                ),
        decreases n - i,
    {
        let p = points[i];
        positions.push((p.0, p.1, depth));
        i = i + 1;
    }
    proof {
        assert forall|j: int| n <= j < positions@.len() implies positions@[j] == (
            points@[j - n].0,
            points@[j - n].1,
            depth,
        ) by {
            assert(positions@[n as int + (j - n)] == (points@[j - n].0, points@[j - n].1, depth));
        }
        assert(positions@ =~= extruded_positions(points@, thickness));
    }

    // The index buffer: reversed bottom face, shifted top face, side walls.
    let m: usize = tris.len();
    let mut mtris: Vec<(usize, usize, usize)> = Vec::new();
    let mut i: usize = 0;
    while i < m
        invariant
            m == tris@.len(),
            tv == tris_view(tris@),
            i <= m,
            tris_view(mtris@) == bottom_tris(tv.take(i as int)),
        decreases m - i,
    {
        let t = tris[i];
        let ghost prev = tris_view(mtris@);
        mtris.push((t.2, t.1, t.0));
        proof {
            lemma_face_tris_take_step(tv, i as int, n as int);
            assert(tv[i as int] == tri_view(tris@[i as int]));
            assert(tris_view(mtris@) =~= prev.push(rev_tri(tv[i as int])));
        }
        i = i + 1;
    }
    proof {
        assert(tv.take(m as int) =~= tv);
    }

    let mut i: usize = 0;
    while i < m
        invariant
            m == tris@.len(),
            n == points@.len(),
            3 <= n <= MAX_CELL_POINTS,
            tv == tris_view(tris@),
            valid_triangulation(tv, n as int),
            i <= m,
            tris_view(mtris@) == bottom_tris(tv) + top_tris(tv.take(i as int), n as int),
        decreases m - i,
    {
        let t = tris[i];
        let ghost prev = tris_view(mtris@);
        proof {
            assert(tv[i as int] == tri_view(tris@[i as int]));
            assert(in_range_tri(tv[i as int], n as int));
        }
        mtris.push((t.0 + n, t.1 + n, t.2 + n));
        proof {
            lemma_face_tris_take_step(tv, i as int, n as int);
            assert(tris_view(mtris@) =~= prev.push(shift_tri(tv[i as int], n as int)));
            assert(prev.push(shift_tri(tv[i as int], n as int)) =~= bottom_tris(tv) + top_tris(
                tv.take(i as int + 1),
                n as int,
            ));
        }
        i = i + 1;
    }
    proof {
        assert(tv.take(m as int) =~= tv);
    }

    let bedges: Vec<(usize, usize)> = boundary_edges(tris, n);
    let ghost bv = edges_view(bedges@);
    proof {
        lemma_boundary_rows_range(tv, n as int, n as int);
    }
    let nb: usize = bedges.len();
    let mut i: usize = 0;
    while i < nb
        invariant
            nb == bedges@.len(),
            n == points@.len(),
            3 <= n <= MAX_CELL_POINTS,
            tv == tris_view(tris@),
            bv == edges_view(bedges@),
            bv == boundary_edges_spec(tv, n as int),
            forall|k: int|
                0 <= k < bv.len() ==> 0 <= (#[trigger] bv[k]).0 < n && 0 <= bv[k].1 < n,
            i <= nb,
            tris_view(mtris@) == bottom_tris(tv) + top_tris(tv, n as int) + side_tris(
                bv.take(i as int),
                n as int,
            ),
        decreases nb - i,
    {
        let e = bedges[i];
        let ghost prev = tris_view(mtris@);
        proof {
            assert(bv[i as int] == edge_view(bedges@[i as int]));
        }
        mtris.push((e.0, e.1, e.1 + n));
        mtris.push((e.1 + n, e.0 + n, e.0));
        proof {
            lemma_side_tris_take_step(bv, i as int, n as int);
            assert(tris_view(mtris@) =~= prev + side_quad(bv[i as int], n as int));
            assert(prev + side_quad(bv[i as int], n as int) =~= bottom_tris(tv) + top_tris(
                tv,
                n as int,
            ) + side_tris(bv.take(i as int + 1), n as int));
        }
        i = i + 1;
    }
    proof {
        assert(bv.take(nb as int) =~= bv);
    }

    let mesh = ShardMesh { positions, triangles: mtris };
    proof {
        assert(tris_view(mesh.triangles@) == mesh_tris_spec(tv, n as int));
        lemma_mesh_tris_in_range(tv, n as int);
        assert forall|k: int| 0 <= k < mesh.triangles@.len() implies in_range_tri(
            #[trigger] tris_view(mesh.triangles@)[k],
            mesh.positions@.len() as int,
        ) by {
            assert(tris_view(mesh.triangles@)[k] == mesh_tris_spec(tv, n as int)[k]);
        }
        assert forall|j: int| 0 <= j < mesh.positions@.len() implies pos_bounded(
            #[trigger] mesh.positions@[j],
        ) by {
            if j < n {
                assert(mesh.positions@[j] == (points@[j].0, points@[j].1, 0i64));
            } else {
                assert(mesh.positions@[j] == (points@[j - n].0, points@[j - n].1, depth));
            }
        }
    }
    Ok(mesh)
}

/// The eight corners of the template cuboid: the unit square cell at depth
/// zero, then its copy at depth `-SCALE`, one world unit down.
pub open spec fn unit_cuboid_positions() -> Seq<(i64, i64, i64)> {
    seq![
        (0i64, 0i64, 0i64),
        (SCALE, 0i64, 0i64),
        (SCALE, SCALE, 0i64),
        (0i64, SCALE, 0i64),
        (0i64, 0i64, (-SCALE) as i64),
        (SCALE, 0i64, (-SCALE) as i64),
        (SCALE, SCALE, (-SCALE) as i64),
        (0i64, SCALE, (-SCALE) as i64),
    ]
}

/// The twelve triangles of the template cuboid, laid out exactly as the mesh
/// builder lays out a shard: the reversed bottom fan, the shifted top fan,
/// and two side triangles per boundary edge of the square.
pub open spec fn unit_cuboid_triangles() -> Seq<(usize, usize, usize)> {
    seq![
        (2usize, 1usize, 0usize),
        (3usize, 2usize, 0usize),
        (4usize, 5usize, 6usize),
        (4usize, 6usize, 7usize),
        (0usize, 1usize, 5usize),
        (5usize, 4usize, 0usize),
        (1usize, 2usize, 6usize),
        (6usize, 5usize, 1usize),
        (2usize, 3usize, 7usize),
        (7usize, 6usize, 2usize),
        (3usize, 0usize, 4usize),
        (4usize, 7usize, 3usize),
    ]
}

/// The host resource holding the one shared template mesh for intact panels,
/// initialized once at startup and read-only afterwards.
#[derive(Debug, PartialEq, Eq)]
pub struct GlassMesh(pub ShardMesh);

/// The template mesh for an intact panel: a closed unit cuboid, one world
/// unit along each axis, in the same layout the mesh builder gives a shard.
/// Hosts scale it through a transform and share it read-only across panels.
pub fn unit_cuboid_mesh() -> (m: ShardMesh)
    ensures
        m.positions@ == unit_cuboid_positions(),
        m.triangles@ == unit_cuboid_triangles(),
        m.wf(),
{
    let mut positions: Vec<(i64, i64, i64)> = Vec::new();
    positions.push((0, 0, 0));
    positions.push((SCALE, 0, 0));
    positions.push((SCALE, SCALE, 0));
    positions.push((0, SCALE, 0));
    positions.push((0, 0, (-SCALE) as i64));
    positions.push((SCALE, 0, (-SCALE) as i64));
    positions.push((SCALE, SCALE, (-SCALE) as i64));
    positions.push((0, SCALE, (-SCALE) as i64));
    let mut triangles: Vec<(usize, usize, usize)> = Vec::new();
    triangles.push((2, 1, 0));
    triangles.push((3, 2, 0));
    triangles.push((4, 5, 6));
    triangles.push((4, 6, 7));
    triangles.push((0, 1, 5));
    triangles.push((5, 4, 0));
    triangles.push((1, 2, 6));
    triangles.push((6, 5, 1));
    triangles.push((2, 3, 7));
    triangles.push((7, 6, 2));
    triangles.push((3, 0, 4));
    triangles.push((4, 7, 3));
    let m = ShardMesh { positions, triangles };
    proof {
        assert(m.positions@ =~= unit_cuboid_positions());
        assert(m.triangles@ =~= unit_cuboid_triangles());
        assert forall|k: int| 0 <= k < m.triangles@.len() implies in_range_tri(
            #[trigger] tris_view(m.triangles@)[k],
            m.positions@.len() as int,
        ) by {
            assert(tris_view(m.triangles@)[k] == tri_view(m.triangles@[k]));
        }
    }
    m
}

/// Every triangle of the extruded index buffer indexes into the doubled
/// vertex buffer.
pub proof fn lemma_mesh_tris_in_range(ts: Seq<(int, int, int)>, n: int)
    requires
        valid_triangulation(ts, n),
    ensures
        forall|k: int|
            0 <= k < mesh_tris_spec(ts, n).len() ==> in_range_tri(
                #[trigger] mesh_tris_spec(ts, n)[k],
                2 * n,
            ),
{
    lemma_bottom_top_range(ts, n);
    lemma_boundary_rows_range(ts, n, n);
    lemma_side_range(boundary_edges_spec(ts, n), n);
}

/// Bottom- and top-face triangles of an in-range triangulation stay in range.
proof fn lemma_bottom_top_range(ts: Seq<(int, int, int)>, n: int)
    requires
        crate::triangulation::tris_in_range(ts, n),
    ensures
        forall|k: int|
            0 <= k < bottom_tris(ts).len() ==> in_range_tri(#[trigger] bottom_tris(ts)[k], 2 * n),
        forall|k: int|
            0 <= k < top_tris(ts, n).len() ==> in_range_tri(#[trigger] top_tris(ts, n)[k], 2 * n),
    decreases ts.len(),
{
    if ts.len() > 0 {
        assert(crate::triangulation::tris_in_range(ts.drop_last(), n)) by {
            assert forall|i: int| 0 <= i < ts.drop_last().len() implies in_range_tri(
                #[trigger] ts.drop_last()[i],
                n,
            ) by {
                assert(ts.drop_last()[i] == ts[i]);
            }
        }
        lemma_bottom_top_range(ts.drop_last(), n);
        assert(in_range_tri(ts[ts.len() - 1], n));
        assert forall|k: int| 0 <= k < bottom_tris(ts).len() implies in_range_tri(
            #[trigger] bottom_tris(ts)[k],
            2 * n,
        ) by {
            if k < bottom_tris(ts.drop_last()).len() {
                assert(bottom_tris(ts)[k] == bottom_tris(ts.drop_last())[k]);
            }
        }
        assert forall|k: int| 0 <= k < top_tris(ts, n).len() implies in_range_tri(
            #[trigger] top_tris(ts, n)[k],
            2 * n,
        ) by {
            if k < top_tris(ts.drop_last(), n).len() {
                assert(top_tris(ts, n)[k] == top_tris(ts.drop_last(), n)[k]);
            }
        }
    }
}

/// The unnormalized flat normal of a triangle: the cross product of its first
/// two edge vectors. It points along the triangle's facing direction; host
/// code scales it to unit length, which is the only step that needs inexact
/// arithmetic.
pub open spec fn tri_normal(
    p0: (i64, i64, i64),
    p1: (i64, i64, i64),
    p2: (i64, i64, i64),
) -> (int, int, int) {
    let ux = p1.0 - p0.0;
    let uy = p1.1 - p0.1;
    let uz = p1.2 - p0.2;
    let wx = p2.0 - p0.0;
    let wy = p2.1 - p0.1;
    let wz = p2.2 - p0.2;
    (uy * wz - uz * wy, uz * wx - ux * wz, ux * wy - uy * wx)
}

/// Computes the unnormalized flat normal of a triangle exactly.
fn tri_normal_exec(p0: (i64, i64, i64), p1: (i64, i64, i64), p2: (i64, i64, i64)) -> (r: (
    i128,
    i128,
    i128,
))
    requires
        pos_bounded(p0),
        pos_bounded(p1),
        pos_bounded(p2),
    ensures
        (r.0 as int, r.1 as int, r.2 as int) == tri_normal(p0, p1, p2),
{
    let ux: i128 = (p1.0 as i128) - (p0.0 as i128);
    let uy: i128 = (p1.1 as i128) - (p0.1 as i128);
    let uz: i128 = (p1.2 as i128) - (p0.2 as i128);
    let wx: i128 = (p2.0 as i128) - (p0.0 as i128);
    let wy: i128 = (p2.1 as i128) - (p0.1 as i128);
    let wz: i128 = (p2.2 as i128) - (p0.2 as i128);
    proof {
        assert forall|x: int, y: int|
            -4_000_000_000_000 <= x <= 4_000_000_000_000 && -4_000_000_000_000 <= y
                <= 4_000_000_000_000 implies -16_000_000_000_000_000_000_000_000 <= #[trigger] (x
            * y) <= 16_000_000_000_000_000_000_000_000 by {
            assert(-16_000_000_000_000_000_000_000_000 <= x * y
                <= 16_000_000_000_000_000_000_000_000) by (nonlinear_arith)
                requires
                    -4_000_000_000_000 <= x <= 4_000_000_000_000,
                    -4_000_000_000_000 <= y <= 4_000_000_000_000,
            ;
        }
    }
    (uy * wz - uz * wy, uz * wx - ux * wz, ux * wy - uy * wx)
}

/// Duplicates the mesh's vertices so that every triangle owns its three
/// corner copies, and computes one flat normal per triangle. The returned
/// vertex buffer holds the corners of triangle `k` at positions `3k`,
/// `3k + 1` and `3k + 2` - the index buffer of the duplicated mesh is the
/// identity - and the normal buffer holds triangle `k`'s unnormalized flat
/// normal at position `k`. Duplication is what lets every triangle carry its
/// own normal: a shared vertex cannot hold more than one.
pub fn duplicated_with_normals(mesh: &ShardMesh) -> (r: (
    Vec<(i64, i64, i64)>,
    Vec<(i128, i128, i128)>,
))
    requires
        mesh.wf(),
    ensures
        r.0@.len() == 3 * mesh.triangles@.len(),
        r.1@.len() == mesh.triangles@.len(),
        forall|k: int|
            0 <= k < mesh.triangles@.len() ==> {
                let t = #[trigger] mesh.triangles@[k];
                &&& r.0@[3 * k] == mesh.positions@[t.0 as int]
                &&& r.0@[3 * k + 1] == mesh.positions@[t.1 as int]
                &&& r.0@[3 * k + 2] == mesh.positions@[t.2 as int]
                &&& (r.1@[k].0 as int, r.1@[k].1 as int, r.1@[k].2 as int) == tri_normal(
                    mesh.positions@[t.0 as int],
                    mesh.positions@[t.1 as int],
                    mesh.positions@[t.2 as int],
                )
            },
{
    let mut verts: Vec<(i64, i64, i64)> = Vec::new();
    let mut normals: Vec<(i128, i128, i128)> = Vec::new();
    let mut k: usize = 0;
    while k < mesh.triangles.len()
        invariant
            mesh.wf(),
            k <= mesh.triangles@.len(),
            verts@.len() == 3 * k as int,
            normals@.len() == k as int,
            forall|j: int|
                0 <= j < k ==> {
                    let t = #[trigger] mesh.triangles@[j];
                    &&& verts@[3 * j] == mesh.positions@[t.0 as int]
                    &&& verts@[3 * j + 1] == mesh.positions@[t.1 as int]
                    &&& verts@[3 * j + 2] == mesh.positions@[t.2 as int]
                    &&& (normals@[j].0 as int, normals@[j].1 as int, normals@[j].2 as int)
                        == tri_normal(
                        mesh.positions@[t.0 as int],
                        mesh.positions@[t.1 as int],
                        mesh.positions@[t.2 as int],
                    )
                },
        decreases mesh.triangles@.len() - k,
    {
        let t = mesh.triangles[k];
        proof {
            assert(tris_view(mesh.triangles@)[k as int] == tri_view(mesh.triangles@[k as int]));
            assert(in_range_tri(tris_view(mesh.triangles@)[k as int], mesh.positions@.len() as int));
        }
        let p0 = mesh.positions[t.0];
        let p1 = mesh.positions[t.1];
        let p2 = mesh.positions[t.2];
        verts.push(p0);
        verts.push(p1);
        verts.push(p2);
        normals.push(tri_normal_exec(p0, p1, p2));
        k = k + 1;
    }
    (verts, normals)
}

/// Side-wall triangles over in-range boundary edges stay in range.
proof fn lemma_side_range(es: Seq<(int, int)>, n: int)
    requires
        forall|k: int| 0 <= k < es.len() ==> 0 <= (#[trigger] es[k]).0 < n && 0 <= es[k].1 < n,
    ensures
        forall|k: int|
            0 <= k < side_tris(es, n).len() ==> in_range_tri(#[trigger] side_tris(es, n)[k], 2 * n),
    decreases es.len(),
{
    if es.len() > 0 {
        lemma_side_range(es.drop_last(), n);
        assert(0 <= es[es.len() - 1].0 < n && 0 <= es[es.len() - 1].1 < n);
        assert forall|k: int| 0 <= k < side_tris(es, n).len() implies in_range_tri(
            #[trigger] side_tris(es, n)[k],
            2 * n,
        ) by {
            if k < side_tris(es.drop_last(), n).len() {
                assert(side_tris(es, n)[k] == side_tris(es.drop_last(), n)[k]);
            } else {
                assert(side_tris(es, n)[k] == side_quad(es[es.len() - 1], n)[k - side_tris(
                    es.drop_last(),
                    n,
                ).len()]);
            }
        }
    }
}

} // verus!
