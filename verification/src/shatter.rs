//! The shatter orchestrator and its output records.

use vstd::prelude::*;
use crate::geometry::{coord_bounded, point_in_convex, point_in_convex_exec};
use crate::glass::Panel;
use crate::mesh::{build_shard_mesh, extruded_positions, mesh_input_fault, mesh_tris_spec, ShardMesh};
use crate::triangulation::tris_view;
use crate::units::COORD_LIMIT;

verus! {

/// Why a shatter operation was refused. Any fault aborts the whole operation:
/// no partial shard set is ever produced, and the panel stays intact.
#[derive(Clone, Copy, Debug, PartialEq, Eq, Structural)]
pub enum ShatterError {
    /// The grid is so fine against the panel that half a cell pitch does not
    /// exceed the jitter safety margin; sampling could not keep seeds apart.
    JitterCollapsed,
    /// A cell polygon has fewer than three vertices or a coordinate out of
    /// the accepted range.
    DegenerateCell,
    /// A cell polygon has more vertices, or its triangulation more triangles,
    /// than the library accepts.
    Oversized,
    /// A cell's index triples are not a manifold triangulation of its
    /// vertices: an index out of range, a repeated vertex or edge, or a
    /// boundary that does not close.
    InvalidTriangulation,
    /// A seed point does not lie within the cell polygon reported for it, so
    /// the partition cannot be the Voronoi diagram of the seeds.
    SeedOutsideCell,
    /// The number of cells handed in does not match the number of seeds.
    CellCountMismatch,
}

/// Marks a panel as shattered. Attaching this intent to a panel is what
/// triggers the one `intact -> shattered` transition the library defines.
#[derive(Clone, Copy, Debug, PartialEq, Eq, Structural)]
pub struct Shattered;

/// The handle of the panel a shard came from, for host-side bookkeeping.
#[derive(Clone, Copy, Debug, PartialEq, Eq, Structural)]
pub struct ShardOf(pub u64);

/// The handles of the shards a panel produced, for host-side bookkeeping.
#[derive(Clone, Debug)]
pub struct Shards(pub Vec<u64>);

/// The tag a host attaches to each spawned shard: its position in the glass,
/// relative to the bottom-left point, in micro-units.
#[derive(Clone, Copy, Debug, PartialEq, Eq)]
pub struct Shard {
    pub pos: (i64, i64),
}

/// One cell of the partitioned panel surface, as handed back by the host:
/// the clipped Voronoi cell polygon in micro-units, counter-clockwise, and
/// the Delaunay triangulation of its vertices as index triples.
#[derive(Debug, PartialEq, Eq)]
pub struct CellInput {
    pub points: Vec<(i64, i64)>,
    pub triangles: Vec<(usize, usize, usize)>,
}

/// The convex collision volume of a shard, given by the point set whose
/// convex hull it is. An extruded convex cell is its own hull, so the mesh's
/// vertex positions serve directly.
#[derive(Debug, PartialEq, Eq)]
pub struct ConvexCollider {
    pub points: Vec<(i64, i64, i64)>,
}

/// One durable output of a shatter operation: the closed mesh of one cell,
/// the seed position it grew from (in panel-local micro-units, measured from
/// the bottom-left corner), and its convex collision volume. A record never
/// changes after creation; its ownership passes to the caller.
#[derive(Debug, PartialEq, Eq)]
pub struct ShardRecord {
    pub mesh: ShardMesh,
    pub pos: (i64, i64),
    pub collider: ConvexCollider,
    /// The opaque material/visual handle of the source panel, passed through
    /// unmodified. The core never reads it.
    pub material: u64,
}

/// Why the orchestrator rejects a cell and its seed, or nothing if it accepts
/// them: first any fault the mesh builder would find, then a seed that does
/// not lie within the cell polygon handed in for it (such a partition cannot
/// be the Voronoi diagram of the seeds).
pub open spec fn cell_fault(cell: CellInput, seed: (i64, i64)) -> Option<ShatterError> {
    if mesh_input_fault(cell.points@, tris_view(cell.triangles@)) is Some {
        mesh_input_fault(cell.points@, tris_view(cell.triangles@))
    } else if !coord_bounded(seed) || !point_in_convex(seed, cell.points@) {
        Some(ShatterError::SeedOutsideCell)
    } else {
        Option::None
    }
}

/// The shard record that shattering builds from one accepted cell: its mesh
/// is the extrusion of the cell to the panel thickness, its position is the
/// cell's seed, and its collider is the hull point set of the mesh.
pub open spec fn shard_built(
    cell: CellInput,
    seed: (i64, i64),
    thickness: i64,
    material: u64,
    r: ShardRecord,
) -> bool {
    &&& r.pos == seed
    &&& r.material == material
    &&& r.mesh.positions@ == extruded_positions(cell.points@, thickness)
    &&& tris_view(r.mesh.triangles@) == mesh_tris_spec(
        tris_view(cell.triangles@),
        cell.points@.len() as int,
    )
    &&& r.mesh.wf()
    &&& r.collider.points@ == r.mesh.positions@
}

/// Law (determinism): from the partitioner's output onward the pipeline is a
/// function of its inputs. Any two shard records built from the same cell,
/// seed and thickness are structurally identical - same vertex buffer, same
/// index buffer, same position, same collider point set.
pub proof fn lemma_shard_build_deterministic(
    cell: CellInput,
    seed: (i64, i64),
    thickness: i64,
    material: u64,
    r1: ShardRecord,
    r2: ShardRecord,
)
    requires
        shard_built(cell, seed, thickness, material, r1),
        shard_built(cell, seed, thickness, material, r2),
    ensures
        r1.pos == r2.pos,
        r1.material == r2.material,
        r1.mesh.positions@ == r2.mesh.positions@,
        r1.mesh.triangles@ == r2.mesh.triangles@,
        r1.collider.points@ == r2.collider.points@,
{
    let v1 = tris_view(r1.mesh.triangles@);
    let v2 = tris_view(r2.mesh.triangles@);
    assert(v1 == v2);
    assert forall|k: int| 0 <= k < r1.mesh.triangles@.len() implies r1.mesh.triangles@[k]
        == r2.mesh.triangles@[k] by {
        assert(v1[k] == crate::triangulation::tri_view(r1.mesh.triangles@[k]));
        assert(v2[k] == crate::triangulation::tri_view(r2.mesh.triangles@[k]));
    }
    assert(r1.mesh.triangles@ =~= r2.mesh.triangles@);
}

/// The template collision shape for an intact panel: the corner point set of
/// the unit cuboid of [`crate::mesh::unit_cuboid_mesh`], whose convex hull is
/// the cuboid itself. Hosts scale it through a transform and share it across
/// panels.
pub fn unit_cuboid_collider() -> (c: ConvexCollider)
    ensures
        c.points@ == crate::mesh::unit_cuboid_positions(),
{
    let m = crate::mesh::unit_cuboid_mesh();
    ConvexCollider { points: m.positions }
}

/// Copies a vertex buffer.
fn copy_positions(ps: &Vec<(i64, i64, i64)>) -> (r: Vec<(i64, i64, i64)>)
    ensures
        r@ == ps@,
{
    let mut r: Vec<(i64, i64, i64)> = Vec::new();
    let mut i: usize = 0;
    while i < ps.len()
        invariant
            i <= ps@.len(),
            r@ == ps@.take(i as int),
        decreases ps@.len() - i,
    {
        r.push(ps[i]);
        proof {
            assert(r@ =~= ps@.take(i as int + 1));
        }
        i = i + 1;
    }
    proof {
        assert(ps@.take(ps@.len() as int) =~= ps@);
    }
    r
}

impl Panel {
    /// Shatters the panel: builds one shard record per cell of the partition
    /// the host computed for the panel's seed points, each carrying the
    /// panel's opaque material handle unmodified. Succeeds exactly when one
    /// seed and one cell arrive per grid cell of the panel and every cell is
    /// free of [`cell_fault`]s - so a successful shatter yields exactly
    /// `nx * ny` shard records - and then the panel makes its one-way
    /// transition to the shattered state. Any fault aborts the whole
    /// operation with the fault of the first offending cell: no shards are
    /// returned and the panel stays intact, so the caller may adjust the
    /// configuration and retry.
    pub fn shatter(
        &mut self,
        seeds: &Vec<(i64, i64)>,
        cells: &Vec<CellInput>,
        material: u64,
    ) -> (r: Result<Vec<ShardRecord>, ShatterError>)
        requires
            old(self).wf(),
            !old(self).shattered,
        ensures
            match r {
                Ok(shards) => {
                    &&& seeds@.len() == cells@.len()
                    &&& shards@.len() == old(self).cell_total()
                    &&& forall|i: int|
                        0 <= i < cells@.len() ==> #[trigger] cell_fault(cells@[i], seeds@[i])
                            is None
                    &&& shards@.len() == cells@.len()
                    &&& forall|i: int|
                        0 <= i < cells@.len() ==> shard_built(
                            cells@[i],
                            seeds@[i],
                            old(self).thickness,
                            material,
                            #[trigger] shards@[i],
                        )
                    &&& *final(self) == (Panel {
                        width: old(self).width,
                        height: old(self).height,
                        thickness: old(self).thickness,
                        glass: old(self).glass,
                        shattered: true,
                    })
                },
                Err(e) => {
                    &&& *final(self) == *old(self)
                    &&& (e == ShatterError::CellCountMismatch <==> (seeds@.len() != cells@.len()
                        || seeds@.len() != old(self).cell_total()))
                    &&& (e != ShatterError::CellCountMismatch ==> exists|i: int|
                        {
                            &&& 0 <= i < cells@.len()
                            &&& #[trigger] cell_fault(cells@[i], seeds@[i]) == Some(e)
                            &&& forall|j: int|
                                0 <= j < i ==> cell_fault(cells@[j], #[trigger] seeds@[j]) is None
                        })
                },
            },
    {
        let nx: u32 = self.glass.num_cell_points.x;
        let ny: u32 = self.glass.num_cell_points.y;
        proof {
            assert((nx as int) * (ny as int) <= 0xffff_ffff * 0xffff_ffff) by (nonlinear_arith)
                requires
                    0 <= nx as int <= 0xffff_ffff,
                    0 <= ny as int <= 0xffff_ffff,
            ;
        }
        let total: u64 = (nx as u64) * (ny as u64);
        if seeds.len() != cells.len() || seeds.len() as u64 != total {
            return Err(ShatterError::CellCountMismatch);
        }
        assert(seeds@.len() == old(self).cell_total());
        let thickness: i64 = self.thickness;
        let mut shards: Vec<ShardRecord> = Vec::new();
        let mut i: usize = 0;
        while i < cells.len()
            invariant
                *self == *old(self),
                self.wf(),
                thickness == self.thickness,
                seeds@.len() == cells@.len(),
                seeds@.len() == old(self).cell_total(),
                i <= cells@.len(),
                shards@.len() == i as int,
                forall|j: int|
                    0 <= j < i ==> #[trigger] cell_fault(cells@[j], seeds@[j]) is None,
                forall|j: int|
                    0 <= j < i ==> shard_built(
                        cells@[j],
                        seeds@[j],
                        self.thickness,
                        material,
                        #[trigger] shards@[j],
                    ),
            decreases cells@.len() - i,
        {
            let cell: &CellInput = &cells[i];
            let seed: (i64, i64) = seeds[i];
            match build_shard_mesh(&cell.points, &cell.triangles, thickness) {
                Ok(mesh) => {
                    if seed.0 < -COORD_LIMIT || seed.0 > COORD_LIMIT || seed.1 < -COORD_LIMIT
                        || seed.1 > COORD_LIMIT {
                        assert(cell_fault(cells@[i as int], seeds@[i as int])
                            == Some(ShatterError::SeedOutsideCell));
                        return Err(ShatterError::SeedOutsideCell);
                    }
                    if !point_in_convex_exec(seed, &cell.points) {
                        assert(cell_fault(cells@[i as int], seeds@[i as int])
                            == Some(ShatterError::SeedOutsideCell));
                        return Err(ShatterError::SeedOutsideCell);
                    }
                    let collider = ConvexCollider { points: copy_positions(&mesh.positions) };
                    shards.push(ShardRecord { mesh, pos: seed, collider, material });
                    assert(cell_fault(cells@[i as int], seeds@[i as int]) is None);
                },
                Err(e) => {
                    assert(cell_fault(cells@[i as int], seeds@[i as int]) == Some(e));
                    return Err(e);
                },
            }
            i = i + 1;
        }
        self.shattered = true;
        Ok(shards)
    }
}

} // verus!
