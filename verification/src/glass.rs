//! Panel configuration: grid sizes, densities, and the panel itself.

use vstd::prelude::*;
use crate::units::{MAX_DIM, SCALE};

verus! {

/// Number of grid cells along the width (`x`) and the height (`y`) of a panel.
#[derive(Clone, Copy, Debug, PartialEq, Eq, Structural)]
pub struct GridSize {
    pub x: u32,
    pub y: u32,
}

/// The shatter configuration of a panel: how many cells the surface is cut
/// into along each axis. More cells mean more, smaller shards.
#[derive(Clone, Copy, Debug, PartialEq, Eq, Structural)]
pub struct Glass {
    /// The number of cell points used along the width and the height.
    pub num_cell_points: GridSize,
}

/// The number of cells a density of `cells_per_unit` puts along a length:
/// the floor of their product, both given in micro-units.
pub open spec fn grid_count(cells_per_unit: int, length: int) -> int {
    (cells_per_unit * length) / (SCALE * SCALE)
}

/// The grid that a density assigns to a `width x height` surface.
pub open spec fn spec_density_grid(width: int, height: int, cells_per_unit: int) -> GridSize {
    GridSize {
        x: grid_count(cells_per_unit, width) as u32,
        y: grid_count(cells_per_unit, height) as u32,
    }
}

/// Floors the product of a density and a length, both in micro-units.
fn floor_cells(cells_per_unit: i64, length: i64) -> (n: u32)
    requires
        0 <= cells_per_unit <= MAX_DIM,
        0 < length <= MAX_DIM,
        grid_count(cells_per_unit as int, length as int) <= u32::MAX,
    ensures
        n as int == grid_count(cells_per_unit as int, length as int),
{
    let d: u128 = cells_per_unit as u128;
    let l: u128 = length as u128;
    assert(d * l == (cells_per_unit as int) * (length as int) <= MAX_DIM * MAX_DIM)
        by (nonlinear_arith)
        requires
            d == cells_per_unit as int,
            l == length as int,
            0 <= cells_per_unit as int <= MAX_DIM,
            0 < length as int <= MAX_DIM,
    ;
    let q: u128 = (d * l) / 1_000_000_000_000u128;
    q as u32
}

impl Glass {
    /// Configures glass directly from an explicit cell grid.
    pub fn new(num_cell_points: GridSize) -> (g: Glass)
        ensures
            g.num_cell_points == num_cell_points,
    {
        Glass { num_cell_points }
    }

    /// Configures glass from a density (cells per world unit of distance,
    /// given in micro-units), flooring the cell count along each axis.
    pub fn new_with_density(width: i64, height: i64, cells_per_unit: i64) -> (g: Glass)
        requires
            0 < width <= MAX_DIM,
            0 < height <= MAX_DIM,
            0 <= cells_per_unit <= MAX_DIM,
            grid_count(cells_per_unit as int, width as int) <= u32::MAX,
            grid_count(cells_per_unit as int, height as int) <= u32::MAX,
        ensures
            g.num_cell_points == spec_density_grid(width as int, height as int, cells_per_unit as int),
    {
        let cells_x: u32 = floor_cells(cells_per_unit, width);
        let cells_y: u32 = floor_cells(cells_per_unit, height);
        Glass { num_cell_points: GridSize { x: cells_x, y: cells_y } }
    }
}

/// A rectangular glass panel: its dimensions in micro-units, its shatter
/// configuration, and whether it has already been shattered. A panel starts
/// intact; shattering it successfully is the one transition it makes.
#[derive(Clone, Copy, Debug, PartialEq, Eq, Structural)]
pub struct Panel {
    pub width: i64,
    pub height: i64,
    pub thickness: i64,
    pub glass: Glass,
    pub shattered: bool,
}

/// The panel a width, a height, a thickness and a grid configure.
pub open spec fn spec_with_grid(width: i64, height: i64, thickness: i64, grid: GridSize) -> Panel {
    Panel {
        width,
        height,
        thickness,
        glass: Glass { num_cell_points: grid },
        shattered: false,
    }
}

impl Panel {
    /// Dimensions are positive and within the fixed-point range.
    pub open spec fn wf(self) -> bool {
        &&& 0 < self.width <= MAX_DIM
        &&& 0 < self.height <= MAX_DIM
        &&& 0 < self.thickness <= MAX_DIM
    }

    /// Cells along the width.
    pub open spec fn nx(self) -> int {
        self.glass.num_cell_points.x as int
    }

    /// Cells along the height.
    pub open spec fn ny(self) -> int {
        self.glass.num_cell_points.y as int
    }

    /// Total number of grid cells, one seed point and one shard per cell.
    pub open spec fn cell_total(self) -> int {
        self.nx() * self.ny()
    }

    /// Builds an intact panel from explicit cell counts.
    pub fn with_grid(width: i64, height: i64, thickness: i64, grid: GridSize) -> (p: Panel)
        requires
            0 < width <= MAX_DIM,
            0 < height <= MAX_DIM,
            0 < thickness <= MAX_DIM,
        ensures
            p == spec_with_grid(width, height, thickness, grid),
            p.wf(),
            !p.shattered,
    {
        Panel {
            width,
            height,
            thickness,
            glass: Glass::new(grid),
            shattered: false,
        }
    }

    /// Builds an intact panel from a cell density, flooring the cell count
    /// along each axis.
    pub fn with_density(width: i64, height: i64, thickness: i64, cells_per_unit: i64) -> (p: Panel)
        requires
            0 < width <= MAX_DIM,
            0 < height <= MAX_DIM,
            0 < thickness <= MAX_DIM,
            0 <= cells_per_unit <= MAX_DIM,
            grid_count(cells_per_unit as int, width as int) <= u32::MAX,
            grid_count(cells_per_unit as int, height as int) <= u32::MAX,
        ensures
            p == spec_with_grid(
                width,
                height,
                thickness,
                spec_density_grid(width as int, height as int, cells_per_unit as int),
            ),
            p.wf(),
            !p.shattered,
    {
        let glass = Glass::new_with_density(width, height, cells_per_unit);
        Panel {
            width,
            height,
            thickness,
            glass,
            shattered: false,
        }
    }
}

/// Law: a grid count is the exact floor of density times length. Together
/// with the constructors' contracts this pins down that configuring a panel
/// by a density and configuring it by the floored explicit grid yield the
/// same cell counts.
pub proof fn lemma_grid_count_is_floor(cells_per_unit: int, length: int)
    requires
        0 <= cells_per_unit,
        0 < length,
    ensures
        0 <= grid_count(cells_per_unit, length),
        grid_count(cells_per_unit, length) * (SCALE * SCALE)
            <= cells_per_unit * length
            < (grid_count(cells_per_unit, length) + 1) * (SCALE * SCALE),
{
    let p: int = cells_per_unit * length;
    let s: int = SCALE * SCALE;
    assert(0 <= p) by (nonlinear_arith)
        requires
            p == cells_per_unit * length,
            0 <= cells_per_unit,
            0 < length,
    ;
    vstd::arithmetic::div_mod::lemma_fundamental_div_mod(p, s);
    vstd::arithmetic::div_mod::lemma_mod_bound(p, s);
    assert(p == s * (p / s) + p % s);
    assert((p / s) * s == s * (p / s)) by (nonlinear_arith);
    assert(((p / s) + 1) * s == s * (p / s) + s) by (nonlinear_arith);
    assert(0 <= p / s) by (nonlinear_arith)
        requires
            0 <= p,
            0 < s,
            p == s * (p / s) + p % s,
            0 <= p % s < s,
    ;
}

/// Law: configuring by a density and configuring by the explicit grid the
/// density floors to yield identical panels. The two hypotheses are exactly
/// what [`Panel::with_density`] and [`Panel::with_grid`] ensure of their
/// results.
pub proof fn lemma_density_matches_grid(
    p_by_density: Panel,
    p_by_grid: Panel,
    width: i64,
    height: i64,
    thickness: i64,
    cells_per_unit: i64,
)
    requires
        p_by_density == spec_with_grid(
            width,
            height,
            thickness,
            spec_density_grid(width as int, height as int, cells_per_unit as int),
        ),
        p_by_grid == spec_with_grid(
            width,
            height,
            thickness,
            GridSize {
                x: grid_count(cells_per_unit as int, width as int) as u32,
                y: grid_count(cells_per_unit as int, height as int) as u32,
            },
        ),
    ensures
        p_by_density == p_by_grid,
{
}

} // verus!
