//! The point sampler: one jittered seed point per grid cell.

use vstd::prelude::*;
use crate::glass::Panel;
use crate::rng::random_below;
use crate::shatter::ShatterError;
use crate::units::EPSILON;

verus! {

/// The pitch of a grid axis: the length of one cell along it.
pub open spec fn pitch(length: int, cells: int) -> int {
    length / cells
}

/// The cell pitch along the width of a panel.
pub open spec fn pitch_x(p: Panel) -> int {
    pitch(p.width as int, p.nx())
}

/// The cell pitch along the height of a panel.
pub open spec fn pitch_y(p: Panel) -> int {
    pitch(p.height as int, p.ny())
}

/// The grid is too fine for the jitter margin: on a non-empty grid, half a
/// cell pitch on some axis does not exceed [`EPSILON`], so there is no room
/// left for a random offset that keeps seeds strictly apart. Such a
/// configuration is rejected before any point is sampled.
pub open spec fn jitter_collapsed(p: Panel) -> bool {
    p.cell_total() != 0 && (pitch_x(p) / 2 <= EPSILON || pitch_y(p) / 2 <= EPSILON)
}

/// Seed number `k` of the row-major order lies within grid cell
/// `(k % nx, k / nx)`, at least [`EPSILON`] away from the cell border on each
/// axis.
pub open spec fn seed_in_cell(p: Panel, k: int, pt: (i64, i64)) -> bool {
    let cx = k % p.nx();
    let cy = k / p.nx();
    &&& cx * pitch_x(p) + EPSILON <= pt.0 <= cx * pitch_x(p) + pitch_x(p) - EPSILON
    &&& cy * pitch_y(p) + EPSILON <= pt.1 <= cy * pitch_y(p) + pitch_y(p) - EPSILON
}

impl Panel {
    /// Samples one seed point per grid cell, ordered row-major (x fastest)
    /// from the bottom-left corner of the panel. Each point sits at a random
    /// offset from its cell's center, the offset bounded on each axis by half
    /// the pitch less [`EPSILON`]. An empty grid is a no-op yielding no
    /// points; a grid whose pitch leaves no room for the jitter margin is
    /// rejected.
    pub fn seed_points(&self) -> (r: Result<Vec<(i64, i64)>, ShatterError>)
        requires
            self.wf(),
        ensures
            match r {
                Ok(pts) => {
                    &&& !jitter_collapsed(*self)
                    &&& pts@.len() == self.cell_total()
                    &&& forall|k: int|
                        0 <= k < pts@.len() ==> seed_in_cell(*self, k, #[trigger] pts@[k])
                },
                Err(e) => e == ShatterError::JitterCollapsed && jitter_collapsed(*self),
            },
    {
        let nx: u32 = self.glass.num_cell_points.x;
        let ny: u32 = self.glass.num_cell_points.y;
        let mut pts: Vec<(i64, i64)> = Vec::new();
        if nx == 0 || ny == 0 {
            assert(self.cell_total() == 0) by (nonlinear_arith)
                requires
                    self.cell_total() == self.nx() * self.ny(),
                    self.nx() == nx as int,
                    self.ny() == ny as int,
                    nx == 0 || ny == 0,
            ;
            return Ok(pts);
        }
        let pw: i64 = ((self.width as u64) / (nx as u64)) as i64;
        let ph: i64 = ((self.height as u64) / (ny as u64)) as i64;
        let hw: i64 = pw / 2;
        let hh: i64 = ph / 2;
        assert(pw == pitch_x(*self) && ph == pitch_y(*self));
        assert(self.cell_total() != 0) by (nonlinear_arith)
            requires
                self.cell_total() == self.nx() * self.ny(),
                self.nx() == nx as int,
                self.ny() == ny as int,
                nx >= 1,
                ny >= 1,
        ;
        if hw <= EPSILON || hh <= EPSILON {
            return Err(ShatterError::JitterCollapsed);
        }
        let mx: i64 = hw - EPSILON;
        let my: i64 = hh - EPSILON;
        let span_x: u64 = (2 * mx + 1) as u64;
        let span_y: u64 = (2 * my + 1) as u64;

        proof {
            vstd::arithmetic::div_mod::lemma_fundamental_div_mod(self.width as int, nx as int);
            vstd::arithmetic::div_mod::lemma_mod_bound(self.width as int, nx as int);
            vstd::arithmetic::div_mod::lemma_fundamental_div_mod(self.height as int, ny as int);
            vstd::arithmetic::div_mod::lemma_mod_bound(self.height as int, ny as int);
            assert((nx as int) * (pw as int) <= self.width as int) by (nonlinear_arith)
                requires
                    self.width as int == (nx as int) * (pw as int) + (self.width as int) % (nx as int),
                    0 <= (self.width as int) % (nx as int),
            ;
            assert((ny as int) * (ph as int) <= self.height as int) by (nonlinear_arith)
                requires
                    self.height as int == (ny as int) * (ph as int) + (self.height as int) % (ny as int),
                    0 <= (self.height as int) % (ny as int),
            ;
        }

        let mut y: u32 = 0;
        while y < ny
            invariant
                self.wf(),
                nx == self.glass.num_cell_points.x,
                ny == self.glass.num_cell_points.y,
                1 <= nx,
                1 <= ny,
                y <= ny,
                pw as int == pitch_x(*self),
                ph as int == pitch_y(*self),
                hw == pw / 2,
                hh == ph / 2,
                EPSILON < hw,
                EPSILON < hh,
                2 * hw <= pw,
                2 * hh <= ph,
                mx == hw - EPSILON,
                my == hh - EPSILON,
                span_x == 2 * mx + 1,
                span_y == 2 * my + 1,
                (nx as int) * (pw as int) <= self.width as int,
                (ny as int) * (ph as int) <= self.height as int,
                pts@.len() == (y as int) * (nx as int),
                forall|k: int| 0 <= k < pts@.len() ==> seed_in_cell(*self, k, #[trigger] pts@[k]),
            decreases ny - y,
        {
            let mut x: u32 = 0;
            while x < nx
                invariant
                    self.wf(),
                    nx == self.glass.num_cell_points.x,
                    ny == self.glass.num_cell_points.y,
                    1 <= nx,
                    1 <= ny,
                    y < ny,
                    x <= nx,
                    pw as int == pitch_x(*self),
                    ph as int == pitch_y(*self),
                    hw == pw / 2,
                    hh == ph / 2,
                    EPSILON < hw,
                    EPSILON < hh,
                    2 * hw <= pw,
                    2 * hh <= ph,
                    mx == hw - EPSILON,
                    my == hh - EPSILON,
                    span_x == 2 * mx + 1,
                    span_y == 2 * my + 1,
                    (nx as int) * (pw as int) <= self.width as int,
                    (ny as int) * (ph as int) <= self.height as int,
                    pts@.len() == (y as int) * (nx as int) + x as int,
                    forall|k: int| 0 <= k < pts@.len() ==> seed_in_cell(*self, k, #[trigger] pts@[k]),
                decreases nx - x,
            {
                let rx: u64 = random_below(span_x);
                let ry: u64 = random_below(span_y);
                let ox: i64 = (rx as i64) - mx;
                let oy: i64 = (ry as i64) - my;
                proof {
                    assert((x as int) * (pw as int) <= (nx as int - 1) * (pw as int)) by {
                        vstd::arithmetic::mul::lemma_mul_inequality(x as int, nx as int - 1, pw as int);
                    }
                    assert((nx as int - 1) * (pw as int) == (nx as int) * (pw as int) - pw as int)
                        by (nonlinear_arith);
                    assert(0 <= (x as int) * (pw as int)) by {
                        vstd::arithmetic::mul::lemma_mul_nonnegative(x as int, pw as int);
                    }
                    assert((y as int) * (ph as int) <= (ny as int - 1) * (ph as int)) by {
                        vstd::arithmetic::mul::lemma_mul_inequality(y as int, ny as int - 1, ph as int);
                    }
                    assert((ny as int - 1) * (ph as int) == (ny as int) * (ph as int) - ph as int)
                        by (nonlinear_arith);
                    assert(0 <= (y as int) * (ph as int)) by {
                        vstd::arithmetic::mul::lemma_mul_nonnegative(y as int, ph as int);
                    }
                }
                let px: i64 = (x as i64) * pw + hw + ox;
                let py: i64 = (y as i64) * ph + hh + oy;
                let ghost k: int = pts@.len() as int;
                pts.push((px, py));
                proof {
                    vstd::arithmetic::div_mod::lemma_fundamental_div_mod_converse(
                        k, nx as int, y as int, x as int,
                    );
                    assert(seed_in_cell(*self, k, (px, py)));
                }
                x = x + 1;
            }
            proof {
                assert((y as int + 1) * (nx as int) == (y as int) * (nx as int) + nx as int)
                    by (nonlinear_arith);
            }
            y = y + 1;
        }
        proof {
            assert(self.cell_total() == (ny as int) * (nx as int)) by (nonlinear_arith)
                requires
                    self.cell_total() == self.nx() * self.ny(),
                    self.nx() == nx as int,
                    self.ny() == ny as int,
            ;
        }
        Ok(pts)
    }
}

/// Law: every sampled seed point lies strictly inside the panel rectangle,
/// at least the jitter margin away from its border - so the seed set is
/// always a legal input for a partition clipped to that rectangle.
pub proof fn lemma_seed_in_panel(p: Panel, pts: Seq<(i64, i64)>, k: int)
    requires
        p.wf(),
        pts.len() == p.cell_total(),
        forall|j: int| 0 <= j < pts.len() ==> seed_in_cell(p, j, #[trigger] pts[j]),
        0 <= k < pts.len(),
    ensures
        EPSILON <= pts[k].0 <= p.width - EPSILON,
        EPSILON <= pts[k].1 <= p.height - EPSILON,
{
    let nx = p.nx();
    let ny = p.ny();
    assert(0 < nx && 0 < ny) by (nonlinear_arith)
        requires
            p.cell_total() == nx * ny,
            0 <= nx,
            0 <= ny,
            p.cell_total() > 0,
    ;
    let cx = k % nx;
    let cy = k / nx;
    vstd::arithmetic::div_mod::lemma_fundamental_div_mod(k, nx);
    vstd::arithmetic::div_mod::lemma_mod_bound(k, nx);
    assert(0 <= cy < ny) by (nonlinear_arith)
        requires
            k == nx * cy + cx,
            0 <= cx < nx,
            0 <= k < nx * ny,
            0 < nx,
            0 < ny,
    ;
    let pw = pitch_x(p);
    let ph = pitch_y(p);
    vstd::arithmetic::div_mod::lemma_fundamental_div_mod(p.width as int, nx);
    vstd::arithmetic::div_mod::lemma_mod_bound(p.width as int, nx);
    vstd::arithmetic::div_mod::lemma_fundamental_div_mod(p.height as int, ny);
    vstd::arithmetic::div_mod::lemma_mod_bound(p.height as int, ny);
    assert(seed_in_cell(p, k, pts[k]));
    vstd::arithmetic::div_mod::lemma_div_pos_is_pos(p.width as int, nx);
    vstd::arithmetic::div_mod::lemma_div_pos_is_pos(p.height as int, ny);
    assert(0 <= cx * pw) by {
        vstd::arithmetic::mul::lemma_mul_nonnegative(cx, pw);
    }
    assert(0 <= cy * ph) by {
        vstd::arithmetic::mul::lemma_mul_nonnegative(cy, ph);
    }
    assert(nx * pw <= p.width as int) by (nonlinear_arith)
        requires
            p.width as int == nx * pw + (p.width as int) % nx,
            0 <= (p.width as int) % nx,
    ;
    assert(ny * ph <= p.height as int) by (nonlinear_arith)
        requires
            p.height as int == ny * ph + (p.height as int) % ny,
            0 <= (p.height as int) % ny,
    ;
    assert(cx * pw + pw <= p.width as int) by (nonlinear_arith)
        requires
            cx < nx,
            0 <= pw,
            nx * pw <= p.width as int,
    ;
    assert(cy * ph + ph <= p.height as int) by (nonlinear_arith)
        requires
            cy < ny,
            0 <= ph,
            ny * ph <= p.height as int,
    ;
}

/// Law: the seed points of one sampling are pairwise distinct - any two
/// points of different grid cells are separated by at least twice the jitter
/// margin on the axis where their cells differ.
pub proof fn lemma_seed_points_distinct(p: Panel, pts: Seq<(i64, i64)>, k1: int, k2: int)
    requires
        p.wf(),
        pts.len() == p.cell_total(),
        forall|k: int| 0 <= k < pts.len() ==> seed_in_cell(p, k, #[trigger] pts[k]),
        0 <= k1 < pts.len(),
        0 <= k2 < pts.len(),
        k1 != k2,
        !jitter_collapsed(p),
    ensures
        pts[k1] != pts[k2],
{
    let nx = p.nx();
    let x1 = k1 % nx;
    let y1 = k1 / nx;
    let x2 = k2 % nx;
    let y2 = k2 / nx;
    assert(0 < nx) by (nonlinear_arith)
        requires
            p.cell_total() == p.nx() * p.ny(),
            nx == p.nx(),
            0 <= p.nx(),
            0 <= p.ny(),
            p.cell_total() > 0,
    ;
    vstd::arithmetic::div_mod::lemma_fundamental_div_mod(k1, nx);
    vstd::arithmetic::div_mod::lemma_mod_bound(k1, nx);
    vstd::arithmetic::div_mod::lemma_fundamental_div_mod(k2, nx);
    vstd::arithmetic::div_mod::lemma_mod_bound(k2, nx);
    assert(x1 != x2 || y1 != y2) by (nonlinear_arith)
        requires
            k1 == nx * y1 + x1,
            k2 == nx * y2 + x2,
            k1 != k2,
    ;
    let pw = pitch_x(p);
    let ph = pitch_y(p);
    assert(p.cell_total() != 0);
    assert(EPSILON < pw / 2 && EPSILON < ph / 2);
    vstd::arithmetic::div_mod::lemma_fundamental_div_mod(pw, 2);
    vstd::arithmetic::div_mod::lemma_mod_bound(pw, 2);
    vstd::arithmetic::div_mod::lemma_fundamental_div_mod(ph, 2);
    vstd::arithmetic::div_mod::lemma_mod_bound(ph, 2);
    assert(2 * EPSILON < pw && 2 * EPSILON < ph);
    assert(seed_in_cell(p, k1, pts[k1]));
    assert(seed_in_cell(p, k2, pts[k2]));
    if x1 != x2 {
        if x1 < x2 {
            vstd::arithmetic::mul::lemma_mul_inequality(x1 + 1, x2, pw);
            assert((x1 + 1) * pw == x1 * pw + pw) by (nonlinear_arith);
            assert(pts[k1].0 < pts[k2].0);
        } else {
            vstd::arithmetic::mul::lemma_mul_inequality(x2 + 1, x1, pw);
            assert((x2 + 1) * pw == x2 * pw + pw) by (nonlinear_arith);
            assert(pts[k2].0 < pts[k1].0);
        }
    } else {
        if y1 < y2 {
            vstd::arithmetic::mul::lemma_mul_inequality(y1 + 1, y2, ph);
            assert((y1 + 1) * ph == y1 * ph + ph) by (nonlinear_arith);
            assert(pts[k1].1 < pts[k2].1);
        } else {
            vstd::arithmetic::mul::lemma_mul_inequality(y2 + 1, y1, ph);
            assert((y2 + 1) * ph == y2 * ph + ph) by (nonlinear_arith);
            assert(pts[k2].1 < pts[k1].1);
        }
    }
}

} // verus!
