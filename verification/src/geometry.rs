//! Exact planar geometry on micro-unit coordinates.

use vstd::prelude::*;
use crate::units::{COORD_LIMIT, MAX_CELL_POINTS};

verus! {

/// Twice the signed area of the triangle `o`, `p`, `q`: the cross product of
/// `p - o` with `q - o`. Positive when the corner at `o` turns
/// counter-clockwise.
pub open spec fn cross(o: (i64, i64), p: (i64, i64), q: (i64, i64)) -> int {
    (p.0 - o.0) * (q.1 - o.1) - (p.1 - o.1) * (q.0 - o.0)
}

/// Both coordinates lie within the accepted range.
pub open spec fn coord_bounded(p: (i64, i64)) -> bool {
    -COORD_LIMIT <= p.0 <= COORD_LIMIT && -COORD_LIMIT <= p.1 <= COORD_LIMIT
}

/// Every vertex of the polygon lies within the accepted range.
pub open spec fn poly_bounded(ps: Seq<(i64, i64)>) -> bool {
    forall|i: int| 0 <= i < ps.len() ==> coord_bounded(#[trigger] ps[i])
}

/// Computes a cross product exactly in 128-bit arithmetic.
pub fn cross_exec(o: (i64, i64), p: (i64, i64), q: (i64, i64)) -> (r: i128)
    requires
        coord_bounded(o),
        coord_bounded(p),
        coord_bounded(q),
    ensures
        r as int == cross(o, p, q),
        -32_000_000_000_000_000_000_000_000 <= r <= 32_000_000_000_000_000_000_000_000,
{
    let ax: i128 = (p.0 as i128) - (o.0 as i128);
    let ay: i128 = (p.1 as i128) - (o.1 as i128);
    let bx: i128 = (q.0 as i128) - (o.0 as i128);
    let by: i128 = (q.1 as i128) - (o.1 as i128);
    proof {
        assert(-16_000_000_000_000_000_000_000_000 <= (ax as int) * (by as int)
            <= 16_000_000_000_000_000_000_000_000) by (nonlinear_arith)
            requires
                -4_000_000_000_000 <= ax as int <= 4_000_000_000_000,
                -4_000_000_000_000 <= by as int <= 4_000_000_000_000,
        ;
        assert(-16_000_000_000_000_000_000_000_000 <= (ay as int) * (bx as int)
            <= 16_000_000_000_000_000_000_000_000) by (nonlinear_arith)
            requires
                -4_000_000_000_000 <= ay as int <= 4_000_000_000_000,
                -4_000_000_000_000 <= bx as int <= 4_000_000_000_000,
        ;
    }
    ax * by - ay * bx
}

/// The index after `i` on a closed polygon of `len` vertices.
pub open spec fn next_idx(i: int, len: int) -> int {
    if i + 1 == len {
        0
    } else {
        i + 1
    }
}

/// `pt` lies inside or on the border of the convex counter-clockwise polygon
/// `ps`: it sits on the left of, or on, every directed polygon edge.
pub open spec fn point_in_convex(pt: (i64, i64), ps: Seq<(i64, i64)>) -> bool {
    forall|i: int|
        0 <= i < ps.len() ==> #[trigger] cross(ps[i], ps[next_idx(i, ps.len() as int)], pt) >= 0
}

/// Tests containment of a point in a convex counter-clockwise polygon.
pub fn point_in_convex_exec(pt: (i64, i64), ps: &Vec<(i64, i64)>) -> (r: bool)
    requires
        coord_bounded(pt),
        poly_bounded(ps@),
    ensures
        r == point_in_convex(pt, ps@),
{
    let mut i: usize = 0;
    while i < ps.len()
        invariant
            coord_bounded(pt),
            poly_bounded(ps@),
            i <= ps@.len(),
            forall|j: int|
                0 <= j < i ==> #[trigger] cross(ps@[j], ps@[next_idx(j, ps@.len() as int)], pt)
                    >= 0,
        decreases ps@.len() - i,
    {
        let ni: usize = if i + 1 == ps.len() {
            0
        } else {
            i + 1
        };
        let c: i128 = cross_exec(ps[i], ps[ni], pt);
        if c < 0 {
            assert(ni as int == next_idx(i as int, ps@.len() as int));
            assert(cross(ps@[i as int], ps@[next_idx(i as int, ps@.len() as int)], pt) < 0);
            return false;
        }
        i = i + 1;
    }
    true
}

/// The squared distance between two planar points. Callers use it to relate
/// a shard's seed position to an impact point.
pub open spec fn dist2(p: (i64, i64), q: (i64, i64)) -> int {
    (p.0 - q.0) * (p.0 - q.0) + (p.1 - q.1) * (p.1 - q.1)
}

/// Computes a squared distance exactly in 128-bit arithmetic.
pub fn dist2_exec(p: (i64, i64), q: (i64, i64)) -> (r: i128)
    requires
        coord_bounded(p),
        coord_bounded(q),
    ensures
        r as int == dist2(p, q),
{
    let dx: i128 = (p.0 as i128) - (q.0 as i128);
    let dy: i128 = (p.1 as i128) - (q.1 as i128);
    proof {
        assert(0 <= (dx as int) * (dx as int) <= 16_000_000_000_000_000_000_000_000)
            by (nonlinear_arith)
            requires
                -4_000_000_000_000 <= dx as int <= 4_000_000_000_000,
        ;
        assert(0 <= (dy as int) * (dy as int) <= 16_000_000_000_000_000_000_000_000)
            by (nonlinear_arith)
            requires
                -4_000_000_000_000 <= dy as int <= 4_000_000_000_000,
        ;
    }
    dx * dx + dy * dy
}

/// Twice the signed area of the fan over the first `k` vertices of the
/// polygon, rooted at its first vertex.
pub open spec fn area2_upto(ps: Seq<(i64, i64)>, k: int) -> int
    decreases k,
{
    if k < 3 {
        0
    } else {
        area2_upto(ps, k - 1) + cross(ps[0], ps[k - 2], ps[k - 1])
    }
}

/// Twice the signed area of a polygon: positive for counter-clockwise
/// winding. A polygon with fewer than three vertices has no area.
pub open spec fn area2(ps: Seq<(i64, i64)>) -> int {
    area2_upto(ps, ps.len() as int)
}

/// Computes twice the signed area of a polygon exactly.
pub fn polygon_area2(ps: &Vec<(i64, i64)>) -> (r: i128)
    requires
        poly_bounded(ps@),
        ps@.len() <= MAX_CELL_POINTS,
    ensures
        r as int == area2(ps@),
{
    if ps.len() < 3 {
        return 0;
    }
    let mut acc: i128 = 0;
    let mut i: usize = 2;
    while i < ps.len()
        invariant
            poly_bounded(ps@),
            ps@.len() <= MAX_CELL_POINTS,
            2 <= i <= ps@.len(),
            acc as int == area2_upto(ps@, i as int),
            -32_000_000_000_000_000_000_000_000 * (i as int)
                <= acc as int
                <= 32_000_000_000_000_000_000_000_000 * (i as int),
        decreases ps@.len() - i,
    {
        let c: i128 = cross_exec(ps[0], ps[i - 1], ps[i]);
        proof {
            let m: int = 32_000_000_000_000_000_000_000_000;
            assert(m * (i as int) + m == m * (i as int + 1)) by (nonlinear_arith);
            assert(m * (i as int + 1) <= m * 65_537) by (nonlinear_arith)
                requires
                    i as int + 1 <= 65_537,
                    m == 32_000_000_000_000_000_000_000_000,
            ;
            assert(-(m * 65_537) <= acc as int + c as int <= m * 65_537);
        }
        acc = acc + c;
        i = i + 1;
    }
    acc
}

} // verus!
