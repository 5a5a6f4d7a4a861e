//! The closed-manifold law of extruded shard meshes.
//!
//! For every boundary edge `(a, b)` of a valid cell triangulation over `n`
//! vertices, the extruded index buffer contains the edge's side-wall quad,
//! and each of the quad's five undirected edges - the bottom edge `{a, b}`,
//! the top edge `{a+n, b+n}`, the two verticals `{a, a+n}` and `{b, b+n}`,
//! and the quad diagonal `{a, b+n}` - lies on exactly two triangles of the
//! mesh. The walls therefore leave no gap anywhere between the bottom face,
//! the top face and each other.

use vstd::prelude::*;
use crate::mesh::{
    bottom_tris, lemma_boundary_rows_range, mesh_tris_spec, rev_tri, shift_tri, side_quad,
    side_tris, top_tris,
};
use crate::triangulation::{
    boundary_edges_spec, boundary_row, boundary_rows, dst_count, edge_count_in, edge_occurrences,
    closed_boundary, is_boundary_edge, lemma_edge_occurrence_exists, src_count, tri_edge_count,
    tris_in_range, valid_triangulation,
};

verus! {

/// On how many triangles of the list the undirected edge `{u, v}` lies,
/// counted as the directed occurrences of `(u, v)` plus those of `(v, u)`.
/// For triangles with three distinct vertices this is exactly the number of
/// triangles containing the edge.
pub open spec fn undirected_count(ts: Seq<(int, int, int)>, u: int, v: int) -> int {
    edge_occurrences(ts, (u, v)) + edge_occurrences(ts, (v, u))
}

/// Directed-edge counts are never negative.
proof fn lemma_edge_occurrences_nonneg(ts: Seq<(int, int, int)>, e: (int, int))
    ensures
        edge_occurrences(ts, e) >= 0,
    decreases ts.len(),
{
    if ts.len() > 0 {
        lemma_edge_occurrences_nonneg(ts.drop_last(), e);
    }
}

/// Dropping the last triangle keeps every triangle in range.
proof fn lemma_tris_in_range_drop_last(ts: Seq<(int, int, int)>, n: int)
    requires
        tris_in_range(ts, n),
        ts.len() > 0,
    ensures
        tris_in_range(ts.drop_last(), n),
{
    assert forall|i: int|
        0 <= i < ts.drop_last().len() implies crate::triangulation::in_range_tri(
        #[trigger] ts.drop_last()[i],
        n,
    ) by {
        assert(ts.drop_last()[i] == ts[i]);
    }
}

/// The bottom face holds a directed edge as often as the triangulation holds
/// its reverse.
proof fn lemma_bottom_occurrences(ts: Seq<(int, int, int)>, u: int, v: int)
    ensures
        edge_occurrences(bottom_tris(ts), (u, v)) == edge_occurrences(ts, (v, u)),
    decreases ts.len(),
{
    if ts.len() > 0 {
        lemma_bottom_occurrences(ts.drop_last(), u, v);
        let prev = bottom_tris(ts.drop_last());
        assert(bottom_tris(ts) == prev.push(rev_tri(ts.last())));
        assert(prev.push(rev_tri(ts.last())).drop_last() =~= prev);
        assert(prev.push(rev_tri(ts.last())).last() == rev_tri(ts.last()));
        assert(tri_edge_count(rev_tri(ts.last()), (u, v)) == tri_edge_count(ts.last(), (v, u)));
    }
}

/// The top face holds a shifted directed edge as often as the triangulation
/// holds the unshifted edge.
proof fn lemma_top_occurrences_shifted(ts: Seq<(int, int, int)>, n: int, u: int, v: int)
    ensures
        edge_occurrences(top_tris(ts, n), (u + n, v + n)) == edge_occurrences(ts, (u, v)),
    decreases ts.len(),
{
    if ts.len() > 0 {
        lemma_top_occurrences_shifted(ts.drop_last(), n, u, v);
        let prev = top_tris(ts.drop_last(), n);
        assert(top_tris(ts, n) == prev.push(shift_tri(ts.last(), n)));
        assert(prev.push(shift_tri(ts.last(), n)).drop_last() =~= prev);
        assert(prev.push(shift_tri(ts.last(), n)).last() == shift_tri(ts.last(), n));
        assert(tri_edge_count(shift_tri(ts.last(), n), (u + n, v + n)) == tri_edge_count(
            ts.last(),
            (u, v),
        ));
    }
}

/// The top face holds no directed edge with an endpoint below `n`.
proof fn lemma_top_occurrences_low(ts: Seq<(int, int, int)>, n: int, u: int, v: int)
    requires
        tris_in_range(ts, n),
        u < n || v < n,
    ensures
        edge_occurrences(top_tris(ts, n), (u, v)) == 0,
    decreases ts.len(),
{
    if ts.len() > 0 {
        lemma_tris_in_range_drop_last(ts, n);
        lemma_top_occurrences_low(ts.drop_last(), n, u, v);
        let prev = top_tris(ts.drop_last(), n);
        assert(top_tris(ts, n) == prev.push(shift_tri(ts.last(), n)));
        assert(prev.push(shift_tri(ts.last(), n)).drop_last() =~= prev);
        assert(prev.push(shift_tri(ts.last(), n)).last() == shift_tri(ts.last(), n));
        assert(crate::triangulation::in_range_tri(ts[ts.len() - 1], n));
        assert(tri_edge_count(shift_tri(ts.last(), n), (u, v)) == 0);
    }
}

/// A triangulation over `n` vertices holds no directed edge with an endpoint
/// outside `0..n`.
proof fn lemma_occurrences_out_of_range(ts: Seq<(int, int, int)>, n: int, u: int, v: int)
    requires
        tris_in_range(ts, n),
        !(0 <= u < n) || !(0 <= v < n),
    ensures
        edge_occurrences(ts, (u, v)) == 0,
    decreases ts.len(),
{
    if ts.len() > 0 {
        lemma_tris_in_range_drop_last(ts, n);
        lemma_occurrences_out_of_range(ts.drop_last(), n, u, v);
        assert(crate::triangulation::in_range_tri(ts[ts.len() - 1], n));
        assert(tri_edge_count(ts.last(), (u, v)) == 0);
    }
}

/// How many of the six directed edges of a boundary edge's side-wall quad
/// equal `e`.
pub open spec fn quad_edge_count(x: (int, int), n: int, e: (int, int)) -> int {
    (if (x.0, x.1) == e { 1int } else { 0int })
    + (if (x.1, x.1 + n) == e { 1int } else { 0int })
    + (if (x.1 + n, x.0) == e { 1int } else { 0int })
    + (if (x.1 + n, x.0 + n) == e { 1int } else { 0int })
    + (if (x.0 + n, x.0) == e { 1int } else { 0int })
    + (if (x.0, x.1 + n) == e { 1int } else { 0int })
}

/// How often `e` occurs among the side-wall quads of a boundary edge list.
pub open spec fn quads_edge_count(es: Seq<(int, int)>, n: int, e: (int, int)) -> int
    decreases es.len(),
{
    if es.len() == 0 {
        0
    } else {
        quads_edge_count(es.drop_last(), n, e) + quad_edge_count(es.last(), n, e)
    }
}

/// The side walls hold a directed edge as often as the quads of the boundary
/// edges hold it.
proof fn lemma_side_occurrences(es: Seq<(int, int)>, n: int, e: (int, int))
    ensures
        edge_occurrences(side_tris(es, n), e) == quads_edge_count(es, n, e),
    decreases es.len(),
{
    if es.len() > 0 {
        lemma_side_occurrences(es.drop_last(), n, e);
        let x = es.last();
        let quad = side_quad(x, n);
        crate::triangulation::lemma_edge_occurrences_concat(side_tris(es.drop_last(), n), quad, e);
        let q1: Seq<(int, int, int)> = seq![(x.0, x.1, x.1 + n)];
        assert(q1.drop_last() =~= Seq::<(int, int, int)>::empty());
        assert(edge_occurrences(Seq::<(int, int, int)>::empty(), e) == 0);
        assert(edge_occurrences(q1, e) == tri_edge_count((x.0, x.1, x.1 + n), e));
        assert(quad.drop_last() =~= q1);
        assert(quad.last() == (x.1 + n, x.0 + n, x.0));
        assert(edge_occurrences(quad, e) == edge_occurrences(q1, e) + tri_edge_count(
            (x.1 + n, x.0 + n, x.0),
            e,
        ));
        assert(edge_occurrences(quad, e) == quad_edge_count(x, n, e));
    }
}

/// All edges of the list connect distinct vertices of `0..n`.
pub open spec fn edges_in_range(es: Seq<(int, int)>, n: int) -> bool {
    forall|k: int|
        0 <= k < es.len() ==> {
            &&& 0 <= (#[trigger] es[k]).0 < n
            &&& 0 <= es[k].1 < n
            &&& es[k].0 != es[k].1
        }
}

/// What the quads of an in-range boundary edge list contribute to each edge
/// shape of the quad of `(u, v)`: the bottom and top edges and the diagonal
/// are contributed once per occurrence of the matching boundary edge, the
/// verticals once per boundary edge arriving at or leaving the vertex.
proof fn lemma_quads_count_shapes(es: Seq<(int, int)>, n: int, u: int, v: int)
    requires
        edges_in_range(es, n),
        0 <= u < n,
        0 <= v < n,
        u != v,
    ensures
        quads_edge_count(es, n, (u, v)) == edge_count_in(es, (u, v)),
        quads_edge_count(es, n, (u + n, v + n)) == edge_count_in(es, (v, u)),
        quads_edge_count(es, n, (u, v + n)) == edge_count_in(es, (u, v)),
        quads_edge_count(es, n, (v + n, u)) == edge_count_in(es, (u, v)),
        quads_edge_count(es, n, (v, v + n)) == dst_count(es, v),
        quads_edge_count(es, n, (v + n, v)) == src_count(es, v),
        quads_edge_count(es, n, (u, u + n)) == dst_count(es, u),
        quads_edge_count(es, n, (u + n, u)) == src_count(es, u),
    decreases es.len(),
{
    if es.len() > 0 {
        assert(edges_in_range(es.drop_last(), n)) by {
            assert forall|k: int|
                0 <= k < es.drop_last().len() implies {
                &&& 0 <= (#[trigger] es.drop_last()[k]).0 < n
                &&& 0 <= es.drop_last()[k].1 < n
                &&& es.drop_last()[k].0 != es.drop_last()[k].1
            } by {
                assert(es.drop_last()[k] == es[k]);
            }
        }
        lemma_quads_count_shapes(es.drop_last(), n, u, v);
        assert(0 <= es[es.len() - 1].0 < n && 0 <= es[es.len() - 1].1 < n && es[es.len() - 1].0
            != es[es.len() - 1].1);
    }
}

/// Counting over edge lists distributes over concatenation.
proof fn lemma_edge_list_concat(s1: Seq<(int, int)>, s2: Seq<(int, int)>, e: (int, int), v: int)
    ensures
        edge_count_in(s1 + s2, e) == edge_count_in(s1, e) + edge_count_in(s2, e),
        src_count(s1 + s2, v) == src_count(s1, v) + src_count(s2, v),
        dst_count(s1 + s2, v) == dst_count(s1, v) + dst_count(s2, v),
    decreases s2.len(),
{
    if s2.len() == 0 {
        assert(s1 + s2 =~= s1);
    } else {
        lemma_edge_list_concat(s1, s2.drop_last(), e, v);
        assert((s1 + s2).drop_last() =~= s1 + s2.drop_last());
        assert((s1 + s2).last() == s2.last());
    }
}

/// A boundary row holds exactly the boundary edges out of `a` with targets
/// below `b_end`, each once.
proof fn lemma_boundary_row_count(ts: Seq<(int, int, int)>, a: int, b_end: int, e: (int, int))
    ensures
        edge_count_in(boundary_row(ts, a, b_end), e) == if e.0 == a && 0 <= e.1 < b_end
            && is_boundary_edge(ts, a, e.1) {
            1int
        } else {
            0int
        },
    decreases b_end,
{
    if b_end > 0 {
        lemma_boundary_row_count(ts, a, b_end - 1, e);
        if is_boundary_edge(ts, a, b_end - 1) {
            lemma_edge_list_concat(boundary_row(ts, a, b_end - 1), seq![(a, b_end - 1)], e, 0);
            let s1: Seq<(int, int)> = seq![(a, b_end - 1)];
            assert(s1.drop_last() =~= Seq::<(int, int)>::empty());
            assert(edge_count_in(Seq::<(int, int)>::empty(), e) == 0);
            assert(s1.last() == (a, b_end - 1));
            assert(edge_count_in(s1, e) == if e == (a, b_end - 1) {
                1int
            } else {
                0int
            });
        } else {
            lemma_edge_list_concat(
                boundary_row(ts, a, b_end - 1),
                Seq::<(int, int)>::empty(),
                e,
                0,
            );
        }
    }
}

/// The boundary edge list holds exactly the boundary edges with sources below
/// `a_end`, each once.
proof fn lemma_boundary_rows_count(ts: Seq<(int, int, int)>, n: int, a_end: int, e: (int, int))
    ensures
        edge_count_in(boundary_rows(ts, n, a_end), e) == if 0 <= e.0 < a_end && 0 <= e.1 < n
            && is_boundary_edge(ts, e.0, e.1) {
            1int
        } else {
            0int
        },
    decreases a_end,
{
    if a_end > 0 {
        lemma_boundary_rows_count(ts, n, a_end - 1, e);
        lemma_boundary_row_count(ts, a_end - 1, n, e);
        lemma_edge_list_concat(
            boundary_rows(ts, n, a_end - 1),
            boundary_row(ts, a_end - 1, n),
            e,
            0,
        );
    }
}

/// An edge cannot occur in a list more often than edges leave its source or
/// arrive at its target.
proof fn lemma_edge_count_within_degrees(es: Seq<(int, int)>, e: (int, int))
    ensures
        edge_count_in(es, e) <= src_count(es, e.0),
        edge_count_in(es, e) <= dst_count(es, e.1),
    decreases es.len(),
{
    if es.len() > 0 {
        lemma_edge_count_within_degrees(es.drop_last(), e);
    }
}

/// LAW (closed manifold): every side-wall edge of an extruded mesh lies on
/// exactly two of its triangles. For each boundary edge `(a, b)` of a valid
/// cell triangulation over `n` vertices, the five undirected edges of its
/// side-wall quad - bottom `{a, b}`, top `{a+n, b+n}`, diagonal `{a, b+n}`,
/// and the verticals `{a, a+n}` and `{b, b+n}` - each lie on exactly two
/// triangles of the extruded index buffer, so the side walls close up against
/// the bottom face, the top face and each other without gaps.
pub proof fn lemma_mesh_closed_at_boundary(ts: Seq<(int, int, int)>, n: int, a: int, b: int)
    requires
        valid_triangulation(ts, n),
        is_boundary_edge(ts, a, b),
    ensures
        0 <= a < n && 0 <= b < n && a != b,
        undirected_count(mesh_tris_spec(ts, n), a, b) == 2,
        undirected_count(mesh_tris_spec(ts, n), a + n, b + n) == 2,
        undirected_count(mesh_tris_spec(ts, n), a, b + n) == 2,
        undirected_count(mesh_tris_spec(ts, n), a, a + n) == 2,
        undirected_count(mesh_tris_spec(ts, n), b, b + n) == 2,
{
    let bspec = boundary_edges_spec(ts, n);
    let bottom = bottom_tris(ts);
    let top = top_tris(ts, n);
    let sides = side_tris(bspec, n);
    let mesh = mesh_tris_spec(ts, n);

    // The boundary edge is an edge of some triangle: its endpoints are
    // distinct vertices in range, and its reverse does not occur.
    lemma_edge_occurrences_nonneg(ts, (b, a));
    assert(edge_occurrences(ts, (a, b)) >= 1 && edge_occurrences(ts, (b, a)) >= 0);
    lemma_edge_occurrence_exists(ts, (a, b));
    let w = choose|i: int| 0 <= i < ts.len() && tri_edge_count(#[trigger] ts[i], (a, b)) > 0;
    assert(crate::triangulation::in_range_tri(ts[w], n));
    assert(crate::triangulation::distinct_tri(ts[w]));
    assert(0 <= a < n && 0 <= b < n && a != b);
    assert(edge_occurrences(ts, (a, b)) <= 1);
    assert(edge_occurrences(ts, (b, a)) <= 1);
    assert(edge_occurrences(ts, (a, b)) == 1 && edge_occurrences(ts, (b, a)) == 0);

    // The boundary edge list: `(a, b)` once, `(b, a)` never, and one edge
    // leaving and arriving at each of `a` and `b`.
    lemma_boundary_rows_range(ts, n, n);
    assert(edges_in_range(bspec, n));
    lemma_boundary_rows_count(ts, n, n, (a, b));
    assert(edge_count_in(bspec, (a, b)) == 1);
    lemma_boundary_rows_count(ts, n, n, (b, a));
    assert(!is_boundary_edge(ts, b, a));
    assert(edge_count_in(bspec, (b, a)) == 0);
    lemma_edge_count_within_degrees(bspec, (a, b));
    assert(closed_boundary(ts, n));
    assert(src_count(bspec, a) == dst_count(bspec, a) && src_count(bspec, a) <= 1);
    assert(src_count(bspec, b) == dst_count(bspec, b) && src_count(bspec, b) <= 1);
    assert(src_count(bspec, a) == 1 && dst_count(bspec, a) == 1);
    assert(src_count(bspec, b) == 1 && dst_count(bspec, b) == 1);

    // What each part of the index buffer contributes to each target edge.
    lemma_quads_count_shapes(bspec, n, a, b);
    lemma_quads_count_shapes(bspec, n, b, a);

    let targets: Seq<(int, int)> = seq![
        (a, b),
        (b, a),
        (a + n, b + n),
        (b + n, a + n),
        (a, b + n),
        (b + n, a),
        (a, a + n),
        (a + n, a),
        (b, b + n),
        (b + n, b),
    ];
    assert forall|t: int| 0 <= t < targets.len() implies edge_occurrences(
        mesh,
        #[trigger] targets[t],
    ) == edge_occurrences(bottom, targets[t]) + edge_occurrences(top, targets[t])
        + edge_occurrences(sides, targets[t]) by {
        crate::triangulation::lemma_edge_occurrences_concat(bottom + top, sides, targets[t]);
        crate::triangulation::lemma_edge_occurrences_concat(bottom, top, targets[t]);
        assert(mesh == (bottom + top) + sides);
    }

    // Bottom edge {a, b}: once on the reversed bottom face, once on the quad.
    lemma_bottom_occurrences(ts, a, b);
    lemma_bottom_occurrences(ts, b, a);
    lemma_top_occurrences_low(ts, n, a, b);
    lemma_top_occurrences_low(ts, n, b, a);
    lemma_side_occurrences(bspec, n, (a, b));
    lemma_side_occurrences(bspec, n, (b, a));
    assert(edge_occurrences(mesh, (a, b)) == 0 + 0 + 1);
    assert(edge_occurrences(mesh, (b, a)) == 1 + 0 + 0);

    // Top edge {a+n, b+n}: once on the shifted top face, once on the quad.
    lemma_bottom_occurrences(ts, a + n, b + n);
    lemma_occurrences_out_of_range(ts, n, b + n, a + n);
    lemma_bottom_occurrences(ts, b + n, a + n);
    lemma_occurrences_out_of_range(ts, n, a + n, b + n);
    lemma_top_occurrences_shifted(ts, n, a, b);
    lemma_top_occurrences_shifted(ts, n, b, a);
    lemma_side_occurrences(bspec, n, (a + n, b + n));
    lemma_side_occurrences(bspec, n, (b + n, a + n));
    assert(edge_occurrences(mesh, (a + n, b + n)) == 0 + 1 + 0);
    assert(edge_occurrences(mesh, (b + n, a + n)) == 0 + 0 + 1);

    // Diagonal {a, b+n}: both directions once each on the two quad halves.
    lemma_bottom_occurrences(ts, a, b + n);
    lemma_occurrences_out_of_range(ts, n, b + n, a);
    lemma_bottom_occurrences(ts, b + n, a);
    lemma_occurrences_out_of_range(ts, n, a, b + n);
    lemma_top_occurrences_low(ts, n, a, b + n);
    lemma_top_occurrences_low(ts, n, b + n, a);
    lemma_side_occurrences(bspec, n, (a, b + n));
    lemma_side_occurrences(bspec, n, (b + n, a));
    assert(edge_occurrences(mesh, (a, b + n)) == 0 + 0 + 1);
    assert(edge_occurrences(mesh, (b + n, a)) == 0 + 0 + 1);

    // Vertical {a, a+n}: once each from the quad of the boundary edge
    // arriving at `a` and from the quad of the one leaving `a`.
    lemma_bottom_occurrences(ts, a, a + n);
    lemma_occurrences_out_of_range(ts, n, a + n, a);
    lemma_bottom_occurrences(ts, a + n, a);
    lemma_occurrences_out_of_range(ts, n, a, a + n);
    lemma_top_occurrences_low(ts, n, a, a + n);
    lemma_top_occurrences_low(ts, n, a + n, a);
    lemma_side_occurrences(bspec, n, (a, a + n));
    lemma_side_occurrences(bspec, n, (a + n, a));
    assert(edge_occurrences(mesh, (a, a + n)) == 0 + 0 + dst_count(bspec, a));
    assert(edge_occurrences(mesh, (a + n, a)) == 0 + 0 + src_count(bspec, a));

    // Vertical {b, b+n}: the same at `b`.
    lemma_bottom_occurrences(ts, b, b + n);
    lemma_occurrences_out_of_range(ts, n, b + n, b);
    lemma_bottom_occurrences(ts, b + n, b);
    lemma_occurrences_out_of_range(ts, n, b, b + n);
    lemma_top_occurrences_low(ts, n, b, b + n);
    lemma_top_occurrences_low(ts, n, b + n, b);
    lemma_side_occurrences(bspec, n, (b, b + n));
    lemma_side_occurrences(bspec, n, (b + n, b));
    assert(edge_occurrences(mesh, (b, b + n)) == 0 + 0 + dst_count(bspec, b));
    assert(edge_occurrences(mesh, (b + n, b)) == 0 + 0 + src_count(bspec, b));
}

/// LAW (closed manifold, interior edges): an interior edge of the cell
/// triangulation - one shared by two triangles, once in each direction - lies
/// on exactly two triangles of the bottom face and on exactly two of the top
/// face, and on no side wall. Together with
/// [`lemma_mesh_closed_at_boundary`] this closes every edge of the extruded
/// mesh: each lies on exactly two of its triangles.
pub proof fn lemma_mesh_closed_at_interior(ts: Seq<(int, int, int)>, n: int, u: int, v: int)
    requires
        valid_triangulation(ts, n),
        edge_occurrences(ts, (u, v)) == 1,
        edge_occurrences(ts, (v, u)) == 1,
    ensures
        0 <= u < n && 0 <= v < n && u != v,
        undirected_count(mesh_tris_spec(ts, n), u, v) == 2,
        undirected_count(mesh_tris_spec(ts, n), u + n, v + n) == 2,
{
    let bspec = boundary_edges_spec(ts, n);
    let bottom = bottom_tris(ts);
    let top = top_tris(ts, n);
    let sides = side_tris(bspec, n);
    let mesh = mesh_tris_spec(ts, n);

    lemma_edge_occurrence_exists(ts, (u, v));
    let w = choose|i: int| 0 <= i < ts.len() && tri_edge_count(#[trigger] ts[i], (u, v)) > 0;
    assert(crate::triangulation::in_range_tri(ts[w], n));
    assert(crate::triangulation::distinct_tri(ts[w]));
    assert(0 <= u < n && 0 <= v < n && u != v);

    // Neither direction is a boundary edge: both net counts are zero.
    lemma_boundary_rows_range(ts, n, n);
    assert(edges_in_range(bspec, n));
    lemma_boundary_rows_count(ts, n, n, (u, v));
    lemma_boundary_rows_count(ts, n, n, (v, u));
    assert(edge_count_in(bspec, (u, v)) == 0);
    assert(edge_count_in(bspec, (v, u)) == 0);
    lemma_quads_count_shapes(bspec, n, u, v);
    lemma_quads_count_shapes(bspec, n, v, u);

    let targets: Seq<(int, int)> = seq![(u, v), (v, u), (u + n, v + n), (v + n, u + n)];
    assert forall|t: int| 0 <= t < targets.len() implies edge_occurrences(
        mesh,
        #[trigger] targets[t],
    ) == edge_occurrences(bottom, targets[t]) + edge_occurrences(top, targets[t])
        + edge_occurrences(sides, targets[t]) by {
        crate::triangulation::lemma_edge_occurrences_concat(bottom + top, sides, targets[t]);
        crate::triangulation::lemma_edge_occurrences_concat(bottom, top, targets[t]);
        assert(mesh == (bottom + top) + sides);
    }

    lemma_bottom_occurrences(ts, u, v);
    lemma_bottom_occurrences(ts, v, u);
    lemma_top_occurrences_low(ts, n, u, v);
    lemma_top_occurrences_low(ts, n, v, u);
    lemma_side_occurrences(bspec, n, (u, v));
    lemma_side_occurrences(bspec, n, (v, u));
    assert(edge_occurrences(mesh, (u, v)) == 1 + 0 + 0);
    assert(edge_occurrences(mesh, (v, u)) == 1 + 0 + 0);

    lemma_bottom_occurrences(ts, u + n, v + n);
    lemma_occurrences_out_of_range(ts, n, v + n, u + n);
    lemma_bottom_occurrences(ts, v + n, u + n);
    lemma_occurrences_out_of_range(ts, n, u + n, v + n);
    lemma_top_occurrences_shifted(ts, n, u, v);
    lemma_top_occurrences_shifted(ts, n, v, u);
    lemma_side_occurrences(bspec, n, (u + n, v + n));
    lemma_side_occurrences(bspec, n, (v + n, u + n));
    assert(edge_occurrences(mesh, (u + n, v + n)) == 0 + 1 + 0);
    assert(edge_occurrences(mesh, (v + n, u + n)) == 0 + 1 + 0);
}

/// LAW (closed manifold, on shard records): the mesh of every shard record
/// built from an accepted cell is closed. For each boundary edge `(a, b)` of
/// the cell's triangulation, the five undirected edges of its side-wall quad
/// each lie on exactly two triangles of the record's index buffer.
pub proof fn lemma_shard_record_closed(
    cell: crate::shatter::CellInput,
    seed: (i64, i64),
    thickness: i64,
    material: u64,
    r: crate::shatter::ShardRecord,
    a: int,
    b: int,
)
    requires
        crate::shatter::cell_fault(cell, seed) is None,
        crate::shatter::shard_built(cell, seed, thickness, material, r),
        is_boundary_edge(crate::triangulation::tris_view(cell.triangles@), a, b),
    ensures
        ({
            let mts = crate::triangulation::tris_view(r.mesh.triangles@);
            let n = cell.points@.len() as int;
            &&& undirected_count(mts, a, b) == 2
            &&& undirected_count(mts, a + n, b + n) == 2
            &&& undirected_count(mts, a, b + n) == 2
            &&& undirected_count(mts, a, a + n) == 2
            &&& undirected_count(mts, b, b + n) == 2
        }),
{
    let ts = crate::triangulation::tris_view(cell.triangles@);
    let n = cell.points@.len() as int;
    assert(crate::mesh::mesh_input_fault(cell.points@, ts) is None);
    assert(valid_triangulation(ts, n));
    lemma_mesh_closed_at_boundary(ts, n, a, b);
    assert(crate::triangulation::tris_view(r.mesh.triangles@) == mesh_tris_spec(ts, n));
}

} // verus!
