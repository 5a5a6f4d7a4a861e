//! Triangulations of a cell polygon: directed-edge counting, boundary-edge
//! detection, and the validity checks a triangulation must pass before any
//! geometry is built from it.
//!
//! A triangulation is a list of index triples into a cell's vertex list. Each
//! triangle `(a, b, c)` contributes the three directed edges `(a, b)`,
//! `(b, c)` and `(c, a)`. A directed edge whose net count - occurrences of
//! `(a, b)` less occurrences of `(b, a)` - is exactly one is a boundary edge,
//! traversed in the canonical outward direction; this direction fixes the
//! winding of the side walls built later without any extra orientation work.
//!
//! All specification-level counting is done over triples and pairs of `int`,
//! so that shifted vertex indices (for the extruded top face) never wrap.

use vstd::prelude::*;
use crate::units::{MAX_CELL_POINTS, MAX_CELL_TRIS};

verus! {

/// The mathematical view of one index triple.
pub open spec fn tri_view(t: (usize, usize, usize)) -> (int, int, int) {
    (t.0 as int, t.1 as int, t.2 as int)
}

/// The mathematical view of a list of index triples.
pub open spec fn tris_view(ts: Seq<(usize, usize, usize)>) -> Seq<(int, int, int)> {
    ts.map_values(|t: (usize, usize, usize)| tri_view(t))
}

/// The mathematical view of one directed edge.
pub open spec fn edge_view(e: (usize, usize)) -> (int, int) {
    (e.0 as int, e.1 as int)
}

/// The mathematical view of a list of directed edges.
pub open spec fn edges_view(es: Seq<(usize, usize)>) -> Seq<(int, int)> {
    es.map_values(|e: (usize, usize)| edge_view(e))
}

/// How many of the three directed edges of triangle `t` equal `e`.
pub open spec fn tri_edge_count(t: (int, int, int), e: (int, int)) -> int {
    (if (t.0, t.1) == e { 1int } else { 0int })
    + (if (t.1, t.2) == e { 1int } else { 0int })
    + (if (t.2, t.0) == e { 1int } else { 0int })
}

/// How often the directed edge `e` occurs among the triangles of `ts`.
pub open spec fn edge_occurrences(ts: Seq<(int, int, int)>, e: (int, int)) -> int
    decreases ts.len(),
{
    if ts.len() == 0 {
        0
    } else {
        edge_occurrences(ts.drop_last(), e) + tri_edge_count(ts.last(), e)
    }
}

/// The net count of the directed edge `(a, b)`: its occurrences less the
/// occurrences of its reverse.
pub open spec fn edge_net(ts: Seq<(int, int, int)>, a: int, b: int) -> int {
    edge_occurrences(ts, (a, b)) - edge_occurrences(ts, (b, a))
}

/// A boundary edge is a directed edge with net count exactly one.
pub open spec fn is_boundary_edge(ts: Seq<(int, int, int)>, a: int, b: int) -> bool {
    edge_net(ts, a, b) == 1
}

/// Occurrences of a pair in a list of directed edges.
pub open spec fn edge_count_in(es: Seq<(int, int)>, e: (int, int)) -> int
    decreases es.len(),
{
    if es.len() == 0 {
        0
    } else {
        edge_count_in(es.drop_last(), e) + if es.last() == e { 1int } else { 0int }
    }
}

/// How many edges of the list start at vertex `v`.
pub open spec fn src_count(es: Seq<(int, int)>, v: int) -> int
    decreases es.len(),
{
    if es.len() == 0 {
        0
    } else {
        src_count(es.drop_last(), v) + if es.last().0 == v { 1int } else { 0int }
    }
}

/// How many edges of the list end at vertex `v`.
pub open spec fn dst_count(es: Seq<(int, int)>, v: int) -> int
    decreases es.len(),
{
    if es.len() == 0 {
        0
    } else {
        dst_count(es.drop_last(), v) + if es.last().1 == v { 1int } else { 0int }
    }
}

/// The boundary edges `(a, b)` with a fixed source `a` and `b < b_end`, in
/// increasing order of `b`.
pub open spec fn boundary_row(ts: Seq<(int, int, int)>, a: int, b_end: int) -> Seq<(int, int)>
    decreases b_end,
{
    if b_end <= 0 {
        Seq::empty()
    } else {
        boundary_row(ts, a, b_end - 1)
            + if is_boundary_edge(ts, a, b_end - 1) {
                seq![(a, b_end - 1)]
            } else {
                Seq::empty()
            }
    }
}

/// The boundary edges with source below `a_end`, ordered lexicographically.
pub open spec fn boundary_rows(ts: Seq<(int, int, int)>, n: int, a_end: int) -> Seq<(int, int)>
    decreases a_end,
{
    if a_end <= 0 {
        Seq::empty()
    } else {
        boundary_rows(ts, n, a_end - 1) + boundary_row(ts, a_end - 1, n)
    }
}

/// All boundary edges of a triangulation over `n` vertices, ordered
/// lexicographically by source then target.
pub open spec fn boundary_edges_spec(ts: Seq<(int, int, int)>, n: int) -> Seq<(int, int)> {
    boundary_rows(ts, n, n)
}

/// All three indices of `t` lie in `0..n`.
pub open spec fn in_range_tri(t: (int, int, int), n: int) -> bool {
    0 <= t.0 < n && 0 <= t.1 < n && 0 <= t.2 < n
}

/// The three vertices of `t` are pairwise distinct.
pub open spec fn distinct_tri(t: (int, int, int)) -> bool {
    t.0 != t.1 && t.1 != t.2 && t.2 != t.0
}

/// Every index of every triangle lies in `0..n`.
pub open spec fn tris_in_range(ts: Seq<(int, int, int)>, n: int) -> bool {
    forall|i: int| 0 <= i < ts.len() ==> in_range_tri(#[trigger] ts[i], n)
}

/// Every triangle has three distinct vertices.
pub open spec fn tris_distinct(ts: Seq<(int, int, int)>) -> bool {
    forall|i: int| 0 <= i < ts.len() ==> distinct_tri(#[trigger] ts[i])
}

/// No directed edge occurs twice: the triangulation is consistently oriented
/// and no two triangles overlap along an edge in the same direction.
pub open spec fn no_repeated_edge(ts: Seq<(int, int, int)>) -> bool {
    forall|a: int, b: int| #[trigger] edge_occurrences(ts, (a, b)) <= 1
}

/// The boundary edges close up into simple loops: every vertex is the source
/// of exactly as many boundary edges as it is the target of, and of at most
/// one.
pub open spec fn closed_boundary(ts: Seq<(int, int, int)>, n: int) -> bool {
    forall|v: int|
        0 <= v < n ==> {
            &&& #[trigger] src_count(boundary_edges_spec(ts, n), v)
                == dst_count(boundary_edges_spec(ts, n), v)
            &&& src_count(boundary_edges_spec(ts, n), v) <= 1
        }
}

/// Counting a directed edge distributes over concatenation of triangle lists.
pub proof fn lemma_edge_occurrences_concat(
    s1: Seq<(int, int, int)>,
    s2: Seq<(int, int, int)>,
    e: (int, int),
)
    ensures
        edge_occurrences(s1 + s2, e) == edge_occurrences(s1, e) + edge_occurrences(s2, e),
    decreases s2.len(),
{
    if s2.len() == 0 {
        assert(s1 + s2 =~= s1);
    } else {
        lemma_edge_occurrences_concat(s1, s2.drop_last(), e);
        assert((s1 + s2).drop_last() =~= s1 + s2.drop_last());
        assert((s1 + s2).last() == s2.last());
    }
}

/// One step of counting a directed edge along a prefix of a triangle list.
pub proof fn lemma_edge_occurrences_take_step(ts: Seq<(int, int, int)>, i: int, e: (int, int))
    requires
        0 <= i < ts.len(),
    ensures
        edge_occurrences(ts.take(i + 1), e)
            == edge_occurrences(ts.take(i), e) + tri_edge_count(ts[i], e),
{
    assert(ts.take(i + 1).drop_last() =~= ts.take(i));
    assert(ts.take(i + 1).last() == ts[i]);
}

/// One step of the three edge-list counts along a prefix of an edge list.
pub proof fn lemma_edge_list_take_step(es: Seq<(int, int)>, i: int, e: (int, int), v: int)
    requires
        0 <= i < es.len(),
    ensures
        edge_count_in(es.take(i + 1), e)
            == edge_count_in(es.take(i), e) + if es[i] == e { 1int } else { 0int },
        src_count(es.take(i + 1), v)
            == src_count(es.take(i), v) + if es[i].0 == v { 1int } else { 0int },
        dst_count(es.take(i + 1), v)
            == dst_count(es.take(i), v) + if es[i].1 == v { 1int } else { 0int },
{
    assert(es.take(i + 1).drop_last() =~= es.take(i));
    assert(es.take(i + 1).last() == es[i]);
}

/// Counts the occurrences of the directed edge `(a, b)` in a triangulation.
pub fn count_edge(tris: &Vec<(usize, usize, usize)>, a: usize, b: usize) -> (c: u64)
    requires
        tris@.len() <= MAX_CELL_TRIS,
    ensures
        c as int == edge_occurrences(tris_view(tris@), (a as int, b as int)),
{
    let ghost ts = tris_view(tris@);
    let ghost e = (a as int, b as int);
    let mut c: u64 = 0;
    let mut i: usize = 0;
    while i < tris.len()
        invariant
            tris@.len() <= MAX_CELL_TRIS,
            ts == tris_view(tris@),
            e == (a as int, b as int),
            i <= tris@.len(),
            c as int == edge_occurrences(ts.take(i as int), e),
            c <= 3 * i,
        decreases tris@.len() - i,
    {
        let t = tris[i];
        proof {
            lemma_edge_occurrences_take_step(ts, i as int, e);
            assert(ts[i as int] == tri_view(tris@[i as int]));
        }
        if t.0 == a && t.1 == b {
            c = c + 1;
        }
        if t.1 == a && t.2 == b {
            c = c + 1;
        }
        if t.2 == a && t.0 == b {
            c = c + 1;
        }
        i = i + 1;
    }
    proof {
        assert(ts.take(tris@.len() as int) =~= ts);
    }
    c
}

/// Collects the boundary edges of a triangulation over `n` vertices - the
/// directed edges with net count exactly one - in lexicographic order.
pub fn boundary_edges(tris: &Vec<(usize, usize, usize)>, n: usize) -> (r: Vec<(usize, usize)>)
    requires
        tris@.len() <= MAX_CELL_TRIS,
        n <= MAX_CELL_POINTS,
    ensures
        edges_view(r@) == boundary_edges_spec(tris_view(tris@), n as int),
{
    let ghost ts = tris_view(tris@);
    let mut r: Vec<(usize, usize)> = Vec::new();
    let mut a: usize = 0;
    while a < n
        invariant
            tris@.len() <= MAX_CELL_TRIS,
            n <= MAX_CELL_POINTS,
            ts == tris_view(tris@),
            a <= n,
            edges_view(r@) == boundary_rows(ts, n as int, a as int),
        decreases n - a,
    {
        let mut b: usize = 0;
        while b < n
            invariant
                tris@.len() <= MAX_CELL_TRIS,
                n <= MAX_CELL_POINTS,
                ts == tris_view(tris@),
                a < n,
                b <= n,
                edges_view(r@) == boundary_rows(ts, n as int, a as int)
                    + boundary_row(ts, a as int, b as int),
            decreases n - b,
        {
            let cab: u64 = count_edge(tris, a, b);
            let cba: u64 = count_edge(tris, b, a);
            let ghost prev = edges_view(r@);
            if cab > cba && cab - cba == 1 {
                r.push((a, b));
                proof {
                    assert(is_boundary_edge(ts, a as int, b as int));
                    assert(edges_view(r@) =~= prev + seq![(a as int, b as int)]);
                    assert(boundary_row(ts, a as int, b as int + 1)
                        == boundary_row(ts, a as int, b as int) + seq![(a as int, b as int)]);
                    assert(edges_view(r@) =~= boundary_rows(ts, n as int, a as int)
                        + boundary_row(ts, a as int, b as int + 1));
                }
            } else {
                proof {
                    assert(!is_boundary_edge(ts, a as int, b as int));
                    assert(boundary_row(ts, a as int, b as int + 1)
                        =~= boundary_row(ts, a as int, b as int));
                    assert(edges_view(r@) =~= boundary_rows(ts, n as int, a as int)
                        + boundary_row(ts, a as int, b as int + 1));
                }
            }
            b = b + 1;
        }
        proof {
            assert(boundary_rows(ts, n as int, a as int + 1)
                == boundary_rows(ts, n as int, a as int) + boundary_row(ts, a as int, n as int));
        }
        a = a + 1;
    }
    r
}

/// A triangulation the mesh builder accepts: non-empty, indices in range,
/// no degenerate triangle, no repeated directed edge, and a boundary that
/// closes into simple loops. The triangulation of any simple polygon by a
/// consistently wound triangulator has all of these.
pub open spec fn valid_triangulation(ts: Seq<(int, int, int)>, n: int) -> bool {
    &&& ts.len() >= 1
    &&& tris_in_range(ts, n)
    &&& tris_distinct(ts)
    &&& no_repeated_edge(ts)
    &&& closed_boundary(ts, n)
}

/// A directed edge that occurs at all occurs in some triangle.
pub proof fn lemma_edge_occurrence_exists(ts: Seq<(int, int, int)>, e: (int, int))
    requires
        edge_occurrences(ts, e) > 0,
    ensures
        exists|i: int| 0 <= i < ts.len() && tri_edge_count(#[trigger] ts[i], e) > 0,
    decreases ts.len(),
{
    if ts.len() > 0 {
        if tri_edge_count(ts.last(), e) > 0 {
            assert(ts[ts.len() - 1] == ts.last());
            assert(tri_edge_count(ts[ts.len() - 1], e) > 0);
        } else {
            lemma_edge_occurrence_exists(ts.drop_last(), e);
            let i = choose|i: int|
                0 <= i < ts.drop_last().len() && tri_edge_count(#[trigger] ts.drop_last()[i], e) > 0;
            assert(ts.drop_last()[i] == ts[i]);
            assert(tri_edge_count(ts[i], e) > 0);
        }
    }
}

/// None of the three directed edges of `t` is repeated anywhere in `ts`.
pub open spec fn tri_edges_unrepeated(ts: Seq<(int, int, int)>, t: (int, int, int)) -> bool {
    &&& edge_occurrences(ts, (t.0, t.1)) <= 1
    &&& edge_occurrences(ts, (t.1, t.2)) <= 1
    &&& edge_occurrences(ts, (t.2, t.0)) <= 1
}

/// Checks that every triangle's indices lie in `0..n` and are distinct.
fn check_tris_shape(tris: &Vec<(usize, usize, usize)>, n: usize) -> (ok: bool)
    ensures
        ok == (tris_in_range(tris_view(tris@), n as int) && tris_distinct(tris_view(tris@))),
{
    let ghost ts = tris_view(tris@);
    let mut i: usize = 0;
    while i < tris.len()
        invariant
            ts == tris_view(tris@),
            i <= tris@.len(),
            forall|j: int|
                0 <= j < i ==> in_range_tri(#[trigger] ts[j], n as int) && distinct_tri(ts[j]),
        decreases tris@.len() - i,
    {
        let t = tris[i];
        proof {
            assert(ts[i as int] == tri_view(tris@[i as int]));
        }
        if t.0 >= n || t.1 >= n || t.2 >= n {
            assert(!in_range_tri(ts[i as int], n as int));
            return false;
        }
        if t.0 == t.1 || t.1 == t.2 || t.2 == t.0 {
            assert(!distinct_tri(ts[i as int]));
            return false;
        }
        i = i + 1;
    }
    true
}

/// Checks that no directed edge occurs more than once.
fn check_no_repeated(tris: &Vec<(usize, usize, usize)>) -> (ok: bool)
    requires
        tris@.len() <= MAX_CELL_TRIS,
    ensures
        ok == no_repeated_edge(tris_view(tris@)),
{
    let ghost ts = tris_view(tris@);
    let mut i: usize = 0;
    while i < tris.len()
        invariant
            tris@.len() <= MAX_CELL_TRIS,
            ts == tris_view(tris@),
            i <= tris@.len(),
            forall|j: int| 0 <= j < i ==> tri_edges_unrepeated(ts, #[trigger] ts[j]),
        decreases tris@.len() - i,
    {
        let t = tris[i];
        proof {
            assert(ts[i as int] == tri_view(tris@[i as int]));
        }
        if count_edge(tris, t.0, t.1) > 1 {
            return false;
        }
        if count_edge(tris, t.1, t.2) > 1 {
            return false;
        }
        if count_edge(tris, t.2, t.0) > 1 {
            return false;
        }
        i = i + 1;
    }
    proof {
        assert forall|a: int, b: int| #[trigger] edge_occurrences(ts, (a, b)) <= 1 by {
            if edge_occurrences(ts, (a, b)) > 1 {
                lemma_edge_occurrence_exists(ts, (a, b));
                let j = choose|j: int|
                    0 <= j < ts.len() && tri_edge_count(#[trigger] ts[j], (a, b)) > 0;
                assert(tri_edges_unrepeated(ts, ts[j]));
            }
        }
    }
    true
}

/// Counts how many edges of the list start at `v` and how many end at `v`.
fn src_dst_counts(es: &Vec<(usize, usize)>, v: usize) -> (c: (u64, u64))
    ensures
        c.0 as int == src_count(edges_view(es@), v as int),
        c.1 as int == dst_count(edges_view(es@), v as int),
{
    let ghost evs = edges_view(es@);
    let mut sc: u64 = 0;
    let mut dc: u64 = 0;
    let mut i: usize = 0;
    while i < es.len()
        invariant
            evs == edges_view(es@),
            i <= es@.len(),
            sc as int == src_count(evs.take(i as int), v as int),
            dc as int == dst_count(evs.take(i as int), v as int),
            sc <= i,
            dc <= i,
        decreases es@.len() - i,
    {
        let e = es[i];
        proof {
            lemma_edge_list_take_step(evs, i as int, (0int, 0int), v as int);
            assert(evs[i as int] == edge_view(es@[i as int]));
        }
        if e.0 == v {
            sc = sc + 1;
        }
        if e.1 == v {
            dc = dc + 1;
        }
        i = i + 1;
    }
    proof {
        assert(evs.take(es@.len() as int) =~= evs);
    }
    (sc, dc)
}

/// Checks that the boundary edges close into simple loops.
fn check_closed_boundary(tris: &Vec<(usize, usize, usize)>, n: usize) -> (ok: bool)
    requires
        tris@.len() <= MAX_CELL_TRIS,
        n <= MAX_CELL_POINTS,
    ensures
        ok == closed_boundary(tris_view(tris@), n as int),
{
    let ghost ts = tris_view(tris@);
    let bedges = boundary_edges(tris, n);
    let mut v: usize = 0;
    while v < n
        invariant
            ts == tris_view(tris@),
            edges_view(bedges@) == boundary_edges_spec(ts, n as int),
            v <= n,
            forall|u: int|
                0 <= u < v ==> {
                    &&& #[trigger] src_count(boundary_edges_spec(ts, n as int), u)
                        == dst_count(boundary_edges_spec(ts, n as int), u)
                    &&& src_count(boundary_edges_spec(ts, n as int), u) <= 1
                },
        decreases n - v,
    {
        let counts = src_dst_counts(&bedges, v);
        if counts.0 != counts.1 || counts.0 > 1 {
            return false;
        }
        v = v + 1;
    }
    true
}

/// Checks every condition of [`valid_triangulation`] for a triangulation of
/// `n` cell vertices.
pub fn check_triangulation(tris: &Vec<(usize, usize, usize)>, n: usize) -> (ok: bool)
    requires
        tris@.len() <= MAX_CELL_TRIS,
        n <= MAX_CELL_POINTS,
    ensures
        ok == valid_triangulation(tris_view(tris@), n as int),
{
    if tris.len() == 0 {
        return false;
    }
    if !check_tris_shape(tris, n) {
        return false;
    }
    if !check_no_repeated(tris) {
        return false;
    }
    check_closed_boundary(tris, n)
}

} // verus!
