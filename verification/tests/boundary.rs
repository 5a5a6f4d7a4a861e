use glass_shatter::triangulation::{boundary_edges, check_triangulation, count_edge};

#[test]
fn counts_directed_edges_exactly() {
    let tris: Vec<(usize, usize, usize)> = vec![(0, 1, 2), (0, 2, 3)];
    assert_eq!(count_edge(&tris, 0, 1), 1);
    assert_eq!(count_edge(&tris, 1, 2), 1);
    assert_eq!(count_edge(&tris, 2, 0), 1);
    assert_eq!(count_edge(&tris, 0, 2), 1);
    assert_eq!(count_edge(&tris, 2, 3), 1);
    assert_eq!(count_edge(&tris, 3, 0), 1);
    assert_eq!(count_edge(&tris, 1, 0), 0);
    assert_eq!(count_edge(&tris, 0, 3), 0);
    assert_eq!(count_edge(&tris, 1, 3), 0);
}

#[test]
fn square_fan_has_the_four_outer_edges_as_boundary() {
    // The fan triangulation of a square: the shared diagonal (0,2)/(2,0)
    // cancels to net zero, the four outer edges have net one, and they come
    // out in lexicographic order.
    let tris: Vec<(usize, usize, usize)> = vec![(0, 1, 2), (0, 2, 3)];
    let edges = boundary_edges(&tris, 4);
    assert_eq!(edges, vec![(0, 1), (1, 2), (2, 3), (3, 0)]);
}

#[test]
fn valid_square_fan_passes_all_checks() {
    let tris: Vec<(usize, usize, usize)> = vec![(0, 1, 2), (0, 2, 3)];
    assert!(check_triangulation(&tris, 4));
}

#[test]
fn hexagon_fan_passes_and_has_six_boundary_edges() {
    let tris: Vec<(usize, usize, usize)> = vec![(0, 1, 2), (0, 2, 3), (0, 3, 4), (0, 4, 5)];
    assert!(check_triangulation(&tris, 6));
    let edges = boundary_edges(&tris, 6);
    assert_eq!(edges, vec![(0, 1), (1, 2), (2, 3), (3, 4), (4, 5), (5, 0)]);
}

#[test]
fn invalid_triangulations_are_refused() {
    // Empty.
    let tris: Vec<(usize, usize, usize)> = vec![];
    assert!(!check_triangulation(&tris, 4));

    // An index out of range.
    let tris: Vec<(usize, usize, usize)> = vec![(0, 1, 7)];
    assert!(!check_triangulation(&tris, 4));

    // A degenerate triangle.
    let tris: Vec<(usize, usize, usize)> = vec![(0, 1, 1)];
    assert!(!check_triangulation(&tris, 4));

    // A repeated directed edge: two triangles on the same side of (0,1).
    let tris: Vec<(usize, usize, usize)> = vec![(0, 1, 2), (0, 1, 3)];
    assert!(!check_triangulation(&tris, 4));

    // A boundary that pinches at vertex 0 into two loops (a bowtie): vertex 0
    // is the source of two boundary edges.
    let tris: Vec<(usize, usize, usize)> = vec![(0, 1, 2), (0, 3, 4)];
    assert!(!check_triangulation(&tris, 5));
}
