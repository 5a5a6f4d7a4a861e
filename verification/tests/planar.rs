use glass_shatter::geometry::{cross_exec, dist2_exec, point_in_convex_exec, polygon_area2};
use glass_shatter::units::SCALE;

#[test]
fn cross_products_are_exact() {
    // A counter-clockwise corner is positive, its mirror negative, a
    // collinear triple zero.
    assert_eq!(cross_exec((0, 0), (2, 0), (0, 3)), 6);
    assert_eq!(cross_exec((0, 0), (0, 3), (2, 0)), -6);
    assert_eq!(cross_exec((1, 1), (3, 3), (5, 5)), 0);
    let s = SCALE as i128;
    assert_eq!(cross_exec((0, 0), (SCALE, 0), (0, SCALE)), s * s);
}

#[test]
fn squared_distances_are_exact() {
    assert_eq!(dist2_exec((0, 0), (3, 4)), 25);
    assert_eq!(dist2_exec((3, 4), (0, 0)), 25);
    assert_eq!(dist2_exec((-2, 5), (-2, 5)), 0);
    let s = SCALE as i128;
    assert_eq!(dist2_exec((SCALE, 0), (0, SCALE)), 2 * s * s);
}

#[test]
fn polygon_areas_are_exact() {
    // The unit square, counter-clockwise: twice its area.
    let square: Vec<(i64, i64)> = vec![(0, 0), (SCALE, 0), (SCALE, SCALE), (0, SCALE)];
    let s = SCALE as i128;
    assert_eq!(polygon_area2(&square), 2 * s * s);
    // Clockwise: negated.
    let square_cw: Vec<(i64, i64)> = vec![(0, SCALE), (SCALE, SCALE), (SCALE, 0), (0, 0)];
    assert_eq!(polygon_area2(&square_cw), -2 * s * s);
    // A triangle.
    let tri: Vec<(i64, i64)> = vec![(0, 0), (4, 0), (0, 6)];
    assert_eq!(polygon_area2(&tri), 24);
    // Too few vertices: no area.
    let segment: Vec<(i64, i64)> = vec![(0, 0), (4, 0)];
    assert_eq!(polygon_area2(&segment), 0);
}

#[test]
fn convex_containment_includes_the_border() {
    let square: Vec<(i64, i64)> = vec![(0, 0), (SCALE, 0), (SCALE, SCALE), (0, SCALE)];
    assert!(point_in_convex_exec((SCALE / 2, SCALE / 2), &square));
    assert!(point_in_convex_exec((0, 0), &square));
    assert!(point_in_convex_exec((SCALE, SCALE / 2), &square));
    assert!(!point_in_convex_exec((SCALE + 1, SCALE / 2), &square));
    assert!(!point_in_convex_exec((-1, 0), &square));
}
