use glass_shatter::glass::{GridSize, Panel};
use glass_shatter::units::{EPSILON, SCALE};

fn micros(units: f64) -> i64 {
    (units * SCALE as f64).round() as i64
}

#[test]
fn one_seed_per_cell_row_major_within_bounds() {
    fastrand::seed(11);
    let panel = Panel::with_density(micros(20.0), micros(5.0), micros(0.1), micros(2.0));
    let pts = panel.seed_points().unwrap();
    assert_eq!(pts.len(), 400);

    // 40 x 10 cells of pitch 0.5 x 0.5 units; every seed keeps the margin to
    // its own cell's border. A sampler whose random source handed the range
    // bound back unchanged would land outside these bounds.
    let pw: i64 = micros(20.0) / 40;
    let ph: i64 = micros(5.0) / 10;
    for k in 0..pts.len() {
        let cx = (k % 40) as i64;
        let cy = (k / 40) as i64;
        let (x, y) = pts[k];
        assert!(cx * pw + EPSILON <= x && x <= cx * pw + pw - EPSILON);
        assert!(cy * ph + EPSILON <= y && y <= cy * ph + ph - EPSILON);
    }
}

#[test]
fn seeds_are_pairwise_distinct() {
    fastrand::seed(12);
    let panel = Panel::with_density(micros(4.0), micros(4.0), micros(0.1), micros(5.0));
    let pts = panel.seed_points().unwrap();
    assert_eq!(pts.len(), 400);
    for i in 0..pts.len() {
        for j in (i + 1)..pts.len() {
            assert_ne!(pts[i], pts[j]);
        }
    }
}

#[test]
fn sampling_is_reproducible_under_a_fixed_seed() {
    let panel = Panel::with_grid(micros(3.0), micros(2.0), micros(0.1), GridSize { x: 6, y: 4 });
    fastrand::seed(99);
    let a = panel.seed_points().unwrap();
    fastrand::seed(99);
    let b = panel.seed_points().unwrap();
    assert_eq!(a, b);
}
