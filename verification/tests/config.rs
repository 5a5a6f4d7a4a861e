use glass_shatter::glass::{Glass, GridSize, Panel};
use glass_shatter::shatter::ShatterError;
use glass_shatter::units::SCALE;

fn micros(units: f64) -> i64 {
    (units * SCALE as f64).round() as i64
}

#[test]
fn density_matches_explicit_grid() {
    // Configuring by density and configuring by the floored grid agree.
    let by_density = Panel::with_density(micros(20.0), micros(5.0), micros(0.1), micros(2.0));
    let by_grid = Panel::with_grid(
        micros(20.0),
        micros(5.0),
        micros(0.1),
        GridSize { x: 40, y: 10 },
    );
    assert_eq!(by_density, by_grid);

    let g1 = Glass::new_with_density(micros(20.0), micros(5.0), micros(2.0));
    let g2 = Glass::new(GridSize { x: 40, y: 10 });
    assert_eq!(g1, g2);
}

#[test]
fn density_floors_cell_counts() {
    // 2.0 cells per unit on a 20 x 5 panel: exactly 40 x 10 cells.
    let g = Glass::new_with_density(micros(20.0), micros(5.0), micros(2.0));
    assert_eq!(g.num_cell_points, GridSize { x: 40, y: 10 });

    // 0.9 cells per unit on a 1 x 1 panel floors to a degenerate grid.
    let g = Glass::new_with_density(micros(1.0), micros(1.0), micros(0.9));
    assert_eq!(g.num_cell_points, GridSize { x: 0, y: 0 });

    // 1.5 cells per unit on a 3 x 2 panel: floor(4.5) x floor(3.0).
    let g = Glass::new_with_density(micros(3.0), micros(2.0), micros(1.5));
    assert_eq!(g.num_cell_points, GridSize { x: 4, y: 3 });
}

#[test]
fn too_fine_grid_is_rejected_before_sampling() {
    // A density of 2000 cells per unit on a one-unit panel leaves half a
    // cell pitch of 0.00025 units, not above the 0.001 safety margin.
    let mut panel = Panel::with_density(micros(1.0), micros(1.0), micros(0.1), micros(2000.0));
    assert_eq!(panel.glass.num_cell_points, GridSize { x: 2000, y: 2000 });
    assert_eq!(panel.seed_points(), Err(ShatterError::JitterCollapsed));
    // The panel is untouched: the fault happened before any geometry call.
    assert!(!panel.shattered);
    let _ = &mut panel;
}

#[test]
fn empty_grid_is_a_noop() {
    let panel = Panel::with_grid(micros(1.0), micros(1.0), micros(0.1), GridSize { x: 0, y: 5 });
    let pts = panel.seed_points().unwrap();
    assert_eq!(pts.len(), 0);
}

#[test]
fn coarsest_acceptable_grid_samples() {
    // One cell over the whole panel: half the pitch is far above the margin.
    let panel = Panel::with_grid(micros(2.0), micros(1.0), micros(0.1), GridSize { x: 1, y: 1 });
    let pts = panel.seed_points().unwrap();
    assert_eq!(pts.len(), 1);
}
