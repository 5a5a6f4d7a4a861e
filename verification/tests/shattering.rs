use glass_shatter::glass::{GridSize, Panel};
use glass_shatter::shatter::{CellInput, ShatterError};
use glass_shatter::units::SCALE;

fn unit_square_cell() -> CellInput {
    CellInput {
        points: vec![(0, 0), (SCALE, 0), (SCALE, SCALE), (0, SCALE)],
        triangles: vec![(0, 1, 2), (0, 2, 3)],
    }
}

fn unit_panel() -> Panel {
    Panel::with_grid(SCALE, SCALE, SCALE / 10, GridSize { x: 1, y: 1 })
}

#[test]
fn shattering_one_cell_yields_one_record_and_flips_the_state() {
    let mut panel = unit_panel();
    let seeds: Vec<(i64, i64)> = vec![(SCALE / 2, SCALE / 2)];
    let cells: Vec<CellInput> = vec![unit_square_cell()];
    let shards = panel.shatter(&seeds, &cells, 7).unwrap();
    assert_eq!(shards.len(), 1);
    assert!(panel.shattered);
    let shard = &shards[0];
    assert_eq!(shard.pos, (SCALE / 2, SCALE / 2));
    // The opaque material handle passes through unmodified.
    assert_eq!(shard.material, 7);
    assert_eq!(shard.mesh.positions.len(), 8);
    assert_eq!(shard.mesh.triangles.len(), 12);
    assert_eq!(shard.collider.points, shard.mesh.positions);
    // The extrusion runs to the panel thickness.
    assert_eq!(shard.mesh.positions[4], (0, 0, -(SCALE / 10)));
}

#[test]
fn mismatched_cell_and_seed_counts_are_refused() {
    let mut panel = unit_panel();
    let seeds: Vec<(i64, i64)> = vec![(SCALE / 2, SCALE / 2)];
    let cells: Vec<CellInput> = vec![];
    assert_eq!(
        panel.shatter(&seeds, &cells, 7),
        Err(ShatterError::CellCountMismatch)
    );
    assert!(!panel.shattered);
}

#[test]
fn a_seed_outside_its_cell_is_refused() {
    let mut panel = unit_panel();
    let seeds: Vec<(i64, i64)> = vec![(10 * SCALE, 10 * SCALE)];
    let cells: Vec<CellInput> = vec![unit_square_cell()];
    assert_eq!(
        panel.shatter(&seeds, &cells, 7),
        Err(ShatterError::SeedOutsideCell)
    );
    assert!(!panel.shattered);
}

#[test]
fn one_bad_cell_aborts_the_whole_shatter() {
    // The second cell's triangulation is broken: no shards at all come back,
    // and the panel stays intact for a retry.
    let mut panel = Panel::with_grid(2 * SCALE, SCALE, SCALE / 10, GridSize { x: 2, y: 1 });
    let seeds: Vec<(i64, i64)> = vec![(SCALE / 2, SCALE / 2), (SCALE + SCALE / 2, SCALE / 2)];
    let bad = CellInput {
        points: vec![
            (SCALE, 0),
            (2 * SCALE, 0),
            (2 * SCALE, SCALE),
            (SCALE, SCALE),
        ],
        triangles: vec![(0, 1, 9)],
    };
    let cells: Vec<CellInput> = vec![unit_square_cell(), bad];
    assert_eq!(
        panel.shatter(&seeds, &cells, 7),
        Err(ShatterError::InvalidTriangulation)
    );
    assert!(!panel.shattered);
}

#[test]
fn shattering_twice_from_the_same_inputs_is_identical() {
    let seeds: Vec<(i64, i64)> = vec![(SCALE / 2, SCALE / 2)];
    let cells: Vec<CellInput> = vec![unit_square_cell()];
    let mut p1 = unit_panel();
    let mut p2 = unit_panel();
    let s1 = p1.shatter(&seeds, &cells, 3).unwrap();
    let s2 = p2.shatter(&seeds, &cells, 3).unwrap();
    assert_eq!(s1, s2);
}

#[test]
fn template_assets_agree_with_the_pipeline() {
    // The exposed placeholder cuboid is exactly what extruding the unit
    // square cell produces, and its collider is its corner point set.
    let mesh = glass_shatter::mesh::unit_cuboid_mesh();
    let collider = glass_shatter::shatter::unit_cuboid_collider();
    assert_eq!(collider.points, mesh.positions);
    assert_eq!(mesh.positions.len(), 8);
    assert_eq!(mesh.triangles.len(), 12);
}
