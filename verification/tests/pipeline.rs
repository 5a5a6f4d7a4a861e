use glass_shatter::geometry::{point_in_convex_exec, polygon_area2};
use glass_shatter::glass::{GridSize, Panel};
use glass_shatter::shatter::{CellInput, ShardRecord};
use glass_shatter::units::SCALE;
use voronator::delaunator::{triangulate_from_tuple, Point};
use voronator::VoronoiDiagram;

fn micros(units: f64) -> i64 {
    (units * SCALE as f64).round() as i64
}

fn to_units(m: i64) -> f64 {
    m as f64 / SCALE as f64
}

/// The host side of the pipeline: the Voronoi partition of the panel surface
/// around the seeds, and the Delaunay triangulation of each cell, handed back
/// to the library in micro-units.
fn partition_and_triangulate(panel: &Panel, seeds: &[(i64, i64)]) -> Vec<CellInput> {
    let sites: Vec<(f64, f64)> = seeds.iter().map(|&(x, y)| (to_units(x), to_units(y))).collect();
    let diagram = VoronoiDiagram::<Point>::from_tuple(
        &(0.0, 0.0),
        &(to_units(panel.width), to_units(panel.height)),
        &sites,
    )
    .expect("the bounded jitter keeps the seed set non-degenerate");
    let mut cells: Vec<CellInput> = Vec::new();
    for cell in diagram.cells() {
        let cell_points: Vec<(f64, f64)> = cell.points().iter().map(|p| (p.x, p.y)).collect();
        let (delaunay, _) = triangulate_from_tuple::<Point>(&cell_points)
            .expect("a clipped Voronoi cell has at least three vertices in convex position");
        let mut triangles: Vec<(usize, usize, usize)> = Vec::new();
        for t in delaunay.triangles.chunks(3) {
            triangles.push((t[0], t[1], t[2]));
        }
        let points: Vec<(i64, i64)> = cell_points.iter().map(|&(x, y)| (micros(x), micros(y))).collect();
        cells.push(CellInput { points, triangles });
    }
    cells
}

fn run_pipeline(panel: &mut Panel) -> (Vec<(i64, i64)>, Vec<CellInput>, Vec<ShardRecord>) {
    let seeds = panel.seed_points().unwrap();
    let cells = partition_and_triangulate(panel, &seeds);
    let shards = panel.shatter(&seeds, &cells, 1).unwrap();
    (seeds, cells, shards)
}

#[test]
fn scenario_twenty_by_five_yields_four_hundred_shards() {
    fastrand::seed(2024);
    let mut panel = Panel::with_density(micros(20.0), micros(5.0), micros(0.1), micros(2.0));
    assert_eq!(panel.glass.num_cell_points, GridSize { x: 40, y: 10 });
    let (seeds, _cells, shards) = run_pipeline(&mut panel);
    assert_eq!(seeds.len(), 400);
    assert_eq!(shards.len(), 400);
    for shard in &shards {
        assert!(!shard.mesh.triangles.is_empty());
        // A usable convex collider: at least a full prism of points, spread
        // over the two depths.
        assert!(shard.collider.points.len() >= 6);
        assert!(shard.collider.points.iter().any(|p| p.2 == 0));
        assert!(shard.collider.points.iter().any(|p| p.2 == -micros(0.1)));
    }
}

#[test]
fn a_single_cell_covers_the_whole_panel() {
    // One cell, its seed at the cell center: the Voronoi diagram of a single
    // point is the whole rectangle, so the one shard's footprint is the full
    // panel surface. (The partitioner's bounding construction clips a single
    // *off-center* cell, so the full-rectangle footprint is exact only for
    // the centered seed.)
    let mut panel = Panel::with_grid(micros(2.0), micros(1.0), micros(0.1), GridSize { x: 1, y: 1 });
    let seeds: Vec<(i64, i64)> = vec![(micros(1.0), micros(0.5))];
    let cells = partition_and_triangulate(&panel, &seeds);
    let shards = panel.shatter(&seeds, &cells, 1).unwrap();
    assert_eq!(shards.len(), 1);
    // The footprint's area is the panel's, up to the micro-unit rounding of
    // the partitioner's output, and it stays within the rectangle.
    let area2 = polygon_area2(&cells[0].points).unsigned_abs();
    let full = 2u128 * micros(2.0) as u128 * micros(1.0) as u128;
    let tolerance = 16u128 * micros(2.0 + 1.0) as u128;
    assert!(area2 + tolerance >= full && area2 <= full + tolerance);
    for &(x, y) in &cells[0].points {
        assert!(-2 <= x && x <= micros(2.0) + 2);
        assert!(-2 <= y && y <= micros(1.0) + 2);
    }
}

#[test]
fn footprints_tile_the_panel_surface() {
    fastrand::seed(31);
    let mut panel = Panel::with_density(micros(4.0), micros(3.0), micros(0.1), micros(1.5));
    let (_seeds, cells, shards) = run_pipeline(&mut panel);
    assert_eq!(shards.len(), 6 * 4);
    // The cells partition the rectangle: the cell areas sum to the panel
    // area, up to the micro-unit rounding of each cell polygon.
    let mut total: i128 = 0;
    let mut tolerance: u128 = 0;
    for cell in &cells {
        total += polygon_area2(&cell.points);
        tolerance += 8 * cell.points.len() as u128 * micros(4.0 + 3.0) as u128;
    }
    let full = 2i128 * micros(4.0) as i128 * micros(3.0) as i128;
    let diff = (total - full).unsigned_abs();
    assert!(diff <= tolerance);
    // Every cell stays within the rectangle.
    for cell in &cells {
        for &(x, y) in &cell.points {
            assert!(-2 <= x && x <= micros(4.0) + 2);
            assert!(-2 <= y && y <= micros(3.0) + 2);
        }
    }
}

#[test]
fn every_seed_lies_within_its_own_cell() {
    fastrand::seed(63);
    let mut panel = Panel::with_density(micros(6.0), micros(4.0), micros(0.1), micros(1.0));
    let (seeds, cells, shards) = run_pipeline(&mut panel);
    assert_eq!(shards.len(), seeds.len());
    for i in 0..seeds.len() {
        assert!(point_in_convex_exec(seeds[i], &cells[i].points));
        assert_eq!(shards[i].pos, seeds[i]);
    }
}

#[test]
fn the_pipeline_is_deterministic_after_the_sampler() {
    fastrand::seed(404);
    let mut p1 = Panel::with_density(micros(3.0), micros(2.0), micros(0.2), micros(2.0));
    let seeds = p1.seed_points().unwrap();
    let cells_once = partition_and_triangulate(&p1, &seeds);
    let cells_again = partition_and_triangulate(&p1, &seeds);
    // The partitioner and triangulator are pure: the same seed set gives the
    // same polygons and index triples.
    assert_eq!(cells_once, cells_again);
    // And the verified stages are functions of those: identical records.
    let mut p2 = Panel::with_density(micros(3.0), micros(2.0), micros(0.2), micros(2.0));
    let s1 = p1.shatter(&seeds, &cells_once, 5).unwrap();
    let s2 = p2.shatter(&seeds, &cells_again, 5).unwrap();
    assert_eq!(s1, s2);
}
