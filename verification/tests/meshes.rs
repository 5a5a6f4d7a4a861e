use glass_shatter::mesh::{build_shard_mesh, duplicated_with_normals, unit_cuboid_mesh, ShardMesh};
use glass_shatter::shatter::ShatterError;
use glass_shatter::units::SCALE;

fn unit_square_cell() -> (Vec<(i64, i64)>, Vec<(usize, usize, usize)>) {
    (
        vec![(0, 0), (SCALE, 0), (SCALE, SCALE), (0, SCALE)],
        vec![(0, 1, 2), (0, 2, 3)],
    )
}

/// How many triangles of the mesh contain the undirected edge {u, v}.
fn undirected_edge_triangles(mesh: &ShardMesh, u: usize, v: usize) -> usize {
    let mut count = 0;
    for &(a, b, c) in &mesh.triangles {
        let edges = [(a, b), (b, c), (c, a)];
        for &(p, q) in &edges {
            if (p, q) == (u, v) || (p, q) == (v, u) {
                count += 1;
            }
        }
    }
    count
}

#[test]
fn extruding_the_unit_square_yields_the_unit_cuboid() {
    let (points, tris) = unit_square_cell();
    let mesh = build_shard_mesh(&points, &tris, SCALE).unwrap();
    let template = unit_cuboid_mesh();
    assert_eq!(mesh.positions, template.positions);
    assert_eq!(mesh.triangles, template.triangles);
    assert_eq!(mesh.positions.len(), 8);
    assert_eq!(mesh.triangles.len(), 12);
}

#[test]
fn extruded_mesh_is_a_closed_manifold() {
    let (points, tris) = unit_square_cell();
    let mesh = build_shard_mesh(&points, &tris, SCALE).unwrap();
    // Every undirected edge of every triangle lies on exactly two triangles:
    // no gap anywhere between the bottom face, the top face and the walls.
    for &(a, b, c) in &mesh.triangles {
        assert_eq!(undirected_edge_triangles(&mesh, a, b), 2);
        assert_eq!(undirected_edge_triangles(&mesh, b, c), 2);
        assert_eq!(undirected_edge_triangles(&mesh, c, a), 2);
    }
}

#[test]
fn side_wall_edges_of_each_boundary_edge_lie_on_two_triangles() {
    let (points, tris) = unit_square_cell();
    let n = points.len();
    let mesh = build_shard_mesh(&points, &tris, SCALE).unwrap();
    for &(a, b) in &[(0usize, 1usize), (1, 2), (2, 3), (3, 0)] {
        assert_eq!(undirected_edge_triangles(&mesh, a, b), 2);
        assert_eq!(undirected_edge_triangles(&mesh, a + n, b + n), 2);
        assert_eq!(undirected_edge_triangles(&mesh, a, b + n), 2);
        assert_eq!(undirected_edge_triangles(&mesh, a, a + n), 2);
        assert_eq!(undirected_edge_triangles(&mesh, b, b + n), 2);
    }
}

#[test]
fn degenerate_cells_are_refused() {
    let tris: Vec<(usize, usize, usize)> = vec![(0, 1, 2)];
    // Fewer than three vertices.
    let points: Vec<(i64, i64)> = vec![(0, 0), (SCALE, 0)];
    assert_eq!(
        build_shard_mesh(&points, &tris, SCALE),
        Err(ShatterError::DegenerateCell)
    );
    // A coordinate out of range.
    let points: Vec<(i64, i64)> = vec![(0, 0), (SCALE, 0), (3_000_000_000_000, SCALE)];
    assert_eq!(
        build_shard_mesh(&points, &tris, SCALE),
        Err(ShatterError::DegenerateCell)
    );
}

#[test]
fn oversized_cells_are_refused() {
    let mut points: Vec<(i64, i64)> = Vec::new();
    for i in 0..65_537i64 {
        points.push((i, i));
    }
    let tris: Vec<(usize, usize, usize)> = vec![(0, 1, 2)];
    assert_eq!(
        build_shard_mesh(&points, &tris, SCALE),
        Err(ShatterError::Oversized)
    );
}

#[test]
fn broken_triangulations_are_refused() {
    let (points, _) = unit_square_cell();
    let tris: Vec<(usize, usize, usize)> = vec![(0, 1, 5)];
    assert_eq!(
        build_shard_mesh(&points, &tris, SCALE),
        Err(ShatterError::InvalidTriangulation)
    );
    let tris: Vec<(usize, usize, usize)> = vec![];
    assert_eq!(
        build_shard_mesh(&points, &tris, SCALE),
        Err(ShatterError::InvalidTriangulation)
    );
}

#[test]
fn duplicated_vertices_carry_one_flat_normal_per_triangle() {
    let mesh = unit_cuboid_mesh();
    let (verts, normals) = duplicated_with_normals(&mesh);
    assert_eq!(verts.len(), 36);
    assert_eq!(normals.len(), 12);
    let s = SCALE as i128;
    // The exact cross products the winding of the cuboid's faces gives: the
    // reversed bottom fan along -z, the top fan along +z, the first wall
    // perpendicular to its side of the square.
    assert_eq!(normals[0], (0, 0, -s * s));
    assert_eq!(normals[2], (0, 0, s * s));
    assert_eq!(normals[4], (0, s * s, 0));
    // Corner copies are the triangle's own corners.
    let (a, b, c) = mesh.triangles[0];
    assert_eq!(verts[0], mesh.positions[a]);
    assert_eq!(verts[1], mesh.positions[b]);
    assert_eq!(verts[2], mesh.positions[c]);
}
