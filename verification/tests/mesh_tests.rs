use terratile::grid::height_grid_from_samples;
use terratile::mesh::{
    build_terrain_mesh, grid_indices, mesh_from_heightmap, sample_heightmap, TerrainMeshOptions,
    Vec3I,
};

fn options(width: u32, length: u32, height_scale: u32) -> TerrainMeshOptions {
    TerrainMeshOptions {
        width,
        length,
        height_scale,
    }
}

#[test]
fn triangulation_counts() {
    // 2 * (W-1) * (L-1) triangles, 6 times as many indices, every index
    // inside the vertex buffer.
    for &(w, l) in &[(2usize, 2usize), (3, 2), (8, 8), (257, 257)] {
        let idx = grid_indices(w, l);
        assert_eq!(idx.len(), 6 * (w - 1) * (l - 1));
        assert!(idx.iter().all(|&i| (i as usize) < w * l));
    }
}

#[test]
fn triangulation_degenerate_single_row() {
    assert_eq!(grid_indices(1, 1).len(), 0);
    assert_eq!(grid_indices(5, 1).len(), 0);
}

#[test]
fn triangulation_exact_pattern() {
    // 3 columns, 2 rows: two quads, wound (NW, SW, NE), (NE, SW, SE).
    let idx = grid_indices(3, 2);
    assert_eq!(idx, vec![0, 3, 1, 1, 3, 4, 1, 4, 2, 2, 4, 5]);
}

#[test]
fn constant_grid_interior_normals_identical() {
    // On constant elevation every interior vertex carries the identical
    // straight-up normal.
    let g = height_grid_from_samples(6, 6, vec![5; 36]).unwrap();
    let verts = mesh_from_heightmap(&g, &options(6, 6, 100), 300);
    let up = Vec3I {
        x: 0,
        y: 1_000_000,
        z: 0,
    };
    for y in 2..4usize {
        for x in 2..4usize {
            assert_eq!(verts[x + y * 6].normal, up, "at ({x},{y})");
        }
    }
}

#[test]
fn flat_grid_has_zero_relief_everywhere() {
    // min == max: the relief factor is defined as zero, every height and
    // every vertical position is exactly zero.
    let g = height_grid_from_samples(5, 4, vec![-7; 20]).unwrap();
    assert_eq!(g.min, g.max);
    let verts = mesh_from_heightmap(&g, &options(5, 4, 100), 300);
    assert_eq!(verts.len(), 20);
    for v in &verts {
        assert_eq!(v.position.y, 0);
    }
    for y in 0..4usize {
        for x in 0..5usize {
            let (h, _) = sample_heightmap(&g, 100, x, y);
            assert_eq!(h, 0);
        }
    }
}

#[test]
fn relief_vertex_exact() {
    // 4x4 grid with samples 0..16, height scale 0.1, scale factor 0.3.
    let samples: Vec<i64> = (0..16).collect();
    let g = height_grid_from_samples(4, 4, samples).unwrap();
    let verts = mesh_from_heightmap(&g, &options(4, 4, 100), 300);
    assert_eq!(verts.len(), 16);
    let v = verts[1 + 1 * 4];
    // height = (5 - 0) * 256 * 100 / 15 = 8533 (floored).
    // position = (1 * 300, 8533 * 300 / 1000, 1 * 300).
    assert_eq!(v.position, Vec3I { x: 300, y: 2559, z: 300 });
    // At (1,1) the left and bottom neighbors are edge-substituted by
    // zero; right up = 6 * 100, top up = 9 * 100.
    // normal = (500 * (D - B), 1e6, 500 * (C - A)) with
    // B = 600 - 8533, A = 900 - 8533, C = D = 0 - 8533.
    assert_eq!(
        v.normal,
        Vec3I {
            x: -300_000,
            y: 1_000_000,
            z: -450_000
        }
    );
    assert_eq!(v.uv.u, 250_000);
    assert_eq!(v.uv.v, 250_000);
}

#[test]
fn full_mesh_parallel_buffers() {
    let samples: Vec<i64> = (0..9).map(|i| i * 10).collect();
    let g = height_grid_from_samples(3, 3, samples).unwrap();
    let mesh = build_terrain_mesh(&g, &options(3, 3, 100), 300);
    assert_eq!(mesh.positions.len(), 9);
    assert_eq!(mesh.normals.len(), 9);
    assert_eq!(mesh.uvs.len(), 9);
    assert_eq!(mesh.indices.len(), 6 * 2 * 2);
    assert!(mesh.indices.iter().all(|&i| (i as usize) < 9));
    // The split buffers agree with the vertex buffer.
    let verts = mesh_from_heightmap(&g, &options(3, 3, 100), 300);
    for j in 0..9 {
        assert_eq!(mesh.positions[j], verts[j].position);
        assert_eq!(mesh.normals[j], verts[j].normal);
        assert_eq!(mesh.uvs[j], verts[j].uv);
    }
}

#[test]
fn negative_elevations_are_handled() {
    let g = height_grid_from_samples(3, 3, vec![-100, -50, 0, 50, 100, 150, 200, 250, 300])
        .unwrap();
    let verts = mesh_from_heightmap(&g, &options(3, 3, 1000), 1000);
    // height at (1,1): (100 - (-100)) * 256 * 1000 / 400 = 128000;
    // with a scale factor of 1.0 the vertical position equals it.
    let (h, _) = sample_heightmap(&g, 1000, 1, 1);
    assert_eq!(h, 128_000);
    assert_eq!(verts[4].position.y, 128_000);
}
