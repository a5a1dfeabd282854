use terrain_gen::heightmap::{world_offset, ChunkCoord, HeightMap};
use terrain_gen::loader::chunks_in_range;
use terrain_gen::mesh::Mesh;
use terrain_gen::noise::NoiseConfig;
use terrain_gen::store::TerrainMap;

const ONE: i64 = 65536;
const WORLD: i64 = 5 * ONE;
const HEIGHT_SCALE: i64 = 2 * ONE;

fn test_config() -> NoiseConfig {
    NoiseConfig::with_seed(42)
}

#[test]
fn fractal_is_deterministic() {
    let cfg = test_config();
    let points = [
        (0i64, 0i64),
        (3 * ONE + 1234, -7 * ONE + 999),
        (-123456789, 987654321),
        (50 * ONE, 50 * ONE),
    ];
    for &(x, z) in points.iter() {
        let a = cfg.fractal(x, z);
        let b = cfg.fractal(x, z);
        assert_eq!(a, b);
    }
}

#[test]
fn fractal_stays_within_unit_range() {
    let cfg = test_config();
    for i in -20..20i64 {
        for j in -20..20i64 {
            let v = cfg.fractal(i * ONE / 3, j * ONE / 7);
            assert!(-ONE <= v && v <= ONE);
        }
    }
}

#[test]
fn noise2d_is_deterministic() {
    let cfg = test_config();
    let a = cfg.noise2d(12345, -67890);
    let b = cfg.noise2d(12345, -67890);
    assert_eq!(a, b);
}

#[test]
fn seam_heights_agree_between_adjacent_chunks() {
    let cfg = test_config();
    let n = 50usize;
    let left = HeightMap::new(ChunkCoord { x: 0, z: 0 }, &cfg, n, WORLD);
    let right = HeightMap::new(ChunkCoord { x: 1, z: 0 }, &cfg, n, WORLD);
    for z in 0..n {
        assert_eq!(left.get(n - 1, z), right.get(0, z));
    }
}

#[test]
fn seam_normals_agree_between_adjacent_chunks() {
    let cfg = test_config();
    let n = 50usize;
    let left = HeightMap::new(ChunkCoord { x: 0, z: 0 }, &cfg, n, WORLD);
    let right = HeightMap::new(ChunkCoord { x: 1, z: 0 }, &cfg, n, WORLD);
    for z in 0..n {
        let a = left.get_normal(n - 1, z);
        let b = right.get_normal(0, z);
        assert_eq!(a.x, b.x);
        assert_eq!(a.y, b.y);
        assert_eq!(a.z, b.z);
    }
}

#[test]
fn height_map_construction_is_reproducible() {
    let cfg = test_config();
    let a = HeightMap::new(ChunkCoord { x: -2, z: 3 }, &cfg, 10, WORLD);
    let b = HeightMap::new(ChunkCoord { x: -2, z: 3 }, &cfg, 10, WORLD);
    for x in 0..10 {
        for z in 0..10 {
            assert_eq!(a.get(x, z), b.get(x, z));
        }
    }
}

#[test]
fn height_map_normals_are_unit_bounded() {
    let cfg = test_config();
    let m = HeightMap::new(ChunkCoord { x: 0, z: 0 }, &cfg, 10, WORLD);
    for x in 0..10 {
        for z in 0..10 {
            let v = m.get_normal(x, z);
            assert!(-ONE <= v.x && v.x <= ONE);
            assert!(-ONE <= v.y && v.y <= ONE);
            assert!(-ONE <= v.z && v.z <= ONE);
        }
    }
}

#[test]
fn mesh_has_expected_sizes_for_50_grid() {
    let cfg = test_config();
    let n = 50usize;
    let map = HeightMap::new(ChunkCoord { x: 0, z: 0 }, &cfg, n, WORLD);
    let mesh = Mesh::build(&map, WORLD, HEIGHT_SCALE);
    assert_eq!(mesh.positions.len(), n * n);
    assert_eq!(mesh.normals.len(), n * n);
    assert_eq!(mesh.indices.len(), (n - 1) * (n - 1) * 6);
}

#[test]
fn mesh_indices_stay_below_vertex_count() {
    let cfg = test_config();
    let n = 50usize;
    let map = HeightMap::new(ChunkCoord { x: 0, z: 0 }, &cfg, n, WORLD);
    let mesh = Mesh::build(&map, WORLD, HEIGHT_SCALE);
    for &idx in mesh.indices.iter() {
        assert!((idx as usize) < n * n);
    }
}

#[test]
fn mesh_first_cell_triangles_follow_winding() {
    let cfg = test_config();
    let n = 50u32;
    let map = HeightMap::new(ChunkCoord { x: 0, z: 0 }, &cfg, n as usize, WORLD);
    let mesh = Mesh::build(&map, WORLD, HEIGHT_SCALE);
    assert_eq!(&mesh.indices[0..6], &[0, n, 1, n, n + 1, 1]);
}

#[test]
fn mesh_positions_span_centered_world_extent() {
    let cfg = test_config();
    let n = 50usize;
    let map = HeightMap::new(ChunkCoord { x: 0, z: 0 }, &cfg, n, WORLD);
    let mesh = Mesh::build(&map, WORLD, HEIGHT_SCALE);
    // vertex 0 is cell (0, 0); vertex n - 1 is cell (n - 1, 0)
    assert_eq!(mesh.positions[0].x, -WORLD / 2);
    assert_eq!(mesh.positions[0].z, -WORLD / 2);
    assert_eq!(mesh.positions[n - 1].x, WORLD / 2);
    assert_eq!(mesh.positions[n - 1].z, -WORLD / 2);
}

#[test]
fn loader_radius_two_gives_circular_footprint() {
    let v = chunks_in_range(0, 0, 2);
    let mut expected = Vec::new();
    for dx in -2i64..=2 {
        for dz in -2i64..=2 {
            if dx * dx + dz * dz < 4 {
                expected.push((dx, dz));
            }
        }
    }
    assert_eq!(v.len(), expected.len());
    for &(dx, dz) in expected.iter() {
        assert!(v.iter().any(|c| c.x == dx && c.z == dz));
    }
    assert!(!v.iter().any(|c| c.x == 2 && c.z == 0));
}

#[test]
fn loader_radius_zero_and_one() {
    assert_eq!(chunks_in_range(0, 0, 0).len(), 0);
    let v = chunks_in_range(0, 0, 1);
    assert_eq!(v.len(), 1);
    assert_eq!((v[0].x, v[0].z), (0, 0));
}

#[test]
fn loader_uses_floor_of_focus() {
    // focus (-0.5, 2.75) lies in cell (-1, 2)
    let v = chunks_in_range(-ONE / 2, 2 * ONE + 3 * ONE / 4, 1);
    assert_eq!(v.len(), 1);
    assert_eq!((v[0].x, v[0].z), (-1, 2));
}

#[test]
fn store_get_or_create_is_idempotent() {
    let cfg = test_config();
    let mut store = TerrainMap::new(cfg, 8, WORLD);
    let coord = ChunkCoord { x: 0, z: 0 };
    let i1 = store.get_or_create(coord);
    assert_eq!(store.len(), 1);
    let i2 = store.get_or_create(coord);
    assert_eq!(store.len(), 1);
    assert_eq!(i1, i2);
    let h1 = store.chunk(i1).height_map.get(3, 4);
    let h2 = store.chunk(i2).height_map.get(3, 4);
    assert_eq!(h1, h2);
}

#[test]
fn store_find_reports_missing_chunks() {
    let cfg = test_config();
    let mut store = TerrainMap::new(cfg, 8, WORLD);
    let coord = ChunkCoord { x: 5, z: -3 };
    assert!(store.find(coord).is_none());
    let i = store.get_or_create(coord);
    assert_eq!(store.find(coord), Some(i));
}

#[test]
fn store_fills_loader_footprint_once() {
    let cfg = test_config();
    let mut store = TerrainMap::new(cfg, 8, WORLD);
    let wanted = chunks_in_range(0, 0, 2);
    for c in wanted.iter() {
        store.get_or_create(*c);
    }
    let count = store.len();
    assert_eq!(count, wanted.len());
    // a second tick over the same footprint creates nothing new
    for c in wanted.iter() {
        store.get_or_create(*c);
    }
    assert_eq!(store.len(), count);
}

#[test]
fn store_keeps_distinct_chunks_apart() {
    let cfg = test_config();
    let mut store = TerrainMap::new(cfg, 8, WORLD);
    let a = store.get_or_create(ChunkCoord { x: 0, z: 0 });
    let b = store.get_or_create(ChunkCoord { x: 1, z: 0 });
    assert_ne!(a, b);
    assert_eq!(store.len(), 2);
    let ca = store.chunk(a).coord;
    let cb = store.chunk(b).coord;
    assert_eq!((ca.x, ca.z), (0, 0));
    assert_eq!((cb.x, cb.z), (1, 0));
}

#[test]
fn world_offset_scales_coordinates() {
    let off = world_offset(ChunkCoord { x: 3, z: -2 }, WORLD);
    assert_eq!(off, (3 * WORLD, -2 * WORLD));
}
