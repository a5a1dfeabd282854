//! Triangle-mesh synthesis from a height map: a full grid of vertex
//! positions, the height map's precomputed normals copied verbatim (not
//! recomputed from mesh geometry, which preserves cross-chunk continuity),
//! and two consistently wound triangles per interior cell.
//!
//! For an `n` by `n` grid the mesh holds exactly `n^2` vertices, `n^2`
//! normals and `(n-1)^2 * 6` indices, every index below `n^2`; vertices are
//! row-major, `index = z * n + x`.

use vstd::prelude::*;

verus! {

use crate::fixed::{div_trunc, fp_mul, fp_mul_spec, sdiv, ONE};
use crate::heightmap::{lemma_heightmap_size_bounds, HeightMap, Vec3Fp, GRID_MAX, WORLD_SIZE_MAX};
use vstd::arithmetic::div_mod::lemma_fundamental_div_mod_converse;

/// Largest height scale the builder accepts (32 whole units, fixed point).
pub const HEIGHT_SCALE_MAX: i64 = 2097152;

/// A triangle mesh: parallel vertex position and normal arrays, and a list
/// of triangle indices, three per triangle, into those arrays. Built fresh
/// from a height map; never mutated in place.
pub struct Mesh {
    pub positions: Vec<Vec3Fp>,
    pub normals: Vec<Vec3Fp>,
    pub indices: Vec<u32>,
}

/// The world-space coordinate of grid line `i`: the local index mapped
/// linearly onto `[-world_size / 2, world_size / 2]`.
pub open spec fn pos_coord_spec(ws: int, n: int, i: int) -> int {
    sdiv(ws * i, n - 1) - sdiv(ws, 2)
}

/// The index stored at position `q` of the triangle list: interior cell
/// `q / 6` (row-major, `n - 1` cells per row) contributes two triangles,
/// `{(x,z), (x,z+1), (x+1,z)}` then `{(x,z+1), (x+1,z+1), (x+1,z)}`, over
/// row-major vertex indices `z * n + x`.
pub open spec fn tri_index_spec(n: int, q: int) -> int {
    let cell = q / 6;
    let rem = q % 6;
    let cz = cell / (n - 1);
    let cx = cell % (n - 1);
    let base = cz * n + cx;
    if rem == 0 {
        base
    } else if rem == 1 {
        base + n
    } else if rem == 2 {
        base + 1
    } else if rem == 3 {
        base + n
    } else if rem == 4 {
        base + n + 1
    } else {
        base + 1
    }
}

/// Vertex `k` of a mesh built from `map`: position of cell
/// `(k % n, k / n)`, with `y` the scaled height.
pub open spec fn vertex_ok(map: &HeightMap, ws: int, hs: int, k: int, p: Vec3Fp) -> bool {
    let n = map.size();
    &&& p.x as int == pos_coord_spec(ws, n, k % n)
    &&& p.y as int == fp_mul_spec(hs, map.height_at(k % n, k / n))
    &&& p.z as int == pos_coord_spec(ws, n, k / n)
}

/// Normal `k` of a mesh built from `map`: the height map's normal of cell
/// `(k % n, k / n)`, copied unchanged.
pub open spec fn mesh_normal_ok(map: &HeightMap, k: int, v: Vec3Fp) -> bool {
    (v.x as int, v.y as int, v.z as int) == map.normal_at(k % map.size(), k / map.size())
}

/// The row-major vertex index of cell `(x, z)`: instantiating the mesh
/// contracts at `k == z * n + x` speaks of exactly that cell.
pub proof fn lemma_cell_index(n: int, x: int, z: int)
    requires
        0 <= x < n,
        0 <= z < n,
    ensures
        0 <= z * n + x < n * n,
        (z * n + x) % n == x,
        (z * n + x) / n == z,
{
    lemma_fundamental_div_mod_converse(z * n + x, n, z, x);
    assert(0 <= z * n + x < n * n) by (nonlinear_arith)
        requires 0 <= x < n, 0 <= z < n,
    ;
}

impl Mesh {
    /// Builds the triangle mesh of a height map: `n^2` row-major vertices
    /// (`x` and `z` mapped into `[-world_size/2, world_size/2]`, `y` the
    /// height scaled by `height_scale`), the map's `n^2` normals, and
    /// `(n-1)^2 * 6` triangle indices, each below `n^2`.
    #[verifier::rlimit(100)]
    pub fn build(map: &HeightMap, world_size: i64, height_scale: i64) -> (m: Mesh)
        requires
            map.wf(),
            0 < world_size <= WORLD_SIZE_MAX as int,
            0 <= height_scale <= HEIGHT_SCALE_MAX as int,
        ensures
            m.positions@.len() == map.size() * map.size(),
            m.normals@.len() == map.size() * map.size(),
            m.indices@.len() == (map.size() - 1) * (map.size() - 1) * 6,
            forall|k: int|
                0 <= k < m.positions@.len() ==> vertex_ok(
                    map,
                    world_size as int,
                    height_scale as int,
                    k,
                    #[trigger] m.positions@[k],
                ),
            forall|k: int|
                0 <= k < m.normals@.len() ==> mesh_normal_ok(map, k, #[trigger] m.normals@[k]),
            forall|q: int|
                0 <= q < m.indices@.len() ==> #[trigger] m.indices@[q] == tri_index_spec(
                    map.size(),
                    q,
                ),
            forall|q: int|
                0 <= q < m.indices@.len() ==> #[trigger] m.indices@[q] < map.size() * map.size(),
    {
        proof {
            lemma_heightmap_size_bounds(map);
        }
        let n = map.resolution();
        let ghost ni = map.size();
        let ghost wsi = world_size as int;
        let ghost hsi = height_scale as int;
        let half = div_trunc(world_size, 2);
        let mut positions: Vec<Vec3Fp> = Vec::new();
        let mut normals: Vec<Vec3Fp> = Vec::new();
        let mut z: usize = 0;
        while z < n
            invariant
                map.wf(),
                ni == map.size(),
                n == ni,
                2 <= n <= GRID_MAX as int,
                wsi == world_size as int,
                hsi == height_scale as int,
                0 < world_size <= WORLD_SIZE_MAX as int,
                0 <= height_scale <= HEIGHT_SCALE_MAX as int,
                half == sdiv(wsi, 2),
                0 <= z <= n,
                positions@.len() == z * n,
                normals@.len() == z * n,
                forall|k: int|
                    0 <= k < positions@.len() ==> vertex_ok(
                        map,
                        wsi,
                        hsi,
                        k,
                        #[trigger] positions@[k],
                    ),
                forall|k: int|
                    0 <= k < normals@.len() ==> mesh_normal_ok(map, k, #[trigger] normals@[k]),
            decreases n - z,
        {
            let pz = pos_line(world_size, n, z, half);
            let mut x: usize = 0;
            while x < n
                invariant
                    map.wf(),
                    ni == map.size(),
                    n == ni,
                    2 <= n <= GRID_MAX as int,
                    wsi == world_size as int,
                    hsi == height_scale as int,
                    0 < world_size <= WORLD_SIZE_MAX as int,
                    0 <= height_scale <= HEIGHT_SCALE_MAX as int,
                    half == sdiv(wsi, 2),
                    0 <= z < n,
                    0 <= x <= n,
                    pz == pos_coord_spec(wsi, ni, z as int),
                    positions@.len() == z * n + x,
                    normals@.len() == z * n + x,
                    forall|k: int|
                        0 <= k < positions@.len() ==> vertex_ok(
                            map,
                            wsi,
                            hsi,
                            k,
                            #[trigger] positions@[k],
                        ),
                    forall|k: int|
                        0 <= k < normals@.len() ==> mesh_normal_ok(map, k, #[trigger] normals@[k]),
                decreases n - x,
            {
                let px = pos_line(world_size, n, x, half);
                let h = map.get(x, z);
                proof {
                    assert(-0x2000_0000_0000 <= hsi * (h as int) <= 0x2000_0000_0000)
                        by (nonlinear_arith)
                        requires
                            0 <= hsi <= HEIGHT_SCALE_MAX as int,
                            -(ONE as int) <= h <= ONE as int,
                    ;
                }
                let py = fp_mul(height_scale, h);
                let nv = map.get_normal(x, z);
                proof {
                    let k = (z as int) * ni + (x as int);
                    lemma_fundamental_div_mod_converse(k, ni, z as int, x as int);
                }
                positions.push(Vec3Fp { x: px, y: py, z: pz });
                normals.push(nv);
                x = x + 1;
            }
            z = z + 1;
            proof {
                assert(((z - 1) as int) * ni + ni == (z as int) * ni) by (nonlinear_arith);
            }
        }
        let indices = build_indices(n);
        Mesh { positions, normals, indices }
    }
}

/// World-space coordinate of grid line `i`, matching `pos_coord_spec`.
fn pos_line(world_size: i64, n: usize, i: usize, half: i64) -> (p: i64)
    requires
        0 < world_size <= WORLD_SIZE_MAX as int,
        2 <= n <= GRID_MAX as int,
        i < n,
        half == sdiv(world_size as int, 2),
    ensures
        p == pos_coord_spec(world_size as int, n as int, i as int),
{
    proof {
        assert(0 <= (world_size as int) * (i as int) <= 0x2000_0000_0000) by (nonlinear_arith)
            requires 0 < world_size <= WORLD_SIZE_MAX as int, 0 <= i < GRID_MAX as int,
        ;
    }
    let scaled = div_trunc(world_size * (i as i64), (n as i64) - 1);
    scaled - half
}

/// The triangle index list for an `n` by `n` grid: `(n-1)^2 * 6` entries,
/// entry `q` equal to `tri_index_spec(n, q)`, every entry below `n^2`.
#[verifier::rlimit(100)]
fn build_indices(n: usize) -> (v: Vec<u32>)
    requires
        2 <= n <= GRID_MAX as int,
    ensures
        v@.len() == (n - 1) * (n - 1) * 6,
        forall|q: int| 0 <= q < v@.len() ==> #[trigger] v@[q] == tri_index_spec(n as int, q),
        forall|q: int| 0 <= q < v@.len() ==> #[trigger] v@[q] < n * n,
{
    let ghost ni = n as int;
    let mut v: Vec<u32> = Vec::new();
    let mut cz: usize = 0;
    while cz < n - 1
        invariant
            2 <= n <= GRID_MAX as int,
            ni == n as int,
            0 <= cz <= n - 1,
            v@.len() == cz * (n - 1) * 6,
            forall|q: int| 0 <= q < v@.len() ==> #[trigger] v@[q] == tri_index_spec(ni, q),
            forall|q: int| 0 <= q < v@.len() ==> #[trigger] v@[q] < n * n,
        decreases n - 1 - cz,
    {
        let mut cx: usize = 0;
        while cx < n - 1
            invariant
                2 <= n <= GRID_MAX as int,
                ni == n as int,
                0 <= cz < n - 1,
                0 <= cx <= n - 1,
                v@.len() == (cz * (n - 1) + cx) * 6,
                forall|q: int| 0 <= q < v@.len() ==> #[trigger] v@[q] == tri_index_spec(ni, q),
                forall|q: int| 0 <= q < v@.len() ==> #[trigger] v@[q] < n * n,
            decreases n - 1 - cx,
        {
            proof {
                assert((cz as int) * ni + (cx as int) + ni + 1 < ni * ni && ni * ni <= 0x10_0000
                    && (cz as int) * (ni - 1) + (cx as int) < (ni - 1) * (ni - 1) && ((cz as int)
                    * (ni - 1) + (cx as int)) * 6 + 6 <= (ni - 1) * (ni - 1) * 6 && (ni - 1) * (ni
                    - 1) * 6 < 0x40_0000_0000) by (nonlinear_arith)
                    requires
                        0 <= (cz as int) < ni - 1,
                        0 <= (cx as int) < ni - 1,
                        2 <= ni <= GRID_MAX as int,
                ;
            }
            let base: u32 = ((cz * n + cx) as u32);
            let nn: u32 = n as u32;
            let ghost cell = (cz as int) * (ni - 1) + (cx as int);
            let ghost q0 = cell * 6;
            v.push(base);
            v.push(base + nn);
            v.push(base + 1);
            v.push(base + nn);
            v.push(base + nn + 1);
            v.push(base + 1);
            proof {
                lemma_fundamental_div_mod_converse(cell, ni - 1, cz as int, cx as int);
                assert forall|q: int| q0 <= q < q0 + 6 implies #[trigger] v@[q] == tri_index_spec(
                    ni,
                    q,
                ) by {
                    lemma_fundamental_div_mod_converse(q, 6, cell, q - q0);
                }
                assert((cell + 1) * 6 == cell * 6 + 6) by (nonlinear_arith);
                assert(((cz as int) * (ni - 1) + (cx as int) + 1) * 6 == v@.len());
            }
            cx = cx + 1;
        }
        cz = cz + 1;
        proof {
            assert((((cz - 1) as int) * (ni - 1) + (ni - 1)) * 6 == ((cz as int) * (ni - 1)) * 6)
                by (nonlinear_arith);
        }
    }
    proof {
        assert(((ni - 1) * (ni - 1)) * 6 == (ni - 1) * (ni - 1) * 6) by (nonlinear_arith);
    }
    v
}

} // verus!
