//! Chunk coordinates and height maps: a fixed-resolution square grid of
//! heights and unit surface normals, sampled from the fractal noise field at
//! a chunk's global offset.
//!
//! Both heights and normals are functions of the *global* coordinate alone
//! (local index plus chunk coordinate times `n - 1`), so two grid-adjacent
//! chunks produce identical values along their shared border; see
//! [`lemma_seam_continuity`].

use vstd::prelude::*;

verus! {

use crate::fixed::{
    div_trunc, fp_mul, fp_mul_spec, is_isqrt, isqrt, isqrt_spec, lemma_isqrt_unique,
    lemma_sdiv_bound, sdiv, ONE,
};
use crate::noise::{fractal_spec, NoiseConfig};
use vstd::arithmetic::div_mod::{
    lemma_div_is_ordered, lemma_div_is_ordered_by_denominator, lemma_div_pos_is_pos,
    lemma_fundamental_div_mod_converse,
};

/// Position of a chunk on the infinite grid of fixed-size square chunks.
/// Two coordinates are equal exactly when both components are equal.
#[derive(Clone, Copy, PartialEq, Eq, Structural, Debug, Hash)]
pub struct ChunkCoord {
    pub x: i64,
    pub z: i64,
}

/// A fixed-point 3-vector (16.16 units per component).
#[derive(Clone, Copy, PartialEq, Eq, Structural, Debug)]
pub struct Vec3Fp {
    pub x: i64,
    pub y: i64,
    pub z: i64,
}

/// Largest chunk-coordinate magnitude the sampler accepts.
pub const COORD_MAX: i64 = 1048576;

/// Largest grid resolution a height map may have.
pub const GRID_MAX: usize = 1024;

/// Largest chunk world size (128 whole units, fixed point).
pub const WORLD_SIZE_MAX: i64 = 8388608;

/// Fixed-point offset used for the central-difference normal estimate
/// (one tenth of a grid cell).
pub const DIFF_STEP: i64 = 6554;

/// Largest value `step_spec` can take under the bounds above.
pub const STEP_MAX: i64 = 1048576;

/// The global fixed-point sample coordinate of local index `local` in a
/// chunk at coordinate `c`: chunks overlap their border row/column because
/// the offset advances by `n - 1` cells, not `n`.
pub open spec fn global_fp(c: int, n: int, local: int) -> int {
    (local + c * (n - 1)) * (ONE as int)
}

/// The height sampled for local cell `(lx, lz)` of the chunk at `(cx, cz)`:
/// fractal noise at the global coordinate.
pub open spec fn height_spec(c: NoiseConfig, cx: int, cz: int, n: int, lx: int, lz: int) -> int {
    fractal_spec(c, global_fp(cx, n, lx), global_fp(cz, n, lz))
}

/// World-unit distance between finite-difference samples, projected through
/// the chunk's world size: `2 * DIFF_STEP * world_size / (n * ONE)`.
pub open spec fn step_spec(world_size: int, n: int) -> int {
    sdiv(2 * (DIFF_STEP as int) * world_size, n * (ONE as int))
}

/// The unnormalized surface normal at global coordinate `(gx, gz)`: the
/// cross product of the two tangent vectors formed by central differences
/// of the noise field, `step` apart in world units.
pub open spec fn raw_normal_spec(c: NoiseConfig, gx: int, gz: int, step: int) -> (int, int, int) {
    let t = fractal_spec(c, gx, gz + DIFF_STEP as int);
    let b = fractal_spec(c, gx, gz - DIFF_STEP as int);
    let l = fractal_spec(c, gx + DIFF_STEP as int, gz);
    let r = fractal_spec(c, gx - DIFF_STEP as int, gz);
    (-fp_mul_spec(step as int, l - r), fp_mul_spec(step as int, step as int), -fp_mul_spec(
        t - b,
        step as int,
    ))
}

/// A vector scaled to unit length in fixed point; a degenerate (zero)
/// vector normalizes to the upward unit vector.
pub open spec fn normalize_spec(v: (int, int, int)) -> (int, int, int) {
    let len2 = v.0 * v.0 + v.1 * v.1 + v.2 * v.2;
    let ln = isqrt_spec(len2);
    if ln == 0 {
        (0, ONE as int, 0)
    } else {
        (sdiv(v.0 * (ONE as int), ln), sdiv(v.1 * (ONE as int), ln), sdiv(v.2 * (ONE as int), ln))
    }
}

/// The unit normal stored for local cell `(lx, lz)` of the chunk at
/// `(cx, cz)`, for a chunk of world size `ws`.
pub open spec fn normal_spec(
    c: NoiseConfig,
    cx: int,
    cz: int,
    n: int,
    ws: int,
    lx: int,
    lz: int,
) -> (int, int, int) {
    normalize_spec(
        raw_normal_spec(c, global_fp(cx, n, lx), global_fp(cz, n, lz), step_spec(ws, n)),
    )
}

/// Row-major storage index of local cell `(x, z)` in an `n` by `n` grid.
pub open spec fn index_spec(x: int, z: int, n: int) -> int {
    x * n + z
}

/// Global fixed-point coordinate of a local index, matching `global_fp`.
fn global_fp_of(c: i64, n: usize, local: usize) -> (g: i64)
    requires
        -COORD_MAX as int <= c <= COORD_MAX as int,
        2 <= n <= GRID_MAX as int,
        local < n,
    ensures
        g == global_fp(c as int, n as int, local as int),
        -0x8000_0000_0000 <= g <= 0x8000_0000_0000,
{
    proof {
        assert(-0x4000_0000 <= (c as int) * ((n as int) - 1) <= 0x4000_0000)
            by (nonlinear_arith)
            requires
                -(COORD_MAX as int) <= c <= COORD_MAX as int,
                2 <= n <= GRID_MAX as int,
        ;
    }
    let base: i64 = (local as i64) + c * ((n as i64) - 1);
    base * ONE
}

/// Normalizes a vector of bounded components, matching `normalize_spec`;
/// every component of the result lies in `[-ONE, ONE]`.
fn normalize(v: Vec3Fp) -> (r: Vec3Fp)
    requires
        -0x4000_0000 <= v.x <= 0x4000_0000,
        -0x4000_0000 <= v.y <= 0x4000_0000,
        -0x4000_0000 <= v.z <= 0x4000_0000,
    ensures
        (r.x as int, r.y as int, r.z as int) == normalize_spec(
            (v.x as int, v.y as int, v.z as int),
        ),
        -(ONE as int) <= r.x <= ONE as int,
        -(ONE as int) <= r.y <= ONE as int,
        -(ONE as int) <= r.z <= ONE as int,
{
    proof {
        assert(0 <= (v.x as int) * (v.x as int) <= 0x1000_0000_0000_0000) by (nonlinear_arith)
            requires -0x4000_0000 <= v.x <= 0x4000_0000,
        ;
        assert(0 <= (v.y as int) * (v.y as int) <= 0x1000_0000_0000_0000) by (nonlinear_arith)
            requires -0x4000_0000 <= v.y <= 0x4000_0000,
        ;
        assert(0 <= (v.z as int) * (v.z as int) <= 0x1000_0000_0000_0000) by (nonlinear_arith)
            requires -0x4000_0000 <= v.z <= 0x4000_0000,
        ;
    }
    let xx: i64 = v.x * v.x;
    let yy: i64 = v.y * v.y;
    let zz: i64 = v.z * v.z;
    let len2: i64 = xx + yy + zz;
    let ln: u64 = isqrt(len2 as u64);
    proof {
        lemma_isqrt_unique(len2 as int, ln as int);
    }
    if ln == 0 {
        Vec3Fp { x: 0, y: ONE, z: 0 }
    } else {
        proof {
            lemma_norm_component_bound(v.x as int, len2 as int, ln as int);
            lemma_norm_component_bound(v.y as int, len2 as int, ln as int);
            lemma_norm_component_bound(v.z as int, len2 as int, ln as int);
        }
        let nx = div_trunc(v.x * ONE, ln as i64);
        let ny = div_trunc(v.y * ONE, ln as i64);
        let nz = div_trunc(v.z * ONE, ln as i64);
        Vec3Fp { x: nx, y: ny, z: nz }
    }
}

/// A component whose square is part of `len2` is bounded by the square
/// root of `len2`, so the normalized component is bounded by `ONE`.
proof fn lemma_norm_component_bound(c: int, len2: int, ln: int)
    requires
        c * c <= len2,
        is_isqrt(len2, ln),
        ln >= 1,
    ensures
        -ln <= c <= ln,
        -(ONE as int) <= sdiv(c * (ONE as int), ln) <= ONE as int,
{
    assert(-ln <= c <= ln) by (nonlinear_arith)
        requires c * c <= len2, len2 < (ln + 1) * (ln + 1), ln >= 0,
    ;
    assert(-((ONE as int) * ln) <= c * (ONE as int) <= (ONE as int) * ln) by (nonlinear_arith)
        requires -ln <= c <= ln,
    ;
    lemma_sdiv_bound(c * (ONE as int), ln, ONE as int);
}

/// The central-difference unit normal of the noise field at a global
/// fixed-point coordinate.
#[verifier::rlimit(100)]
fn sample_normal(cfg: &NoiseConfig, gx: i64, gz: i64, step: i64) -> (r: Vec3Fp)
    requires
        cfg.wf(),
        -0x8000_0000_0000 <= gx <= 0x8000_0000_0000,
        -0x8000_0000_0000 <= gz <= 0x8000_0000_0000,
        0 <= step <= STEP_MAX as int,
    ensures
        (r.x as int, r.y as int, r.z as int) == normalize_spec(
            raw_normal_spec(*cfg, gx as int, gz as int, step as int),
        ),
        -(ONE as int) <= r.x <= ONE as int,
        -(ONE as int) <= r.y <= ONE as int,
        -(ONE as int) <= r.z <= ONE as int,
{
    let t = cfg.fractal(gx, gz + DIFF_STEP);
    let b = cfg.fractal(gx, gz - DIFF_STEP);
    let l = cfg.fractal(gx + DIFF_STEP, gz);
    let r = cfg.fractal(gx - DIFF_STEP, gz);
    proof {
        assert(-0x20_0000_0000 <= (step as int) * ((l as int) - (r as int))
            <= 0x20_0000_0000) by (nonlinear_arith)
            requires
                0 <= step <= STEP_MAX as int,
                -2 * (ONE as int) <= (l as int) - (r as int) <= 2 * (ONE as int),
        ;
        assert(0 <= (step as int) * (step as int) <= 0x100_0000_0000) by (nonlinear_arith)
            requires 0 <= step <= STEP_MAX as int,
        ;
        assert(-0x20_0000_0000 <= ((t as int) - (b as int)) * (step as int)
            <= 0x20_0000_0000) by (nonlinear_arith)
            requires
                0 <= step <= STEP_MAX as int,
                -2 * (ONE as int) <= (t as int) - (b as int) <= 2 * (ONE as int),
        ;
        lemma_sdiv_bound((step as int) * ((l as int) - (r as int)), ONE as int, 0x20_0000);
        lemma_sdiv_bound((step as int) * (step as int), ONE as int, 0x100_0000);
        lemma_sdiv_bound(((t as int) - (b as int)) * (step as int), ONE as int, 0x20_0000);
    }
    let cx = -fp_mul(step, l - r);
    let cy = fp_mul(step, step);
    let cz = -fp_mul(t - b, step);
    normalize(Vec3Fp { x: cx, y: cy, z: cz })
}

/// A square grid of heights and unit normals, sampled from the noise field
/// at a chunk's global offset. Immutable once built.
pub struct HeightMap {
    n: usize,
    heights: Vec<i64>,
    normals: Vec<Vec3Fp>,
}

impl HeightMap {
    /// Grid resolution: the map holds `size() * size()` samples.
    pub closed spec fn size(&self) -> int {
        self.n as int
    }

    /// The stored height of local cell `(x, z)`.
    pub closed spec fn height_at(&self, x: int, z: int) -> int {
        self.heights@[index_spec(x, z, self.n as int)] as int
    }

    /// The stored normal of local cell `(x, z)`, as component triple.
    pub closed spec fn normal_at(&self, x: int, z: int) -> (int, int, int) {
        let v = self.normals@[index_spec(x, z, self.n as int)];
        (v.x as int, v.y as int, v.z as int)
    }

    /// Shape invariant: both grids hold exactly `n * n` samples, and every
    /// height and normal component is within one whole unit.
    pub closed spec fn wf(&self) -> bool {
        &&& 2 <= self.n <= GRID_MAX
        &&& self.heights@.len() == self.n * self.n
        &&& self.normals@.len() == self.n * self.n
        &&& forall|k: int|
            0 <= k < self.heights@.len() ==> -(ONE as int) <= #[trigger] self.heights@[k]
                <= ONE as int
        &&& forall|k: int|
            0 <= k < self.normals@.len() ==> {
                let v = #[trigger] self.normals@[k];
                -(ONE as int) <= v.x <= ONE as int && -(ONE as int) <= v.y <= ONE as int && -(
                ONE as int) <= v.z <= ONE as int
            }
    }

    /// Samples a full `n` by `n` grid of heights and normals for the chunk
    /// at `coord`. Every sample is the fractal noise (and its
    /// central-difference normal) at the global coordinate of the cell, so
    /// the map is an exact function of `(cfg, coord, n, world_size)`.
    #[verifier::rlimit(100)]
    pub fn new(coord: ChunkCoord, cfg: &NoiseConfig, n: usize, world_size: i64) -> (m: HeightMap)
        requires
            cfg.wf(),
            2 <= n <= GRID_MAX as int,
            -(COORD_MAX as int) <= coord.x <= COORD_MAX as int,
            -(COORD_MAX as int) <= coord.z <= COORD_MAX as int,
            0 < world_size <= WORLD_SIZE_MAX as int,
        ensures
            m.wf(),
            m.size() == n,
            forall|x: int, z: int|
                0 <= x < n && 0 <= z < n ==> #[trigger] m.height_at(x, z) == height_spec(
                    *cfg,
                    coord.x as int,
                    coord.z as int,
                    n as int,
                    x,
                    z,
                ),
            forall|x: int, z: int|
                0 <= x < n && 0 <= z < n ==> #[trigger] m.normal_at(x, z) == normal_spec(
                    *cfg,
                    coord.x as int,
                    coord.z as int,
                    n as int,
                    world_size as int,
                    x,
                    z,
                ),
    {
        let step = compute_step(world_size, n);
        let ghost cxi = coord.x as int;
        let ghost czi = coord.z as int;
        let ghost ni = n as int;
        let ghost wsi = world_size as int;
        let mut heights: Vec<i64> = Vec::new();
        let mut normals: Vec<Vec3Fp> = Vec::new();
        let mut x: usize = 0;
        while x < n
            invariant
                cfg.wf(),
                2 <= n <= GRID_MAX as int,
                -(COORD_MAX as int) <= coord.x <= COORD_MAX as int,
                -(COORD_MAX as int) <= coord.z <= COORD_MAX as int,
                0 < world_size <= WORLD_SIZE_MAX as int,
                0 <= step <= STEP_MAX as int,
                cxi == coord.x as int,
                czi == coord.z as int,
                ni == n as int,
                wsi == world_size as int,
                step == step_spec(wsi, ni),
                0 <= x <= n,
                heights@.len() == x * n,
                normals@.len() == x * n,
                forall|k: int|
                    0 <= k < heights@.len() ==> #[trigger] heights@[k] == height_spec(
                        *cfg,
                        cxi,
                        czi,
                        ni,
                        k / ni,
                        k % ni,
                    ),
                forall|k: int|
                    0 <= k < heights@.len() ==> -(ONE as int) <= #[trigger] heights@[k]
                        <= ONE as int,
                forall|k: int|
                    0 <= k < normals@.len() ==> {
                        let v = #[trigger] normals@[k];
                        (v.x as int, v.y as int, v.z as int) == normal_spec(
                            *cfg,
                            cxi,
                            czi,
                            ni,
                            wsi,
                            k / ni,
                            k % ni,
                        )
                    },
                forall|k: int|
                    0 <= k < normals@.len() ==> {
                        let v = #[trigger] normals@[k];
                        -(ONE as int) <= v.x <= ONE as int && -(ONE as int) <= v.y <= ONE as int
                            && -(ONE as int) <= v.z <= ONE as int
                    },
            decreases n - x,
        {
            let gx = global_fp_of(coord.x, n, x);
            let mut z: usize = 0;
            while z < n
                invariant
                    cfg.wf(),
                    2 <= n <= GRID_MAX as int,
                    -(COORD_MAX as int) <= coord.x <= COORD_MAX as int,
                    -(COORD_MAX as int) <= coord.z <= COORD_MAX as int,
                    0 < world_size <= WORLD_SIZE_MAX as int,
                    0 <= step <= STEP_MAX as int,
                    cxi == coord.x as int,
                    czi == coord.z as int,
                    ni == n as int,
                    wsi == world_size as int,
                    step == step_spec(wsi, ni),
                    0 <= x < n,
                    0 <= z <= n,
                    gx == global_fp(cxi, ni, x as int),
                    -0x8000_0000_0000 <= gx <= 0x8000_0000_0000,
                    heights@.len() == x * n + z,
                    normals@.len() == x * n + z,
                    forall|k: int|
                        0 <= k < heights@.len() ==> #[trigger] heights@[k] == height_spec(
                            *cfg,
                            cxi,
                            czi,
                            ni,
                            k / ni,
                            k % ni,
                        ),
                    forall|k: int|
                        0 <= k < heights@.len() ==> -(ONE as int) <= #[trigger] heights@[k]
                            <= ONE as int,
                    forall|k: int|
                        0 <= k < normals@.len() ==> {
                            let v = #[trigger] normals@[k];
                            (v.x as int, v.y as int, v.z as int) == normal_spec(
                                *cfg,
                                cxi,
                                czi,
                                ni,
                                wsi,
                                k / ni,
                                k % ni,
                            )
                        },
                    forall|k: int|
                        0 <= k < normals@.len() ==> {
                            let v = #[trigger] normals@[k];
                            -(ONE as int) <= v.x <= ONE as int && -(ONE as int) <= v.y
                                <= ONE as int && -(ONE as int) <= v.z <= ONE as int
                        },
                decreases n - z,
            {
                let gz = global_fp_of(coord.z, n, z);
                let h = cfg.fractal(gx, gz);
                let nv = sample_normal(cfg, gx, gz, step);
                proof {
                    let k = (x as int) * ni + (z as int);
                    assert(0 <= z < ni);
                    lemma_fundamental_div_mod_converse(k, ni, x as int, z as int);
                    assert((x as int) * ni + (z as int) < ni * ni) by (nonlinear_arith)
                        requires 0 <= (x as int) < ni, 0 <= (z as int) < ni,
                    ;
                }
                heights.push(h);
                normals.push(nv);
                z = z + 1;
            }
            x = x + 1;
            proof {
                assert(((x - 1) as int) * ni + ni == (x as int) * ni) by (nonlinear_arith);
            }
        }
        let m = HeightMap { n, heights, normals };
        proof {
            assert(m.heights@.len() == ni * ni) by (nonlinear_arith)
                requires m.heights@.len() == ni * ni,
            ;
            assert forall|xi: int, zi: int| 0 <= xi < n && 0 <= zi < n implies #[trigger] m
                .height_at(xi, zi) == height_spec(*cfg, cxi, czi, ni, xi, zi) by {
                let k = index_spec(xi, zi, ni);
                lemma_fundamental_div_mod_converse(k, ni, xi, zi);
                assert(0 <= k < ni * ni) by (nonlinear_arith)
                    requires 0 <= xi < ni, 0 <= zi < ni, k == xi * ni + zi,
                ;
            }
            assert forall|xi: int, zi: int| 0 <= xi < n && 0 <= zi < n implies #[trigger] m
                .normal_at(xi, zi) == normal_spec(*cfg, cxi, czi, ni, wsi, xi, zi) by {
                let k = index_spec(xi, zi, ni);
                lemma_fundamental_div_mod_converse(k, ni, xi, zi);
                assert(0 <= k < ni * ni) by (nonlinear_arith)
                    requires 0 <= xi < ni, 0 <= zi < ni, k == xi * ni + zi,
                ;
            }
        }
        m
    }

    /// Grid resolution: the number of samples along each side.
    pub fn resolution(&self) -> (n: usize)
        ensures
            n == self.size(),
    {
        self.n
    }

    /// The height at local cell `(x, z)`; the index must be in range.
    pub fn get(&self, x: usize, z: usize) -> (h: i64)
        requires
            self.wf(),
            x < self.size(),
            z < self.size(),
        ensures
            h == self.height_at(x as int, z as int),
            -(ONE as int) <= h <= ONE as int,
    {
        proof {
            lemma_index_in_range(x as int, z as int, self.n as int);
            assert((x as int) * (self.n as int) + (z as int) < 0x200000) by (nonlinear_arith)
                requires 0 <= (x as int) < self.n as int, 0 <= (z as int) < self.n as int,
                    self.n <= GRID_MAX as int,
            ;
        }
        self.heights[x * self.n + z]
    }

    /// The unit normal at local cell `(x, z)`; the index must be in range.
    pub fn get_normal(&self, x: usize, z: usize) -> (v: Vec3Fp)
        requires
            self.wf(),
            x < self.size(),
            z < self.size(),
        ensures
            (v.x as int, v.y as int, v.z as int) == self.normal_at(x as int, z as int),
            -(ONE as int) <= v.x <= ONE as int,
            -(ONE as int) <= v.y <= ONE as int,
            -(ONE as int) <= v.z <= ONE as int,
    {
        proof {
            lemma_index_in_range(x as int, z as int, self.n as int);
            assert((x as int) * (self.n as int) + (z as int) < 0x200000) by (nonlinear_arith)
                requires 0 <= (x as int) < self.n as int, 0 <= (z as int) < self.n as int,
                    self.n <= GRID_MAX as int,
            ;
        }
        self.normals[x * self.n + z]
    }
}

/// The world-space placement of a chunk: its coordinate scaled by the chunk
/// world size, handed to the consumer of the chunk's mesh.
pub fn world_offset(coord: ChunkCoord, world_size: i64) -> (r: (i64, i64))
    requires
        -(COORD_MAX as int) <= coord.x <= COORD_MAX as int,
        -(COORD_MAX as int) <= coord.z <= COORD_MAX as int,
        0 < world_size <= WORLD_SIZE_MAX as int,
    ensures
        r.0 == coord.x * world_size,
        r.1 == coord.z * world_size,
{
    proof {
        assert(-0x8_0000_0000_0000 <= (coord.x as int) * (world_size as int) <= 0x8_0000_0000_0000
            && -0x8_0000_0000_0000 <= (coord.z as int) * (world_size as int)
            <= 0x8_0000_0000_0000) by (nonlinear_arith)
            requires
                -(COORD_MAX as int) <= coord.x <= COORD_MAX as int,
                -(COORD_MAX as int) <= coord.z <= COORD_MAX as int,
                0 < world_size <= WORLD_SIZE_MAX as int,
        ;
    }
    (coord.x * world_size, coord.z * world_size)
}

/// A well-formed height map's resolution is between 2 and `GRID_MAX`.
pub proof fn lemma_heightmap_size_bounds(m: &HeightMap)
    requires
        m.wf(),
    ensures
        2 <= m.size() <= GRID_MAX as int,
{
}

/// A row-major index of an in-range cell is within the grid.
proof fn lemma_index_in_range(x: int, z: int, n: int)
    requires
        0 <= x < n,
        0 <= z < n,
    ensures
        0 <= index_spec(x, z, n) < n * n,
{
    assert(0 <= x * n + z < n * n) by (nonlinear_arith)
        requires 0 <= x < n, 0 <= z < n,
    ;
}

/// The finite-difference step in world units, matching `step_spec`.
fn compute_step(world_size: i64, n: usize) -> (s: i64)
    requires
        0 < world_size <= WORLD_SIZE_MAX as int,
        2 <= n <= GRID_MAX as int,
    ensures
        s == step_spec(world_size as int, n as int),
        0 <= s <= STEP_MAX as int,
{
    let p: i64 = 13108 * world_size;
    let d: i64 = (n as i64) * 65536;
    proof {
        assert(p as int == 2 * (DIFF_STEP as int) * (world_size as int)) by (nonlinear_arith)
            requires (p as int) == 13108 * (world_size as int), DIFF_STEP == 6554,
        ;
        assert(d as int == (n as int) * (ONE as int)) by (nonlinear_arith)
            requires (d as int) == (n as int) * 65536, ONE == 65536,
        ;
        lemma_div_pos_is_pos(p as int, d as int);
        lemma_div_is_ordered_by_denominator(p as int, 131072, d as int);
        lemma_div_is_ordered(p as int, 109957873664, 131072);
        assert(109957873664int / 131072 == 838912);
    }
    div_trunc(p, d)
}

/// Seam continuity: along the border shared by chunk `(cx, cz)` and chunk
/// `(cx + 1, cz)`, the column `n - 1` of the first names the same global
/// coordinates as the column `0` of the second, so both the sampled heights
/// and the sampled normals agree exactly.
pub proof fn lemma_seam_continuity(
    c: NoiseConfig,
    cx: int,
    cz: int,
    n: int,
    ws: int,
    z: int,
)
    requires
        2 <= n,
        0 <= z < n,
    ensures
        height_spec(c, cx, cz, n, n - 1, z) == height_spec(c, cx + 1, cz, n, 0, z),
        normal_spec(c, cx, cz, n, ws, n - 1, z) == normal_spec(c, cx + 1, cz, n, ws, 0, z),
{
    assert((cx + 1) * (n - 1) == cx * (n - 1) + (n - 1)) by (nonlinear_arith);
    assert(global_fp(cx, n, n - 1) == global_fp(cx + 1, n, 0));
}

} // verus!
