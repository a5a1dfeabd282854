//! Deterministic 2D gradient noise and its fractal (multi-octave)
//! composition, in 16.16 fixed-point arithmetic.
//!
//! The field is a pure function of the configuration (seed, frequency,
//! octave count, persistence, lacunarity) and the sample coordinate, so two
//! evaluations on identical inputs agree bit for bit. The lattice repeats
//! with period [`PERIOD`] cells; coordinates are reduced into one period
//! before corner hashing, which keeps every intermediate value small.

use vstd::prelude::*;

verus! {

use crate::fixed::{
    clamp, clamp_spec, div_trunc, fp_mul, fp_mul_spec, lemma_sdiv_bound, rem_floor, sdiv, ONE,
};
use vstd::arithmetic::div_mod::{
    lemma_div_is_ordered, lemma_div_multiples_vanish, lemma_div_pos_is_pos,
    lemma_fundamental_div_mod, lemma_fundamental_div_mod_converse,
    lemma_mod_division_less_than_divisor,
};

/// Lattice period of the noise, in whole grid cells.
pub const PERIOD: i64 = 256;

/// Lattice period in fixed-point units.
pub const PERIOD_FP: i64 = 16777216;

/// Largest frequency a configuration may carry (256 whole units).
pub const FREQ_MAX: i64 = 16777216;

/// Largest lacunarity a configuration may carry (4 whole units).
pub const LACUNARITY_MAX: i64 = 262144;

/// Largest per-octave frequency reached under a well-formed configuration:
/// `FREQ_MAX` grown by `LACUNARITY_MAX` fifteen times.
pub const OCTAVE_FREQ_MAX: i64 = 0x40_0000_0000_0000;

/// Most octaves a configuration may ask for.
pub const OCTAVES_MAX: u32 = 16;

/// Parameters of the fractal noise field. The seed picks the gradient
/// pattern; frequency, octave count, persistence and lacunarity shape the
/// multi-octave sum. All scalar parameters are 16.16 fixed point.
pub struct NoiseConfig {
    pub seed: u64,
    pub frequency: i64,
    pub octaves: u32,
    pub persistence: i64,
    pub lacunarity: i64,
}

impl NoiseConfig {
    /// Bounds under which every evaluation is free of overflow.
    pub open spec fn wf(&self) -> bool {
        &&& 0 < self.frequency <= FREQ_MAX as int
        &&& 1 <= self.octaves <= OCTAVES_MAX
        &&& 0 < self.persistence <= ONE as int
        &&& ONE as int <= self.lacunarity <= LACUNARITY_MAX as int
    }

    /// A configuration from explicit parameters.
    pub fn new(seed: u64, frequency: i64, octaves: u32, persistence: i64, lacunarity: i64) -> (c:
        NoiseConfig)
        requires
            0 < frequency <= FREQ_MAX as int,
            1 <= octaves <= OCTAVES_MAX,
            0 < persistence <= ONE as int,
            ONE as int <= lacunarity <= LACUNARITY_MAX as int,
        ensures
            c.wf(),
            c.seed == seed,
            c.frequency == frequency,
            c.octaves == octaves,
            c.persistence == persistence,
            c.lacunarity == lacunarity,
    {
        NoiseConfig { seed, frequency, octaves, persistence, lacunarity }
    }

    /// A configuration with default shape parameters: frequency 1/16,
    /// four octaves, persistence 1/2, lacunarity 2.
    pub fn with_seed(seed: u64) -> (c: NoiseConfig)
        ensures
            c.wf(),
            c.seed == seed,
            c.frequency == 4096,
            c.octaves == 4,
            c.persistence == 32768,
            c.lacunarity == 131072,
    {
        NoiseConfig { seed, frequency: 4096, octaves: 4, persistence: 32768, lacunarity: 131072 }
    }
}

/// Index of the gradient assigned to the lattice corner `(ix, iz)`:
/// an integer mix of the seed and the corner, reduced to one of 8 directions.
pub open spec fn grad_index_spec(seed: int, ix: int, iz: int) -> int {
    let sx = ix % (PERIOD as int);
    let sz = iz % (PERIOD as int);
    let sd = seed % 0x1_0000_0000;
    let h1 = (sx * 0x9E3779B1 + sz * 0x85EBCA77 + sd) % 0x1_0000_0000;
    let h2 = (h1 * 0x27D4EB2F) % 0x1_0000_0000;
    (h2 / 4096) % 8
}

/// X component of gradient direction `g`.
pub open spec fn grad_x_spec(g: int) -> int {
    if g == 0 || g == 2 || g == 4 {
        1
    } else if g == 1 || g == 3 || g == 5 {
        -1
    } else {
        0
    }
}

/// Z component of gradient direction `g`.
pub open spec fn grad_z_spec(g: int) -> int {
    if g == 0 || g == 1 || g == 6 {
        1
    } else if g == 2 || g == 3 || g == 7 {
        -1
    } else {
        0
    }
}

/// Contribution of the corner `(ix, iz)`: its gradient dotted with the
/// fixed-point offset `(dx, dz)` from the corner to the sample.
pub open spec fn corner_spec(seed: int, ix: int, iz: int, dx: int, dz: int) -> int {
    let g = grad_index_spec(seed, ix, iz);
    grad_x_spec(g) * dx + grad_z_spec(g) * dz
}

/// The smoothstep weight `6t^5 - 15t^4 + 10t^3` in fixed point, clamped
/// into `[0, ONE]` to absorb truncation of the powers.
pub open spec fn fade_spec(t: int) -> int {
    let t2 = fp_mul_spec(t, t);
    let t3 = fp_mul_spec(t2, t);
    let t4 = fp_mul_spec(t2, t2);
    let t5 = fp_mul_spec(t4, t);
    clamp_spec(6 * t5 - 15 * t4 + 10 * t3, 0, ONE as int)
}

/// Linear interpolation from `a` to `b` by the fixed-point weight `w`.
pub open spec fn lerp_spec(a: int, b: int, w: int) -> int {
    a + sdiv((b - a) * w, ONE as int)
}

/// One period's worth of gradient noise at the fixed-point coordinate
/// `(x, z)`: the four corner contributions of the enclosing lattice cell,
/// blended by faded cell offsets, halved into `[-ONE, ONE]`.
#[verifier::opaque]
pub open spec fn noise2d_spec(seed: int, x: int, z: int) -> int {
    let rx = x % (PERIOD_FP as int);
    let rz = z % (PERIOD_FP as int);
    let ix = rx / (ONE as int);
    let iz = rz / (ONE as int);
    let fx = rx % (ONE as int);
    let fz = rz % (ONE as int);
    let n00 = corner_spec(seed, ix, iz, fx, fz);
    let n10 = corner_spec(seed, ix + 1, iz, fx - ONE as int, fz);
    let n01 = corner_spec(seed, ix, iz + 1, fx, fz - ONE as int);
    let n11 = corner_spec(seed, ix + 1, iz + 1, fx - ONE as int, fz - ONE as int);
    let u = fade_spec(fx);
    let v = fade_spec(fz);
    let a = lerp_spec(n00, n10, u);
    let b = lerp_spec(n01, n11, u);
    sdiv(lerp_spec(a, b, v), 2)
}

/// Gradient index for a corner, matching `grad_index_spec`.
fn grad_index(seed: u64, ix: i64, iz: i64) -> (g: u64)
    requires
        0 <= ix,
        0 <= iz,
    ensures
        g == grad_index_spec(seed as int, ix as int, iz as int),
        g < 8,
{
    let sx: u64 = (ix as u64) % 256;
    let sz: u64 = (iz as u64) % 256;
    let sd: u64 = seed % 0x1_0000_0000;
    let h1: u64 = (sx * 0x9E3779B1 + sz * 0x85EBCA77 + sd) % 0x1_0000_0000;
    let h2: u64 = (h1 * 0x27D4EB2F) % 0x1_0000_0000;
    (h2 / 4096) % 8
}

/// X component of gradient direction `g`.
fn grad_x_of(g: u64) -> (r: i64)
    requires
        g < 8,
    ensures
        r == grad_x_spec(g as int),
        -1 <= r <= 1,
{
    if g == 0 || g == 2 || g == 4 {
        1
    } else if g == 1 || g == 3 || g == 5 {
        -1
    } else {
        0
    }
}

/// Z component of gradient direction `g`.
fn grad_z_of(g: u64) -> (r: i64)
    requires
        g < 8,
    ensures
        r == grad_z_spec(g as int),
        -1 <= r <= 1,
{
    if g == 0 || g == 1 || g == 6 {
        1
    } else if g == 2 || g == 3 || g == 7 {
        -1
    } else {
        0
    }
}

/// Corner contribution, matching `corner_spec`.
fn corner(seed: u64, ix: i64, iz: i64, dx: i64, dz: i64) -> (r: i64)
    requires
        0 <= ix,
        0 <= iz,
        -(ONE as int) <= dx <= ONE as int,
        -(ONE as int) <= dz <= ONE as int,
    ensures
        r == corner_spec(seed as int, ix as int, iz as int, dx as int, dz as int),
        -2 * ONE as int <= r <= 2 * ONE as int,
{
    let g = grad_index(seed, ix, iz);
    let gx = grad_x_of(g);
    let gz = grad_z_of(g);
    proof {
        assert(-(ONE as int) <= (gx as int) * (dx as int) <= ONE as int) by (nonlinear_arith)
            requires -1 <= gx <= 1, -(ONE as int) <= dx <= ONE as int,
        ;
        assert(-(ONE as int) <= (gz as int) * (dz as int) <= ONE as int) by (nonlinear_arith)
            requires -1 <= gz <= 1, -(ONE as int) <= dz <= ONE as int,
        ;
    }
    gx * dx + gz * dz
}

/// Smoothstep weight, matching `fade_spec`; always within `[0, ONE]`.
fn fade(t: i64) -> (r: i64)
    requires
        0 <= t <= ONE as int,
    ensures
        r == fade_spec(t as int),
        0 <= r <= ONE as int,
{
    proof {
        lemma_fp_mul_unit_range(t as int, t as int);
    }
    let t2 = fp_mul(t, t);
    proof {
        lemma_fp_mul_unit_range(t2 as int, t as int);
        lemma_fp_mul_unit_range(t2 as int, t2 as int);
    }
    let t3 = fp_mul(t2, t);
    let t4 = fp_mul(t2, t2);
    proof {
        lemma_fp_mul_unit_range(t4 as int, t as int);
    }
    let t5 = fp_mul(t4, t);
    clamp(6 * t5 - 15 * t4 + 10 * t3, 0, ONE)
}

/// Linear interpolation, matching `lerp_spec`; the result stays between
/// `a` and `b`.
fn lerp(a: i64, b: i64, w: i64) -> (r: i64)
    requires
        -0x100_0000_0000 <= a <= 0x100_0000_0000,
        -0x100_0000_0000 <= b <= 0x100_0000_0000,
        0 <= w <= ONE as int,
    ensures
        r == lerp_spec(a as int, b as int, w as int),
        a <= b ==> a <= r <= b,
        b <= a ==> b <= r <= a,
{
    let diff: i64 = b - a;
    proof {
        let d = diff as int;
        let wi = w as int;
        if d >= 0 {
            assert(0 <= d * wi <= d * ONE as int) by (nonlinear_arith)
                requires 0 <= wi <= ONE as int, d >= 0,
            ;
            lemma_sdiv_bound(d * wi, ONE as int, d);
        } else {
            assert(d * (ONE as int) <= d * wi <= 0) by (nonlinear_arith)
                requires 0 <= wi <= ONE as int, d < 0,
            ;
            lemma_sdiv_bound(d * wi, ONE as int, -d);
        }
    }
    let p: i64 = diff * w;
    let s = div_trunc(p, ONE);
    a + s
}

/// The fixed-point product of two weights in `[0, ONE]` is again in
/// `[0, ONE]`.
proof fn lemma_fp_mul_unit_range(a: int, b: int)
    requires
        0 <= a <= ONE as int,
        0 <= b <= ONE as int,
    ensures
        0 <= fp_mul_spec(a, b) <= ONE as int,
        a * b <= 0x1_0000_0000,
{
    assert(0 <= a * b <= (ONE as int) * (ONE as int)) by (nonlinear_arith)
        requires 0 <= a <= ONE as int, 0 <= b <= ONE as int,
    ;
    lemma_sdiv_bound(a * b, ONE as int, ONE as int);
    lemma_div_pos_is_pos(a * b, ONE as int);
}

/// A fixed-point coordinate scaled by a frequency and reduced into one
/// lattice period.
pub open spec fn scale_spec(x: int, f: int) -> int {
    sdiv(x * f, ONE as int) % (PERIOD_FP as int)
}

/// Per-octave frequency growth saturates here, so every product in the
/// octave loop stays in range.
pub const FREQ_CAP: i64 = 0x100_0000_0000_0000;

/// Frequency of octave `i`: the base frequency grown by the lacunarity once
/// per octave, saturating at `FREQ_CAP`.
pub open spec fn freq_at(c: NoiseConfig, i: nat) -> int
    decreases i,
{
    if i == 0 {
        c.frequency as int
    } else {
        let f = fp_mul_spec(freq_at(c, (i - 1) as nat), c.lacunarity as int);
        if f > FREQ_CAP as int {
            FREQ_CAP as int
        } else {
            f
        }
    }
}

/// Amplitude of octave `i`: unity shrunk by the persistence once per octave.
pub open spec fn amp_at(c: NoiseConfig, i: nat) -> int
    decreases i,
{
    if i == 0 {
        ONE as int
    } else {
        fp_mul_spec(amp_at(c, (i - 1) as nat), c.persistence as int)
    }
}

/// Sum of the first `i` octaves of noise at `(x, z)`, each octave weighted
/// by its amplitude.
pub open spec fn octave_sum(c: NoiseConfig, x: int, z: int, i: nat) -> int
    decreases i,
{
    if i == 0 {
        0
    } else {
        let k = (i - 1) as nat;
        let f = freq_at(c, k);
        octave_sum(c, x, z, k) + fp_mul_spec(
            noise2d_spec(c.seed as int, scale_spec(x, f), scale_spec(z, f)),
            amp_at(c, k),
        )
    }
}

/// Sum of the first `i` octave amplitudes: the theoretical maximum of
/// `octave_sum`, used to normalize it.
pub open spec fn amp_sum(c: NoiseConfig, i: nat) -> int
    decreases i,
{
    if i == 0 {
        0
    } else {
        amp_sum(c, (i - 1) as nat) + amp_at(c, (i - 1) as nat)
    }
}

/// The fractal noise value at `(x, z)`: the weighted octave sum normalized
/// by the total amplitude, always within `[-ONE, ONE]`.
#[verifier::opaque]
pub open spec fn fractal_spec(c: NoiseConfig, x: int, z: int) -> int {
    sdiv(octave_sum(c, x, z, c.octaves as nat) * (ONE as int), amp_sum(c, c.octaves as nat))
}

/// Scales `x` by the frequency `f` and reduces the result into one lattice
/// period, matching `scale_spec`. The wide product is taken in 128 bits, so
/// no bound on `x` is needed.
fn scale_reduce(x: i64, f: i64) -> (r: i64)
    requires
        0 < f,
    ensures
        r == scale_spec(x as int, f as int),
        0 <= r < PERIOD_FP as int,
{
    proof {
        assert((x as int) * (f as int) < 0x4000_0000_0000_0000_0000_0000_0000_0000
            && -0x4000_0000_0000_0000_0000_0000_0000_0000 <= (x as int) * (f as int))
            by (nonlinear_arith)
            requires
                -0x8000_0000_0000_0000 <= x <= 0x7fff_ffff_ffff_ffff,
                0 < f <= 0x7fff_ffff_ffff_ffff,
        ;
    }
    let p: i128 = (x as i128) * (f as i128);
    if p >= 0 {
        let q: u128 = (p as u128) / 65536;
        let rm: u128 = q % 16777216;
        proof {
            lemma_mod_division_less_than_divisor(q as int, 16777216);
        }
        rm as i64
    } else {
        let mag: u128 = (-p) as u128;
        let qm: u128 = mag / 65536;
        let rm: u128 = qm % 16777216;
        proof {
            lemma_fundamental_div_mod(qm as int, 16777216);
            lemma_mod_division_less_than_divisor(qm as int, 16777216);
            let qq = (qm as int) / 16777216;
            let ri = rm as int;
            if rm == 0 {
                assert((-qq) * 16777216 + 0 == -(16777216 * qq)) by (nonlinear_arith);
                lemma_fundamental_div_mod_converse(-(qm as int), 16777216, -qq, 0);
            } else {
                assert((-qq - 1) * 16777216 + (16777216 - ri) == -(16777216 * qq + ri))
                    by (nonlinear_arith);
                lemma_fundamental_div_mod_converse(
                    -(qm as int),
                    16777216,
                    -qq - 1,
                    16777216 - ri,
                );
            }
        }
        if rm == 0 {
            0
        } else {
            PERIOD_FP - (rm as i64)
        }
    }
}

/// Advances the per-octave frequency by one lacunarity step, saturating at
/// `FREQ_CAP`.
fn freq_step(f: i64, lac: i64) -> (r: i64)
    requires
        1 <= f <= FREQ_CAP as int,
        ONE as int <= lac <= LACUNARITY_MAX as int,
    ensures
        r == freq_at_step(f as int, lac as int),
        1 <= r <= FREQ_CAP as int,
{
    proof {
        assert((f as int) * (lac as int) <= 0x4_0000_0000_0000_0000_0000)
            by (nonlinear_arith)
            requires 1 <= f <= FREQ_CAP as int, lac <= LACUNARITY_MAX as int,
        ;
        assert((f as int) * (ONE as int) <= (f as int) * (lac as int)) by (nonlinear_arith)
            requires 1 <= f, ONE as int <= lac,
        ;
        lemma_div_pos_is_pos((f as int) * (lac as int), ONE as int);
        lemma_div_is_ordered((f as int) * (ONE as int), (f as int) * (lac as int), ONE as int);
        lemma_div_multiples_vanish(f as int, ONE as int);
        assert((ONE as int) * (f as int) == (f as int) * (ONE as int)) by (nonlinear_arith);
    }
    let p: i128 = (f as i128) * (lac as i128);
    let q: u128 = (p as u128) / 65536;
    if q > (FREQ_CAP as u128) {
        FREQ_CAP
    } else {
        q as i64
    }
}

/// One saturating lacunarity step of the frequency.
pub open spec fn freq_at_step(f: int, lac: int) -> int {
    let g = fp_mul_spec(f, lac);
    if g > FREQ_CAP as int {
        FREQ_CAP as int
    } else {
        g
    }
}

/// A weighted octave stays within its amplitude: `|n| <= ONE` and
/// `0 <= amp` give `|fp_mul_spec(n, amp)| <= amp`.
proof fn lemma_fp_mul_amp_bound(n: int, amp: int)
    requires
        -(ONE as int) <= n <= ONE as int,
        0 <= amp,
    ensures
        -amp <= fp_mul_spec(n, amp) <= amp,
{
    assert(-(amp * ONE as int) <= n * amp <= amp * ONE as int) by (nonlinear_arith)
        requires -(ONE as int) <= n <= ONE as int, 0 <= amp,
    ;
    lemma_sdiv_bound(n * amp, ONE as int, amp);
}

impl NoiseConfig {
    /// Gradient noise at the fixed-point coordinate `(x, z)`, in
    /// `[-ONE, ONE]`; an exact function of the seed and the coordinate.
    #[verifier::rlimit(50)]
    pub fn noise2d(&self, x: i64, z: i64) -> (r: i64)
        ensures
            r == noise2d_spec(self.seed as int, x as int, z as int),
            -(ONE as int) <= r <= ONE as int,
    {
        proof {
            reveal(noise2d_spec);
        }
        let rx = rem_floor(x, PERIOD_FP);
        let rz = rem_floor(z, PERIOD_FP);
        let ix = ((rx as u64) / 65536) as i64;
        let iz = ((rz as u64) / 65536) as i64;
        let fx = ((rx as u64) % 65536) as i64;
        let fz = ((rz as u64) % 65536) as i64;
        let n00 = corner(self.seed, ix, iz, fx, fz);
        let n10 = corner(self.seed, ix + 1, iz, fx - ONE, fz);
        let n01 = corner(self.seed, ix, iz + 1, fx, fz - ONE);
        let n11 = corner(self.seed, ix + 1, iz + 1, fx - ONE, fz - ONE);
        let u = fade(fx);
        let v = fade(fz);
        let a = lerp(n00, n10, u);
        let b = lerp(n01, n11, u);
        let m = lerp(a, b, v);
        proof {
            lemma_sdiv_bound(m as int, 2, ONE as int);
        }
        div_trunc(m, 2)
    }

    /// Fractal noise at `(x, z)`: `octaves` layers of `noise2d`, layer `i`
    /// sampled at the coordinate scaled by the octave frequency and weighted
    /// by `persistence^i`, normalized into `[-ONE, ONE]` by the total
    /// amplitude. An exact function of the configuration and the coordinate,
    /// so repeated evaluation on identical inputs is identical.
    pub fn fractal(&self, x: i64, z: i64) -> (r: i64)
        requires
            self.wf(),
        ensures
            r == fractal_spec(*self, x as int, z as int),
            -(ONE as int) <= r <= ONE as int,
    {
        let mut sum: i64 = 0;
        let mut asum: i64 = 0;
        let mut freq: i64 = self.frequency;
        let mut amp: i64 = ONE;
        let mut i: u32 = 0;
        while i < self.octaves
            invariant
                self.wf(),
                0 <= i <= self.octaves,
                freq == freq_at(*self, i as nat),
                amp == amp_at(*self, i as nat),
                sum == octave_sum(*self, x as int, z as int, i as nat),
                asum == amp_sum(*self, i as nat),
                1 <= freq <= FREQ_CAP as int,
                0 <= amp <= ONE as int,
                asum <= (i as int) * (ONE as int),
                i == 0 ==> asum == 0,
                i >= 1 ==> ONE as int <= asum,
                -asum <= sum <= asum,
            decreases self.octaves - i,
        {
            let sx = scale_reduce(x, freq);
            let sz = scale_reduce(z, freq);
            let nval = self.noise2d(sx, sz);
            proof {
                lemma_fp_mul_amp_bound(nval as int, amp as int);
            }
            let w = fp_mul(nval, amp);
            sum = sum + w;
            asum = asum + amp;
            freq = freq_step(freq, self.lacunarity);
            proof {
                lemma_fp_mul_unit_range(amp as int, self.persistence as int);
            }
            amp = fp_mul(amp, self.persistence);
            i = i + 1;
        }
        proof {
            reveal(fractal_spec);
            lemma_sdiv_bound((sum as int) * (ONE as int), asum as int, ONE as int);
        }
        div_trunc(sum * ONE, asum)
    }
}

/// The gradient noise repeats with the lattice period: shifting either
/// coordinate by a whole period leaves the value unchanged.
pub proof fn lemma_noise_periodic(seed: int, x: int, z: int)
    ensures
        noise2d_spec(seed, x + PERIOD_FP as int, z) == noise2d_spec(seed, x, z),
        noise2d_spec(seed, x, z + PERIOD_FP as int) == noise2d_spec(seed, x, z),
{
    reveal(noise2d_spec);
    vstd::arithmetic::div_mod::lemma_mod_add_multiples_vanish(x, PERIOD_FP as int);
    vstd::arithmetic::div_mod::lemma_mod_add_multiples_vanish(z, PERIOD_FP as int);
}

/// Determinism of the fractal noise: any two evaluations on the same
/// configuration and the same coordinate yield the same value.
pub proof fn lemma_fractal_deterministic(c: NoiseConfig, x: int, z: int, r1: int, r2: int)
    requires
        r1 == fractal_spec(c, x, z),
        r2 == fractal_spec(c, x, z),
    ensures
        r1 == r2,
{
}

} // verus!
