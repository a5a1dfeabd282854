//! 16.16 fixed-point arithmetic: truncating and flooring division on signed
//! values, fixed-point multiplication, clamping, and an integer square root.
//! Executable division and remainder are carried out on unsigned magnitudes;
//! the spec functions here give their exact mathematical meaning.

use vstd::prelude::*;

verus! {

use vstd::arithmetic::div_mod::{
    lemma_div_is_ordered, lemma_div_multiples_vanish, lemma_div_nonincreasing,
    lemma_div_pos_is_pos, lemma_fundamental_div_mod, lemma_fundamental_div_mod_converse,
    lemma_mod_division_less_than_divisor,
};

/// Number of fixed-point units in one whole unit: values carry 16 fraction bits.
pub const ONE: i64 = 65536;

/// Truncating (round-toward-zero) division by a positive divisor: the meaning
/// of the executable sign-magnitude division `div_trunc`.
pub open spec fn sdiv(a: int, b: int) -> int
    recommends
        b > 0,
{
    if a >= 0 {
        a / b
    } else {
        -((-a) / b)
    }
}

/// `v` clamped into the interval `[lo, hi]`.
pub open spec fn clamp_spec(v: int, lo: int, hi: int) -> int
    recommends
        lo <= hi,
{
    if v < lo {
        lo
    } else if v > hi {
        hi
    } else {
        v
    }
}

/// Product of two fixed-point values, rescaled by truncating division.
pub open spec fn fp_mul_spec(a: int, b: int) -> int {
    sdiv(a * b, ONE as int)
}

/// `r` is the integer square root of `n`.
pub open spec fn is_isqrt(n: int, r: int) -> bool {
    0 <= r && r * r <= n && n < (r + 1) * (r + 1)
}

/// Truncating division of a signed value by a positive divisor, computed on
/// unsigned magnitudes.
pub fn div_trunc(a: i64, b: i64) -> (r: i64)
    requires
        b > 0,
        a > i64::MIN,
    ensures
        r == sdiv(a as int, b as int),
{
    if a >= 0 {
        let q: u64 = (a as u64) / (b as u64);
        proof {
            lemma_div_pos_is_pos(a as int, b as int);
            lemma_div_nonincreasing(a as int, b as int);
        }
        q as i64
    } else {
        let m: u64 = (-a) as u64;
        let q: u64 = m / (b as u64);
        proof {
            lemma_div_pos_is_pos(m as int, b as int);
            lemma_div_nonincreasing(m as int, b as int);
        }
        -(q as i64)
    }
}

/// Flooring division of a signed value by a positive divisor; agrees with the
/// Euclidean `/` of the specification language.
pub fn div_floor(x: i64, m: i64) -> (r: i64)
    requires
        m > 0,
        x > i64::MIN,
    ensures
        r == (x as int) / (m as int),
{
    if x >= 0 {
        let q: u64 = (x as u64) / (m as u64);
        proof {
            lemma_div_pos_is_pos(x as int, m as int);
            lemma_div_nonincreasing(x as int, m as int);
        }
        q as i64
    } else {
        let mag: u64 = (-x) as u64;
        let q: u64 = mag / (m as u64);
        let rem: u64 = mag % (m as u64);
        proof {
            lemma_fundamental_div_mod(mag as int, m as int);
            lemma_mod_division_less_than_divisor(mag as int, m as int);
            lemma_div_pos_is_pos(mag as int, m as int);
            lemma_div_nonincreasing(mag as int, m as int);
            let qi = q as int;
            let mi = m as int;
            let ri = rem as int;
            assert(mag as int == mi * qi + ri);
            if rem == 0 {
                assert((-qi) * mi + 0 == -(mi * qi)) by (nonlinear_arith);
                lemma_fundamental_div_mod_converse(x as int, mi, -qi, 0);
            } else {
                assert((-qi - 1) * mi + (mi - ri) == -(mi * qi + ri)) by (nonlinear_arith);
                lemma_fundamental_div_mod_converse(x as int, mi, -qi - 1, mi - ri);
            }
        }
        if rem == 0 {
            -(q as i64)
        } else {
            -(q as i64) - 1
        }
    }
}

/// Euclidean remainder of a signed value modulo a positive divisor; the
/// result always lies in `[0, m)`.
pub fn rem_floor(x: i64, m: i64) -> (r: i64)
    requires
        m > 0,
    ensures
        r == (x as int) % (m as int),
        0 <= r < m,
{
    if x >= 0 {
        let r: u64 = (x as u64) % (m as u64);
        proof {
            lemma_fundamental_div_mod(x as int, m as int);
        }
        r as i64
    } else {
        let mag: u64 = ((-(x as i128)) as u64);
        let rm: u64 = mag % (m as u64);
        proof {
            lemma_fundamental_div_mod(mag as int, m as int);
            lemma_mod_division_less_than_divisor(mag as int, m as int);
            let qi = mag as int / m as int;
            let mi = m as int;
            let ri = rm as int;
            assert(mag as int == mi * qi + ri);
            if rm == 0 {
                assert((-qi) * mi + 0 == -(mi * qi)) by (nonlinear_arith);
                lemma_fundamental_div_mod_converse(x as int, mi, -qi, 0);
            } else {
                assert((-qi - 1) * mi + (mi - ri) == -(mi * qi + ri)) by (nonlinear_arith);
                lemma_fundamental_div_mod_converse(x as int, mi, -qi - 1, mi - ri);
            }
        }
        if rm == 0 {
            0
        } else {
            m - (rm as i64)
        }
    }
}

/// Round-to-nearest division (halves away from zero) by a positive divisor:
/// the meaning of the executable `div_round`.
pub open spec fn sdiv_round(a: int, b: int) -> int
    recommends
        b > 0,
{
    if a >= 0 {
        (2 * a + b) / (2 * b)
    } else {
        -((2 * -a + b) / (2 * b))
    }
}

/// Round-to-nearest division of a signed value by a positive divisor.
pub fn div_round(a: i64, b: i64) -> (r: i64)
    requires
        0 < b <= 0x1000_0000_0000_0000,
        -0x1000_0000_0000_0000 <= a <= 0x1000_0000_0000_0000,
    ensures
        r == sdiv_round(a as int, b as int),
{
    if a >= 0 {
        let q: u64 = (2 * (a as u64) + (b as u64)) / (2 * (b as u64));
        proof {
            lemma_div_pos_is_pos(2 * (a as int) + b as int, 2 * (b as int));
            lemma_div_nonincreasing(2 * (a as int) + b as int, 2 * (b as int));
        }
        q as i64
    } else {
        let m: u64 = (-a) as u64;
        let q: u64 = (2 * m + (b as u64)) / (2 * (b as u64));
        proof {
            lemma_div_pos_is_pos(2 * (m as int) + b as int, 2 * (b as int));
            lemma_div_nonincreasing(2 * (m as int) + b as int, 2 * (b as int));
        }
        -(q as i64)
    }
}

/// The rounding quotient of `a / b` is bounded by `c` whenever `|a| <= c * b`.
pub proof fn lemma_sdiv_round_bound(a: int, b: int, c: int)
    requires
        b > 0,
        c >= 0,
        -(c * b) <= a <= c * b,
    ensures
        -c <= sdiv_round(a, b) <= c,
{
    assert(c * (2 * b) + b == 2 * (c * b) + b) by (nonlinear_arith);
    lemma_fundamental_div_mod_converse(2 * (c * b) + b, 2 * b, c, b);
    if a >= 0 {
        lemma_div_pos_is_pos(2 * a + b, 2 * b);
        lemma_div_is_ordered(2 * a + b, 2 * (c * b) + b, 2 * b);
    } else {
        lemma_div_pos_is_pos(2 * -a + b, 2 * b);
        lemma_div_is_ordered(2 * -a + b, 2 * (c * b) + b, 2 * b);
    }
}

/// Fixed-point multiplication: `a * b` rescaled back into fixed-point units.
pub fn fp_mul(a: i64, b: i64) -> (r: i64)
    requires
        -0x7fff_ffff_ffff_ffff <= a * b <= 0x7fff_ffff_ffff_ffff,
    ensures
        r == fp_mul_spec(a as int, b as int),
{
    let p: i64 = a * b;
    div_trunc(p, ONE)
}

/// `v` clamped into `[lo, hi]`.
pub fn clamp(v: i64, lo: i64, hi: i64) -> (r: i64)
    requires
        lo <= hi,
    ensures
        r == clamp_spec(v as int, lo as int, hi as int),
        lo <= r <= hi,
{
    if v < lo {
        lo
    } else if v > hi {
        hi
    } else {
        v
    }
}

/// Integer square root by bisection.
pub fn isqrt(n: u64) -> (r: u64)
    ensures
        is_isqrt(n as int, r as int),
        r <= 0xffff_ffff,
{
    if n == 0 {
        return 0;
    }
    let mut lo: u64 = 0;
    let mut hi: u64 = 0x1_0000_0000;
    assert((n as int) < (hi as int) * (hi as int)) by (nonlinear_arith)
        requires n <= 0xffff_ffff_ffff_ffff, hi == 0x1_0000_0000,
    ;
    while lo + 1 < hi
        invariant
            0 <= lo < hi <= 0x1_0000_0000,
            (lo as int) * (lo as int) <= n as int,
            (n as int) < (hi as int) * (hi as int),
        decreases hi - lo,
    {
        let mid: u64 = lo + (hi - lo) / 2;
        assert(lo < mid < hi);
        assert(mid * mid <= 0xffff_ffff * 0xffff_ffff) by (nonlinear_arith)
            requires 0 < mid <= 0xffff_ffff,
        ;
        if mid * mid <= n {
            lo = mid;
        } else {
            hi = mid;
        }
    }
    lo
}

/// The truncating quotient of `a / b` is bounded by `c` whenever `|a| <= c * b`.
pub proof fn lemma_sdiv_bound(a: int, b: int, c: int)
    requires
        b > 0,
        c >= 0,
        -(c * b) <= a <= c * b,
    ensures
        -c <= sdiv(a, b) <= c,
{
    if a >= 0 {
        lemma_div_pos_is_pos(a, b);
        lemma_div_is_ordered(a, c * b, b);
        lemma_div_multiples_vanish(c, b);
        assert(b * c == c * b) by (nonlinear_arith);
    } else {
        lemma_div_pos_is_pos(-a, b);
        lemma_div_is_ordered(-a, c * b, b);
        lemma_div_multiples_vanish(c, b);
        assert(b * c == c * b) by (nonlinear_arith);
    }
}

/// The integer square root as a spec-level value: the unique `r` with
/// `r * r <= n < (r + 1) * (r + 1)`.
pub open spec fn isqrt_spec(n: int) -> int
    recommends
        n >= 0,
{
    choose|r: int| is_isqrt(n, r)
}

/// Any witness of `is_isqrt` is the value of `isqrt_spec`: the square root
/// is unique.
pub proof fn lemma_isqrt_unique(n: int, r: int)
    requires
        is_isqrt(n, r),
    ensures
        r == isqrt_spec(n),
{
    assert(exists|w: int| is_isqrt(n, w));
    let w = isqrt_spec(n);
    assert(is_isqrt(n, w));
    if w < r {
        assert((w + 1) * (w + 1) <= r * r) by (nonlinear_arith)
            requires 0 <= w, 0 <= r, w + 1 <= r,
        ;
    }
    if r < w {
        assert((r + 1) * (r + 1) <= w * w) by (nonlinear_arith)
            requires 0 <= w, 0 <= r, r + 1 <= w,
        ;
    }
}

} // verus!
