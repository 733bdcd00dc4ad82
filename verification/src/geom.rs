//! Fixed-point 2D vectors and vector normalization.

use vstd::prelude::*;
use crate::fixed::{FX_ONE, div_trunc, sqrt_floor, fx_div, isqrt};

verus! {

/// Largest magnitude a component handed to `normalize` may have.
pub const FX_NORM_MAX: i64 = 0x100_0000;

/// A 2D vector of fixed-point scalars.
#[derive(Clone, Copy, PartialEq, Eq, Structural, Debug)]
pub struct Vec2 {
    pub x: i64,
    pub y: i64,
}

impl Vec2 {
    pub fn new(x: i64, y: i64) -> (r: Vec2)
        ensures
            r.x == x,
            r.y == y,
    {
        Vec2 { x, y }
    }

    pub fn zero() -> (r: Vec2)
        ensures
            r.x == 0,
            r.y == 0,
    {
        Vec2 { x: 0, y: 0 }
    }
}

/// Squared magnitude, as a mathematical integer.
pub open spec fn mag_sq(v: Vec2) -> int {
    v.x * v.x + v.y * v.y
}

/// Fixed-point normalization: the zero vector stays zero; any other vector
/// is scaled by `FX_ONE / sqrt(mag_sq)`, each component rounded toward zero.
pub open spec fn spec_normalize(v: Vec2) -> (int, int) {
    let s = mag_sq(v);
    if s == 0 {
        (v.x as int, v.y as int)
    } else {
        let m = sqrt_floor(s as nat) as int;
        (div_trunc(v.x * FX_ONE, m), div_trunc(v.y * FX_ONE, m))
    }
}

/// Squares are non-negative, and positive off zero.
pub proof fn lemma_sq_nonneg(a: int)
    ensures
        a * a >= 0,
        a != 0 ==> a * a >= 1,
{
    assert(a * a >= 0 && (a != 0 ==> a * a >= 1)) by (nonlinear_arith) {}
}

/// Truncating division keeps a symmetric bound.
pub proof fn lemma_div_trunc_bound(a: int, m: int, b: int)
    requires
        m >= 1,
        b >= 0,
        -(m * b) <= a <= m * b,
    ensures
        -b <= div_trunc(a, m) <= b,
{
    vstd::arithmetic::div_mod::lemma_div_by_multiple(b, m);
    assert(b * m == m * b) by (nonlinear_arith) {}
    if a >= 0 {
        vstd::arithmetic::div_mod::lemma_div_is_ordered(a, m * b, m);
        vstd::arithmetic::div_mod::lemma_div_pos_is_pos(a, m);
    } else {
        vstd::arithmetic::div_mod::lemma_div_is_ordered(-a, m * b, m);
        vstd::arithmetic::div_mod::lemma_div_pos_is_pos(-a, m);
    }
}

/// A component of a non-zero vector is bounded by the root of the magnitude.
proof fn lemma_component_le_root(c: int, s: int, m: int)
    requires
        c * c <= s,
        s < (m + 1) * (m + 1),
        m >= 0,
    ensures
        -m <= c <= m,
{
    assert(-m <= c <= m) by (nonlinear_arith)
        requires
            c * c <= s,
            s < (m + 1) * (m + 1),
            m >= 0,
        {}
}

/// Squared magnitude of the normalized vector.
pub open spec fn norm_mag_sq(v: Vec2) -> int {
    let (nx, ny) = spec_normalize(v);
    nx * nx + ny * ny
}

/// One coordinate of the normalization, squared and scaled by `m * m`,
/// sits within `2 * m * m * FX_ONE` below the exact value.
proof fn lemma_coord_div_sq(c: int, m: int)
    requires
        m >= 1,
        -m <= c <= m,
    ensures
        m * m * (div_trunc(c * FX_ONE, m) * div_trunc(c * FX_ONE, m)) <= (c * FX_ONE) * (c
            * FX_ONE),
        m * m * (div_trunc(c * FX_ONE, m) * div_trunc(c * FX_ONE, m)) >= (c * FX_ONE) * (c
            * FX_ONE) - 2 * (m * m) * FX_ONE,
{
    let a = c * FX_ONE;
    let p = if c >= 0 { a } else { -a };
    assert(0 <= p <= m * FX_ONE);
    let q = p / m;
    vstd::arithmetic::div_mod::lemma_div_pos_is_pos(p, m);
    vstd::arithmetic::div_mod::lemma_remainder(p, m);
    let e = p - q * m;
    let dt = div_trunc(a, m);
    assert(dt == q || dt == -q);
    assert(dt * dt == q * q) by (nonlinear_arith)
        requires
            dt == q || dt == -q,
        {}
    assert(q * m == p - e);
    assert((q * m) * (q * m) <= p * p) by (nonlinear_arith)
        requires
            0 <= q * m <= p,
        {}
    assert(p * e <= (m * FX_ONE) * m) by (nonlinear_arith)
        requires
            0 <= p <= m * FX_ONE,
            0 <= e <= m,
        {}
    assert((q * m) * (q * m) >= p * p - 2 * (p * e)) by (nonlinear_arith)
        requires
            q * m == p - e,
            e >= 0,
        {}
    assert((q * m) * (q * m) == m * m * (q * q)) by (nonlinear_arith) {}
    assert(p * p == a * a) by (nonlinear_arith)
        requires
            p == a || p == -a,
        {}
    assert((m * FX_ONE) * m == (m * m) * FX_ONE) by (nonlinear_arith) {}
}

/// With normalization requested, a non-zero vector comes out with a squared
/// magnitude within rounding error of one unit: never more than a few
/// rounding steps below `FX_ONE * FX_ONE`; scaled by the root of the input
/// magnitude it never exceeds the exact value; and — once the input is at
/// least 1/16 of a unit long — it is not meaningfully above one either.
/// Together with `normalize` keeping the zero vector at zero, the magnitude
/// of a normalized sample is (up to rounding) either zero or one, never
/// anything strictly in between.
pub proof fn lemma_normalize_unit_magnitude(v: Vec2)
    requires
        -FX_NORM_MAX <= v.x <= FX_NORM_MAX,
        -FX_NORM_MAX <= v.y <= FX_NORM_MAX,
        mag_sq(v) != 0,
    ensures
        norm_mag_sq(v) >= FX_ONE * FX_ONE - 4 * FX_ONE,
        (sqrt_floor(mag_sq(v) as nat) * sqrt_floor(mag_sq(v) as nat)) * norm_mag_sq(v)
            <= mag_sq(v) * (FX_ONE * FX_ONE),
        mag_sq(v) >= 0x100_0000 ==> norm_mag_sq(v) <= FX_ONE * FX_ONE + 0x30_0000,
{
    let s = mag_sq(v);
    lemma_sq_nonneg(v.x as int);
    lemma_sq_nonneg(v.y as int);
    assert(s >= 1);
    crate::fixed::lemma_sqrt_floor_bounds(s as nat);
    let m = sqrt_floor(s as nat) as int;
    assert(m >= 1) by (nonlinear_arith)
        requires
            s < (m + 1) * (m + 1),
            s >= 1,
            m >= 0,
        {}
    lemma_component_le_root(v.x as int, s, m);
    lemma_component_le_root(v.y as int, s, m);
    lemma_coord_div_sq(v.x as int, m);
    lemma_coord_div_sq(v.y as int, m);
    let nx = div_trunc(v.x * FX_ONE, m);
    let ny = div_trunc(v.y * FX_ONE, m);
    assert((v.x * FX_ONE) * (v.x * FX_ONE) == (v.x * v.x) * (FX_ONE * FX_ONE))
        by (nonlinear_arith) {}
    assert((v.y * FX_ONE) * (v.y * FX_ONE) == (v.y * v.y) * (FX_ONE * FX_ONE))
        by (nonlinear_arith) {}
    // summed, scaled by m * m:
    assert(m * m * (nx * nx + ny * ny) == m * m * (nx * nx) + m * m * (ny * ny))
        by (nonlinear_arith) {}
    assert((v.x * v.x) * (FX_ONE * FX_ONE) + (v.y * v.y) * (FX_ONE * FX_ONE) == s * (FX_ONE
        * FX_ONE)) by (nonlinear_arith)
        requires
            s == v.x * v.x + v.y * v.y,
        {}
    assert(m * m * (nx * nx + ny * ny) >= s * (FX_ONE * FX_ONE) - 4 * (m * m) * FX_ONE);
    assert(m * m * (nx * nx + ny * ny) <= s * (FX_ONE * FX_ONE));
    // lower bound: s >= m * m
    assert(s * (FX_ONE * FX_ONE) >= (m * m) * (FX_ONE * FX_ONE)) by (nonlinear_arith)
        requires
            s >= m * m,
        {}
    assert(m * m * (nx * nx + ny * ny) >= (m * m) * (FX_ONE * FX_ONE - 4 * FX_ONE))
        by (nonlinear_arith)
        requires
            m * m * (nx * nx + ny * ny) >= (m * m) * (FX_ONE * FX_ONE) - 4 * (m * m) * FX_ONE,
        {}
    assert(nx * nx + ny * ny >= FX_ONE * FX_ONE - 4 * FX_ONE) by (nonlinear_arith)
        requires
            m * m * (nx * nx + ny * ny) >= (m * m) * (FX_ONE * FX_ONE - 4 * FX_ONE),
            m >= 1,
        {}
    // upper bound, once the input vector is not too short:
    if s >= 0x100_0000 {
        assert(m >= 0x1000) by (nonlinear_arith)
            requires
                s < (m + 1) * (m + 1),
                s >= 0x100_0000,
                m >= 1,
            {}
        assert(s <= m * m + 3 * m) by (nonlinear_arith)
            requires
                s < (m + 1) * (m + 1),
                m >= 1,
            {}
        assert(s * (FX_ONE * FX_ONE) <= (m * m) * (FX_ONE * FX_ONE + 0x30_0000))
            by (nonlinear_arith)
            requires
                s <= m * m + 3 * m,
                m >= 0x1000,
            {}
        assert(nx * nx + ny * ny <= FX_ONE * FX_ONE + 0x30_0000) by (nonlinear_arith)
            requires
                m * m * (nx * nx + ny * ny) <= (m * m) * (FX_ONE * FX_ONE + 0x30_0000),
                m >= 1,
            {}
    }
}

/// Normalize a fixed-point vector.  The zero vector is returned unchanged;
/// otherwise each resulting component lies in `[-FX_ONE, FX_ONE]`.
pub fn normalize(v: Vec2) -> (r: Vec2)
    requires
        -FX_NORM_MAX <= v.x <= FX_NORM_MAX,
        -FX_NORM_MAX <= v.y <= FX_NORM_MAX,
    ensures
        r.x == spec_normalize(v).0,
        r.y == spec_normalize(v).1,
        mag_sq(v) != 0 ==> -FX_ONE <= r.x <= FX_ONE && -FX_ONE <= r.y <= FX_ONE,
        mag_sq(v) == 0 ==> r == v,
{
    proof {
        lemma_sq_nonneg(v.x as int);
        lemma_sq_nonneg(v.y as int);
        assert(v.x * v.x <= FX_NORM_MAX * FX_NORM_MAX) by (nonlinear_arith)
            requires
                -FX_NORM_MAX <= v.x <= FX_NORM_MAX,
            {}
        assert(v.y * v.y <= FX_NORM_MAX * FX_NORM_MAX) by (nonlinear_arith)
            requires
                -FX_NORM_MAX <= v.y <= FX_NORM_MAX,
            {}
    }
    let s: i64 = v.x * v.x + v.y * v.y;
    if s == 0 {
        proof {
            assert(v.x == 0 && v.y == 0) by (nonlinear_arith)
                requires
                    v.x * v.x + v.y * v.y == 0,
                {}
        }
        v
    } else {
        let m64: u64 = isqrt(s as u64);
        proof {
            let mi = m64 as int;
            let si = s as int;
            assert(mi * mi <= si);
            assert(mi < 0x200_0000) by (nonlinear_arith)
                requires
                    mi * mi <= si,
                    si <= 0x2_0000_0000_0000,
                    mi >= 0,
                {}
        }
        let m: i64 = m64 as i64;
        proof {
            assert(m64 >= 1) by (nonlinear_arith)
                requires
                    (s as u64) < (m64 + 1) * (m64 + 1),
                    s >= 1,
                    s as u64 == s,
                {}
        }
        proof {
            lemma_component_le_root(v.x as int, s as int, m as int);
            lemma_component_le_root(v.y as int, s as int, m as int);
            lemma_div_trunc_bound(v.x * FX_ONE, m as int, FX_ONE as int);
            lemma_div_trunc_bound(v.y * FX_ONE, m as int, FX_ONE as int);
            assert(m * FX_ONE <= 0x200_0000 * FX_ONE) by (nonlinear_arith)
                requires
                    0 <= m <= 0x200_0000,
                {}
        }
        let rx = fx_div(v.x * FX_ONE, m);
        let ry = fx_div(v.y * FX_ONE, m);
        Vec2 { x: rx, y: ry }
    }
}

} // verus!
