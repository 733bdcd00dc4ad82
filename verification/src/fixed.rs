//! Fixed-point scalars: an `i64` counting units of `1 / FX_ONE`.

use vstd::prelude::*;

verus! {

/// One whole unit in fixed-point representation.
pub const FX_ONE: i64 = 65536;

/// Largest magnitude a fixed-point coordinate handed to the library may have.
/// Keeps every intermediate product inside `i64`.
pub const FX_POS_MAX: i64 = 0x100_0000_0000;

/// Truncating division (round toward zero), as Rust's `/` computes it.
/// In spec arithmetic `/` is Euclidean, so the negative case is spelled out.
pub open spec fn div_trunc(a: int, b: int) -> int
    recommends
        b > 0,
{
    if a >= 0 {
        a / b
    } else {
        -((-a) / b)
    }
}

/// Truncating division on fixed-point scalars.
pub fn fx_div(a: i64, b: i64) -> (r: i64)
    requires
        b >= 1,
        a > i64::MIN,
    ensures
        r == div_trunc(a as int, b as int),
{
    if a >= 0 {
        let q: u64 = (a as u64) / (b as u64);
        q as i64
    } else {
        let q: u64 = ((-a) as u64) / (b as u64);
        assert(q <= (-a) as u64) by {
            vstd::arithmetic::div_mod::lemma_div_is_ordered_by_denominator(
                (-a) as int, 1, b as int);
        }
        -(q as i64)
    }
}

/// Floor of the square root, as a recursive specification.
pub open spec fn sqrt_floor(n: nat) -> nat
    decreases n,
{
    if n == 0 {
        0
    } else {
        let r = sqrt_floor((n - 1) as nat);
        if (r + 1) * (r + 1) <= n {
            r + 1
        } else {
            r
        }
    }
}

/// `sqrt_floor(n)` really is the floor of the square root of `n`.
pub proof fn lemma_sqrt_floor_bounds(n: nat)
    ensures
        sqrt_floor(n) * sqrt_floor(n) <= n,
        n < (sqrt_floor(n) + 1) * (sqrt_floor(n) + 1),
    decreases n,
{
    if n > 0 {
        lemma_sqrt_floor_bounds((n - 1) as nat);
        let r = sqrt_floor((n - 1) as nat);
        if (r + 1) * (r + 1) <= n {
            assert(sqrt_floor(n) == r + 1);
            assert(n < (r + 2) * (r + 2)) by (nonlinear_arith)
                requires
                    n - 1 < (r + 1) * (r + 1),
            {}
        } else {
            assert(sqrt_floor(n) == r);
            assert(r * r <= n - 1 <= n);
        }
    } else {
        assert(sqrt_floor(n) == 0);
        assert(0int < (0nat + 1) * (0nat + 1)) by (nonlinear_arith) {}
    }
}

/// Any integer squeezed between consecutive squares is the square root floor.
pub proof fn lemma_sqrt_floor_unique(n: nat, m: nat)
    requires
        m * m <= n,
        n < (m + 1) * (m + 1),
    ensures
        m == sqrt_floor(n),
{
    lemma_sqrt_floor_bounds(n);
    let r = sqrt_floor(n);
    if m < r {
        assert((m + 1) * (m + 1) <= r * r) by (nonlinear_arith)
            requires
                m + 1 <= r,
            {}
    }
    if r < m {
        assert((r + 1) * (r + 1) <= m * m) by (nonlinear_arith)
            requires
                r + 1 <= m,
            {}
    }
}

/// Integer square root by binary search.
pub fn isqrt(n: u64) -> (r: u64)
    ensures
        r == sqrt_floor(n as nat),
        r * r <= n,
        n < (r + 1) * (r + 1),
{
    let mut lo: u64 = 0;
    let mut hi: u64 = 0xFFFF_FFFF;
    assert(n < (hi + 1) * (hi + 1)) by (nonlinear_arith)
        requires
            hi == 0xFFFF_FFFFu64,
            n <= u64::MAX,
        {}
    while lo < hi
        invariant
            lo <= hi <= 0xFFFF_FFFF,
            lo * lo <= n,
            n < (hi + 1) * (hi + 1),
        decreases hi - lo,
    {
        let mid: u64 = lo + (hi - lo + 1) / 2;
        assert(lo < mid <= hi);
        assert(mid * mid <= 0xFFFF_FFFF * 0xFFFF_FFFF) by (nonlinear_arith)
            requires
                mid <= 0xFFFF_FFFF,
            {}
        if mid * mid <= n {
            lo = mid;
        } else {
            hi = mid - 1;
        }
    }
    proof {
        lemma_sqrt_floor_unique(n as nat, lo as nat);
    }
    lo
}

} // verus!
