//! Fixed-point base: the global scale, sign-aware division, and the integer
//! square root that all magnitudes and distances are built on.

use vstd::prelude::*;

verus! {

/// Raw units per spatial unit (meter): all positions, velocities and unit
/// vectors carry this scale.
pub const SCALE: i64 = 1000000;

/// Largest admissible position component (2 * 10^4 units), chosen so that
/// every intermediate product of the guidance quadratic fits in 128 bits.
pub const POS_LIMIT: i64 = 20000000000;

/// Largest admissible velocity component (10 units per tick).
pub const VEL_LIMIT: i64 = 10000000;

/// Division that rounds toward zero, the rounding used throughout the
/// fixed-point arithmetic (for a non-negative dividend it coincides with
/// Euclidean division).
pub open spec fn div0(a: int, b: int) -> int {
    if a >= 0 {
        a / b
    } else {
        -((-a) / b)
    }
}

/// The integer square root: the largest `r` with `r * r <= n` (and 0 for
/// negative arguments).
pub open spec fn sqrt_floor(n: int) -> int
    decreases n,
{
    if n <= 0 {
        0
    } else {
        let p = sqrt_floor(n - 1);
        if (p + 1) * (p + 1) <= n {
            p + 1
        } else {
            p
        }
    }
}

pub proof fn lemma_sqrt_floor_bracket(n: int)
    requires
        n >= 0,
    ensures
        0 <= sqrt_floor(n),
        sqrt_floor(n) * sqrt_floor(n) <= n,
        n < (sqrt_floor(n) + 1) * (sqrt_floor(n) + 1),
    decreases n,
{
    if n == 0 {
    } else {
        lemma_sqrt_floor_bracket(n - 1);
        let p = sqrt_floor(n - 1);
        if (p + 1) * (p + 1) <= n {
            assert((p + 2) * (p + 2) > n) by (nonlinear_arith)
                requires
                    n - 1 < (p + 1) * (p + 1),
                    p >= 0,
            ;
        }
    }
}

pub proof fn lemma_sqrt_floor_unique(n: int, r: int)
    requires
        n >= 0,
        r >= 0,
        r * r <= n,
        n < (r + 1) * (r + 1),
    ensures
        r == sqrt_floor(n),
{
    lemma_sqrt_floor_bracket(n);
    let s = sqrt_floor(n);
    if r < s {
        assert((r + 1) * (r + 1) <= s * s) by (nonlinear_arith)
            requires
                0 <= r,
                r + 1 <= s,
        ;
    }
    if s < r {
        assert((s + 1) * (s + 1) <= r * r) by (nonlinear_arith)
            requires
                0 <= s,
                s + 1 <= r,
        ;
    }
}

/// Integer square root by bisection, exact per `sqrt_floor`.
pub fn isqrt(n: u128) -> (r: u128)
    requires
        n <= 0xffffffffffffffffu128 * 0xffffffffffffffffu128,
    ensures
        r == sqrt_floor(n as int),
        r * r <= n,
{
    let mut lo: u128 = 0;
    let mut hi: u128 = 0xffffffffffffffff;
    proof {
        assert((hi + 1) * (hi + 1) > n) by (nonlinear_arith)
            requires
                n <= 0xffffffffffffffffu128 * 0xffffffffffffffffu128,
                hi == 0xffffffffffffffffu128,
        ;
    }
    while lo < hi
        invariant
            0 <= lo <= hi <= 0xffffffffffffffff,
            lo * lo <= n,
            n < (hi + 1) * (hi + 1),
        decreases hi - lo,
    {
        let mid: u128 = lo + (hi - lo + 1) / 2;
        proof {
            assert(lo < mid <= hi);
            assert(mid * mid <= 0xffffffffffffffffu128 * 0xffffffffffffffffu128)
                by (nonlinear_arith)
                requires
                    0 <= mid <= 0xffffffffffffffffu128,
            ;
        }
        if mid * mid <= n {
            lo = mid;
        } else {
            hi = mid - 1;
        }
    }
    proof {
        lemma_sqrt_floor_unique(n as int, lo as int);
    }
    lo
}

/// Division rounding toward zero, exact per `div0`.
pub fn div_toward_zero(a: i128, b: i128) -> (r: i128)
    requires
        b > 0,
        a > i128::MIN,
    ensures
        r == div0(a as int, b as int),
        (a >= 0 ==> 0 <= r <= a) && (a < 0 ==> a <= r <= 0),
{
    if a >= 0 {
        let q: u128 = (a as u128) / (b as u128);
        proof {
            assert(q <= a as u128) by (nonlinear_arith)
                requires
                    q == (a as u128) / (b as u128),
                    b as u128 >= 1,
            ;
        }
        q as i128
    } else {
        let na: u128 = (-a) as u128;
        let q: u128 = na / (b as u128);
        proof {
            assert(q <= na) by (nonlinear_arith)
                requires
                    q == na / (b as u128),
                    b as u128 >= 1,
            ;
        }
        -(q as i128)
    }
}

/// `div0` is an odd function of its dividend.
pub proof fn lemma_div0_neg(a: int, b: int)
    requires
        b > 0,
    ensures
        div0(-a, b) == -div0(a, b),
{
    if a == 0 {
        vstd::arithmetic::div_mod::lemma_div_of0(b);
    }
}

/// Clamps a value into `[-bound, bound]`.
pub open spec fn clamp_spec(v: int, bound: int) -> int {
    if v > bound {
        bound
    } else if v < -bound {
        -bound
    } else {
        v
    }
}

pub fn clamp_i128(v: i128, bound: i128) -> (r: i128)
    requires
        0 < bound,
    ensures
        r == clamp_spec(v as int, bound as int),
        -bound <= r <= bound,
{
    if v > bound {
        bound
    } else if v < -bound {
        -bound
    } else {
        v
    }
}

} // verus!
