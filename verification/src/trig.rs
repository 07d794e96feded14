//! Fixed-point trigonometry: degree-six/seven polynomial approximations of
//! cosine and sine over the first quadrant, extended to the full circle, and
//! the 2-D rotation built from them. Angles are millidegrees; results carry
//! the global `SCALE`.

use vstd::prelude::*;
use crate::fixed::{SCALE, div0};
use vstd::arithmetic::div_mod::{
    lemma_div_is_ordered, lemma_div_pos_is_pos, lemma_fundamental_div_mod,
    lemma_fundamental_div_mod_converse_mod,
};

verus! {

/// Every value of `cos_mdeg` and `sin_mdeg` lies within this bound.
pub const TRIG_BOUND: i64 = 1700000;

/// Millidegrees to fixed-point radians (3141593 is pi at `SCALE`).
pub open spec fn rad_fp(a: int) -> int {
    (a * 3141593) / 180000
}

/// Fixed-point cosine on the first quadrant: the even Taylor polynomial
/// through the tenth power, each term floored at `SCALE`. Accurate to a few
/// units of `1/SCALE` over the whole quadrant; in particular it is zero at
/// the quadrant edge and positive everywhere below it, so the arccosine
/// bisection recovers a right angle exactly.
pub open spec fn cos_quarter(a: int) -> int {
    let x = rad_fp(a);
    let x2 = (x * x) / (SCALE as int);
    let x4 = (x2 * x2) / (SCALE as int);
    let x6 = (x4 * x2) / (SCALE as int);
    let x8 = (x6 * x2) / (SCALE as int);
    let x10 = (x8 * x2) / (SCALE as int);
    (SCALE as int) - x2 / 2 + x4 / 24 - x6 / 720 + x8 / 40320 - x10 / 3628800
}

/// Fixed-point sine on the first quadrant: the odd Taylor polynomial through
/// the seventh power, each term floored at `SCALE`.
pub open spec fn sin_quarter(a: int) -> int {
    let x = rad_fp(a);
    let x2 = (x * x) / (SCALE as int);
    let x3 = (x * x2) / (SCALE as int);
    let x5 = (x3 * x2) / (SCALE as int);
    let x7 = (x5 * x2) / (SCALE as int);
    x - x3 / 6 + x5 / 120 - x7 / 5040
}

/// Cosine over a full turn, by quadrant reflection of `cos_quarter`.
pub open spec fn cos_mdeg(a: int) -> int {
    if a <= 90000 {
        cos_quarter(a)
    } else if a <= 180000 {
        -cos_quarter(180000 - a)
    } else if a <= 270000 {
        -cos_quarter(a - 180000)
    } else {
        cos_quarter(360000 - a)
    }
}

/// Sine over a full turn, by quadrant reflection of `sin_quarter`.
pub open spec fn sin_mdeg(a: int) -> int {
    if a <= 90000 {
        sin_quarter(a)
    } else if a <= 180000 {
        sin_quarter(180000 - a)
    } else if a <= 270000 {
        -sin_quarter(a - 180000)
    } else {
        -sin_quarter(360000 - a)
    }
}

/// An arbitrary angle reduced to `[0, 360000)`.
pub open spec fn norm360(a: int) -> int {
    a % 360000
}

/// X component of `(vx, vy)` rotated counter-clockwise by `ang` millidegrees.
pub open spec fn rot_x(vx: int, vy: int, ang: int) -> int {
    div0(vx * cos_mdeg(norm360(ang)) - vy * sin_mdeg(norm360(ang)), SCALE as int)
}

/// Y component of `(vx, vy)` rotated counter-clockwise by `ang` millidegrees.
pub open spec fn rot_y(vx: int, vy: int, ang: int) -> int {
    div0(vx * sin_mdeg(norm360(ang)) + vy * cos_mdeg(norm360(ang)), SCALE as int)
}

proof fn lemma_muldiv_bound(a: int, amax: int, b: int, bmax: int, d: int)
    requires
        0 <= a <= amax,
        0 <= b <= bmax,
        0 < d,
    ensures
        0 <= a * b <= amax * bmax,
        0 <= (a * b) / d <= (amax * bmax) / d,
{
    assert(a * b <= amax * bmax) by (nonlinear_arith)
        requires
            0 <= a <= amax,
            0 <= b <= bmax,
    ;
    assert(0 <= a * b) by (nonlinear_arith)
        requires
            0 <= a,
            0 <= b,
    ;
    lemma_div_is_ordered(a * b, amax * bmax, d);
    lemma_div_pos_is_pos(a * b, d);
}

proof fn lemma_div_bound_nonneg(v: int, vmax: int, d: int)
    requires
        0 <= v <= vmax,
        0 < d,
    ensures
        0 <= v / d <= vmax / d,
{
    lemma_div_is_ordered(v, vmax, d);
    lemma_div_pos_is_pos(v, d);
}

/// Exact evaluation of the quadrant polynomials.
pub fn cos_sin_quarter(a: i64) -> (cs: (i64, i64))
    requires
        0 <= a <= 90000,
    ensures
        cs.0 == cos_quarter(a as int),
        cs.1 == sin_quarter(a as int),
        -TRIG_BOUND <= cs.0 <= TRIG_BOUND,
        -TRIG_BOUND <= cs.1 <= TRIG_BOUND,
{
    proof {
        lemma_muldiv_bound(a as int, 90000, 3141593, 3141593, 180000);
    }
    let x: u128 = ((a as u128) * 3141593) / 180000;
    proof {
        assert(x == rad_fp(a as int));
        assert(x <= 1600000);
        lemma_muldiv_bound(x as int, 1600000, x as int, 1600000, SCALE as int);
    }
    let x2: u128 = (x * x) / 1000000;
    proof {
        assert(x2 <= 2600000);
        lemma_muldiv_bound(x2 as int, 2600000, x2 as int, 2600000, SCALE as int);
    }
    let x4: u128 = (x2 * x2) / 1000000;
    proof {
        assert(x4 <= 6800000);
        lemma_muldiv_bound(x4 as int, 6800000, x2 as int, 2600000, SCALE as int);
    }
    let x6: u128 = (x4 * x2) / 1000000;
    proof {
        assert(x6 <= 17680000);
        lemma_muldiv_bound(x6 as int, 17680000, x2 as int, 2600000, SCALE as int);
    }
    let x8: u128 = (x6 * x2) / 1000000;
    proof {
        assert(x8 <= 46000000);
        lemma_muldiv_bound(x8 as int, 46000000, x2 as int, 2600000, SCALE as int);
    }
    let x10: u128 = (x8 * x2) / 1000000;
    proof {
        assert(x10 <= 120000000);
        lemma_muldiv_bound(x as int, 1600000, x2 as int, 2600000, SCALE as int);
    }
    let x3: u128 = (x * x2) / 1000000;
    proof {
        assert(x3 <= 4160000);
        lemma_muldiv_bound(x3 as int, 4160000, x2 as int, 2600000, SCALE as int);
    }
    let x5: u128 = (x3 * x2) / 1000000;
    proof {
        assert(x5 <= 10816000);
        lemma_muldiv_bound(x5 as int, 10816000, x2 as int, 2600000, SCALE as int);
    }
    let x7: u128 = (x5 * x2) / 1000000;
    proof {
        assert(x7 <= 28121600);
        lemma_div_bound_nonneg(x2 as int, 2600000, 2);
        lemma_div_bound_nonneg(x4 as int, 6800000, 24);
        lemma_div_bound_nonneg(x6 as int, 17680000, 720);
        lemma_div_bound_nonneg(x8 as int, 46000000, 40320);
        lemma_div_bound_nonneg(x10 as int, 120000000, 3628800);
        lemma_div_bound_nonneg(x3 as int, 4160000, 6);
        lemma_div_bound_nonneg(x5 as int, 10816000, 120);
        lemma_div_bound_nonneg(x7 as int, 28121600, 5040);
    }
    let h2: i64 = (x2 / 2) as i64;
    let h4: i64 = (x4 / 24) as i64;
    let h6: i64 = (x6 / 720) as i64;
    let h8: i64 = (x8 / 40320) as i64;
    let h10: i64 = (x10 / 3628800) as i64;
    let h3: i64 = (x3 / 6) as i64;
    let h5: i64 = (x5 / 120) as i64;
    let h7: i64 = (x7 / 5040) as i64;
    let c: i64 = 1000000 - h2 + h4 - h6 + h8 - h10;
    let sn: i64 = (x as i64) - h3 + h5 - h7;
    (c, sn)
}

/// Exact evaluation of cosine and sine over a full turn.
pub fn trig_mdeg(a: i64) -> (cs: (i64, i64))
    requires
        0 <= a < 360000,
    ensures
        cs.0 == cos_mdeg(a as int),
        cs.1 == sin_mdeg(a as int),
        -TRIG_BOUND <= cs.0 <= TRIG_BOUND,
        -TRIG_BOUND <= cs.1 <= TRIG_BOUND,
{
    if a <= 90000 {
        cos_sin_quarter(a)
    } else if a <= 180000 {
        let cs = cos_sin_quarter(180000 - a);
        (-cs.0, cs.1)
    } else if a <= 270000 {
        let cs = cos_sin_quarter(a - 180000);
        (-cs.0, -cs.1)
    } else {
        let cs = cos_sin_quarter(360000 - a);
        (cs.0, -cs.1)
    }
}

/// An arbitrary angle reduced to `[0, 360000)`, exact per `norm360`.
pub fn normalize_angle(a: i64) -> (r: i64)
    ensures
        r == norm360(a as int),
        0 <= r < 360000,
{
    if a >= 0 {
        let r = ((a as u64) % 360000) as i64;
        proof {
            lemma_fundamental_div_mod(a as int, 360000);
        }
        r
    } else {
        let na: u128 = (-(a as i128)) as u128;
        let m = (na % 360000) as i64;
        proof {
            lemma_fundamental_div_mod(na as int, 360000);
            let q = na as int / 360000;
            if m == 0 {
                lemma_fundamental_div_mod_converse_mod(a as int, 360000, -q, 0);
            } else {
                lemma_fundamental_div_mod_converse_mod(
                    a as int,
                    360000,
                    -q - 1,
                    360000 - m,
                );
            }
        }
        if m == 0 {
            0
        } else {
            360000 - m
        }
    }
}

/// Counter-clockwise rotation of a vector by `ang` millidegrees, exact per
/// `rot_x` / `rot_y`. Rotation by a zero angle is the identity.
pub fn rotate(vx: i64, vy: i64, ang: i64) -> (r: (i64, i64))
    requires
        -1000000000 <= vx <= 1000000000,
        -1000000000 <= vy <= 1000000000,
    ensures
        r.0 == rot_x(vx as int, vy as int, ang as int),
        r.1 == rot_y(vx as int, vy as int, ang as int),
        -3400000000 <= r.0 <= 3400000000,
        -3400000000 <= r.1 <= 3400000000,
{
    let an = normalize_angle(ang);
    let cs = trig_mdeg(an);
    let c = cs.0 as i128;
    let s = cs.1 as i128;
    proof {
        assert(-1700000000000000 <= (vx as i128) * c <= 1700000000000000 && -1700000000000000
            <= (vy as i128) * s <= 1700000000000000 && -1700000000000000 <= (vx as i128) * s
            <= 1700000000000000 && -1700000000000000 <= (vy as i128) * c <= 1700000000000000)
            by (nonlinear_arith)
            requires
                -1000000000 <= vx as i128 <= 1000000000,
                -1000000000 <= vy as i128 <= 1000000000,
                -1700000 <= c <= 1700000,
                -1700000 <= s <= 1700000,
        ;
    }
    let px: i128 = (vx as i128) * c - (vy as i128) * s;
    let py: i128 = (vx as i128) * s + (vy as i128) * c;
    let rx = crate::fixed::div_toward_zero(px, 1000000);
    let ry = crate::fixed::div_toward_zero(py, 1000000);
    proof {
        lemma_div0_magnitude(px as int, 3400000000000000, 1000000);
        lemma_div0_magnitude(py as int, 3400000000000000, 1000000);
    }
    (rx as i64, ry as i64)
}

/// `div0` keeps magnitudes: a dividend within `m` gives a quotient within
/// `m / d`.
pub proof fn lemma_div0_magnitude(a: int, m: int, d: int)
    requires
        0 < d,
        0 <= m,
        -m <= a <= m,
    ensures
        -(m / d) <= div0(a, d) <= m / d,
{
    if a >= 0 {
        lemma_div_is_ordered(a, m, d);
        lemma_div_pos_is_pos(a, d);
    } else {
        lemma_div_is_ordered(-a, m, d);
        lemma_div_pos_is_pos(-a, d);
    }
}

/// Rotation by the zero angle leaves the vector numerically unchanged.
pub proof fn lemma_rotate_zero(vx: int, vy: int)
    ensures
        rot_x(vx, vy, 0) == vx,
        rot_y(vx, vy, 0) == vy,
{
    assert(norm360(0) == 0);
    assert(rad_fp(0) == 0);
    assert(cos_quarter(0) == SCALE as int);
    assert(sin_quarter(0) == 0);
    assert(vx * (SCALE as int) - vy * 0 == vx * (SCALE as int)) by (nonlinear_arith);
    assert(vx * 0 + vy * (SCALE as int) == vy * (SCALE as int)) by (nonlinear_arith);
    lemma_mul_div_self(vx, SCALE as int);
    lemma_mul_div_self(vy, SCALE as int);
}

proof fn lemma_mul_div_self(v: int, d: int)
    requires
        0 < d,
    ensures
        div0(v * d, d) == v,
{
    if v >= 0 {
        assert(v * d >= 0 && v * d == d * v) by (nonlinear_arith)
            requires
                v >= 0,
                d > 0,
        ;
        vstd::arithmetic::div_mod::lemma_div_multiples_vanish(v, d);
    } else {
        assert(v * d < 0 && -(v * d) == d * (-v)) by (nonlinear_arith)
            requires
                v < 0,
                d > 0,
        ;
        vstd::arithmetic::div_mod::lemma_div_multiples_vanish(-v, d);
    }
}

} // verus!
