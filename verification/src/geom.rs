//! Vector geometry over fixed-point coordinates: dot and cross products,
//! magnitudes, normalization, the angle between two vectors, and the exact
//! cosine-threshold test that the guidance uses to compare an angle against a
//! configured minimum.

use vstd::prelude::*;
use crate::fixed::{SCALE, div0, sqrt_floor, isqrt, div_toward_zero, lemma_sqrt_floor_bracket};
use crate::trig::cos_mdeg;

verus! {

/// Largest component magnitude `normalize_i128` accepts.
pub const NORM_IN_MAX: i128 = 1000000000000000;

pub open spec fn dot(ax: int, ay: int, bx: int, by: int) -> int {
    ax * bx + ay * by
}

pub open spec fn cross(ax: int, ay: int, bx: int, by: int) -> int {
    ax * by - ay * bx
}

pub open spec fn norm_sq(x: int, y: int) -> int {
    x * x + y * y
}

/// Fixed-point magnitude: the integer square root of the squared norm.
pub open spec fn mag_fp(x: int, y: int) -> int {
    sqrt_floor(norm_sq(x, y))
}

/// X component of the unit vector along `(vx, vy)`; the zero vector (the only
/// sub-resolution magnitude the integer model can hold) maps to zero.
pub open spec fn unit_x(vx: int, vy: int) -> int {
    if vx == 0 && vy == 0 {
        0
    } else {
        div0(vx * SCALE, mag_fp(vx, vy))
    }
}

/// Y component of the unit vector along `(vx, vy)`.
pub open spec fn unit_y(vx: int, vy: int) -> int {
    if vx == 0 && vy == 0 {
        0
    } else {
        div0(vy * SCALE, mag_fp(vx, vy))
    }
}

/// A squared norm is non-negative, its square root brackets it, and the
/// magnitude bounds each component.
pub proof fn lemma_component_le_mag(x: int, y: int)
    ensures
        norm_sq(x, y) >= 0,
        mag_fp(x, y) >= 0,
        mag_fp(x, y) * mag_fp(x, y) <= norm_sq(x, y),
        norm_sq(x, y) < (mag_fp(x, y) + 1) * (mag_fp(x, y) + 1),
        (x != 0 || y != 0) ==> norm_sq(x, y) >= 1 && mag_fp(x, y) >= 1,
        -mag_fp(x, y) <= x <= mag_fp(x, y),
        -mag_fp(x, y) <= y <= mag_fp(x, y),
{
    assert(x * x >= 0 && y * y >= 0) by (nonlinear_arith);
    lemma_sqrt_floor_bracket(norm_sq(x, y));
    let m = mag_fp(x, y);
    if x != 0 || y != 0 {
        assert(norm_sq(x, y) >= 1) by (nonlinear_arith)
            requires
                x != 0 || y != 0,
        ;
        if m < 1 {
            assert((m + 1) * (m + 1) <= 1) by (nonlinear_arith)
                requires
                    0 <= m < 1,
            ;
        }
    }
    assert(x * x <= norm_sq(x, y) && y * y <= norm_sq(x, y)) by (nonlinear_arith);
    assert(x > m ==> x * x >= (m + 1) * (m + 1)) by (nonlinear_arith)
        requires
            m >= 0,
    ;
    assert(x < -m ==> x * x >= (m + 1) * (m + 1)) by (nonlinear_arith)
        requires
            m >= 0,
    ;
    assert(y > m ==> y * y >= (m + 1) * (m + 1)) by (nonlinear_arith)
        requires
            m >= 0,
    ;
    assert(y < -m ==> y * y >= (m + 1) * (m + 1)) by (nonlinear_arith)
        requires
            m >= 0,
    ;
}

/// Normalization never yields a component beyond `SCALE`.
pub proof fn lemma_unit_within_scale(vx: int, vy: int)
    ensures
        -SCALE <= unit_x(vx, vy) <= SCALE,
        -SCALE <= unit_y(vx, vy) <= SCALE,
{
    if vx == 0 && vy == 0 {
    } else {
        lemma_component_le_mag(vx, vy);
        let m = mag_fp(vx, vy);
        assert(m * (SCALE as int) >= 0) by (nonlinear_arith)
            requires
                m >= 1,
        ;
        lemma_abs_mul_le(vx, m, SCALE as int);
        lemma_abs_mul_le(vy, m, SCALE as int);
        crate::trig::lemma_div0_magnitude(vx * SCALE, m * (SCALE as int), m);
        crate::trig::lemma_div0_magnitude(vy * SCALE, m * (SCALE as int), m);
        vstd::arithmetic::div_mod::lemma_div_multiples_vanish(SCALE as int, m);
    }
}

proof fn lemma_abs_mul_le(v: int, m: int, s: int)
    requires
        -m <= v <= m,
        s >= 0,
    ensures
        -(m * s) <= v * s <= m * s,
{
    assert(-(m * s) <= v * s <= m * s) by (nonlinear_arith)
        requires
            -m <= v <= m,
            s >= 0,
    ;
}

/// The unit vector along `(vx, vy)`, exact per `unit_x` / `unit_y`.
pub fn normalize_i128(vx: i128, vy: i128) -> (u: (i64, i64))
    requires
        -NORM_IN_MAX <= vx <= NORM_IN_MAX,
        -NORM_IN_MAX <= vy <= NORM_IN_MAX,
    ensures
        u.0 == unit_x(vx as int, vy as int),
        u.1 == unit_y(vx as int, vy as int),
        -SCALE <= u.0 <= SCALE,
        -SCALE <= u.1 <= SCALE,
{
    proof {
        lemma_unit_within_scale(vx as int, vy as int);
        lemma_component_le_mag(vx as int, vy as int);
    }
    if vx == 0 && vy == 0 {
        return (0, 0);
    }
    proof {
        assert(0 <= vx * vx <= NORM_IN_MAX * NORM_IN_MAX && 0 <= vy * vy <= NORM_IN_MAX
            * NORM_IN_MAX) by (nonlinear_arith)
            requires
                -NORM_IN_MAX <= vx <= NORM_IN_MAX,
                -NORM_IN_MAX <= vy <= NORM_IN_MAX,
        ;
    }
    let q: u128 = (vx * vx + vy * vy) as u128;
    let m: u128 = isqrt(q);
    proof {
        assert(q == norm_sq(vx as int, vy as int));
        assert(m == mag_fp(vx as int, vy as int));
        assert(m >= 1);
        assert(m <= 2000000000000000000u128) by (nonlinear_arith)
            requires
                q <= 2000000000000000000000000000000u128,
                m * m <= q,
        ;
    }
    let ux = div_toward_zero(vx * 1000000, m as i128);
    let uy = div_toward_zero(vy * 1000000, m as i128);
    (ux as i64, uy as i64)
}

/// Fixed-point distance between two points, exact per `mag_fp` of the
/// coordinate difference.
pub fn distance_between(ax: i64, ay: i64, bx: i64, by: i64) -> (d: i64)
    requires
        -crate::fixed::POS_LIMIT <= ax <= crate::fixed::POS_LIMIT,
        -crate::fixed::POS_LIMIT <= ay <= crate::fixed::POS_LIMIT,
        -crate::fixed::POS_LIMIT <= bx <= crate::fixed::POS_LIMIT,
        -crate::fixed::POS_LIMIT <= by <= crate::fixed::POS_LIMIT,
    ensures
        d == mag_fp(ax - bx, ay - by),
        d >= 0,
{
    let dx: i128 = (ax as i128) - (bx as i128);
    let dy: i128 = (ay as i128) - (by as i128);
    proof {
        assert(0 <= dx * dx <= 1600000000000000000000i128 && 0 <= dy * dy
            <= 1600000000000000000000i128) by (nonlinear_arith)
            requires
                -40000000000 <= dx <= 40000000000,
                -40000000000 <= dy <= 40000000000,
        ;
    }
    let q: u128 = (dx * dx + dy * dy) as u128;
    let m: u128 = isqrt(q);
    proof {
        assert(q == norm_sq(dx as int, dy as int));
        assert(m == mag_fp(ax - bx, ay - by));
        assert(m <= 60000000000u128) by (nonlinear_arith)
            requires
                q <= 3200000000000000000000u128,
                m * m <= q,
        ;
    }
    m as i64
}

/// True iff the angle between the two vectors is strictly greater than the
/// angle whose cosine is `ct16 / 65536` (for thresholds of at most a quarter
/// turn, so `ct16 >= 0`). Exact: the comparison multiplies out both squared
/// sides, so no square root is ever floored.
pub open spec fn diverges_spec(ax: int, ay: int, bx: int, by: int, ct16: int) -> bool {
    let d = dot(ax, ay, bx, by);
    d < 0 || (d * 65536) * (d * 65536) < ct16 * ct16 * norm_sq(ax, ay) * norm_sq(bx, by)
}

/// Decides `diverges_spec`: whether the two vectors' angle exceeds the
/// threshold encoded by `ct16`.
pub fn exceeds_angle(ax: i64, ay: i64, bx: i64, by: i64, ct16: i64) -> (r: bool)
    requires
        -2000000 <= ax <= 2000000,
        -2000000 <= ay <= 2000000,
        -crate::fixed::VEL_LIMIT <= bx <= crate::fixed::VEL_LIMIT,
        -crate::fixed::VEL_LIMIT <= by <= crate::fixed::VEL_LIMIT,
        0 <= ct16 <= 65536,
    ensures
        r == diverges_spec(ax as int, ay as int, bx as int, by as int, ct16 as int),
{
    let axi = ax as i128;
    let ayi = ay as i128;
    let bxi = bx as i128;
    let byi = by as i128;
    proof {
        assert(-20000000000000 <= axi * bxi <= 20000000000000 && -20000000000000 <= ayi * byi
            <= 20000000000000 && 0 <= axi * axi <= 4000000000000 && 0 <= ayi * ayi
            <= 4000000000000 && 0 <= bxi * bxi <= 100000000000000 && 0 <= byi * byi
            <= 100000000000000) by (nonlinear_arith)
            requires
                -2000000 <= axi <= 2000000,
                -2000000 <= ayi <= 2000000,
                -10000000 <= bxi <= 10000000,
                -10000000 <= byi <= 10000000,
        ;
    }
    let d: i128 = axi * bxi + ayi * byi;
    if d < 0 {
        return true;
    }
    let q1: i128 = axi * axi + ayi * ayi;
    let q2: i128 = bxi * bxi + byi * byi;
    let lhs_root: i128 = d * 65536;
    proof {
        assert(0 <= lhs_root * lhs_root <= 7300000000000000000000000000000000000i128)
            by (nonlinear_arith)
            requires
                0 <= lhs_root <= 2700000000000000000i128,
        ;
        assert(0 <= (ct16 as i128) * (ct16 as i128) <= 4294967296i128) by (nonlinear_arith)
            requires
                0 <= ct16 as i128 <= 65536,
        ;
    }
    let lhs: i128 = lhs_root * lhs_root;
    let c2: i128 = (ct16 as i128) * (ct16 as i128);
    proof {
        assert(0 <= c2 * q1 <= 35000000000000000000000i128) by (nonlinear_arith)
            requires
                0 <= c2 <= 4294967296i128,
                0 <= q1 <= 8000000000000i128,
        ;
    }
    let r1: i128 = c2 * q1;
    proof {
        assert(0 <= r1 * q2 <= 7000000000000000000000000000000000000i128) by (nonlinear_arith)
            requires
                0 <= r1 <= 35000000000000000000000i128,
                0 <= q2 <= 200000000000000i128,
        ;
    }
    let rhs: i128 = r1 * q2;
    lhs < rhs
}

/// The fixed-point cosine of the angle between two nonzero vectors, clamped
/// into `[-SCALE, SCALE]`.
pub open spec fn cos_between_fp(v1x: int, v1y: int, v2x: int, v2y: int) -> int {
    crate::fixed::clamp_spec(
        div0(dot(v1x, v1y, v2x, v2y) * SCALE, mag_fp(v1x, v1y) * mag_fp(v2x, v2y)),
        SCALE as int,
    )
}

/// Bisection for the angle whose polynomial cosine brackets `c`: the returned
/// `lo` is pinned down as a function of `c` alone.
pub open spec fn acos_bisect(c: int, lo: int, hi: int) -> int
    decreases hi - lo,
{
    if hi - lo <= 1 {
        lo
    } else {
        let mid = (lo + hi) / 2;
        if cos_mdeg(mid) >= c {
            acos_bisect(c, mid, hi)
        } else {
            acos_bisect(c, lo, mid)
        }
    }
}

/// The angle between two vectors in millidegrees, `[0, 180000]`; zero when
/// either vector is zero.
pub open spec fn angle_between_spec(v1x: int, v1y: int, v2x: int, v2y: int) -> int {
    if (v1x == 0 && v1y == 0) || (v2x == 0 && v2y == 0) {
        0
    } else {
        acos_bisect(cos_between_fp(v1x, v1y, v2x, v2y), 0, 180001)
    }
}

proof fn lemma_acos_bisect_range(c: int, lo: int, hi: int)
    requires
        0 <= lo < hi,
    ensures
        lo <= acos_bisect(c, lo, hi) < hi,
    decreases hi - lo,
{
    if hi - lo <= 1 {
    } else {
        let mid = (lo + hi) / 2;
        assert(lo < mid < hi);
        if cos_mdeg(mid) >= c {
            lemma_acos_bisect_range(c, mid, hi);
        } else {
            lemma_acos_bisect_range(c, lo, mid);
        }
    }
}

/// The angle between two velocity vectors in millidegrees, exact per
/// `angle_between_spec`; zero by convention when either magnitude is zero.
pub fn calculate_angle_between_vectors(v1x: i64, v1y: i64, v2x: i64, v2y: i64) -> (ang: i64)
    requires
        -1000000000 <= v1x <= 1000000000,
        -1000000000 <= v1y <= 1000000000,
        -1000000000 <= v2x <= 1000000000,
        -1000000000 <= v2y <= 1000000000,
    ensures
        ang == angle_between_spec(v1x as int, v1y as int, v2x as int, v2y as int),
        0 <= ang <= 180000,
{
    if (v1x == 0 && v1y == 0) || (v2x == 0 && v2y == 0) {
        return 0;
    }
    let ax = v1x as i128;
    let ay = v1y as i128;
    let bx = v2x as i128;
    let by = v2y as i128;
    proof {
        lemma_component_le_mag(ax as int, ay as int);
        lemma_component_le_mag(bx as int, by as int);
        assert(0 <= ax * ax <= 1000000000000000000i128 && 0 <= ay * ay
            <= 1000000000000000000i128 && 0 <= bx * bx <= 1000000000000000000i128 && 0 <= by
            * by <= 1000000000000000000i128 && -1000000000000000000i128 <= ax * bx
            <= 1000000000000000000i128 && -1000000000000000000i128 <= ay * by
            <= 1000000000000000000i128) by (nonlinear_arith)
            requires
                -1000000000 <= ax <= 1000000000,
                -1000000000 <= ay <= 1000000000,
                -1000000000 <= bx <= 1000000000,
                -1000000000 <= by <= 1000000000,
        ;
    }
    let q1: u128 = (ax * ax + ay * ay) as u128;
    let q2: u128 = (bx * bx + by * by) as u128;
    let m1: u128 = isqrt(q1);
    let m2: u128 = isqrt(q2);
    proof {
        assert(q1 == norm_sq(ax as int, ay as int) && q2 == norm_sq(bx as int, by as int));
        assert(m1 == mag_fp(ax as int, ay as int) && m2 == mag_fp(bx as int, by as int));
        assert(m1 >= 1 && m2 >= 1);
        assert(m1 <= 1500000000u128) by (nonlinear_arith)
            requires
                q1 <= 2000000000000000000u128,
                m1 * m1 <= q1,
        ;
        assert(m2 <= 1500000000u128) by (nonlinear_arith)
            requires
                q2 <= 2000000000000000000u128,
                m2 * m2 <= q2,
        ;
        assert(1 <= m1 * m2 <= 2250000000000000000u128) by (nonlinear_arith)
            requires
                1 <= m1 <= 1500000000u128,
                1 <= m2 <= 1500000000u128,
        ;
    }
    let d: i128 = ax * bx + ay * by;
    let c128: i128 = div_toward_zero(d * 1000000, (m1 * m2) as i128);
    let c: i64 = crate::fixed::clamp_i128(c128, 1000000) as i64;
    proof {
        assert(c == cos_between_fp(v1x as int, v1y as int, v2x as int, v2y as int));
    }
    let mut lo: i64 = 0;
    let mut hi: i64 = 180001;
    proof {
        lemma_acos_bisect_range(c as int, 0, 180001);
    }
    while hi - lo > 1
        invariant
            0 <= lo < hi <= 180001,
            acos_bisect(c as int, lo as int, hi as int) == acos_bisect(c as int, 0, 180001),
        decreases hi - lo,
    {
        let mid: i64 = ((lo + hi) as u64 / 2) as i64;
        assert(lo < mid < hi);
        let cm = crate::trig::trig_mdeg(mid).0;
        if cm >= c {
            lo = mid;
        } else {
            hi = mid;
        }
    }
    lo
}

/// The angle between two vectors does not depend on their order, and is zero
/// by convention when either vector is zero.
pub proof fn lemma_angle_between_symmetric(v1x: int, v1y: int, v2x: int, v2y: int)
    ensures
        angle_between_spec(v1x, v1y, v2x, v2y) == angle_between_spec(v2x, v2y, v1x, v1y),
        (v1x == 0 && v1y == 0) || (v2x == 0 && v2y == 0) ==> angle_between_spec(
            v1x,
            v1y,
            v2x,
            v2y,
        ) == 0,
{
    assert(dot(v1x, v1y, v2x, v2y) == dot(v2x, v2y, v1x, v1y)) by (nonlinear_arith);
    assert(mag_fp(v1x, v1y) * mag_fp(v2x, v2y) == mag_fp(v2x, v2y) * mag_fp(v1x, v1y))
        by (nonlinear_arith);
}

proof fn lemma_unit_term_nonneg(v: int, m: int)
    requires
        m >= 1,
    ensures
        div0(v * SCALE, m) * v >= 0,
{
    if v >= 0 {
        assert(v * SCALE >= 0) by (nonlinear_arith)
            requires
                v >= 0,
        ;
        vstd::arithmetic::div_mod::lemma_div_pos_is_pos(v * SCALE, m);
        assert(div0(v * SCALE, m) * v >= 0) by (nonlinear_arith)
            requires
                div0(v * SCALE, m) >= 0,
                v >= 0,
        ;
    } else {
        assert(v * SCALE < 0 && -(v * SCALE) == (-v) * SCALE) by (nonlinear_arith)
            requires
                v < 0,
        ;
        vstd::arithmetic::div_mod::lemma_div_pos_is_pos((-v) * SCALE, m);
        assert(div0(v * SCALE, m) * v >= 0) by (nonlinear_arith)
            requires
                div0(v * SCALE, m) <= 0,
                v < 0,
        ;
    }
}

proof fn lemma_unit_term_dominant(v: int, m: int)
    requires
        m >= 1,
        v != 0,
        -m <= v <= m,
        2 * (v * v) >= m * m,
    ensures
        div0(v * SCALE, m) * v >= 1,
{
    let av = if v >= 0 {
        v
    } else {
        -v
    };
    assert(2 * av >= m && av >= 1) by (nonlinear_arith)
        requires
            2 * (v * v) >= m * m,
            av == v || av == -v,
            av >= 0,
            m >= 1,
            v != 0,
    ;
    assert(av * (SCALE as int) >= m * 500000);
    vstd::arithmetic::div_mod::lemma_div_is_ordered(m * 500000, av * SCALE, m);
    vstd::arithmetic::div_mod::lemma_div_multiples_vanish(500000, m);
    let q = (av * SCALE) / m;
    assert(q >= 500000);
    if v >= 0 {
        assert(div0(v * SCALE, m) * v == q * av) by (nonlinear_arith)
            requires
                av == v,
                q == (av * SCALE) / m,
                div0(v * SCALE, m) == q,
        ;
    } else {
        assert(-(v * SCALE) == av * SCALE) by (nonlinear_arith)
            requires
                av == -v,
        ;
        assert(div0(v * SCALE, m) == -q);
        assert(div0(v * SCALE, m) * v == q * av) by (nonlinear_arith)
            requires
                av == -v,
                div0(v * SCALE, m) == -q,
        ;
    }
    assert(q * av >= 1) by (nonlinear_arith)
        requires
            q >= 500000,
            av >= 1,
    ;
}

/// A nonzero vector has positive dot product with its own unit vector: the
/// dominant component alone contributes at least half of `SCALE`.
pub proof fn lemma_unit_dot_positive(vx: int, vy: int)
    requires
        vx != 0 || vy != 0,
    ensures
        unit_x(vx, vy) * vx + unit_y(vx, vy) * vy >= 1,
{
    lemma_component_le_mag(vx, vy);
    let m = mag_fp(vx, vy);
    lemma_unit_term_nonneg(vx, m);
    lemma_unit_term_nonneg(vy, m);
    if vx * vx >= vy * vy {
        assert(vx != 0) by (nonlinear_arith)
            requires
                vx * vx >= vy * vy,
                vx != 0 || vy != 0,
        ;
        assert(2 * (vx * vx) >= m * m) by (nonlinear_arith)
            requires
                vx * vx >= vy * vy,
                m * m <= vx * vx + vy * vy,
        ;
        lemma_unit_term_dominant(vx, m);
    } else {
        assert(2 * (vy * vy) >= m * m) by (nonlinear_arith)
            requires
                vy * vy >= vx * vx,
                m * m <= vx * vx + vy * vy,
        ;
        lemma_unit_term_dominant(vy, m);
    }
}

/// The unit vector of a negated vector is the negated unit vector.
pub proof fn lemma_unit_of_negated(vx: int, vy: int)
    ensures
        unit_x(-vx, -vy) == -unit_x(vx, vy),
        unit_y(-vx, -vy) == -unit_y(vx, vy),
{
    if vx == 0 && vy == 0 {
    } else {
        lemma_component_le_mag(vx, vy);
        assert(norm_sq(-vx, -vy) == norm_sq(vx, vy)) by (nonlinear_arith);
        let m = mag_fp(vx, vy);
        assert((-vx) * SCALE == -(vx * SCALE) && (-vy) * SCALE == -(vy * SCALE))
            by (nonlinear_arith);
        crate::fixed::lemma_div0_neg(vx * SCALE, m);
        crate::fixed::lemma_div0_neg(vy * SCALE, m);
    }
}

/// The absolute value of a normalized component, `(|v| * s) / m`.
pub open spec fn div0_abs(v: int, m: int, s: int) -> int {
    if v >= 0 {
        (v * s) / m
    } else {
        ((-v) * s) / m
    }
}

/// Bracketing of one scaled-division component: with `t = div0_abs(v, m, s)`,
/// `m^2 t^2 <= (v s)^2 <= m^2 t^2 + 2 m^2 t + m^2`, and `div0(v s, m) = +-t`.
pub proof fn lemma_unit_component_bracket(v: int, m: int, s: int)
    requires
        m >= 1,
        s >= 1,
        -m <= v <= m,
    ensures
        m * m * (div0_abs(v, m, s) * div0_abs(v, m, s)) <= (v * s) * (v * s),
        (v * s) * (v * s) <= m * m * (div0_abs(v, m, s) * div0_abs(v, m, s)) + 2 * (m * m)
            * div0_abs(v, m, s) + m * m,
        0 <= div0_abs(v, m, s) <= s,
        div0(v * s, m) == div0_abs(v, m, s) || div0(v * s, m) == -div0_abs(v, m, s),
{
    let av = if v >= 0 { v } else { -v };
    let b = av * s;
    assert(b >= 0 && b <= m * s) by (nonlinear_arith)
        requires
            0 <= av <= m,
            s >= 1,
            b == av * s,
    ;
    let t = b / m;
    vstd::arithmetic::div_mod::lemma_fundamental_div_mod(b, m);
    vstd::arithmetic::div_mod::lemma_div_pos_is_pos(b, m);
    assert(t == div0_abs(v, m, s));
    assert(m * t <= b < m * (t + 1)) by (nonlinear_arith)
        requires
            b == m * t + b % m,
            0 <= b % m < m,
    ;
    assert(t <= s) by (nonlinear_arith)
        requires
            m * t <= b,
            b <= m * s,
            m >= 1,
    ;
    assert(m * m * (t * t) <= b * b && b * b <= m * m * (t * t) + 2 * (m * m) * t + m * m)
        by (nonlinear_arith)
        requires
            0 <= m * t,
            m * t <= b,
            b < m * (t + 1),
    ;
    assert(b * b == (v * s) * (v * s)) by (nonlinear_arith)
        requires
            b == av * s,
            av == v || av == -v,
    ;
    if v >= 0 {
        assert(v * s == b) by (nonlinear_arith)
            requires
                b == av * s,
                av == v,
        ;
        assert(div0(v * s, m) == t);
    } else {
        assert(v * s == -b) by (nonlinear_arith)
            requires
                b == av * s,
                av == -v,
        ;
        assert(div0(v * s, m) == -t);
    }
}

/// For inputs of at least unit magnitude, normalization yields a vector whose
/// squared fixed-point magnitude is within `5 * SCALE` of `SCALE * SCALE`
/// (a relative deviation of a few millionths); the zero vector normalizes to
/// the zero vector. Below one unit of magnitude the relative rounding error
/// of the integer model grows, so the bound is stated from one unit up.
pub proof fn lemma_normalize_unit(vx: int, vy: int)
    requires
        norm_sq(vx, vy) >= SCALE * SCALE,
    ensures
        norm_sq(unit_x(vx, vy), unit_y(vx, vy)) >= SCALE * SCALE - 5 * SCALE,
        norm_sq(unit_x(vx, vy), unit_y(vx, vy)) <= SCALE * SCALE + 3 * SCALE,
        norm_sq(0, 0) == 0 && unit_x(0, 0) == 0 && unit_y(0, 0) == 0,
{
    let s = SCALE as int;
    let q = norm_sq(vx, vy);
    let m = mag_fp(vx, vy);
    lemma_component_le_mag(vx, vy);
    assert(m >= s) by (nonlinear_arith)
        requires
            q >= s * s,
            q < (m + 1) * (m + 1),
            m >= 0,
            s == 1000000,
    ;
    lemma_unit_component_bracket(vx, m, s);
    lemma_unit_component_bracket(vy, m, s);
    let tx = div0_abs(vx, m, s);
    let ty = div0_abs(vy, m, s);
    let nn = tx * tx + ty * ty;
    assert((vx * s) * (vx * s) == (s * s) * (vx * vx) && (vy * s) * (vy * s) == (s * s) * (vy
        * vy)) by (nonlinear_arith);
    assert((s * s) * (vx * vx) + (s * s) * (vy * vy) == (s * s) * q) by (nonlinear_arith)
        requires
            q == vx * vx + vy * vy,
    ;
    assert(m * m * (tx * tx) + m * m * (ty * ty) == (m * m) * nn) by (nonlinear_arith)
        requires
            nn == tx * tx + ty * ty,
    ;
    // Upper bound: m^2 nn <= s^2 q <= s^2 (m^2 + 2m) forces nn <= s^2 + 3s.
    assert((s * s) * q <= (s * s) * (m * m + 2 * m)) by (nonlinear_arith)
        requires
            q < (m + 1) * (m + 1),
            s >= 1,
    ;
    if nn > s * s + 3 * s {
        assert((m * m) * nn >= (m * m) * (s * s + 3 * s + 1)) by (nonlinear_arith)
            requires
                m >= 1,
                nn >= s * s + 3 * s + 1,
        ;
        assert((m * m) * (s * s + 3 * s + 1) > (s * s) * (m * m + 2 * m)) by (nonlinear_arith)
            requires
                m >= s,
                s == 1000000,
        ;
        assert(false);
    }
    // Lower bound: s^2 q <= m^2 nn + 2 m^2 (tx + ty) + 2 m^2 and s^2 q >= s^2 m^2
    // force nn >= s^2 - 5s.
    assert((s * s) * q >= (s * s) * (m * m)) by (nonlinear_arith)
        requires
            q >= m * m,
            s >= 1,
    ;
    if nn < s * s - 5 * s {
        assert((m * m) * nn + 2 * (m * m) * tx + 2 * (m * m) * ty + 2 * (m * m) < (s * s) * (m
            * m)) by (nonlinear_arith)
            requires
                nn < s * s - 5 * s,
                0 <= tx <= s,
                0 <= ty <= s,
                m >= 1,
                s == 1000000,
        ;
        assert(false);
    }
    assert(unit_x(vx, vy) * unit_x(vx, vy) == tx * tx) by (nonlinear_arith)
        requires
            unit_x(vx, vy) == tx || unit_x(vx, vy) == -tx,
    ;
    assert(unit_y(vx, vy) * unit_y(vx, vy) == ty * ty) by (nonlinear_arith)
        requires
            unit_y(vx, vy) == ty || unit_y(vx, vy) == -ty,
    ;
}

} // verus!
