//! The target's evasion controller: each tick it blends a bounded random
//! heading deviation with a proportional correction toward a reference
//! altitude, and rotates the target's velocity by the blended angle.

use vstd::prelude::*;
use crate::fixed::{SCALE, POS_LIMIT, VEL_LIMIT, div0, clamp_spec, div_toward_zero, isqrt};
use crate::geom::{mag_fp, unit_x, unit_y, norm_sq};
use crate::trig::{rot_x, rot_y, rotate};
use crate::entity::Target;

verus! {

/// Largest accepted proportional gain (10 millidegrees of correction per raw
/// unit of height error, times `SCALE`).
pub const GAIN_LIMIT: i64 = 10000000;

/// Largest accepted magnitude of a random heading draw, in millidegrees.
pub const DRAW_LIMIT: i64 = 360000;

/// The proportional correction angle in millidegrees: `-(height error) *
/// gain`, negative error (below the reference) pulling upward.
pub open spec fn correction_mdeg(y: int, ref_alt: int, gain: int) -> int {
    -div0(div0((y - ref_alt) * gain, SCALE as int), 1000)
}

/// The blended evasion angle: the random draw weighted by `SCALE - weight`
/// against the correction weighted by `weight` (weight at `SCALE` is pure
/// correction, at zero pure randomness).
pub open spec fn blended_mdeg(draw: int, corr: int, weight: int) -> int {
    div0(draw * ((SCALE as int) - weight) + corr * weight, SCALE as int)
}

/// The target's velocity after one evasion step: rotated by the blended
/// angle and rescaled to its previous fixed-point speed (rotation preserves
/// speed; the rescaling realizes that in integer arithmetic), saturated at
/// `VEL_LIMIT`. A zero blended angle leaves the velocity numerically
/// unchanged.
pub open spec fn evade_velocity(vx: int, vy: int, ang: int) -> (int, int) {
    if ang == 0 {
        (vx, vy)
    } else {
        let rx = rot_x(vx, vy, ang);
        let ry = rot_y(vx, vy, ang);
        let speed = mag_fp(vx, vy);
        (
            clamp_spec(div0(unit_x(rx, ry) * speed, SCALE as int), VEL_LIMIT as int),
            clamp_spec(div0(unit_y(rx, ry) * speed, SCALE as int), VEL_LIMIT as int),
        )
    }
}

/// One evasion step on the target, exact per `correction_mdeg`,
/// `blended_mdeg` and `evade_velocity`: the position is untouched, the
/// velocity is rotated by the blended angle.
pub fn evade(target: &mut Target, ref_alt: i64, weight: i64, gain: i64, draw: i64)
    requires
        old(target).wf(),
        -POS_LIMIT <= ref_alt <= POS_LIMIT,
        0 <= weight <= SCALE,
        0 <= gain <= GAIN_LIMIT,
        -DRAW_LIMIT <= draw <= DRAW_LIMIT,
    ensures
        final(target).x == old(target).x,
        final(target).y == old(target).y,
        ({
            let v = evade_velocity(
                old(target).vx as int,
                old(target).vy as int,
                blended_mdeg(
                    draw as int,
                    correction_mdeg(old(target).y as int, ref_alt as int, gain as int),
                    weight as int,
                ),
            );
            final(target).vx == v.0 && final(target).vy == v.1
        }),
        final(target).wf(),
{
    proof {
        assert(-400000000000000000i128 <= ((target.y as i128) - (ref_alt as i128)) * (
        gain as i128) <= 400000000000000000i128) by (nonlinear_arith)
            requires
                -40000000000 <= (target.y as i128) - (ref_alt as i128) <= 40000000000,
                0 <= gain as i128 <= 10000000,
        ;
    }
    let e1 = div_toward_zero(((target.y as i128) - (ref_alt as i128)) * (gain as i128),
        1000000);
    proof {
        crate::trig::lemma_div0_magnitude(
            ((target.y as int) - (ref_alt as int)) * (gain as int),
            400000000000000000,
            1000000,
        );
    }
    let corr: i64 = (-div_toward_zero(e1, 1000)) as i64;
    proof {
        assert(corr == correction_mdeg(target.y as int, ref_alt as int, gain as int));
        assert(-400000000000i128 <= (draw as i128) * (1000000 - (weight as i128))
            <= 400000000000i128 && -400000000000000000i128 <= (corr as i128) * (
        weight as i128) <= 400000000000000000i128) by (nonlinear_arith)
            requires
                -360000 <= draw as i128 <= 360000,
                0 <= weight as i128 <= 1000000,
                -400000000000 <= corr as i128 <= 400000000000,
        ;
    }
    let blended: i64 = div_toward_zero(
        (draw as i128) * (1000000 - (weight as i128)) + (corr as i128) * (weight as i128),
        1000000,
    ) as i64;
    proof {
        crate::trig::lemma_div0_magnitude(
            (draw as int) * ((SCALE as int) - (weight as int)) + (corr as int) * (
            weight as int),
            800000000000000000,
            1000000,
        );
        assert(blended == blended_mdeg(
            draw as int,
            correction_mdeg(target.y as int, ref_alt as int, gain as int),
            weight as int,
        ));
    }
    if blended == 0 {
        return ;
    }
    let r = rotate(target.vx, target.vy, blended);
    proof {
        assert(0 <= (target.vx as i128) * (target.vx as i128) <= 100000000000000i128 && 0 <= (
        target.vy as i128) * (target.vy as i128) <= 100000000000000i128) by (nonlinear_arith)
            requires
                -10000000 <= target.vx as i128 <= 10000000,
                -10000000 <= target.vy as i128 <= 10000000,
        ;
    }
    let q: u128 = ((target.vx as i128) * (target.vx as i128) + (target.vy as i128) * (
    target.vy as i128)) as u128;
    let sp: u128 = isqrt(q);
    proof {
        assert(q == norm_sq(target.vx as int, target.vy as int));
        assert(sp <= 15000000u128) by (nonlinear_arith)
            requires
                q <= 200000000000000u128,
                sp * sp <= q,
        ;
    }
    let speed: i64 = sp as i64;
    proof {
        assert(speed == mag_fp(target.vx as int, target.vy as int));
    }
    let u = crate::geom::normalize_i128(r.0 as i128, r.1 as i128);
    proof {
        assert(-15000000000000i128 <= (u.0 as i128) * (speed as i128) <= 15000000000000i128
            && -15000000000000i128 <= (u.1 as i128) * (speed as i128) <= 15000000000000i128)
            by (nonlinear_arith)
            requires
                -1000000 <= u.0 as i128 <= 1000000,
                -1000000 <= u.1 as i128 <= 1000000,
                0 <= speed as i128 <= 15000000,
        ;
    }
    let nvx = div_toward_zero((u.0 as i128) * (speed as i128), 1000000);
    let nvy = div_toward_zero((u.1 as i128) * (speed as i128), 1000000);
    proof {
        crate::trig::lemma_div0_magnitude((u.0 as int) * (speed as int), 15000000000000,
            1000000);
        crate::trig::lemma_div0_magnitude((u.1 as int) * (speed as int), 15000000000000,
            1000000);
    }
    let cvx = crate::fixed::clamp_i128(nvx, 10000000) as i64;
    let cvy = crate::fixed::clamp_i128(nvy, 10000000) as i64;
    target.vx = cvx;
    target.vy = cvy;
}

/// Rotation preserves speed (the entity's speed is set only by its own
/// controller): a nonzero blended angle changes the velocity's fixed-point
/// speed by at most 30 raw units (3 * 10^-5 of a unit per tick), provided
/// the rotated vector kept at least unit magnitude and the speed lies
/// within the velocity bound.
pub proof fn lemma_evade_preserves_speed(vx: int, vy: int, ang: int)
    requires
        ang != 0,
        norm_sq(rot_x(vx, vy, ang), rot_y(vx, vy, ang)) >= SCALE * SCALE,
        400 <= mag_fp(vx, vy) <= VEL_LIMIT,
    ensures
        mag_fp(vx, vy) - 30 <= mag_fp(
            evade_velocity(vx, vy, ang).0,
            evade_velocity(vx, vy, ang).1,
        ) <= mag_fp(vx, vy) + 30,
{
    let s = SCALE as int;
    let sp = mag_fp(vx, vy);
    let rx = rot_x(vx, vy, ang);
    let ry = rot_y(vx, vy, ang);
    crate::geom::lemma_normalize_unit(rx, ry);
    crate::geom::lemma_unit_within_scale(rx, ry);
    let ux = unit_x(rx, ry);
    let uy = unit_y(rx, ry);
    let tt = norm_sq(ux, uy);
    crate::geom::lemma_unit_component_bracket(ux, s, sp);
    crate::geom::lemma_unit_component_bracket(uy, s, sp);
    let tx = crate::geom::div0_abs(ux, s, sp);
    let ty = crate::geom::div0_abs(uy, s, sp);
    let nx = div0(ux * sp, s);
    let ny = div0(uy * sp, s);
    assert(clamp_spec(nx, VEL_LIMIT as int) == nx && clamp_spec(ny, VEL_LIMIT as int) == ny);
    assert(evade_velocity(vx, vy, ang) == (nx, ny));
    let nn = norm_sq(nx, ny);
    assert(nn == tx * tx + ty * ty) by (nonlinear_arith)
        requires
            nx == tx || nx == -tx,
            ny == ty || ny == -ty,
            nn == nx * nx + ny * ny,
    ;
    assert((ux * sp) * (ux * sp) + (uy * sp) * (uy * sp) == (sp * sp) * tt) by (nonlinear_arith)
        requires
            tt == ux * ux + uy * uy,
    ;
    if nn > sp * sp + 30 * sp {
        assert((s * s) * nn <= (sp * sp) * tt) by (nonlinear_arith)
            requires
                (s * s) * (tx * tx) <= (ux * sp) * (ux * sp),
                (s * s) * (ty * ty) <= (uy * sp) * (uy * sp),
                (ux * sp) * (ux * sp) + (uy * sp) * (uy * sp) == (sp * sp) * tt,
                nn == tx * tx + ty * ty,
        ;
        assert((sp * sp) * tt <= (sp * sp) * (s * s + 3 * s)) by (nonlinear_arith)
            requires
                tt <= s * s + 3 * s,
        ;
        assert((s * s) * nn >= (s * s) * (sp * sp + 30 * sp + 1)) by (nonlinear_arith)
            requires
                s >= 1,
                nn >= sp * sp + 30 * sp + 1,
        ;
        assert((s * s) * (sp * sp + 30 * sp + 1) > (sp * sp) * (s * s + 3 * s))
            by (nonlinear_arith)
            requires
                s == 1000000,
                1 <= sp <= 10000000,
        ;
        assert(false);
    }
    if nn < sp * sp - 54 * sp - 2 {
        assert((sp * sp) * tt <= (s * s) * nn + 2 * (s * s) * tx + 2 * (s * s) * ty + 2 * (s
            * s)) by (nonlinear_arith)
            requires
                (ux * sp) * (ux * sp) <= (s * s) * (tx * tx) + 2 * (s * s) * tx + s * s,
                (uy * sp) * (uy * sp) <= (s * s) * (ty * ty) + 2 * (s * s) * ty + s * s,
                (ux * sp) * (ux * sp) + (uy * sp) * (uy * sp) == (sp * sp) * tt,
                nn == tx * tx + ty * ty,
        ;
        assert((sp * sp) * tt >= (sp * sp) * (s * s - 5 * s)) by (nonlinear_arith)
            requires
                tt >= s * s - 5 * s,
        ;
        assert((s * s) * nn + 2 * (s * s) * tx + 2 * (s * s) * ty + 2 * (s * s) < (sp * sp) * (
        s * s - 5 * s)) by (nonlinear_arith)
            requires
                nn <= sp * sp - 54 * sp - 3,
                0 <= tx <= sp,
                0 <= ty <= sp,
                s == 1000000,
                400 <= sp <= 10000000,
        ;
        assert(false);
    }
    crate::geom::lemma_component_le_mag(nx, ny);
    let mg = mag_fp(nx, ny);
    if mg > sp + 14 {
        assert(mg * mg >= sp * sp + 30 * sp + 225) by (nonlinear_arith)
            requires
                mg >= sp + 15,
                sp >= 0,
        ;
        assert(false);
    }
    if mg < sp - 28 {
        assert((mg + 1) * (mg + 1) <= sp * sp - 54 * sp - 2) by (nonlinear_arith)
            requires
                0 <= mg + 1,
                mg + 1 <= sp - 28,
                sp >= 400,
        ;
        assert(false);
    }
}

/// With a pure-correction blend and the target exactly at its reference
/// altitude, the correction is zero, so whatever the random draw, the
/// blended angle is zero and the evasion step leaves the velocity
/// numerically unchanged.
pub proof fn lemma_evasion_identity_at_reference(y: int, gain: int, draw: int, vx: int, vy: int)
    ensures
        correction_mdeg(y, y, gain) == 0,
        blended_mdeg(draw, 0, SCALE as int) == 0,
        evade_velocity(vx, vy, 0) == (vx, vy),
{
    assert((y - y) * gain == 0) by (nonlinear_arith);
    assert(div0(0, SCALE as int) == 0);
    assert(div0(0, 1000) == 0);
    assert(draw * ((SCALE as int) - (SCALE as int)) == 0) by (nonlinear_arith);
    assert(0 * (SCALE as int) == 0) by (nonlinear_arith);
}

} // verus!
