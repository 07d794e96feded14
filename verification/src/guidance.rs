//! Lead-pursuit guidance: the closing-time quadratic and its root selection,
//! the aim point, pure-pursuit steering, and minimum-approach-angle
//! enforcement.

use vstd::prelude::*;
use crate::fixed::{SCALE, VEL_LIMIT, div0, sqrt_floor, isqrt, div_toward_zero};
use crate::geom::{
    unit_x, unit_y, cross, dot, diverges_spec, normalize_i128, exceeds_angle,
};
use crate::trig::{cos_mdeg, rot_x, rot_y, trig_mdeg, rotate};
use crate::entity::Target;

verus! {

/// Largest accepted intercept time (fixed point), ten million ticks: a root
/// beyond it cannot arise in a run the arithmetic is sized for and is treated
/// as no solution.
pub const T_CAP: i64 = 10000000000000;

/// Threshold under which the quadratic's leading coefficient counts as zero
/// and the linear fallback applies (the analogue of the 1e-9 float epsilon,
/// in squared raw velocity units).
pub const EPS_A: i64 = 1000;

/// The outcome of the closing-time solver: an intercept time, or no solvable
/// intercept. A tagged result, so a fallback cannot be mistaken for a true
/// solution.
#[derive(Clone, Copy, PartialEq, Eq, Structural, Debug)]
pub enum InterceptSolution {
    Intercept(i64),
    NoIntercept,
}

/// One root candidate `num / den` (fixed point): accepted only if strictly
/// positive at fixed-point resolution and at most `T_CAP`.
pub open spec fn root_candidate(num: int, den: int) -> Option<int> {
    if num >= 1 && den >= 1 {
        let t = (num * SCALE) / den;
        if 1 <= t <= T_CAP {
            Option::Some(t)
        } else {
            Option::None
        }
    } else {
        Option::None
    }
}

/// The earliest of two accepted roots: the tie-break policy of the solver.
pub open spec fn pick_earliest(r1: Option<int>, r2: Option<int>) -> Option<int> {
    match (r1, r2) {
        (Option::Some(t1), Option::Some(t2)) => if t1 <= t2 {
            Option::Some(t1)
        } else {
            Option::Some(t2)
        },
        (Option::Some(t1), Option::None) => Option::Some(t1),
        (Option::None, Option::Some(t2)) => Option::Some(t2),
        (Option::None, Option::None) => Option::None,
    }
}

/// The chosen root of the closing-time quadratic
/// `(v.v - s^2) t^2 + 2 (r.v) t + r.r = 0`: the smallest strictly positive
/// root; the linear fallback when the leading coefficient is within `EPS_A`
/// of zero; none when the discriminant is negative or no root is positive.
pub open spec fn intercept_time_spec(rx: int, ry: int, vx: int, vy: int, s: int) -> Option<
    int,
> {
    let a = vx * vx + vy * vy - s * s;
    let b = 2 * (rx * vx + ry * vy);
    let c = rx * rx + ry * ry;
    if -EPS_A <= a <= EPS_A {
        if b < 0 {
            root_candidate(c, -b)
        } else {
            Option::None
        }
    } else {
        let disc = b * b - 4 * a * c;
        if disc < 0 {
            Option::None
        } else {
            let sd = sqrt_floor(disc);
            if a > 0 {
                pick_earliest(root_candidate(-b - sd, 2 * a), root_candidate(-b + sd, 2 * a))
            } else {
                pick_earliest(root_candidate(b + sd, -2 * a), root_candidate(b - sd, -2 * a))
            }
        }
    }
}

/// X coordinate of the aim point: the target's position advanced by its
/// velocity for the intercept time, or the current position when no
/// intercept is solvable (pure pursuit).
pub open spec fn aim_x(tx: int, tvx: int, sol: Option<int>) -> int {
    match sol {
        Option::Some(t) => tx + div0(tvx * t, SCALE as int),
        Option::None => tx,
    }
}

/// Y coordinate of the aim point.
pub open spec fn aim_y(ty: int, tvy: int, sol: Option<int>) -> int {
    match sol {
        Option::Some(t) => ty + div0(tvy * t, SCALE as int),
        Option::None => ty,
    }
}

/// The cosine of a threshold angle rescaled to a 16-bit denominator and
/// clamped into `[0, 65536]`, the form `exceeds_angle` compares against.
pub open spec fn cos16_of(angle_mdeg: int) -> int {
    let v = div0(cos_mdeg(angle_mdeg) * 65536, SCALE as int);
    if v < 0 {
        0
    } else if v > 65536 {
        65536
    } else {
        v
    }
}

/// The unit heading toward the aim point, before angle enforcement.
pub open spec fn desired_heading(
    ix: int,
    iy: int,
    ispeed: int,
    tx: int,
    ty: int,
    tvx: int,
    tvy: int,
    use_lead: bool,
) -> (int, int) {
    let sol = if use_lead {
        intercept_time_spec(tx - ix, ty - iy, tvx, tvy, ispeed)
    } else {
        Option::<int>::None
    };
    let ax = aim_x(tx, tvx, sol);
    let ay = aim_y(ty, tvy, sol);
    (unit_x(ax - ix, ay - iy), unit_y(ax - ix, ay - iy))
}

/// Minimum-approach-angle enforcement: a heading whose angle to a nonzero
/// target velocity does not exceed the minimum is rotated by the minimum plus
/// the buffer, away from parallel (the side is picked by the cross product so
/// that divergence grows), and re-normalized. The rotated heading is held to
/// the divergence test once more: should integer rounding ever leave it
/// within the minimum (the buffer gives it ample margin), the heading falls
/// back to direct opposition, which diverges from any nonzero velocity. The
/// returned heading therefore always passes the test
/// (`lemma_enforced_heading_diverges`).
pub open spec fn enforced_heading(
    hx: int,
    hy: int,
    tvx: int,
    tvy: int,
    min_angle: int,
    buffer: int,
) -> (int, int) {
    if tvx == 0 && tvy == 0 {
        (hx, hy)
    } else if diverges_spec(hx, hy, tvx, tvy, cos16_of(min_angle)) {
        (hx, hy)
    } else {
        let ang = if cross(hx, hy, tvx, tvy) > 0 {
            -(min_angle + buffer)
        } else {
            min_angle + buffer
        };
        let ex = unit_x(rot_x(hx, hy, ang), rot_y(hx, hy, ang));
        let ey = unit_y(rot_x(hx, hy, ang), rot_y(hx, hy, ang));
        if diverges_spec(ex, ey, tvx, tvy, cos16_of(min_angle)) {
            (ex, ey)
        } else {
            (unit_x(-tvx, -tvy), unit_y(-tvx, -tvy))
        }
    }
}

/// The guidance output: the unit heading toward the aim point; in
/// lead-pursuit mode, with the minimum approach angle enforced. Pure pursuit
/// leaves the heading as aimed (tail-chase geometry is its defining
/// behavior).
pub open spec fn guidance_heading(
    ix: int,
    iy: int,
    ispeed: int,
    tx: int,
    ty: int,
    tvx: int,
    tvy: int,
    min_angle: int,
    buffer: int,
    use_lead: bool,
) -> (int, int) {
    let h = desired_heading(ix, iy, ispeed, tx, ty, tvx, tvy, use_lead);
    if use_lead {
        enforced_heading(h.0, h.1, tvx, tvy, min_angle, buffer)
    } else {
        h
    }
}

fn root_candidate_exec(num: i128, den: i128) -> (r: Option<i64>)
    requires
        -10000000000000000000000000 <= num <= 10000000000000000000000000,
        0 <= den <= 2000000000000000000,
    ensures
        match r {
            Option::Some(t) => root_candidate(num as int, den as int) == Option::Some(t as int)
                && 1 <= t <= T_CAP,
            Option::None => root_candidate(num as int, den as int) == Option::<int>::None,
        },
{
    if num >= 1 && den >= 1 {
        let t = div_toward_zero(num * 1000000, den);
        if 1 <= t && t <= 10000000000000 {
            Some(t as i64)
        } else {
            None
        }
    } else {
        None
    }
}

/// The closing-time solver, exact per `intercept_time_spec`. `r` is the
/// vector from the interceptor to the target, `v` the target's velocity and
/// `s` the interceptor's speed.
pub fn solve_intercept(rx: i64, ry: i64, vx: i64, vy: i64, s: i64) -> (sol: InterceptSolution)
    requires
        -40000000000 <= rx <= 40000000000,
        -40000000000 <= ry <= 40000000000,
        -VEL_LIMIT <= vx <= VEL_LIMIT,
        -VEL_LIMIT <= vy <= VEL_LIMIT,
        0 <= s <= VEL_LIMIT,
    ensures
        match sol {
            InterceptSolution::Intercept(t) => intercept_time_spec(
                rx as int,
                ry as int,
                vx as int,
                vy as int,
                s as int,
            ) == Option::Some(t as int) && 1 <= t <= T_CAP,
            InterceptSolution::NoIntercept => intercept_time_spec(
                rx as int,
                ry as int,
                vx as int,
                vy as int,
                s as int,
            ) == Option::<int>::None,
        },
{
    let rxi = rx as i128;
    let ryi = ry as i128;
    let vxi = vx as i128;
    let vyi = vy as i128;
    let si = s as i128;
    proof {
        assert(0 <= vxi * vxi <= 100000000000000i128 && 0 <= vyi * vyi <= 100000000000000i128
            && 0 <= si * si <= 100000000000000i128 && -400000000000000000i128 <= rxi * vxi
            <= 400000000000000000i128 && -400000000000000000i128 <= ryi * vyi
            <= 400000000000000000i128 && 0 <= rxi * rxi <= 1600000000000000000000i128 && 0
            <= ryi * ryi <= 1600000000000000000000i128) by (nonlinear_arith)
            requires
                -40000000000 <= rxi <= 40000000000,
                -40000000000 <= ryi <= 40000000000,
                -10000000 <= vxi <= 10000000,
                -10000000 <= vyi <= 10000000,
                0 <= si <= 10000000,
        ;
    }
    let a: i128 = vxi * vxi + vyi * vyi - si * si;
    let b: i128 = 2 * (rxi * vxi + ryi * vyi);
    let c: i128 = rxi * rxi + ryi * ryi;
    if -1000 <= a && a <= 1000 {
        if b < 0 {
            match root_candidate_exec(c, -b) {
                Some(t) => InterceptSolution::Intercept(t),
                None => InterceptSolution::NoIntercept,
            }
        } else {
            InterceptSolution::NoIntercept
        }
    } else {
        proof {
            assert(0 <= b * b <= 2560000000000000000000000000000000000i128 && -4000000000000000000000000000000000000i128
                <= 4 * a * c <= 4000000000000000000000000000000000000i128) by (nonlinear_arith)
                requires
                    -1600000000000000000i128 <= b <= 1600000000000000000i128,
                    -300000000000000i128 <= a <= 300000000000000i128,
                    0 <= c <= 3200000000000000000000i128,
            ;
        }
        let disc: i128 = b * b - 4 * a * c;
        if disc < 0 {
            InterceptSolution::NoIntercept
        } else {
            let sdu: u128 = isqrt(disc as u128);
            proof {
                assert(sdu <= 3000000000000000000u128) by (nonlinear_arith)
                    requires
                        sdu * sdu <= 6600000000000000000000000000000000000u128,
                ;
            }
            let sd: i128 = sdu as i128;
            assert(sd == sqrt_floor(disc as int));
            let r1: Option<i64>;
            let r2: Option<i64>;
            proof {
                assert(-100000000000000i128 <= a <= 200000000000000i128);
                assert(-1600000000000000000i128 <= b <= 1600000000000000000i128);
                assert(0 <= sd <= 3000000000000000000i128);
            }
            if a > 0 {
                r1 = root_candidate_exec(-b - sd, 2 * a);
                r2 = root_candidate_exec(-b + sd, 2 * a);
            } else {
                let nden: i128 = -(2 * a);
                r1 = root_candidate_exec(b + sd, nden);
                r2 = root_candidate_exec(b - sd, nden);
            }
            match (r1, r2) {
                (Some(t1), Some(t2)) => InterceptSolution::Intercept(
                    if t1 <= t2 {
                        t1
                    } else {
                        t2
                    },
                ),
                (Some(t1), None) => InterceptSolution::Intercept(t1),
                (None, Some(t2)) => InterceptSolution::Intercept(t2),
                (None, None) => InterceptSolution::NoIntercept,
            }
        }
    }
}

/// Unit direction from one entity straight toward another: pure-pursuit
/// steering.
pub fn calculate_steering_direction(from: &Target, to: &Target) -> (dir: (i64, i64))
    requires
        from.wf(),
        to.wf(),
    ensures
        dir.0 == unit_x(to.x - from.x, to.y - from.y),
        dir.1 == unit_y(to.x - from.x, to.y - from.y),
        -SCALE <= dir.0 <= SCALE,
        -SCALE <= dir.1 <= SCALE,
{
    normalize_i128((to.x as i128) - (from.x as i128), (to.y as i128) - (from.y as i128))
}

/// The full guidance step, exact per `guidance_heading`: solve for the
/// intercept, aim (falling back to pure pursuit), normalize, and enforce the
/// minimum approach angle. Returns a unit heading; the caller scales it by
/// the interceptor's speed.
pub fn lead_pursuit_heading(
    interceptor: &Target,
    target: &Target,
    ispeed: i64,
    min_angle_mdeg: i64,
    buffer_mdeg: i64,
    use_lead: bool,
) -> (h: (i64, i64))
    requires
        interceptor.wf(),
        target.wf(),
        0 <= ispeed <= VEL_LIMIT,
        0 <= min_angle_mdeg <= 90000,
        0 <= buffer_mdeg <= 90000,
    ensures
        ({
            let g = guidance_heading(
                interceptor.x as int,
                interceptor.y as int,
                ispeed as int,
                target.x as int,
                target.y as int,
                target.vx as int,
                target.vy as int,
                min_angle_mdeg as int,
                buffer_mdeg as int,
                use_lead,
            );
            h.0 == g.0 && h.1 == g.1
        }),
        -SCALE <= h.0 <= SCALE,
        -SCALE <= h.1 <= SCALE,
{
    let sol = if use_lead {
        solve_intercept(target.x - interceptor.x, target.y - interceptor.y, target.vx,
            target.vy, ispeed)
    } else {
        InterceptSolution::NoIntercept
    };
    let ghost sol_spec = if use_lead {
        intercept_time_spec(
            target.x - interceptor.x,
            target.y - interceptor.y,
            target.vx as int,
            target.vy as int,
            ispeed as int,
        )
    } else {
        Option::<int>::None
    };
    let axy: (i128, i128) = match sol {
        InterceptSolution::Intercept(t) => {
            proof {
                assert(-100000000000000000000i128 <= (target.vx as i128) * (t as i128)
                    <= 100000000000000000000i128 && -100000000000000000000i128 <= (
                target.vy as i128) * (t as i128) <= 100000000000000000000i128)
                    by (nonlinear_arith)
                    requires
                        -10000000 <= target.vx as i128 <= 10000000,
                        -10000000 <= target.vy as i128 <= 10000000,
                        0 <= t as i128 <= 10000000000000,
                ;
                crate::trig::lemma_div0_magnitude(
                    (target.vx as int) * (t as int),
                    100000000000000000000,
                    1000000,
                );
                crate::trig::lemma_div0_magnitude(
                    (target.vy as int) * (t as int),
                    100000000000000000000,
                    1000000,
                );
            }
            let ox = div_toward_zero((target.vx as i128) * (t as i128), 1000000);
            let oy = div_toward_zero((target.vy as i128) * (t as i128), 1000000);
            ((target.x as i128) + ox, (target.y as i128) + oy)
        },
        InterceptSolution::NoIntercept => (target.x as i128, target.y as i128),
    };
    proof {
        assert(axy.0 == aim_x(target.x as int, target.vx as int, sol_spec));
        assert(axy.1 == aim_y(target.y as int, target.vy as int, sol_spec));
    }
    let dx: i128 = axy.0 - (interceptor.x as i128);
    let dy: i128 = axy.1 - (interceptor.y as i128);
    let h0 = normalize_i128(dx, dy);
    if !use_lead {
        return h0;
    }
    if target.vx == 0 && target.vy == 0 {
        return h0;
    }
    let ct = trig_mdeg(min_angle_mdeg).0;
    let ct16v = div_toward_zero((ct as i128) * 65536, 1000000);
    let ct16: i64 = if ct16v < 0 {
        0
    } else if ct16v > 65536 {
        65536
    } else {
        ct16v as i64
    };
    proof {
        assert(ct16 == cos16_of(min_angle_mdeg as int));
    }
    if exceeds_angle(h0.0, h0.1, target.vx, target.vy, ct16) {
        return h0;
    }
    let total: i64 = min_angle_mdeg + buffer_mdeg;
    proof {
        assert(-20000000000000i128 <= (h0.0 as i128) * (target.vy as i128) <= 20000000000000i128
            && -20000000000000i128 <= (h0.1 as i128) * (target.vx as i128)
            <= 20000000000000i128) by (nonlinear_arith)
            requires
                -1000000 <= h0.0 as i128 <= 1000000,
                -1000000 <= h0.1 as i128 <= 1000000,
                -10000000 <= target.vx as i128 <= 10000000,
                -10000000 <= target.vy as i128 <= 10000000,
        ;
    }
    let crossv: i128 = (h0.0 as i128) * (target.vy as i128) - (h0.1 as i128) * (
    target.vx as i128);
    let ang: i64 = if crossv > 0 {
        -total
    } else {
        total
    };
    let r = rotate(h0.0, h0.1, ang);
    let u2 = normalize_i128(r.0 as i128, r.1 as i128);
    if exceeds_angle(u2.0, u2.1, target.vx, target.vy, ct16) {
        u2
    } else {
        normalize_i128(-(target.vx as i128), -(target.vy as i128))
    }
}

/// A stationary target's aim point is its current position: with zero target
/// velocity the lead prediction collapses to pure pursuit, whatever the
/// solver returned.
pub proof fn lemma_stationary_target_aim(tx: int, ty: int, sol: Option<int>)
    ensures
        aim_x(tx, 0, sol) == tx,
        aim_y(ty, 0, sol) == ty,
{
    match sol {
        Option::Some(t) => {
            assert(0 * t == 0) by (nonlinear_arith);
            assert(div0(0, SCALE as int) == 0);
        },
        Option::None => {},
    }
}

/// With a stationary target, lead pursuit aims exactly where pure pursuit
/// does: straight at the target's current position.
pub proof fn lemma_stationary_target_pure_pursuit(
    ix: int,
    iy: int,
    ispeed: int,
    tx: int,
    ty: int,
    use_lead: bool,
)
    ensures
        desired_heading(ix, iy, ispeed, tx, ty, 0, 0, use_lead) == (
            unit_x(tx - ix, ty - iy),
            unit_y(tx - ix, ty - iy),
        ),
{
    let sol = if use_lead {
        intercept_time_spec(tx - ix, ty - iy, 0, 0, ispeed)
    } else {
        Option::<int>::None
    };
    lemma_stationary_target_aim(tx, ty, sol);
}

/// Enforcement is the identity on a heading that already diverges from the
/// target's velocity by more than the minimum angle, and the returned heading
/// then still passes the divergence test.
pub proof fn lemma_enforcement_identity_when_diverging(
    hx: int,
    hy: int,
    tvx: int,
    tvy: int,
    min_angle: int,
    buffer: int,
)
    requires
        diverges_spec(hx, hy, tvx, tvy, cos16_of(min_angle)),
    ensures
        enforced_heading(hx, hy, tvx, tvy, min_angle, buffer) == (hx, hy),
        diverges_spec(
            enforced_heading(hx, hy, tvx, tvy, min_angle, buffer).0,
            enforced_heading(hx, hy, tvx, tvy, min_angle, buffer).1,
            tvx,
            tvy,
            cos16_of(min_angle),
        ),
{
}

/// The enforcement invariant in full: against a nonzero target velocity, the
/// enforced heading always passes the divergence test — guidance never
/// returns a heading within the minimum angle of the target's velocity.
pub proof fn lemma_enforced_heading_diverges(
    hx: int,
    hy: int,
    tvx: int,
    tvy: int,
    min_angle: int,
    buffer: int,
)
    requires
        tvx != 0 || tvy != 0,
    ensures
        ({
            let e = enforced_heading(hx, hy, tvx, tvy, min_angle, buffer);
            diverges_spec(e.0, e.1, tvx, tvy, cos16_of(min_angle))
        }),
{
    let ct = cos16_of(min_angle);
    if !diverges_spec(hx, hy, tvx, tvy, ct) {
        let ang = if cross(hx, hy, tvx, tvy) > 0 {
            -(min_angle + buffer)
        } else {
            min_angle + buffer
        };
        let ex = unit_x(rot_x(hx, hy, ang), rot_y(hx, hy, ang));
        let ey = unit_y(rot_x(hx, hy, ang), rot_y(hx, hy, ang));
        if !diverges_spec(ex, ey, tvx, tvy, ct) {
            crate::geom::lemma_unit_of_negated(tvx, tvy);
            crate::geom::lemma_unit_dot_positive(tvx, tvy);
            let ux = unit_x(tvx, tvy);
            let uy = unit_y(tvx, tvy);
            assert((-ux) * tvx + (-uy) * tvy == -(ux * tvx + uy * tvy)) by (nonlinear_arith);
            assert(dot(unit_x(-tvx, -tvy), unit_y(-tvx, -tvy), tvx, tvy) < 0);
        }
    }
}

} // verus!
