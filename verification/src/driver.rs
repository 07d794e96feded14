//! The simulation driver: per tick, in strict order — collision test on live
//! state, evasion update of the target, guidance update of the interceptor,
//! integration, history append — until collision or tick-budget exhaustion.

use vstd::prelude::*;
use crate::fixed::{SCALE, POS_LIMIT, VEL_LIMIT, div0, div_toward_zero};
use crate::geom::{mag_fp, angle_between_spec};
use crate::entity::Target;
use crate::evasion::{correction_mdeg, blended_mdeg, evade_velocity, evade, GAIN_LIMIT,
    DRAW_LIMIT};
use crate::guidance::guidance_heading;

verus! {

/// Most ticks a run may be configured for: keeps every position within
/// `POS_LIMIT` from a start within `START_LIMIT`.
pub const TICK_BUDGET_LIMIT: usize = 1800;

/// Largest initial position component.
pub const START_LIMIT: i64 = 1000000000;

/// Immutable configuration of one run.
#[derive(Clone, Copy, PartialEq, Eq, Structural, Debug)]
pub struct SimParams {
    /// Collision radius (fixed point); a tick with distance strictly below
    /// it ends the run. May be negative: then no tick can ever collide.
    pub collision_threshold: i64,
    /// Tick budget.
    pub max_ticks: usize,
    /// The altitude the target's correction pulls toward.
    pub ref_altitude: i64,
    /// Blend weight: 0 = pure random evasion, `SCALE` = pure correction.
    pub blend_weight: i64,
    /// Proportional gain of the height correction.
    pub p_gain: i64,
    /// The interceptor's cruise speed (fixed point per tick).
    pub interceptor_speed: i64,
    /// Minimum enforced approach angle, millidegrees.
    pub min_angle_mdeg: i64,
    /// Buffer added to the minimum angle when enforcement rotates.
    pub angle_buffer_mdeg: i64,
    /// Lead pursuit with angle enforcement, or pure pursuit.
    pub use_lead: bool,
}

impl SimParams {
    pub open spec fn wf(self) -> bool {
        &&& self.max_ticks <= TICK_BUDGET_LIMIT
        &&& -POS_LIMIT <= self.ref_altitude <= POS_LIMIT
        &&& 0 <= self.blend_weight <= SCALE
        &&& 0 <= self.p_gain <= GAIN_LIMIT
        &&& 0 <= self.interceptor_speed <= VEL_LIMIT
        &&& 0 <= self.min_angle_mdeg <= 90000
        &&& 0 <= self.angle_buffer_mdeg <= 90000
    }
}

/// The collision record: where the target was when the run ended, and the
/// angle between the two velocity vectors at that instant.
#[derive(Clone, Copy, PartialEq, Eq, Structural, Debug)]
pub struct Collision {
    pub x: i64,
    pub y: i64,
    pub angle_mdeg: i64,
}

/// The result of a run: one trajectory sample per completed tick for each
/// body, and the collision record — `None` after an exhausted tick budget.
#[derive(Clone, Debug, PartialEq)]
pub struct SimOutcome {
    pub target_path: Vec<(i64, i64)>,
    pub interceptor_path: Vec<(i64, i64)>,
    pub collision: Option<Collision>,
    pub ticks: usize,
}

/// One tick of the state machine: evasion rotates the target's velocity by
/// the blended angle, guidance re-aims the interceptor at its cruise speed,
/// and both positions advance by their velocities.
pub open spec fn tick_spec(t: Target, i: Target, p: SimParams, draw: int) -> (Target, Target) {
    let ang = blended_mdeg(
        draw,
        correction_mdeg(t.y as int, p.ref_altitude as int, p.p_gain as int),
        p.blend_weight as int,
    );
    let tv = evade_velocity(t.vx as int, t.vy as int, ang);
    let h = guidance_heading(
        i.x as int,
        i.y as int,
        p.interceptor_speed as int,
        t.x as int,
        t.y as int,
        tv.0,
        tv.1,
        p.min_angle_mdeg as int,
        p.angle_buffer_mdeg as int,
        p.use_lead,
    );
    let ivx = div0(h.0 * p.interceptor_speed, SCALE as int);
    let ivy = div0(h.1 * p.interceptor_speed, SCALE as int);
    (
        Target {
            x: (t.x + tv.0) as i64,
            y: (t.y + tv.1) as i64,
            vx: tv.0 as i64,
            vy: tv.1 as i64,
        },
        Target {
            x: (i.x + ivx) as i64,
            y: (i.y + ivy) as i64,
            vx: ivx as i64,
            vy: ivy as i64,
        },
    )
}

/// The state after `n` completed ticks.
pub open spec fn state_after(
    t0: Target,
    i0: Target,
    p: SimParams,
    draws: Seq<i64>,
    n: int,
) -> (Target, Target)
    decreases n,
{
    if n <= 0 {
        (t0, i0)
    } else {
        let prev = state_after(t0, i0, p, draws, n - 1);
        tick_spec(prev.0, prev.1, p, draws[n - 1] as int)
    }
}

/// Whether the collision test fires at the state after `n` ticks.
pub open spec fn collided_at(
    t0: Target,
    i0: Target,
    p: SimParams,
    draws: Seq<i64>,
    n: int,
) -> bool {
    let st = state_after(t0, i0, p, draws, n);
    mag_fp(st.1.x - st.0.x, st.1.y - st.0.y) < p.collision_threshold
}

/// Admissible run inputs: well-formed parameters and entities, with starting
/// positions leaving headroom for a full tick budget.
pub open spec fn run_wf(t0: Target, i0: Target, p: SimParams) -> bool {
    &&& p.wf()
    &&& t0.wf()
    &&& i0.wf()
    &&& -START_LIMIT <= t0.x <= START_LIMIT
    &&& -START_LIMIT <= t0.y <= START_LIMIT
    &&& -START_LIMIT <= i0.x <= START_LIMIT
    &&& -START_LIMIT <= i0.y <= START_LIMIT
}

/// The full postcondition of a run: `ticks` is the first tick whose
/// collision test fired (or the budget), the paths sample the states tick
/// for tick — seeded with the tick-0 positions for continuity of output —
/// and the collision record carries the target's position and the velocity
/// angle at that state.
pub open spec fn run_post(
    t0: Target,
    i0: Target,
    p: SimParams,
    draws: Seq<i64>,
    out: SimOutcome,
) -> bool {
    &&& out.ticks <= p.max_ticks
    &&& out.target_path.len() == out.ticks + 1
    &&& out.interceptor_path.len() == out.ticks + 1
    &&& (forall|k: int|
        0 <= k <= out.ticks ==> #[trigger] out.target_path@[k] == {
            let st = state_after(t0, i0, p, draws, k);
            (st.0.x, st.0.y)
        })
    &&& (forall|k: int|
        0 <= k <= out.ticks ==> #[trigger] out.interceptor_path@[k] == {
            let st = state_after(t0, i0, p, draws, k);
            (st.1.x, st.1.y)
        })
    &&& (forall|k: int| 0 <= k < out.ticks ==> !#[trigger] collided_at(t0, i0, p, draws, k))
    &&& (match out.collision {
        Option::Some(c) => {
            &&& out.ticks < p.max_ticks
            &&& collided_at(t0, i0, p, draws, out.ticks as int)
            &&& c.x == state_after(t0, i0, p, draws, out.ticks as int).0.x
            &&& c.y == state_after(t0, i0, p, draws, out.ticks as int).0.y
            &&& c.angle_mdeg == {
                let st = state_after(t0, i0, p, draws, out.ticks as int);
                angle_between_spec(st.0.vx as int, st.0.vy as int, st.1.vx as int,
                    st.1.vy as int)
            }
        },
        Option::None => out.ticks == p.max_ticks,
    })
}

/// One run over an explicit draw sequence, exact per `run_post`. Taking the
/// draws as data makes the whole run a function of its arguments.
pub fn run(t0: Target, i0: Target, p: &SimParams, draws: &Vec<i64>) -> (out: SimOutcome)
    requires
        run_wf(t0, i0, *p),
        draws.len() >= p.max_ticks,
        forall|k: int| 0 <= k < draws.len() ==> -DRAW_LIMIT <= #[trigger] draws@[k] <= DRAW_LIMIT,
    ensures
        run_post(t0, i0, *p, draws@, out),
{
    let mut target = t0;
    let mut interceptor = i0;
    let mut tpath: Vec<(i64, i64)> = Vec::new();
    let mut ipath: Vec<(i64, i64)> = Vec::new();
    tpath.push((t0.x, t0.y));
    ipath.push((i0.x, i0.y));
    let mut collision: Option<Collision> = None;
    let mut step: usize = 0;
    while step < p.max_ticks && collision.is_none()
        invariant
            run_wf(t0, i0, *p),
            draws.len() >= p.max_ticks,
            forall|k: int|
                0 <= k < draws.len() ==> -DRAW_LIMIT <= #[trigger] draws@[k] <= DRAW_LIMIT,
            step <= p.max_ticks,
            target == state_after(t0, i0, *p, draws@, step as int).0,
            interceptor == state_after(t0, i0, *p, draws@, step as int).1,
            target.wf(),
            interceptor.wf(),
            -(START_LIMIT + step * 10000000) <= target.x <= START_LIMIT + step * 10000000,
            -(START_LIMIT + step * 10000000) <= target.y <= START_LIMIT + step * 10000000,
            -(START_LIMIT + step * 10000000) <= interceptor.x <= START_LIMIT + step
                * 10000000,
            -(START_LIMIT + step * 10000000) <= interceptor.y <= START_LIMIT + step
                * 10000000,
            tpath.len() == step + 1,
            ipath.len() == step + 1,
            forall|k: int|
                0 <= k <= step ==> #[trigger] tpath@[k] == {
                    let st = state_after(t0, i0, *p, draws@, k);
                    (st.0.x, st.0.y)
                },
            forall|k: int|
                0 <= k <= step ==> #[trigger] ipath@[k] == {
                    let st = state_after(t0, i0, *p, draws@, k);
                    (st.1.x, st.1.y)
                },
            forall|k: int| 0 <= k < step ==> !#[trigger] collided_at(t0, i0, *p, draws@, k),
            match collision {
                Option::Some(c) => {
                    &&& step < p.max_ticks
                    &&& collided_at(t0, i0, *p, draws@, step as int)
                    &&& c.x == target.x
                    &&& c.y == target.y
                    &&& c.angle_mdeg == angle_between_spec(
                        target.vx as int,
                        target.vy as int,
                        interceptor.vx as int,
                        interceptor.vy as int,
                    )
                },
                Option::None => true,
            },
        decreases p.max_ticks - step, (if collision is None { 1int } else { 0int }),
    {
        let dist = interceptor.distance_to(&target);
        if dist < p.collision_threshold {
            let ang = crate::geom::calculate_angle_between_vectors(target.vx, target.vy,
                interceptor.vx, interceptor.vy);
            collision = Some(Collision { x: target.x, y: target.y, angle_mdeg: ang });
        } else {
            let ghost prev_t = target;
            let ghost prev_i = interceptor;
            let ghost d: int = draws@[step as int] as int;
            evade(&mut target, p.ref_altitude, p.blend_weight, p.p_gain, draws[step]);
            let ghost ang = blended_mdeg(
                d,
                correction_mdeg(prev_t.y as int, p.ref_altitude as int, p.p_gain as int),
                p.blend_weight as int,
            );
            let ghost tv = evade_velocity(prev_t.vx as int, prev_t.vy as int, ang);
            let h = crate::guidance::lead_pursuit_heading(&interceptor, &target,
                p.interceptor_speed, p.min_angle_mdeg, p.angle_buffer_mdeg, p.use_lead);
            proof {
                assert(-10000000000000i128 <= (h.0 as i128) * (p.interceptor_speed as i128)
                    <= 10000000000000i128 && -10000000000000i128 <= (h.1 as i128) * (
                p.interceptor_speed as i128) <= 10000000000000i128) by (nonlinear_arith)
                    requires
                        -1000000 <= h.0 as i128 <= 1000000,
                        -1000000 <= h.1 as i128 <= 1000000,
                        0 <= p.interceptor_speed as i128 <= 10000000,
                ;
                crate::trig::lemma_div0_magnitude(
                    (h.0 as int) * (p.interceptor_speed as int),
                    10000000000000,
                    1000000,
                );
                crate::trig::lemma_div0_magnitude(
                    (h.1 as int) * (p.interceptor_speed as int),
                    10000000000000,
                    1000000,
                );
            }
            let ivx = div_toward_zero((h.0 as i128) * (p.interceptor_speed as i128), 1000000)
                as i64;
            let ivy = div_toward_zero((h.1 as i128) * (p.interceptor_speed as i128), 1000000)
                as i64;
            interceptor.vx = ivx;
            interceptor.vy = ivy;
            target.update();
            interceptor.update();
            tpath.push((target.x, target.y));
            ipath.push((interceptor.x, interceptor.y));
            proof {
                let nxt = tick_spec(prev_t, prev_i, *p, d);
                assert(target == nxt.0);
                assert(interceptor == nxt.1);
                assert(state_after(t0, i0, *p, draws@, step + 1) == nxt);
            }
            step = step + 1;
        }
    }
    let out = SimOutcome { target_path: tpath, interceptor_path: ipath, collision, ticks: step };
    proof {
        if out.collision is None {
            assert(step == p.max_ticks);
        }
    }
    out
}

/// One run with draws taken from a seeded generator, one stream per run:
/// every draw lies in `[-5000, 5000)` millidegrees, and the outcome is a run
/// outcome over some such draw sequence.
pub fn run_seeded(t0: Target, i0: Target, p: &SimParams, seed: u64) -> (out: SimOutcome)
    requires
        run_wf(t0, i0, *p),
    ensures
        exists|ds: Seq<i64>|
            #[trigger] run_post(t0, i0, *p, ds, out) && ds.len() >= p.max_ticks && (forall|
                k: int,
            | 0 <= k < ds.len() ==> -5000 <= #[trigger] ds[k] < 5000),
{
    let mut rng = crate::rng::seed_rng(seed);
    let mut draws: Vec<i64> = Vec::new();
    let mut k: usize = 0;
    while k < p.max_ticks
        invariant
            k <= p.max_ticks,
            draws.len() == k,
            forall|j: int| 0 <= j < k ==> -5000 <= #[trigger] draws@[j] < 5000,
        decreases p.max_ticks - k,
    {
        let d = crate::rng::draw_range(&mut rng, -5000, 5000);
        draws.push(d);
        k = k + 1;
    }
    let out = run(t0, i0, p, &draws);
    proof {
        assert(run_post(t0, i0, *p, draws@, out) && draws@.len() >= p.max_ticks && (forall|
            j: int,
        | 0 <= j < draws@.len() ==> -5000 <= #[trigger] draws@[j] < 5000));
    }
    out
}

/// Determinism: the outcome of a run is a function of the initial state, the
/// parameters and the draw sequence alone — any two outcomes satisfying the
/// run's contract over equal inputs agree tick for tick, in their
/// trajectories and in their collision record.
pub proof fn lemma_run_deterministic(
    t0: Target,
    i0: Target,
    p: SimParams,
    draws: Seq<i64>,
    o1: SimOutcome,
    o2: SimOutcome,
)
    requires
        run_post(t0, i0, p, draws, o1),
        run_post(t0, i0, p, draws, o2),
    ensures
        o1.ticks == o2.ticks,
        o1.target_path@ == o2.target_path@,
        o1.interceptor_path@ == o2.interceptor_path@,
        o1.collision == o2.collision,
{
    if o1.ticks < o2.ticks {
        assert(o1.collision is Some);
        assert(collided_at(t0, i0, p, draws, o1.ticks as int));
        assert(!collided_at(t0, i0, p, draws, o1.ticks as int));
    }
    if o2.ticks < o1.ticks {
        assert(o2.collision is Some);
        assert(collided_at(t0, i0, p, draws, o2.ticks as int));
        assert(!collided_at(t0, i0, p, draws, o2.ticks as int));
    }
    assert(o1.target_path@ =~= o2.target_path@);
    assert(o1.interceptor_path@ =~= o2.interceptor_path@);
    match (o1.collision, o2.collision) {
        (Option::Some(c1), Option::Some(c2)) => {
            assert(c1 == c2);
        },
        (Option::Some(c1), Option::None) => {
            assert(false);
        },
        (Option::None, Option::Some(c2)) => {
            assert(false);
        },
        (Option::None, Option::None) => {},
    }
}

/// With a pure-correction blend (weight at `SCALE`) and a target that starts
/// exactly at the reference altitude with no vertical velocity, every tick
/// of the run leaves the target's velocity numerically unchanged and its
/// altitude at the reference, whatever the draws.
pub proof fn lemma_pure_correction_holds_velocity(
    t0: Target,
    i0: Target,
    p: SimParams,
    draws: Seq<i64>,
    n: int,
)
    requires
        run_wf(t0, i0, p),
        p.blend_weight == SCALE,
        t0.y == p.ref_altitude,
        t0.vy == 0,
        0 <= n <= p.max_ticks,
    ensures
        state_after(t0, i0, p, draws, n).0.vx == t0.vx,
        state_after(t0, i0, p, draws, n).0.vy == 0,
        state_after(t0, i0, p, draws, n).0.y == t0.y,
        -(START_LIMIT + n * 10000000) <= state_after(t0, i0, p, draws, n).0.x <= START_LIMIT
            + n * 10000000,
    decreases n,
{
    if n > 0 {
        lemma_pure_correction_holds_velocity(t0, i0, p, draws, n - 1);
        let prev = state_after(t0, i0, p, draws, n - 1);
        crate::evasion::lemma_evasion_identity_at_reference(
            prev.0.y as int,
            p.p_gain as int,
            draws[n - 1] as int,
            prev.0.vx as int,
            prev.0.vy as int,
        );
    }
}

/// A negative collision threshold can never be met: the distance is a
/// non-negative integer square root, so the run exhausts its full tick
/// budget and reports no collision.
pub proof fn lemma_negative_threshold_exhausts(
    t0: Target,
    i0: Target,
    p: SimParams,
    draws: Seq<i64>,
    out: SimOutcome,
)
    requires
        run_post(t0, i0, p, draws, out),
        p.collision_threshold < 0,
    ensures
        out.ticks == p.max_ticks,
        out.collision is None,
{
    match out.collision {
        Option::Some(c) => {
            let st = state_after(t0, i0, p, draws, out.ticks as int);
            crate::geom::lemma_component_le_mag(st.1.x - st.0.x, st.1.y - st.0.y);
            assert(false);
        },
        Option::None => {},
    }
}

} // verus!
