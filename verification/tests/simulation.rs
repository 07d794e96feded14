use pursuit::driver::{run, run_seeded, SimParams};
use pursuit::entity::Target;
use pursuit::evasion::evade;
use pursuit::rng::{seed_rng, draw_range};

const S: i64 = 1_000_000;

fn base_params() -> SimParams {
    SimParams {
        collision_threshold: S,
        max_ticks: 1000,
        ref_altitude: 20 * S,
        blend_weight: S,
        p_gain: 0,
        interceptor_speed: 2_500_000,
        min_angle_mdeg: 5_000,
        angle_buffer_mdeg: 500,
        use_lead: false,
    }
}

fn zero_draws(n: usize) -> Vec<i64> {
    let mut v = Vec::new();
    let mut k: usize = 0;
    while k < n {
        v.push(0);
        k += 1;
    }
    v
}

#[test]
fn scenario_pure_pursuit_tail_chase() {
    // Target at (0, 20) moving (2, 0); interceptor at rest at the origin,
    // speed 2.5, pure pursuit, no evasion: collision within the budget with
    // a shallow (under five degrees) approach angle.
    let target = Target::new(0, 20 * S, 2 * S, 0);
    let interceptor = Target::new(0, 0, 0, 0);
    let p = base_params();
    let out = run(target, interceptor, &p, &zero_draws(1000));
    let c = out.collision.expect("pure pursuit must reach the target");
    assert!(out.ticks < 1000);
    assert!(c.angle_mdeg < 5_000, "tail chase angle was {}", c.angle_mdeg);
}

#[test]
fn scenario_lead_pursuit_enforced_angle() {
    // Same geometry, lead pursuit with minimum-angle enforcement: collision
    // with a reported angle above five degrees, in no more ticks than the
    // pure-pursuit chase.
    let target = Target::new(0, 20 * S, 2 * S, 0);
    let interceptor = Target::new(0, 0, 0, 0);
    let pure = base_params();
    let lead = SimParams { use_lead: true, ..base_params() };
    let out_pure = run(target, interceptor, &pure, &zero_draws(1000));
    let out_lead = run(target, interceptor, &lead, &zero_draws(1000));
    let c = out_lead.collision.expect("lead pursuit must reach the target");
    assert!(c.angle_mdeg > 5_000, "enforced angle was {}", c.angle_mdeg);
    assert!(out_lead.ticks <= out_pure.ticks);
}

#[test]
fn scenario_pure_correction_keeps_velocity() {
    // Blend weight 1.0 (pure correction) with the target starting exactly at
    // the reference altitude: the correction is zero every tick, so the
    // velocity never changes, whatever the draws. The interceptor is parked
    // far away and can never collide.
    let target = Target::new(0, 20 * S, 2 * S, 0);
    let interceptor = Target::new(900_000_000, 900_000_000, 0, 0);
    let p = SimParams {
        collision_threshold: S,
        max_ticks: 100,
        ref_altitude: 20 * S,
        blend_weight: S,
        p_gain: 200_000,
        interceptor_speed: 0,
        min_angle_mdeg: 5_000,
        angle_buffer_mdeg: 500,
        use_lead: false,
    };
    let mut draws = Vec::new();
    let mut k: i64 = 0;
    while k < 100 {
        draws.push((k * 97) % 5_000 - 2_500);
        k += 1;
    }
    let out = run(target, interceptor, &p, &draws);
    assert!(out.collision.is_none());
    assert_eq!(out.ticks, 100);
    assert_eq!(out.target_path.len(), 101);
    for (k, pos) in out.target_path.iter().enumerate() {
        assert_eq!(*pos, (2 * S * k as i64, 20 * S), "tick {}", k);
    }
}

#[test]
fn exhaustion_on_negative_threshold() {
    // A negative collision threshold can never be met: the run must use its
    // whole budget and report no collision.
    let target = Target::new(0, 20 * S, 2 * S, 0);
    let interceptor = Target::new(0, 20 * S, 0, 0);
    let p = SimParams { collision_threshold: -1, max_ticks: 500, ..base_params() };
    let out = run(target, interceptor, &p, &zero_draws(500));
    assert!(out.collision.is_none());
    assert_eq!(out.ticks, 500);
    assert_eq!(out.target_path.len(), 501);
    assert_eq!(out.interceptor_path.len(), 501);
    assert_eq!(out.target_path[0], (0, 20 * S));
}

#[test]
fn seeded_runs_are_reproducible() {
    // One seed, two runs: identical trajectories and identical collision
    // outcome.
    let target = Target::new(0, 20 * S, 2 * S, 0);
    let interceptor = Target::new(0, 0, 0, 0);
    let p = SimParams { blend_weight: 600_000, p_gain: 200_000, ..base_params() };
    let a = run_seeded(target, interceptor, &p, 12345);
    let b = run_seeded(target, interceptor, &p, 12345);
    assert_eq!(a, b);
}

#[test]
fn random_evasion_draws_reach_the_target_dynamics() {
    // Pure random evasion (weight zero): the drawn deviations must actually
    // bend the trajectory away from the straight line it takes when every
    // draw is zero.
    let target = Target::new(0, 20 * S, 2 * S, 0);
    let interceptor = Target::new(900_000_000, 900_000_000, 0, 0);
    let p = SimParams {
        collision_threshold: -1,
        max_ticks: 50,
        ref_altitude: 20 * S,
        blend_weight: 0,
        p_gain: 0,
        interceptor_speed: 0,
        min_angle_mdeg: 5_000,
        angle_buffer_mdeg: 500,
        use_lead: false,
    };
    let seeded = run_seeded(target, interceptor, &p, 7);
    let straight = run(target, interceptor, &p, &zero_draws(50));
    assert_eq!(seeded.ticks, 50);
    assert_ne!(seeded.target_path, straight.target_path);
}

#[test]
fn draws_stay_in_the_configured_range() {
    let mut rng = seed_rng(99);
    let mut k: usize = 0;
    while k < 200 {
        let d = draw_range(&mut rng, -5_000, 5_000);
        assert!(d >= -5_000 && d < 5_000);
        k += 1;
    }
}

#[test]
fn evasion_at_reference_altitude_is_identity() {
    // Pure-correction blend, target exactly at the reference: the evasion
    // step leaves the velocity numerically unchanged whatever the draw.
    let mut t = Target::new(5 * S, 20 * S, 2 * S, 0);
    evade(&mut t, 20 * S, S, 200_000, 4_321);
    assert_eq!((t.vx, t.vy), (2 * S, 0));
    assert_eq!((t.x, t.y), (5 * S, 20 * S));
}

#[test]
fn evasion_rotates_by_the_drawn_angle() {
    // Pure random blend: a five-degree draw turns the velocity by about five
    // degrees and keeps its speed.
    let mut t = Target::new(0, 20 * S, 2 * S, 0);
    evade(&mut t, 20 * S, 0, 0, 5_000);
    let turned = pursuit::geom::calculate_angle_between_vectors(2 * S, 0, t.vx, t.vy);
    assert!(turned > 4_500 && turned < 5_500, "turned {}", turned);
    let speed2 = (t.vx as i128) * (t.vx as i128) + (t.vy as i128) * (t.vy as i128);
    let want = (2 * S as i128) * (2 * S as i128);
    assert!(speed2 > want - 8_000_000_000 && speed2 < want + 8_000_000_000);
}
