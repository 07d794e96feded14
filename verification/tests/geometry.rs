use pursuit::fixed::isqrt;
use pursuit::geom::{normalize_i128, distance_between, calculate_angle_between_vectors,
    exceeds_angle};
use pursuit::trig::{rotate, trig_mdeg};
use pursuit::guidance::{solve_intercept, InterceptSolution, lead_pursuit_heading,
    calculate_steering_direction};
use pursuit::entity::Target;

const S: i64 = 1_000_000;

#[test]
fn isqrt_exact_values() {
    assert_eq!(isqrt(0), 0);
    assert_eq!(isqrt(10), 3);
    assert_eq!(isqrt(16), 4);
    assert_eq!(isqrt(1_000_000_000_000), 1_000_000);
}

#[test]
fn normalize_three_four_five() {
    let u = normalize_i128(3_000_000, 4_000_000);
    assert_eq!(u, (600_000, 800_000));
}

#[test]
fn normalize_zero_vector_gives_zero() {
    assert_eq!(normalize_i128(0, 0), (0, 0));
}

#[test]
fn normalize_axis_is_exact_unit() {
    assert_eq!(normalize_i128(7_000_000, 0), (S, 0));
    assert_eq!(normalize_i128(0, -9_000_000), (0, -S));
}

#[test]
fn normalize_magnitude_within_tolerance() {
    // An irregular direction of magnitude well above one unit.
    let (ux, uy) = normalize_i128(7_000_000, 3_000_000);
    let m2 = (ux as i128) * (ux as i128) + (uy as i128) * (uy as i128);
    let s2 = (S as i128) * (S as i128);
    assert!(m2 >= s2 - 5 * (S as i128));
    assert!(m2 <= s2 + 3 * (S as i128));
}

#[test]
fn distance_three_four_five() {
    assert_eq!(distance_between(0, 0, 3_000_000, 4_000_000), 5_000_000);
    assert_eq!(distance_between(3_000_000, 4_000_000, 0, 0), 5_000_000);
}

#[test]
fn angle_between_is_symmetric() {
    let a = calculate_angle_between_vectors(S, 0, 0, S);
    let b = calculate_angle_between_vectors(0, S, S, 0);
    assert_eq!(a, b);
}

#[test]
fn angle_between_orthogonal_vectors_is_a_right_angle() {
    assert_eq!(calculate_angle_between_vectors(S, 0, 0, S), 90_000);
    assert_eq!(calculate_angle_between_vectors(2 * S, 0, 0, -5 * S), 90_000);
}

#[test]
fn angle_between_zero_vector_is_zero() {
    assert_eq!(calculate_angle_between_vectors(0, 0, 5, 5), 0);
    assert_eq!(calculate_angle_between_vectors(5, 5, 0, 0), 0);
}

#[test]
fn angle_between_opposite_vectors_is_half_turn() {
    assert_eq!(calculate_angle_between_vectors(S, 0, -S, 0), 180_000);
}

#[test]
fn angle_between_small_angles_bracket_five_degrees() {
    // 3 degrees apart: below the five-degree threshold.
    let (c3, s3) = trig_mdeg(3_000);
    let low = calculate_angle_between_vectors(S, 0, c3, s3);
    assert!(low < 5_000);
    // 8 degrees apart: above it.
    let (c8, s8) = trig_mdeg(8_000);
    let high = calculate_angle_between_vectors(S, 0, c8, s8);
    assert!(high > 5_000);
}

#[test]
fn rotate_zero_angle_is_identity() {
    assert_eq!(rotate(123_456, -654_321, 0), (123_456, -654_321));
}

#[test]
fn rotate_full_turn_is_identity() {
    assert_eq!(rotate(2_000_000, -300_000, 360_000), (2_000_000, -300_000));
}

#[test]
fn rotate_half_turn_negates() {
    assert_eq!(rotate(S, 0, 180_000), (-S, 0));
    assert_eq!(rotate(0, S, 180_000), (0, -S));
}

#[test]
fn rotate_keeps_magnitude_approximately() {
    let (rx, ry) = rotate(2_000_000, 0, 37_000);
    let m2 = (rx as i128) * (rx as i128) + (ry as i128) * (ry as i128);
    let want = 4_000_000_000_000i128;
    assert!(m2 > want - 4_000_000_000);
    assert!(m2 < want + 4_000_000_000);
}

#[test]
fn exceeds_angle_parallel_and_orthogonal() {
    // cos(5 degrees) at denominator 65536 is about 65286.
    let ct16 = 65_286;
    assert!(!exceeds_angle(S, 0, 3_000_000, 0, ct16));
    assert!(exceeds_angle(0, S, 3_000_000, 0, ct16));
    assert!(exceeds_angle(-S, 0, 3_000_000, 0, ct16));
}

#[test]
fn solve_intercept_head_on_stationary_target() {
    // Ten meters away, stationary target, interceptor speed two per tick:
    // the earliest intercept is exactly five ticks.
    let sol = solve_intercept(0, 10_000_000, 0, 0, 2_000_000);
    assert_eq!(sol, InterceptSolution::Intercept(5_000_000));
}

#[test]
fn solve_intercept_receding_faster_target_has_no_root() {
    let sol = solve_intercept(10_000_000, 0, 3_000_000, 0, 2_000_000);
    assert_eq!(sol, InterceptSolution::NoIntercept);
}

#[test]
fn stationary_target_heading_is_pure_pursuit() {
    // Lead pursuit against a stationary target aims at its current position.
    let interceptor = Target::new(0, 0, 0, 0);
    let target = Target::new(10_000_000, 0, 0, 0);
    let h = lead_pursuit_heading(&interceptor, &target, 2_500_000, 5_000, 500, true);
    assert_eq!(h, (S, 0));
}

#[test]
fn steering_direction_is_normalized_difference() {
    let from = Target::new(0, 0, 0, 0);
    let to = Target::new(3_000_000, 4_000_000, 2_000_000, 0);
    assert_eq!(calculate_steering_direction(&from, &to), (600_000, 800_000));
}

#[test]
fn enforced_heading_leaves_diverging_heading_alone() {
    // Target moving along x, interceptor aiming at right angles: already
    // diverging, so the guidance returns the plain aim direction.
    let interceptor = Target::new(0, 0, 0, 0);
    let target = Target::new(0, 10_000_000, 2_000_000, 0);
    let h = lead_pursuit_heading(&interceptor, &target, 0, 5_000, 500, true);
    // Speed zero: no intercept root, pure-pursuit aim straight up.
    assert_eq!(h, (0, S));
}

#[test]
fn enforced_headings_always_exceed_the_minimum_angle() {
    // Sweep line-of-sight directions from parallel up to the five-degree
    // threshold: the returned heading must always diverge from the target's
    // velocity by more than five degrees (checked with the exact
    // cosine-threshold test). With interceptor speed zero the solver finds
    // no root, so the pre-enforcement aim is exactly the swept direction.
    let ct16_five_deg = 65_286;
    let mut theta = 0i64;
    while theta <= 5_000 {
        let (c, s) = trig_mdeg(theta);
        let interceptor = Target::new(0, 0, 0, 0);
        let target = Target::new(10 * c, 10 * s, 2_000_000, 0);
        let h = lead_pursuit_heading(&interceptor, &target, 0, 5_000, 500, true);
        assert!(
            exceeds_angle(h.0, h.1, 2_000_000, 0, ct16_five_deg),
            "heading {:?} at sweep angle {} not past the minimum",
            h,
            theta
        );
        theta += 250;
    }
}

#[test]
fn enforcement_diverges_even_without_buffer() {
    // Buffer zero and a heading exactly parallel to the target velocity: the
    // rotation lands right on the threshold, where rounding decides — the
    // divergence invariant must hold regardless.
    let interceptor = Target::new(0, 0, 0, 0);
    let target = Target::new(10_000_000, 0, 2_000_000, 0);
    let h = lead_pursuit_heading(&interceptor, &target, 0, 5_000, 0, true);
    assert!(exceeds_angle(h.0, h.1, 2_000_000, 0, 65_286));
}

#[test]
fn enforcement_rotates_near_parallel_heading_past_minimum() {
    // Interceptor directly behind a target moving along x: pure-pursuit aim
    // is parallel to the target velocity, so enforcement must rotate it to
    // more than five degrees away.
    let interceptor = Target::new(0, 0, 0, 0);
    let target = Target::new(10_000_000, 0, 2_000_000, 0);
    let h = lead_pursuit_heading(&interceptor, &target, 1_000_000, 5_000, 500, true);
    let ang = calculate_angle_between_vectors(h.0, h.1, 2_000_000, 0);
    assert!(ang >= 5_000, "enforced angle {} below minimum", ang);
    assert!(ang <= 6_500, "enforced angle {} far beyond minimum plus buffer", ang);
}
