use boidoid::agent::Agent;
use boidoid::arith::LIMIT;
use boidoid::config::Config;
use boidoid::vector::{Vector, Wide};

#[test]
fn vector_new_sets_the_coordinates() {
    let v = Vector::new(1, -2, 3);
    assert_eq!(v, Vector { x: 1, y: -2, z: 3 });
    assert_eq!(Vector::zero(), Vector { x: 0, y: 0, z: 0 });
}

#[test]
fn vector_validity_ends_at_the_limit() {
    assert!(Vector::new(LIMIT, -LIMIT, 0).is_wf());
    assert!(!Vector::new(LIMIT + 1, 0, 0).is_wf());
    assert!(!Vector::new(0, -LIMIT - 1, 0).is_wf());
    assert!(!Vector::new(0, 0, i64::MAX).is_wf());
    assert!(!Vector::new(0, 0, i64::MIN).is_wf());
}

#[test]
fn squared_length_and_distance() {
    assert_eq!(Vector::new(3, 4, 0).norm_sq(), 25);
    assert_eq!(Vector::new(-3, 4, 12).norm_sq(), 169);
    assert_eq!(Vector::new(0, 0, 0).norm_sq(), 0);
    assert_eq!(
        Vector::new(i64::MIN, i64::MIN, i64::MIN).norm_sq(),
        3 * (1u128 << 126)
    );
    assert_eq!(Vector::new(1, 2, 3).dist_sq(&Vector::new(4, 6, 3)), 25);
    assert_eq!(
        Vector::new(LIMIT, LIMIT, LIMIT).dist_sq(&Vector::new(-LIMIT, -LIMIT, -LIMIT)),
        3 * (1u128 << 82)
    );
}

#[test]
fn wide_vectors_saturate_and_divide() {
    let w = Wide { x: i128::MAX, y: i128::MIN, z: 17 };
    assert_eq!(w.saturated(), Vector::new(LIMIT, -LIMIT, 17));
    let d = Wide { x: 7, y: -7, z: 6 }.divided(2);
    assert_eq!(d, Wide { x: 3, y: -3, z: 3 });
    assert_eq!(Vector::new(1, -2, 3).widen(), Wide { x: 1, y: -2, z: 3 });
    assert_eq!(Wide::zero(), Wide { x: 0, y: 0, z: 0 });
}

#[test]
fn agent_validity_needs_both_vectors() {
    let good = Agent::new(Vector::new(LIMIT, 0, 0), Vector::new(0, -LIMIT, 0));
    assert!(good.is_wf());
    assert_eq!(good.position, Vector::new(LIMIT, 0, 0));
    assert_eq!(good.heading, Vector::new(0, -LIMIT, 0));
    assert!(!Agent::new(Vector::new(LIMIT + 1, 0, 0), Vector::zero()).is_wf());
    assert!(!Agent::new(Vector::zero(), Vector::new(0, 0, LIMIT + 1)).is_wf());
}

#[test]
fn standard_configuration_has_the_canonical_values() {
    let c = Config::standard();
    assert_eq!(c.radius, 60_000_000);
    assert_eq!(c.separation_factor, 100_000);
    assert_eq!(c.alignment_factor, 50_000);
    assert_eq!(c.cohesion_factor, 800);
    assert_eq!(c.turn_impulse, 100_000);
    assert_eq!(c.margin, 300_000_000);
    assert_eq!(c.separation_threshold, 10_000_000);
    assert_eq!(c.max_speed, 3_000_000);
    assert_eq!(c.min_speed, 1_000_000);
    assert_eq!(c.spatial_scale, 60_000_000);
    assert_eq!(c.agent_count, 1500);
    assert!(c.is_wf());
    assert_eq!(Config::default(), c);
}

#[test]
fn configuration_validity_has_its_limits() {
    let c = Config::standard();
    assert!(!Config { max_speed: c.min_speed + 2, ..c }.is_wf());
    assert!(Config { max_speed: c.min_speed + 3, ..c }.is_wf());
    assert!(!Config { min_speed: -1, ..c }.is_wf());
    assert!(Config { min_speed: 0, ..c }.is_wf());
    assert!(!Config { max_speed: 2_147_483_649, ..c }.is_wf());
    assert!(Config { max_speed: 2_147_483_648, ..c }.is_wf());
    assert!(!Config { separation_factor: 1_048_577, ..c }.is_wf());
    assert!(!Config { alignment_factor: -1_048_577, ..c }.is_wf());
    assert!(!Config { cohesion_factor: 1_048_577, ..c }.is_wf());
    assert!(Config { cohesion_factor: -1_048_576, ..c }.is_wf());
    assert!(!Config { turn_impulse: LIMIT + 1, ..c }.is_wf());
    assert!(!Config { spatial_scale: -1, ..c }.is_wf());
    assert!(!Config { spatial_scale: LIMIT + 1, ..c }.is_wf());
    assert!(Config { radius: -5, margin: i64::MIN, separation_threshold: i64::MAX, ..c }.is_wf());
    assert!(Config { min_speed: i64::MAX, ..c }.is_wf() == false);
}
