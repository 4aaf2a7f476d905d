use boidoid::agent::Agent;
use boidoid::config::Config;
use boidoid::steering::{scale, steer, tally, Tally};
use boidoid::vector::{Vector, Wide};

fn agent(px: i64, py: i64, hx: i64, hy: i64) -> Agent {
    Agent::new(Vector::new(px, py, 0), Vector::new(hx, hy, 0))
}

#[test]
fn scaling_multiplies_by_a_fixed_point_factor() {
    let w = Wide { x: 5_000_000, y: -5_000_000, z: 9 };
    assert_eq!(scale(&w, 100_000), Wide { x: 500_000, y: -500_000, z: 0 });
    assert_eq!(scale(&w, -100_000), Wide { x: -500_000, y: 500_000, z: 0 });
    assert_eq!(scale(&w, 1_000_000), w);
    assert_eq!(scale(&w, 0), Wide::zero());
    assert_eq!(
        scale(&Wide { x: 1_999_999, y: -1_999_999, z: 0 }, 1),
        Wide { x: 1, y: -1, z: 0 }
    );
}

#[test]
fn tally_of_an_empty_flock_is_zero() {
    let t = tally(&Vector::new(1, 2, 3), &Vec::new(), 10_000_000);
    assert_eq!(
        t,
        Tally { count: 0, positions: Wide::zero(), headings: Wide::zero(), pushes: Wide::zero() }
    );
    assert_eq!(t.separation(100_000), Wide::zero());
    assert_eq!(t.alignment(50_000), Wide::zero());
    assert_eq!(t.cohesion(&Vector::new(1, 2, 3), 800), Wide::zero());
}

#[test]
fn tally_sums_positions_headings_and_pushes() {
    let me = Vector::new(0, 0, 0);
    let flock = vec![
        agent(5_000_000, 0, 1_000_000, 0),
        agent(0, -9_999_999, 0, 2_000_000),
        agent(10_000_000, 0, -500_000, 0),
        agent(20_000_000, 30_000_000, 0, 0),
    ];
    let t = tally(&me, &flock, 10_000_000);
    assert_eq!(t.count, 4);
    assert_eq!(t.positions, Wide { x: 35_000_000, y: 20_000_001, z: 0 });
    assert_eq!(t.headings, Wide { x: 500_000, y: 2_000_000, z: 0 });
    assert_eq!(t.pushes, Wide { x: -5_000_000, y: 9_999_999, z: 0 });
    assert_eq!(t.separation(100_000), Wide { x: -500_000, y: 999_999, z: 0 });
    assert_eq!(t.alignment(50_000), Wide { x: 6_250, y: 25_000, z: 0 });
    assert_eq!(t.cohesion(&me, 800), Wide { x: 7_000, y: 4_000, z: 0 });
}

#[test]
fn separation_only_scenario() {
    let c = Config::standard();
    let a = agent(0, 0, 2_000_000, 0);
    let b = agent(5_000_000, 0, 2_000_000, 0);
    let ta = tally(&a.position, &vec![b], c.separation_threshold);
    let tb = tally(&b.position, &vec![a], c.separation_threshold);
    assert_eq!(ta.separation(c.separation_factor), Wide { x: -500_000, y: 0, z: 0 });
    assert_eq!(tb.separation(c.separation_factor), Wide { x: 500_000, y: 0, z: 0 });
    assert_eq!(ta.alignment(c.alignment_factor), Wide { x: 100_000, y: 0, z: 0 });
    assert_eq!(tb.alignment(c.alignment_factor), Wide { x: 100_000, y: 0, z: 0 });
    assert_eq!(ta.cohesion(&a.position, c.cohesion_factor), Wide { x: 4_000, y: 0, z: 0 });
    assert_eq!(tb.cohesion(&b.position, c.cohesion_factor), Wide { x: -4_000, y: 0, z: 0 });
    assert_eq!(steer(&a, &vec![b], &c), Vector::new(1_604_000, 0, 0));
    assert_eq!(steer(&b, &vec![a], &c), Vector::new(2_596_000, 0, 0));
}

#[test]
fn separation_pushes_directly_away() {
    let c = Config::standard();
    let a = agent(0, 0, 0, 2_000_000);
    let b = agent(3_000_000, 4_000_000, 0, 2_000_000);
    let ta = tally(&a.position, &vec![b], c.separation_threshold);
    let tb = tally(&b.position, &vec![a], c.separation_threshold);
    let pa = ta.separation(c.separation_factor);
    let pb = tb.separation(c.separation_factor);
    assert_eq!(pa, Wide { x: -300_000, y: -400_000, z: 0 });
    assert_eq!(pb, Wide { x: 300_000, y: 400_000, z: 0 });
    assert_eq!(pa.x * pa.x + pa.y * pa.y, 500_000i128 * 500_000);
    assert_eq!(steer(&a, &vec![b], &c), Vector::new(-297_600, 1_703_200, 0));
    assert_eq!(steer(&b, &vec![a], &c), Vector::new(297_600, 2_496_800, 0));
}

#[test]
fn separation_only_scenario_with_the_other_rules_off() {
    let c = Config { alignment_factor: 0, cohesion_factor: 0, ..Config::standard() };
    let a = agent(0, 0, 2_000_000, 0);
    let b = agent(5_000_000, 0, 2_000_000, 0);
    assert_eq!(steer(&a, &vec![b], &c), Vector::new(1_500_000, 0, 0));
    assert_eq!(steer(&b, &vec![a], &c), Vector::new(2_500_000, 0, 0));
}

#[test]
fn neighbours_at_the_threshold_do_not_push() {
    let c = Config::standard();
    let a = agent(0, 0, 1_000_000, 0);
    let b = agent(10_000_000, 0, 1_000_000, 0);
    let t = tally(&a.position, &vec![b], c.separation_threshold);
    assert_eq!(t.pushes, Wide::zero());
    assert_eq!(t.separation(c.separation_factor), Wide::zero());
    let none = tally(&a.position, &vec![agent(1, 0, 0, 0)], 0);
    assert_eq!(none.pushes, Wide::zero());
}

#[test]
fn an_agent_alone_keeps_its_heading() {
    let c = Config::standard();
    let a = agent(123, -456, 789_000, -1_000);
    assert_eq!(steer(&a, &Vec::new(), &c), a.heading);
}

#[test]
fn the_candidate_heading_is_saturated() {
    let c = Config { separation_factor: 1_048_576, separation_threshold: i64::MAX, ..Config::standard() };
    let limit: i64 = 1 << 40;
    let a = agent(limit, -limit, limit, -limit);
    let b = agent(-limit, limit, 0, 0);
    let r = steer(&a, &vec![b, b, b], &c);
    assert_eq!(r, Vector::new(limit, -limit, 0));
}
