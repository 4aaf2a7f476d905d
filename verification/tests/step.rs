use boidoid::agent::{flock_is_wf, Agent};
use boidoid::config::{Bounds, Config};
use boidoid::step::{commit, compute_heading, compute_headings, displace, step, try_step};
use boidoid::vector::Vector;

fn agent(px: i64, py: i64, hx: i64, hy: i64) -> Agent {
    Agent::new(Vector::new(px, py, 0), Vector::new(hx, hy, 0))
}

fn small_flock() -> Vec<Agent> {
    vec![
        agent(0, 0, 1_000_000, 0),
        agent(5_000_000, 0, 0, 2_000_000),
        agent(0, 30_000_000, -1_000_000, -1_000_000),
        agent(100_000_000, 100_000_000, 3_000_000, 0),
        agent(-8_000_000, -1_000_000, 2_000_000, 2_000_000),
    ]
}

fn world() -> Bounds {
    Bounds { width: 1_000_000_000, height: 800_000_000 }
}

#[test]
fn empty_flock_stays_empty() {
    let config = Config::standard();
    let agents: Vec<Agent> = Vec::new();
    let next = step(&world(), 16_667, &agents, &config);
    assert_eq!(next.len(), 0);
    assert_eq!(compute_headings(&agents, &world(), &config).len(), 0);
}

#[test]
fn step_keeps_the_count() {
    let config = Config::standard();
    let mut agents: Vec<Agent> = Vec::new();
    for k in 0..40i64 {
        agents.push(agent(k * 20_000_000, -k * 15_000_000, 1_000_000, 500_000 * k));
        let next = step(&world(), 16_667, &agents, &config);
        assert_eq!(next.len(), agents.len());
    }
}

#[test]
fn displacement_is_heading_times_scale_times_time() {
    assert_eq!(displace(3_000_000, 60_000_000, 16_667), 3_000_060);
    assert_eq!(displace(-3_000_000, 60_000_000, 16_667), -3_000_060);
    assert_eq!(displace(1, 60_000_000, 16_667), 1);
    assert_eq!(displace(999_999, 1, 1), 0);
    assert_eq!(displace(-999_999, 1, 1), 0);
    assert_eq!(displace(2_100_000, 1_000_000, 1_000_000), 2_100_000);
    assert_eq!(displace(2_100_000, 0, 1_000_000), 0);
    assert_eq!(displace(2_100_000, 1_000_000, 0), 0);
    let limit: i64 = 1 << 40;
    assert_eq!(displace(limit, limit, limit), limit);
    assert_eq!(displace(-limit, limit, limit), -limit);
}

#[test]
fn commit_sets_the_heading_and_moves_the_agent() {
    let c = Config::standard();
    let a = agent(10_000_000, -20_000_000, 7, 7);
    let r = commit(&a, Vector::new(3_000_000, -1_000_000, 0), &c, 16_667);
    assert_eq!(r.heading, Vector::new(3_000_060, -1_000_020, 0));
    assert_eq!(r.position, Vector::new(13_000_060, -21_000_020, 0));
}

#[test]
fn headings_of_a_small_flock() {
    let c = Config::standard();
    let flock = small_flock();
    let h = compute_headings(&flock, &world(), &c);
    assert_eq!(
        h,
        vec![
            Vector::new(1_315_866, 157_733, 0),
            Vector::new(527_200, 2_024_399, 0),
            Vector::new(-950_800, -957_600, 0),
            Vector::new(3_000_000, 0, 0),
            Vector::new(1_207_733, 1_925_466, 0),
        ]
    );
    for i in 0..flock.len() {
        assert_eq!(compute_heading(&flock, i, &world(), &c), h[i]);
    }
}

#[test]
fn step_of_a_small_flock() {
    let c = Config::standard();
    let next = step(&world(), 16_667, &small_flock(), &c);
    assert_eq!(
        next,
        vec![
            agent(1_315_892, 157_736, 1_315_892, 157_736),
            agent(5_527_210, 2_024_439, 527_210, 2_024_439),
            agent(-950_819, 29_042_381, -950_819, -957_619),
            agent(103_000_060, 100_000_000, 3_000_060, 0),
            agent(-6_792_243, 925_504, 1_207_757, 1_925_504),
        ]
    );
}

#[test]
fn every_agent_sees_the_flock_as_it_was() {
    let c = Config { spatial_scale: 1_000_000, ..Config::standard() };
    let flock = small_flock();
    let next = step(&world(), 1_000_000, &flock, &c);
    for i in 0..flock.len() {
        let h = compute_heading(&flock, i, &world(), &c);
        assert_eq!(next[i], commit(&flock[i], h, &c, 1_000_000));
    }
    assert_eq!(next[1], agent(5_527_200, 2_024_399, 527_200, 2_024_399));
    assert_eq!(next[4], agent(-6_792_267, 925_466, 1_207_733, 1_925_466));
}

#[test]
fn separation_scenario_through_a_step() {
    let c = Config { spatial_scale: 1_000_000, ..Config::standard() };
    let bounds = Bounds { width: 1_000_000_000, height: 1_000_000_000 };
    let flock = vec![agent(0, 0, 2_000_000, 0), agent(5_000_000, 0, 2_000_000, 0)];
    let next = step(&bounds, 1_000_000, &flock, &c);
    assert_eq!(
        next,
        vec![agent(1_604_000, 0, 1_604_000, 0), agent(7_596_000, 0, 2_596_000, 0)]
    );
}

#[test]
fn boundary_scenario_through_a_step() {
    let bounds = Bounds { width: 1_000_000_000, height: 1_000_000_000 };
    let flock = vec![agent(-499_000_000, 0, 2_000_000, 0)];
    let unit = Config { spatial_scale: 1_000_000, ..Config::standard() };
    let next = step(&bounds, 1_000_000, &flock, &unit);
    assert_eq!(next, vec![agent(-496_900_000, 0, 2_100_000, 0)]);
    let next = step(&bounds, 16_667, &flock, &Config::standard());
    assert_eq!(next, vec![agent(-496_899_958, 0, 2_100_042, 0)]);
}

#[test]
fn a_step_of_no_time_moves_nothing() {
    let c = Config::standard();
    let flock = small_flock();
    let next = step(&world(), 0, &flock, &c);
    assert_eq!(next.len(), flock.len());
    for i in 0..flock.len() {
        assert_eq!(next[i].position, flock[i].position);
        assert_eq!(next[i].heading, Vector::zero());
    }
}

#[test]
fn an_agent_alone_is_only_turned_and_limited() {
    let c = Config { spatial_scale: 1_000_000, ..Config::standard() };
    let flock = vec![
        agent(0, 0, 1_500_000, -500_000),
        agent(60_000_000, 0, 0, 0),
        agent(0, -90_000_000, 5_000_000, 0),
    ];
    let next = step(&world(), 1_000_000, &flock, &c);
    assert_eq!(next[0].heading, Vector::new(1_500_000, -500_000, 0));
    assert_eq!(next[1].heading, Vector::new(1_000_000, 0, 0));
    assert_eq!(next[2].heading, Vector::new(3_000_000, 0, 0));
}

#[test]
fn the_order_of_the_flock_does_not_matter() {
    let c = Config::standard();
    let flock = small_flock();
    let next = step(&world(), 16_667, &flock, &c);
    let order: [usize; 5] = [3, 0, 4, 2, 1];
    let mut shuffled: Vec<Agent> = Vec::new();
    for k in order {
        shuffled.push(flock[k]);
    }
    let next_shuffled = step(&world(), 16_667, &shuffled, &c);
    for (place, k) in order.iter().enumerate() {
        assert_eq!(next_shuffled[place], next[*k]);
    }
}

#[test]
fn the_order_does_not_matter_where_sums_are_rounded() {
    let c = Config::standard();
    let mut flock: Vec<Agent> = Vec::new();
    for k in 0..9i64 {
        flock.push(agent(
            k * 3_333_333 - 7,
            (k * k) * 1_111_111 - 5_000_001,
            (k % 3 - 1) * 777_777,
            (k % 4) * 333_333 - 1,
        ));
    }
    let next = step(&world(), 16_667, &flock, &c);
    let mut reversed = flock.clone();
    reversed.reverse();
    let next_reversed = step(&world(), 16_667, &reversed, &c);
    for i in 0..flock.len() {
        assert_eq!(next_reversed[flock.len() - 1 - i], next[i]);
    }
}

#[test]
fn positions_stop_at_the_limit() {
    let limit: i64 = 1 << 40;
    let bounds = Bounds { width: 1_000_000_000, height: 1_000_000_000 };
    let flock = vec![agent(limit - 5, -limit + 5, 3_000_000, -3_000_000)];
    let next = step(&bounds, 1_000_000, &flock, &Config::standard());
    assert_eq!(next, vec![agent(limit, -limit, 127_279_140, -127_279_140)]);
    let fast = Config { spatial_scale: limit, ..Config::standard() };
    let next = step(&bounds, limit, &flock, &fast);
    assert_eq!(next, vec![agent(limit, -limit, limit, -limit)]);
    assert!(next[0].is_wf());
}

#[test]
fn speeds_stay_within_the_range_over_many_steps() {
    let c = Config::standard();
    let mut flock: Vec<Agent> = Vec::new();
    for k in 0..30i64 {
        flock.push(agent(
            (k % 6) * 9_000_000 - 20_000_000,
            (k / 6) * 9_000_000 - 20_000_000,
            (k % 5 - 2) * 400_000,
            (k % 7 - 3) * 300_000,
        ));
    }
    for _ in 0..20 {
        let headings = compute_headings(&flock, &world(), &c);
        assert_eq!(headings.len(), flock.len());
        for h in &headings {
            let s = h.norm_sq();
            assert!(1_000_000_000_000 <= s && s <= 9_000_000_000_000);
        }
        flock = step(&world(), 16_667, &flock, &c);
        assert_eq!(flock.len(), 30);
    }
}

#[test]
fn a_flock_is_well_formed_where_every_agent_is() {
    let limit: i64 = 1 << 40;
    assert!(flock_is_wf(&Vec::new()));
    assert!(flock_is_wf(&small_flock()));
    let mut flock = small_flock();
    flock.push(agent(limit + 1, 0, 0, 0));
    assert!(!flock_is_wf(&flock));
    flock.insert(0, agent(0, 0, 0, 0));
    assert!(!flock_is_wf(&flock));
}

#[test]
fn a_checked_step_is_the_step_where_the_inputs_are_in_order() {
    let c = Config::standard();
    let flock = small_flock();
    assert_eq!(try_step(&world(), 16_667, &flock, &c), Some(step(&world(), 16_667, &flock, &c)));
    assert_eq!(try_step(&world(), 0, &flock, &c), Some(step(&world(), 0, &flock, &c)));
    let limit: i64 = 1 << 40;
    assert!(try_step(&world(), limit, &flock, &c).is_some());
    assert_eq!(try_step(&world(), 16_667, &Vec::new(), &c), Some(Vec::new()));
}

#[test]
fn a_checked_step_gives_nothing_where_they_are_not() {
    let c = Config::standard();
    let flock = small_flock();
    let limit: i64 = 1 << 40;
    assert_eq!(try_step(&world(), -1, &flock, &c), None);
    assert_eq!(try_step(&world(), limit + 1, &flock, &c), None);
    let bad = Config { max_speed: 1_000_002, ..c };
    assert_eq!(try_step(&world(), 16_667, &flock, &bad), None);
    let mut far = small_flock();
    far.push(agent(0, 0, 0, limit + 1));
    assert_eq!(try_step(&world(), 16_667, &far, &c), None);
}

#[test]
fn stored_headings_are_scaled_speeds() {
    let c = Config::standard();
    let elapsed: i64 = 16_667;
    let next = step(&world(), elapsed, &small_flock(), &c);
    let k: i128 = c.spatial_scale as i128 * elapsed as i128;
    let unit: i128 = 1_000_000_000_000;
    let max: i128 = c.max_speed as i128;
    let min: i128 = c.min_speed as i128;
    for a in &next {
        let h = a.heading;
        let exact = h.norm_sq() as i128;
        assert!(exact * (unit / 1_000_000) * (unit / 1_000_000) <= max * max * (k / 1_000_000) * (k / 1_000_000));
        let raised = Vector::new(h.x.abs() + 1, h.y.abs() + 1, h.z.abs() + 1).norm_sq() as i128;
        assert!(raised * (unit / 1_000_000) * (unit / 1_000_000) >= min * min * (k / 1_000_000) * (k / 1_000_000));
    }
}
