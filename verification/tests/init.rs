use boidoid::config::Bounds;
use boidoid::init::{init, place};
use boidoid::agent::Agent;
use boidoid::vector::Vector;

#[test]
fn place_puts_the_agent_in_the_plane() {
    let a = place(1, -2, 3, -4);
    assert_eq!(a, Agent::new(Vector::new(1, -2, 0), Vector::new(3, -4, 0)));
}

#[test]
fn habitable_worlds() {
    let limit: i64 = 1 << 40;
    assert!(Bounds { width: 2, height: 2 }.is_habitable());
    assert!(Bounds { width: 2 * limit, height: 2 * limit }.is_habitable());
    assert!(!Bounds { width: 1, height: 2 }.is_habitable());
    assert!(!Bounds { width: 2, height: 0 }.is_habitable());
    assert!(!Bounds { width: -1_000_000, height: 1_000_000 }.is_habitable());
    assert!(!Bounds { width: 2 * limit + 1, height: 2 }.is_habitable());
    assert!(!Bounds { width: 2, height: i64::MAX }.is_habitable());
}

#[test]
fn init_makes_as_many_agents_as_asked() {
    let mut rng = rand::thread_rng();
    let bounds = Bounds { width: 1_280_000_000, height: 720_000_000 };
    assert_eq!(init(&bounds, 0, &mut rng).len(), 0);
    assert_eq!(init(&bounds, 1, &mut rng).len(), 1);
    assert_eq!(init(&bounds, 1500, &mut rng).len(), 1500);
}

#[test]
fn init_scatters_within_the_visible_area() {
    let mut rng = rand::thread_rng();
    let bounds = Bounds { width: 1_280_000_000, height: 720_000_000 };
    let flock = init(&bounds, 2000, &mut rng);
    for a in &flock {
        assert!(-640_000_000 <= a.position.x && a.position.x < 640_000_000);
        assert!(-360_000_000 <= a.position.y && a.position.y < 360_000_000);
        assert_eq!(a.position.z, 0);
        assert!(-1_000_000 <= a.heading.x && a.heading.x < 1_000_000);
        assert!(-1_000_000 <= a.heading.y && a.heading.y < 1_000_000);
        assert_eq!(a.heading.z, 0);
        assert!(a.is_wf());
    }
}

#[test]
fn init_draws_different_agents() {
    let mut rng = rand::thread_rng();
    let bounds = Bounds { width: 1_280_000_000, height: 720_000_000 };
    let flock = init(&bounds, 200, &mut rng);
    let first = flock[0];
    assert!(flock.iter().any(|a| a.position.x != first.position.x));
    assert!(flock.iter().any(|a| a.position.y != first.position.y));
    assert!(flock.iter().any(|a| a.heading.x != first.heading.x));
    assert!(flock.iter().any(|a| a.heading.y != first.heading.y));
    assert!(flock.iter().any(|a| a.position.x != -640_000_000));
    assert!(flock.iter().any(|a| a.position.y != -360_000_000));
    assert!(flock.iter().any(|a| a.heading.x != -1_000_000));
    assert!(flock.iter().any(|a| a.position.x < 0) && flock.iter().any(|a| a.position.x > 0));
}

#[test]
fn init_in_the_smallest_world() {
    let mut rng = rand::thread_rng();
    let bounds = Bounds { width: 2, height: 3 };
    let flock = init(&bounds, 50, &mut rng);
    for a in &flock {
        assert!(a.position.x == -1 || a.position.x == 0);
        assert!(a.position.y == -1 || a.position.y == 0);
    }
}
