use boids::boid::{Boid, BoidType};
use boids::config::{BoundaryPolicy, Config};
use boids::tools::{get_magnitude_squared, Vec2};

fn cfg() -> Config {
    Config {
        count: 2,
        width: 1000,
        height: 800,
        boid_size: 4,
        sensory_radius: 80,
        bounding_radius: 6,
        min_speed: 30,
        max_speed: 100,
        predator_max_speed: 130,
        alignment_mult: 5,
        cohesion_mult: 30,
        separation_mult: 130,
        predator_separation_mult: 500,
        chase_mult: 1050,
        escape_mult: 550,
        policy: BoundaryPolicy::Wrap,
        seed: 1,
    }
}

#[test]
fn default_boid_is_a_resting_prey_at_origin() {
    let b = Boid::default();
    assert_eq!(b.position, Vec2 { x: 0, y: 0 });
    assert_eq!(b.velocity, Vec2 { x: 0, y: 0 });
    assert_eq!(b.acceleration, Vec2 { x: 0, y: 0 });
    assert_eq!(b.b_type, BoidType::Prey);
}

#[test]
fn new_boid_keeps_its_arguments_and_zeroes_acceleration() {
    let b = Boid::new(BoidType::Predator, Vec2 { x: 3, y: 4 }, Vec2 { x: 50, y: 0 });
    assert_eq!(b.b_type, BoidType::Predator);
    assert_eq!(b.position, Vec2 { x: 3, y: 4 });
    assert_eq!(b.velocity, Vec2 { x: 50, y: 0 });
    assert_eq!(b.acceleration, Vec2 { x: 0, y: 0 });
}

#[test]
fn update_moves_position_before_applying_acceleration() {
    // dt of 1000 is one whole time unit
    let mut b = Boid::new(BoidType::Prey, Vec2 { x: 0, y: 0 }, Vec2 { x: 50, y: 0 });
    b.acceleration = Vec2 { x: 10, y: 0 };
    b.update(1000, &cfg());
    // the position moved by the pre-tick velocity, not the accelerated one
    assert_eq!(b.position, Vec2 { x: 50, y: 0 });
    assert_eq!(b.velocity, Vec2 { x: 60, y: 0 });
}

#[test]
fn update_scales_motion_by_dt() {
    let mut b = Boid::new(BoidType::Prey, Vec2 { x: 0, y: 0 }, Vec2 { x: 100, y: 60 });
    b.update(500, &cfg());
    assert_eq!(b.position, Vec2 { x: 50, y: 30 });
}

#[test]
fn update_clamps_speed_up_to_the_floor() {
    let mut b = Boid::new(BoidType::Prey, Vec2 { x: 0, y: 0 }, Vec2 { x: 10, y: 0 });
    b.update(1000, &cfg());
    assert_eq!(b.velocity, Vec2 { x: 30, y: 0 });
    assert_eq!(b.position, Vec2 { x: 10, y: 0 });
}

#[test]
fn update_clamps_speed_down_to_the_per_kind_ceiling() {
    let mut prey = Boid::new(BoidType::Prey, Vec2 { x: 0, y: 0 }, Vec2 { x: 60, y: 80 });
    prey.acceleration = Vec2 { x: 600, y: 800 };
    prey.update(1000, &cfg());
    // raw velocity (660, 880) has magnitude 1100; prey cap is 100
    assert_eq!(prey.velocity, Vec2 { x: 60, y: 80 });
    assert_eq!(get_magnitude_squared(&prey.velocity), 100 * 100);

    let mut pred = Boid::new(BoidType::Predator, Vec2 { x: 0, y: 0 }, Vec2 { x: 60, y: 80 });
    pred.acceleration = Vec2 { x: 600, y: 800 };
    pred.update(1000, &cfg());
    // the predator cap is 130: (660,880) rescaled to magnitude 130
    assert_eq!(pred.velocity, Vec2 { x: 78, y: 104 });
    assert_eq!(get_magnitude_squared(&pred.velocity), 130 * 130);
}

#[test]
fn update_never_exceeds_the_speed_ceiling() {
    let c = cfg();
    let mut b = Boid::new(BoidType::Prey, Vec2 { x: 5, y: 5 }, Vec2 { x: 31, y: 17 });
    b.acceleration = Vec2 { x: 987_654_321, y: -123_456_789 };
    for _ in 0..5 {
        b.update(16, &c);
        assert!(get_magnitude_squared(&b.velocity) <= (c.max_speed as i128).pow(2));
    }
}
