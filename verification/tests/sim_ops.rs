use boids::boid::{Boid, BoidType};
use boids::config::{BoundaryPolicy, Config, ConfigError};
use boids::sim::Simulation;
use boids::tools::{get_magnitude_squared, Vec2};

fn cfg() -> Config {
    Config {
        count: 2,
        width: 1000,
        height: 800,
        boid_size: 4,
        sensory_radius: 80,
        bounding_radius: 6,
        min_speed: 30,
        max_speed: 100,
        predator_max_speed: 130,
        alignment_mult: 5,
        cohesion_mult: 30,
        separation_mult: 130,
        predator_separation_mult: 500,
        chase_mult: 1050,
        escape_mult: 550,
        policy: BoundaryPolicy::Wrap,
        seed: 42,
    }
}

#[test]
fn invalid_configurations_are_rejected() {
    let mut c = cfg();
    c.min_speed = 200;
    assert_eq!(Simulation::new(c).err(), Some(ConfigError::InvalidConfig));
    let mut c = cfg();
    c.width = 0;
    assert_eq!(Simulation::new(c).err(), Some(ConfigError::InvalidConfig));
    let mut c = cfg();
    c.sensory_radius = -1;
    assert_eq!(Simulation::new(c).err(), Some(ConfigError::InvalidConfig));
    let mut c = cfg();
    c.count = 0;
    assert_eq!(Simulation::new(c).err(), Some(ConfigError::InvalidConfig));
}

#[test]
fn new_population_matches_the_configuration() {
    let mut c = cfg();
    c.count = 10;
    let s = Simulation::new(c).unwrap();
    assert_eq!(s.boids.len(), 10);
    for b in &s.boids[..9] {
        assert_eq!(b.b_type, BoidType::Prey);
        assert!(0 <= b.position.x && b.position.x < c.width);
        assert!(0 <= b.position.y && b.position.y < c.height);
        assert!(get_magnitude_squared(&b.velocity) <= (c.max_speed as i128).pow(2));
        assert_eq!(b.acceleration, Vec2 { x: 0, y: 0 });
    }
    let p = &s.boids[9];
    assert_eq!(p.b_type, BoidType::Predator);
    assert_eq!(p.position, Vec2 { x: 500, y: 400 });
    assert_eq!(p.velocity, Vec2 { x: 0, y: 0 });
}

#[test]
fn equal_seeds_spawn_equal_populations() {
    let mut c = cfg();
    c.count = 20;
    let a = Simulation::new(c).unwrap();
    let b = Simulation::new(c).unwrap();
    assert_eq!(a.boids, b.boids);
}

/// Two same-kind agents within sensory range and outside collision range:
/// each gains a separation acceleration of exactly the separation gain,
/// directed away from the other.
#[test]
fn separation_between_two_prey() {
    let mut c = cfg();
    c.alignment_mult = 0;
    c.cohesion_mult = 0;
    let mut s = Simulation {
        boids: vec![
            Boid::new(BoidType::Prey, Vec2 { x: 0, y: 0 }, Vec2 { x: 50, y: 0 }),
            Boid::new(BoidType::Prey, Vec2 { x: 60, y: 0 }, Vec2 { x: 50, y: 0 }),
        ],
        config: c,
    };
    s.update(0);
    assert_eq!(s.boids[0].acceleration, Vec2 { x: -130, y: 0 });
    assert_eq!(s.boids[1].acceleration, Vec2 { x: 130, y: 0 });
    assert_eq!(s.boids[0].b_type, BoidType::Prey);
    assert_eq!(s.boids[1].b_type, BoidType::Prey);
}

/// A predator and a prey agent in sensory range: the predator accelerates
/// toward the prey by the chase gain, the prey away from the predator by
/// the escape gain.
#[test]
fn chase_and_escape_between_predator_and_prey() {
    let mut c = cfg();
    c.alignment_mult = 0;
    c.cohesion_mult = 0;
    c.bounding_radius = 3;
    let mut s = Simulation {
        boids: vec![
            Boid::new(BoidType::Predator, Vec2 { x: 0, y: 0 }, Vec2 { x: 0, y: 50 }),
            Boid::new(BoidType::Prey, Vec2 { x: 10, y: 0 }, Vec2 { x: 0, y: 50 }),
        ],
        config: c,
    };
    s.update(0);
    // the predator steers toward the prey: +chase_mult along (1, 0)
    assert_eq!(s.boids[0].acceleration, Vec2 { x: 1050, y: 0 });
    // the prey steers away from the predator: +escape_mult along (1, 0),
    // the direction pointing away from it
    assert_eq!(s.boids[1].acceleration, Vec2 { x: 550, y: 0 });
    // outside the bounding radius there is no contagion
    assert_eq!(s.boids[1].b_type, BoidType::Prey);
}

/// A single agent with no neighbors: zero acceleration, velocity unchanged
/// except for clamping up to the speed floor.
#[test]
fn lone_agent_receives_no_force() {
    let mut c = cfg();
    c.count = 1;
    let mut s = Simulation {
        boids: vec![Boid::new(BoidType::Prey, Vec2 { x: 100, y: 100 }, Vec2 { x: 10, y: 0 })],
        config: c,
    };
    s.update(1000);
    assert_eq!(s.boids[0].acceleration, Vec2 { x: 0, y: 0 });
    assert_eq!(s.boids[0].position, Vec2 { x: 110, y: 100 });
    assert_eq!(s.boids[0].velocity, Vec2 { x: 30, y: 0 });
}

/// Two agents farther apart than the sensory radius: neither receives any
/// acceleration, whatever the gains.
#[test]
fn agents_outside_sensory_range_ignore_each_other() {
    let mut s = Simulation {
        boids: vec![
            Boid::new(BoidType::Prey, Vec2 { x: 0, y: 0 }, Vec2 { x: 50, y: 0 }),
            Boid::new(BoidType::Prey, Vec2 { x: 500, y: 0 }, Vec2 { x: 50, y: 0 }),
        ],
        config: cfg(),
    };
    s.update(0);
    assert_eq!(s.boids[0].acceleration, Vec2 { x: 0, y: 0 });
    assert_eq!(s.boids[1].acceleration, Vec2 { x: 0, y: 0 });
}

/// A prey agent that collides with a predator becomes a predator, and stays
/// one on later ticks even when alone.
#[test]
fn contagion_converts_prey_and_is_permanent() {
    let mut s = Simulation {
        boids: vec![
            Boid::new(BoidType::Predator, Vec2 { x: 0, y: 0 }, Vec2 { x: 0, y: 0 }),
            Boid::new(BoidType::Prey, Vec2 { x: 2, y: 0 }, Vec2 { x: 50, y: 0 }),
        ],
        config: cfg(),
    };
    s.update(0);
    assert_eq!(s.boids[0].b_type, BoidType::Predator);
    assert_eq!(s.boids[1].b_type, BoidType::Predator);
    // move them far apart; both remain predators over further ticks
    s.boids[1].position = Vec2 { x: 900, y: 700 };
    for _ in 0..3 {
        s.update(16);
        assert_eq!(s.boids[0].b_type, BoidType::Predator);
        assert_eq!(s.boids[1].b_type, BoidType::Predator);
    }
}

/// The sensory boundary is strict: at exactly the sensory radius there is
/// no interaction, and at exactly the bounding radius no contagion.
#[test]
fn radius_boundaries_are_exclusive() {
    let c = cfg();
    let mut s = Simulation {
        boids: vec![
            Boid::new(BoidType::Predator, Vec2 { x: 0, y: 0 }, Vec2 { x: 0, y: 0 }),
            Boid::new(BoidType::Prey, Vec2 { x: 80, y: 0 }, Vec2 { x: 50, y: 0 }),
        ],
        config: c,
    };
    s.update(0);
    // distance 80 == sensory radius: no force on either side
    assert_eq!(s.boids[1].acceleration, Vec2 { x: 0, y: 0 });
    // distance 6 == bounding radius: no contagion
    let mut s = Simulation {
        boids: vec![
            Boid::new(BoidType::Predator, Vec2 { x: 0, y: 0 }, Vec2 { x: 0, y: 0 }),
            Boid::new(BoidType::Prey, Vec2 { x: 6, y: 0 }, Vec2 { x: 50, y: 0 }),
        ],
        config: cfg(),
    };
    s.update(0);
    assert_eq!(s.boids[1].b_type, BoidType::Prey);
}

#[test]
fn wrap_teleports_far_positions_back_into_the_world() {
    let c = cfg();
    let mut s = Simulation {
        boids: vec![
            Boid::new(BoidType::Prey, Vec2 { x: -4, y: 850 }, Vec2 { x: 50, y: 0 }),
            Boid::new(BoidType::Prey, Vec2 { x: 701_002, y: -90_000 }, Vec2 { x: 50, y: 0 }),
        ],
        config: c,
    };
    s.teleport_edges();
    // x <= -size teleports to width + size/2; y past height + size/2 resets to 0
    assert_eq!(s.boids[0].position, Vec2 { x: 1002, y: 0 });
    assert_eq!(s.boids[1].position, Vec2 { x: 0, y: 802 });
    for b in &s.boids {
        assert!(0 <= b.position.x && b.position.x <= c.width + c.boid_size / 2);
        assert!(0 <= b.position.y && b.position.y <= c.height + c.boid_size / 2);
    }
}

#[test]
fn bounce_inverts_velocity_and_nudges_inward() {
    let mut c = cfg();
    c.policy = BoundaryPolicy::Bounce;
    let mut s = Simulation {
        boids: vec![
            Boid::new(BoidType::Prey, Vec2 { x: 2, y: 400 }, Vec2 { x: -40, y: 30 }),
            Boid::new(BoidType::Prey, Vec2 { x: 999, y: 400 }, Vec2 { x: 40, y: 30 }),
        ],
        config: c,
    };
    s.bounce_edges();
    assert_eq!(s.boids[0].position, Vec2 { x: 3, y: 400 });
    assert_eq!(s.boids[0].velocity, Vec2 { x: 40, y: 30 });
    assert_eq!(s.boids[1].position, Vec2 { x: 998, y: 400 });
    assert_eq!(s.boids[1].velocity, Vec2 { x: -40, y: 30 });
}

#[test]
fn bounce_margins_are_half_the_agent_size() {
    let mut c = cfg();
    c.policy = BoundaryPolicy::Bounce;
    // size 4: the margin is 2 on both edges, so x == 3 is inside
    let mut s = Simulation {
        boids: vec![Boid::new(BoidType::Prey, Vec2 { x: 3, y: 400 }, Vec2 { x: -40, y: 30 })],
        config: c,
    };
    s.bounce_edges();
    assert_eq!(s.boids[0].position, Vec2 { x: 3, y: 400 });
    assert_eq!(s.boids[0].velocity, Vec2 { x: -40, y: 30 });
}

/// An agent at rest with a positive speed floor starts moving along the
/// angle-zero direction once integrated.
#[test]
fn resting_agent_is_raised_to_the_speed_floor() {
    let mut c = cfg();
    c.count = 1;
    let mut s = Simulation {
        boids: vec![Boid::new(BoidType::Prey, Vec2 { x: 100, y: 100 }, Vec2 { x: 0, y: 0 })],
        config: c,
    };
    s.update(1000);
    // the position moved by the pre-tick (zero) velocity: not at all
    assert_eq!(s.boids[0].position, Vec2 { x: 100, y: 100 });
    assert_eq!(s.boids[0].velocity, Vec2 { x: 30, y: 0 });
}

#[test]
fn collision_check_is_strict() {
    assert!(Simulation::check_boids_colliding(
        &Vec2 { x: 0, y: 0 },
        &Vec2 { x: 5, y: 0 },
        6
    ));
    assert!(!Simulation::check_boids_colliding(
        &Vec2 { x: 0, y: 0 },
        &Vec2 { x: 6, y: 0 },
        6
    ));
}

/// Alignment pulls a slow agent toward the neighborhood's average velocity.
#[test]
fn alignment_steers_toward_the_average_velocity() {
    let mut c = cfg();
    c.cohesion_mult = 0;
    c.separation_mult = 0;
    c.alignment_mult = 5;
    let mut s = Simulation {
        boids: vec![
            Boid::new(BoidType::Prey, Vec2 { x: 0, y: 0 }, Vec2 { x: 30, y: 0 }),
            Boid::new(BoidType::Prey, Vec2 { x: 40, y: 0 }, Vec2 { x: 90, y: 0 }),
        ],
        config: c,
    };
    s.update(0);
    // agent 0 sees average velocity (90, 0): (90 - 30) * 5 = 300
    assert_eq!(s.boids[0].acceleration, Vec2 { x: 300, y: 0 });
}

/// Every agent's speed respects its ceiling after a tick with large forces.
#[test]
fn speeds_stay_bounded_after_ticks() {
    let mut c = cfg();
    c.count = 30;
    c.seed = 7;
    let mut s = Simulation::new(c).unwrap();
    for _ in 0..10 {
        s.update(16);
        for b in &s.boids {
            let cap = match b.b_type {
                BoidType::Predator => c.predator_max_speed,
                BoidType::Prey => c.max_speed,
            };
            assert!(get_magnitude_squared(&b.velocity) <= (cap as i128).pow(2));
        }
    }
}

/// Cohesion pulls an agent toward the average position of its neighbors.
#[test]
fn cohesion_steers_toward_the_average_position() {
    let mut c = cfg();
    c.alignment_mult = 0;
    c.separation_mult = 0;
    c.cohesion_mult = 30;
    let mut s = Simulation {
        boids: vec![
            Boid::new(BoidType::Prey, Vec2 { x: 0, y: 0 }, Vec2 { x: 50, y: 0 }),
            Boid::new(BoidType::Prey, Vec2 { x: 40, y: 0 }, Vec2 { x: 50, y: 0 }),
        ],
        config: c,
    };
    s.update(0);
    // agent 0 sees the average neighbor position (40, 0): (40 - 0) * 30
    assert_eq!(s.boids[0].acceleration, Vec2 { x: 1200, y: 0 });
}

/// Predators keep apart using their own, larger separation gain.
#[test]
fn predators_separate_with_their_own_gain() {
    let mut c = cfg();
    c.alignment_mult = 0;
    c.cohesion_mult = 0;
    let mut s = Simulation {
        boids: vec![
            Boid::new(BoidType::Predator, Vec2 { x: 0, y: 0 }, Vec2 { x: 50, y: 0 }),
            Boid::new(BoidType::Predator, Vec2 { x: 60, y: 0 }, Vec2 { x: 50, y: 0 }),
        ],
        config: c,
    };
    s.update(0);
    assert_eq!(s.boids[0].acceleration, Vec2 { x: -500, y: 0 });
    assert_eq!(s.boids[1].acceleration, Vec2 { x: 500, y: 0 });
}

/// Two agents at the same position have no direction between them: they
/// sense each other (alignment still applies) but exert no separation.
#[test]
fn coincident_agents_exert_no_separation() {
    let mut c = cfg();
    c.alignment_mult = 0;
    c.cohesion_mult = 0;
    let mut s = Simulation {
        boids: vec![
            Boid::new(BoidType::Prey, Vec2 { x: 50, y: 50 }, Vec2 { x: 40, y: 0 }),
            Boid::new(BoidType::Prey, Vec2 { x: 50, y: 50 }, Vec2 { x: 40, y: 0 }),
        ],
        config: c,
    };
    s.update(0);
    assert_eq!(s.boids[0].acceleration, Vec2 { x: 0, y: 0 });
    assert_eq!(s.boids[1].acceleration, Vec2 { x: 0, y: 0 });

    // with alignment switched on they still see each other
    let mut c2 = cfg();
    c2.alignment_mult = 5;
    c2.cohesion_mult = 0;
    c2.separation_mult = 0;
    let mut s2 = Simulation {
        boids: vec![
            Boid::new(BoidType::Prey, Vec2 { x: 50, y: 50 }, Vec2 { x: 40, y: 0 }),
            Boid::new(BoidType::Prey, Vec2 { x: 50, y: 50 }, Vec2 { x: 90, y: 0 }),
        ],
        config: c2,
    };
    s2.update(0);
    // agent 0 sees average velocity (90, 0): (90 - 40) * 5 = 250
    assert_eq!(s2.boids[0].acceleration, Vec2 { x: 250, y: 0 });
}
