//! The agent model: per-agent state and its integration step.
//!
//! An agent carries a position, a velocity, a transient acceleration that the
//! force phase rewrites every tick, and a kind. Integration moves the
//! position by the pre-tick velocity first, then applies the acceleration to
//! the velocity, then clamps the speed into the configured band — in that
//! order, which is part of the contract.

use vstd::prelude::*;

use crate::config::{valid, Config};
use crate::tools::{
    clamp_mag_spec, clamp_vector_mag, lemma_component_le_magsq, lemma_raise_mag_floor,
    lemma_tdiv_range, magsq, muldiv, raise_mag_spec, tdiv, Vec2,
};

verus! {

/// The kind of an agent. Prey flock and flee; predators chase and convert.
#[derive(Clone, Copy, PartialEq, Eq, Structural, Debug)]
pub enum BoidType {
    Prey,
    Predator,
}

/// One agent of the simulation.
#[derive(Clone, Copy, PartialEq, Eq, Structural, Debug)]
pub struct Boid {
    pub position: Vec2,
    pub velocity: Vec2,
    pub acceleration: Vec2,
    pub b_type: BoidType,
}

/// Thousandths of the speed time unit per `dt` unit: a velocity of `v`
/// moves a position by `v * dt / TIME_SCALE` per tick.
pub const TIME_SCALE: i64 = 1000;

/// Largest position coordinate the integration step accepts.
pub const BOID_POS_MAX: i64 = 2_000_000_000_000;

/// Largest acceleration component the integration step accepts; the force
/// phase always stays far below it.
pub const ACCEL_LIMIT: i64 = 1_000_000_000_000;

/// Largest `dt` the integration step accepts.
pub const DT_LIMIT: i64 = 10_000;

/// Largest squared velocity magnitude the integration step accepts; equal to
/// the square of the largest configurable speed.
pub const VEL_MAGSQ_MAX: i64 = 1_000_000_000_000;

/// How far one integration step can move a position coordinate.
pub const TRAVEL_MAX: i64 = 10_000_000;

/// The speed ceiling of an agent of kind `t` under configuration `c`.
pub open spec fn max_speed_of(c: Config, t: BoidType) -> int {
    match t {
        BoidType::Predator => c.predator_max_speed as int,
        BoidType::Prey => c.max_speed as int,
    }
}

/// The velocity after the acceleration is applied, before the speed clamp.
pub open spec fn vraw_spec(b: Boid, dt: int) -> Vec2 {
    Vec2 {
        x: ((b.velocity.x as int) + tdiv((b.acceleration.x as int) * dt, TIME_SCALE as int)) as i64,
        y: ((b.velocity.y as int) + tdiv((b.acceleration.y as int) * dt, TIME_SCALE as int)) as i64,
    }
}

/// The integration step: position moves by the pre-tick velocity, then the
/// velocity absorbs the acceleration, then the speed is clamped into the
/// per-kind band. Acceleration and kind are left untouched.
pub open spec fn integrate_spec(b: Boid, dt: int, c: Config) -> Boid {
    let np = Vec2 {
        x: ((b.position.x as int) + tdiv((b.velocity.x as int) * dt, TIME_SCALE as int)) as i64,
        y: ((b.position.y as int) + tdiv((b.velocity.y as int) * dt, TIME_SCALE as int)) as i64,
    };
    Boid {
        position: np,
        velocity: clamp_mag_spec(vraw_spec(b, dt), c.min_speed as int, max_speed_of(c, b.b_type)),
        acceleration: b.acceleration,
        b_type: b.b_type,
    }
}

/// The all-zero prey agent.
pub open spec fn default_boid() -> Boid {
    Boid {
        position: Vec2 { x: 0, y: 0 },
        velocity: Vec2 { x: 0, y: 0 },
        acceleration: Vec2 { x: 0, y: 0 },
        b_type: BoidType::Prey,
    }
}

impl Default for Boid {
    /// A prey agent at the origin, at rest.
    fn default() -> (b: Boid)
        ensures
            b == default_boid(),
    {
        Boid {
            position: Vec2 { x: 0, y: 0 },
            velocity: Vec2 { x: 0, y: 0 },
            acceleration: Vec2 { x: 0, y: 0 },
            b_type: BoidType::Prey,
        }
    }
}

impl Boid {
    /// A fresh agent of the given kind, position and velocity, with zero
    /// acceleration.
    pub fn new(b_type: BoidType, position: Vec2, velocity: Vec2) -> (b: Boid)
        ensures
            b == (Boid { position, velocity, acceleration: Vec2 { x: 0, y: 0 }, b_type }),
    {
        Boid { b_type, position, velocity, acceleration: Vec2 { x: 0, y: 0 } }
    }

    /// Advances this agent by `dt` thousandths of a time unit, exactly as
    /// `integrate_spec` describes. Afterward the speed never exceeds the
    /// per-kind ceiling.
    pub fn update(&mut self, dt: i64, cfg: &Config)
        requires
            valid(*cfg),
            0 <= dt <= DT_LIMIT,
            -BOID_POS_MAX <= old(self).position.x <= BOID_POS_MAX,
            -BOID_POS_MAX <= old(self).position.y <= BOID_POS_MAX,
            magsq(old(self).velocity) <= VEL_MAGSQ_MAX as int,
            -ACCEL_LIMIT <= old(self).acceleration.x <= ACCEL_LIMIT,
            -ACCEL_LIMIT <= old(self).acceleration.y <= ACCEL_LIMIT,
        ensures
            *final(self) == integrate_spec(*old(self), dt as int, *cfg),
            final(self).b_type == old(self).b_type,
            final(self).acceleration == old(self).acceleration,
            magsq(final(self).velocity) <= max_speed_of(*cfg, old(self).b_type) * max_speed_of(
                *cfg,
                old(self).b_type,
            ),
            (magsq(vraw_spec(*old(self), dt as int)) < max_speed_of(*cfg, old(self).b_type)
                * max_speed_of(*cfg, old(self).b_type) && magsq(
                raise_mag_spec(vraw_spec(*old(self), dt as int), cfg.min_speed as int),
            ) <= max_speed_of(*cfg, old(self).b_type) * max_speed_of(*cfg, old(self).b_type))
                ==> magsq(final(self).velocity) >= (cfg.min_speed as int) * (
            cfg.min_speed as int),
            -MAX_SPEED_BOUND <= final(self).velocity.x <= MAX_SPEED_BOUND,
            -MAX_SPEED_BOUND <= final(self).velocity.y <= MAX_SPEED_BOUND,
            old(self).position.x - TRAVEL_MAX <= final(self).position.x <= old(self).position.x
                + TRAVEL_MAX,
            old(self).position.y - TRAVEL_MAX <= final(self).position.y <= old(self).position.y
                + TRAVEL_MAX,
    {
        proof {
            lemma_component_le_magsq(self.velocity);
            assert(-1_000_000 <= self.velocity.x as int <= 1_000_000
                && -1_000_000 <= self.velocity.y as int <= 1_000_000) by (nonlinear_arith)
                requires
                    (self.velocity.x as int) * (self.velocity.x as int) <= 1_000_000_000_000,
                    (self.velocity.y as int) * (self.velocity.y as int) <= 1_000_000_000_000;
            assert(-10_000_000_000int <= (self.velocity.x as int) * (dt as int)
                <= 10_000_000_000int && -10_000_000_000int <= (self.velocity.y as int) * (dt as int)
                <= 10_000_000_000int) by (nonlinear_arith)
                requires
                    -1_000_000 <= self.velocity.x as int <= 1_000_000,
                    -1_000_000 <= self.velocity.y as int <= 1_000_000,
                    0 <= dt <= 10_000;
            lemma_tdiv_range((self.velocity.x as int) * (dt as int), 10_000_000_000, 1000);
            lemma_tdiv_range((self.velocity.y as int) * (dt as int), 10_000_000_000, 1000);
            assert(-10_000_000_000_000_000int <= (self.acceleration.x as int) * (dt as int)
                <= 10_000_000_000_000_000int && -10_000_000_000_000_000int <= (
            self.acceleration.y as int) * (dt as int) <= 10_000_000_000_000_000int)
                by (nonlinear_arith)
                requires
                    -1_000_000_000_000 <= self.acceleration.x as int <= 1_000_000_000_000,
                    -1_000_000_000_000 <= self.acceleration.y as int <= 1_000_000_000_000,
                    0 <= dt <= 10_000;
            lemma_tdiv_range((self.acceleration.x as int) * (dt as int), 10_000_000_000_000_000, 1000);
            lemma_tdiv_range((self.acceleration.y as int) * (dt as int), 10_000_000_000_000_000, 1000);
        }
        let px: i64 = self.position.x + muldiv(self.velocity.x, dt, TIME_SCALE);
        let py: i64 = self.position.y + muldiv(self.velocity.y, dt, TIME_SCALE);
        let vx: i64 = self.velocity.x + muldiv(self.acceleration.x, dt, TIME_SCALE);
        let vy: i64 = self.velocity.y + muldiv(self.acceleration.y, dt, TIME_SCALE);
        let max_sp: i64 = match self.b_type {
            BoidType::Predator => cfg.predator_max_speed,
            BoidType::Prey => cfg.max_speed,
        };
        self.position = Vec2 { x: px, y: py };
        self.velocity = clamp_vector_mag(Vec2 { x: vx, y: vy }, cfg.min_speed, max_sp);
        proof {
            let vraw = Vec2 { x: vx, y: vy };
            let lo = cfg.min_speed as int;
            let hi = max_speed_of(*cfg, self.b_type);
            if magsq(vraw) < hi * hi && magsq(raise_mag_spec(vraw, lo)) <= hi * hi
                && magsq(vraw) <= lo * lo {
                lemma_raise_mag_floor(vraw, lo);
            }
        }
    }
}

/// Bound on each velocity component after clamping: the largest speed.
pub const MAX_SPEED_BOUND: i64 = 1_000_000;

} // verus!
