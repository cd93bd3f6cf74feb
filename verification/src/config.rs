//! Simulation configuration: world bounds, radii, speed band, force
//! multipliers, boundary policy and the random seed for the initial
//! population. Every tunable is supplied by the host; nothing is baked in.

use vstd::prelude::*;

verus! {

/// How positions are kept inside the world, chosen once per run.
#[derive(Clone, Copy, PartialEq, Eq, Structural, Debug)]
pub enum BoundaryPolicy {
    /// Teleport an agent that leaves one edge to the opposite edge.
    Wrap,
    /// Invert the velocity component on the crossed axis and nudge inward.
    Bounce,
}

/// All external tunables of a simulation run.
///
/// Distances and speeds are plain integer world units; `dt` values handed to
/// the tick are thousandths of the time unit the speeds are expressed in.
#[derive(Clone, Copy, PartialEq, Eq, Structural, Debug)]
pub struct Config {
    /// Total number of agents, the single predator included.
    pub count: usize,
    /// World width; x coordinates of spawned agents lie in `[0, width)`.
    pub width: i64,
    /// World height; y coordinates of spawned agents lie in `[0, height)`.
    pub height: i64,
    /// Edge length of an agent's square; half of it is the boundary margin.
    pub boid_size: i64,
    /// Radius within which neighbors are perceived and forces apply.
    pub sensory_radius: i64,
    /// Radius within which a predator converts a prey agent on contact.
    pub bounding_radius: i64,
    /// Lower speed bound for every agent.
    pub min_speed: i64,
    /// Upper speed bound for prey.
    pub max_speed: i64,
    /// Upper speed bound for predators.
    pub predator_max_speed: i64,
    /// Gain steering toward the neighbors' average velocity.
    pub alignment_mult: i64,
    /// Gain steering toward the neighbors' average position.
    pub cohesion_mult: i64,
    /// Gain steering prey away from nearby prey.
    pub separation_mult: i64,
    /// Gain steering predators away from nearby predators.
    pub predator_separation_mult: i64,
    /// Gain steering a predator toward a prey agent it senses.
    pub chase_mult: i64,
    /// Gain steering a prey agent away from a predator it senses.
    pub escape_mult: i64,
    /// The boundary policy for this run.
    pub policy: BoundaryPolicy,
    /// Seed of the random number generator that spawns the population.
    pub seed: u64,
}

pub const MAX_DIMENSION: i64 = 1_000_000;
pub const MAX_SPEED_LIMIT: i64 = 1_000_000;
pub const MAX_RADIUS: i64 = 1_000_000;
pub const MAX_MULT: i64 = 100_000;
pub const MAX_SIZE: i64 = 10_000;
pub const MAX_COUNT: usize = 4096;

/// A configuration the engine accepts: positive world, agents smaller than
/// the world, nonnegative radii and gains, and a workable speed band, all
/// within the fixed numeric headroom of the integer arithmetic.
pub open spec fn valid(c: Config) -> bool {
    &&& 1 <= c.count <= MAX_COUNT
    &&& 1 <= c.width <= MAX_DIMENSION
    &&& 1 <= c.height <= MAX_DIMENSION
    &&& 0 <= c.boid_size <= MAX_SIZE
    &&& c.boid_size <= c.width
    &&& c.boid_size <= c.height
    &&& 0 <= c.sensory_radius <= MAX_RADIUS
    &&& 0 <= c.bounding_radius <= MAX_RADIUS
    &&& 0 <= c.min_speed <= c.max_speed <= MAX_SPEED_LIMIT
    &&& c.min_speed <= c.predator_max_speed <= MAX_SPEED_LIMIT
    &&& 0 <= c.alignment_mult <= MAX_MULT
    &&& 0 <= c.cohesion_mult <= MAX_MULT
    &&& 0 <= c.separation_mult <= MAX_MULT
    &&& 0 <= c.predator_separation_mult <= MAX_MULT
    &&& 0 <= c.chase_mult <= MAX_MULT
    &&& 0 <= c.escape_mult <= MAX_MULT
}

impl Config {
    /// Whether this configuration is one the engine accepts.
    pub fn check(&self) -> (r: bool)
        ensures
            r == valid(*self),
    {
        1 <= self.count && self.count <= MAX_COUNT
            && 1 <= self.width && self.width <= MAX_DIMENSION
            && 1 <= self.height && self.height <= MAX_DIMENSION
            && 0 <= self.boid_size && self.boid_size <= MAX_SIZE
            && self.boid_size <= self.width
            && self.boid_size <= self.height
            && 0 <= self.sensory_radius && self.sensory_radius <= MAX_RADIUS
            && 0 <= self.bounding_radius && self.bounding_radius <= MAX_RADIUS
            && 0 <= self.min_speed && self.min_speed <= self.max_speed
            && self.max_speed <= MAX_SPEED_LIMIT
            && self.min_speed <= self.predator_max_speed
            && self.predator_max_speed <= MAX_SPEED_LIMIT
            && 0 <= self.alignment_mult && self.alignment_mult <= MAX_MULT
            && 0 <= self.cohesion_mult && self.cohesion_mult <= MAX_MULT
            && 0 <= self.separation_mult && self.separation_mult <= MAX_MULT
            && 0 <= self.predator_separation_mult && self.predator_separation_mult <= MAX_MULT
            && 0 <= self.chase_mult && self.chase_mult <= MAX_MULT
            && 0 <= self.escape_mult && self.escape_mult <= MAX_MULT
    }
}

/// The error a rejected configuration is reported with.
#[derive(Clone, Copy, PartialEq, Eq, Structural, Debug)]
pub enum ConfigError {
    /// One of the validity conditions on the configuration fields failed.
    InvalidConfig,
}

} // verus!
