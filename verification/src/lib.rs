//! A deterministic flocking ("boids") simulation engine.
//!
//! A population of agents of two kinds — prey, which flock together and flee,
//! and predators, which chase and convert prey on contact — moves through a
//! rectangular world. Every tick each agent scans the rest of the population,
//! accumulates alignment, cohesion, separation and chase/escape forces, and
//! integrates its motion, with its speed clamped into a per-kind band. All
//! state is held in exact integer coordinates, so every run is reproducible
//! bit for bit.

pub mod boid;
pub mod config;
pub mod laws;
pub mod rng;
pub mod sim;
pub mod tools;
