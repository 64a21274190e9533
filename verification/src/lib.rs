//! Core of a 2D agent-population simulation: disc-shaped agents move in a
//! bounded world, collide, are destroyed, and fragment into smaller agents
//! with a radial knockback. All quantities are carried in fixed-point
//! integers (milli-units), so that every rule of the simulation is stated
//! and proved exactly.

pub mod config;
pub mod fixed;
pub mod laws;
pub mod resolve;
pub mod rng;
pub mod step;
pub mod vec2;
pub mod world;
