//! Verified core of a particle-life simulation: colored point particles whose
//! pairwise interaction strength depends on each particle's color, advanced by
//! a fixed-step integrator with friction damping.
//!
//! All quantities are 64-bit fixed-point numbers with `fixed::SCALE` units per
//! whole unit, so every tick is exact integer arithmetic and fully verified.
//! A thin unverified driver converts to and from floating point at the edges.

pub mod axis;
pub mod engine;
pub mod fixed;
pub mod force;
pub mod geom;
pub mod index;
pub mod integrator;
pub mod matrix;
pub mod params;
pub mod population;
pub mod rng;

pub use fixed::SCALE;
