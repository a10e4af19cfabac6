//! Simulation parameters, validated once at startup, and the per-tick
//! pointer-stimulus event.
//!
//! The friction factor is the fraction of velocity kept per tick,
//! `0.5 ^ (dt / half_life)` in fixed point; computing that power is the
//! caller's business (it needs transcendental arithmetic), the core only
//! checks it lies in `[0, SCALE]`.

use vstd::prelude::*;
use crate::fixed::SCALE;
use crate::geom::Vec2;
use crate::matrix::MAX_COLORS;

verus! {

/// Most particles an engine will ever be built with; keeps every force
/// accumulation comfortably inside `i64`.
pub const MAX_PARTICLES: usize = 1_000_000_000;

/// Why a configuration was rejected at startup.
#[derive(Clone, Copy, PartialEq, Eq, Structural, Debug)]
pub enum ConfigError {
    ZeroParticles,
    TooManyParticles,
    ZeroColors,
    TooManyColors,
    BetaOutOfRange,
    CutoffOutOfRange,
    DtNotPositive,
    FrictionOutOfRange,
    SpawnExtentNotPositive,
}

/// Fixed parameters of a run. All fixed-point except the two counts.
#[derive(Clone, Copy, PartialEq, Eq, Structural, Debug)]
pub struct SimParams {
    /// Number of particles; fixed for the engine's lifetime.
    pub n_particles: usize,
    /// Number of colors; the attraction matrix is this size squared.
    pub n_colors: usize,
    /// Interaction cutoff radius, in fixed-point world units.
    pub cutoff: i64,
    /// Repulsion-core fraction of the cutoff, strictly between 0 and `SCALE`.
    pub beta: i64,
    /// Fixed time step, in fixed-point seconds.
    pub dt: i64,
    /// Fraction of velocity kept per tick, in `[0, SCALE]`.
    pub friction: i64,
}

impl SimParams {
    /// The construction-time validity conditions.
    pub open spec fn valid(self) -> bool {
        &&& 0 < self.n_particles <= MAX_PARTICLES
        &&& 0 < self.n_colors <= MAX_COLORS
        &&& 0 < self.beta < SCALE
        &&& 0 < self.cutoff < i64::MAX
        &&& 0 < self.dt
        &&& 0 <= self.friction <= SCALE
    }

    /// Validates and builds the parameter set: returns `Ok` exactly when
    /// every argument is in range, and otherwise the error naming the first
    /// offending field, in declaration order.
    pub fn new(
        n_particles: usize,
        n_colors: usize,
        cutoff: i64,
        beta: i64,
        dt: i64,
        friction: i64,
    ) -> (r: Result<SimParams, ConfigError>)
        ensures
            ({
                let p = SimParams { n_particles, n_colors, cutoff, beta, dt, friction };
                match r {
                    Ok(q) => q == p && p.valid(),
                    Err(e) => !p.valid() && e == Self::first_error(p),
                }
            }),
    {
        if n_particles == 0 {
            Err(ConfigError::ZeroParticles)
        } else if n_particles > MAX_PARTICLES {
            Err(ConfigError::TooManyParticles)
        } else if n_colors == 0 {
            Err(ConfigError::ZeroColors)
        } else if n_colors > MAX_COLORS {
            Err(ConfigError::TooManyColors)
        } else if beta <= 0 || beta >= SCALE {
            Err(ConfigError::BetaOutOfRange)
        } else if cutoff <= 0 || cutoff == i64::MAX {
            Err(ConfigError::CutoffOutOfRange)
        } else if dt <= 0 {
            Err(ConfigError::DtNotPositive)
        } else if friction < 0 || friction > SCALE {
            Err(ConfigError::FrictionOutOfRange)
        } else {
            Ok(SimParams { n_particles, n_colors, cutoff, beta, dt, friction })
        }
    }

    /// The error reported for an invalid parameter set: the first offending
    /// field in declaration order.
    pub open spec fn first_error(p: SimParams) -> ConfigError {
        if p.n_particles == 0 {
            ConfigError::ZeroParticles
        } else if p.n_particles > MAX_PARTICLES {
            ConfigError::TooManyParticles
        } else if p.n_colors == 0 {
            ConfigError::ZeroColors
        } else if p.n_colors > MAX_COLORS {
            ConfigError::TooManyColors
        } else if p.beta <= 0 || p.beta >= SCALE {
            ConfigError::BetaOutOfRange
        } else if p.cutoff <= 0 || p.cutoff == i64::MAX {
            ConfigError::CutoffOutOfRange
        } else if p.dt <= 0 {
            ConfigError::DtNotPositive
        } else {
            ConfigError::FrictionOutOfRange
        }
    }
}

/// A pointer-attraction impulse for one tick: every particle's velocity is
/// decremented by the unit vector from the target toward the particle, scaled
/// by `magnitude` — a pull toward the target.
#[derive(Clone, Copy, PartialEq, Eq, Structural, Debug)]
pub struct Stimulus {
    pub target: Vec2,
    pub magnitude: i64,
}

} // verus!
