//! The simulation engine: owns the population, the attraction matrix and the
//! seeded random source, and advances one tick at a time.
//!
//! Per tick: regenerate the matrix if requested, then integrate, then hand
//! out a read-only snapshot. With no reset requested the matrix is untouched
//! (`tick`'s contract says so), and the new population is exactly
//! `step_spec` of the old one — a pure function of state and inputs.

use vstd::prelude::*;
use crate::integrator::{step_parallel, step_spec};
use crate::matrix::AttractionMatrix;
use crate::params::{ConfigError, SimParams, Stimulus};
use crate::population::{colors_ok, Particle, Population};

verus! {

pub struct SimulationEngine {
    pub params: SimParams,
    pub matrix: AttractionMatrix,
    pub pop: Population,
    pub rng: rand_chacha::ChaCha8Rng,
}

impl SimulationEngine {
    /// The engine's standing invariant: valid parameters, a well-formed
    /// matrix of the configured color count, and a population of the
    /// configured size whose colors all index the matrix.
    pub open spec fn inv(self) -> bool {
        &&& self.params.valid()
        &&& self.matrix.wf()
        &&& self.matrix.n_colors == self.params.n_colors
        &&& self.pop@.len() == self.params.n_particles
        &&& colors_ok(self.pop@, self.params.n_colors as int)
    }

    /// Build an engine from validated parameters: seed the random source,
    /// draw a fresh attraction matrix, and scatter the particles uniformly
    /// over the centered spawn box with zero velocity.
    pub fn new(params: SimParams, half_w: i64, half_h: i64, seed: u64) -> (eng: SimulationEngine)
        requires
            params.valid(),
            half_w > 0,
            half_h > 0,
        ensures
            eng.inv(),
            eng.params == params,
            forall|i: int|
                0 <= i < eng.pop@.len() ==> (#[trigger] eng.pop@[i]).vel == (crate::geom::Vec2 {
                    x: 0i64,
                    y: 0i64,
                }),
            forall|i: int|
                0 <= i < eng.pop@.len() ==> -half_w <= (#[trigger] eng.pop@[i]).pos.x < half_w
                    && -half_h <= eng.pop@[i].pos.y < half_h,
    {
        let mut rng = crate::rng::seed_rng(seed);
        let matrix = AttractionMatrix::generate(params.n_colors, &mut rng);
        let pop = Population::generate(params.n_particles, params.n_colors, half_w, half_h,
            &mut rng);
        SimulationEngine { params, matrix, pop, rng }
    }

    /// Validate a raw configuration and build the engine: `Ok` exactly when
    /// every parameter is in range and the spawn box has positive extent.
    pub fn create(
        n_particles: usize,
        n_colors: usize,
        cutoff: i64,
        beta: i64,
        dt: i64,
        friction: i64,
        half_w: i64,
        half_h: i64,
        seed: u64,
    ) -> (r: Result<SimulationEngine, ConfigError>)
        ensures
            ({
                let p = SimParams { n_particles, n_colors, cutoff, beta, dt, friction };
                match r {
                    Ok(eng) => p.valid() && half_w > 0 && half_h > 0 && eng.inv() && eng.params
                        == p,
                    Err(e) => if !p.valid() {
                        e == SimParams::first_error(p)
                    } else {
                        (half_w <= 0 || half_h <= 0) && e == ConfigError::SpawnExtentNotPositive
                    },
                }
            }),
    {
        let params = match SimParams::new(n_particles, n_colors, cutoff, beta, dt, friction) {
            Ok(p) => p,
            Err(e) => {
                return Err(e);
            },
        };
        if half_w <= 0 || half_h <= 0 {
            return Err(ConfigError::SpawnExtentNotPositive);
        }
        Ok(Self::new(params, half_w, half_h, seed))
    }

    /// One tick. Regenerates the attraction matrix first if `reset` is set
    /// (and only then — without a reset the matrix is exactly the old one),
    /// then replaces the population atomically with `step_spec` of the old
    /// population under the current matrix, parameters and stimulus.
    pub fn tick(&mut self, reset: bool, stim: Option<Stimulus>)
        requires
            old(self).inv(),
        ensures
            final(self).inv(),
            final(self).params == old(self).params,
            !reset ==> final(self).matrix == old(self).matrix,
            final(self).matrix.n_colors == old(self).matrix.n_colors,
            final(self).pop@ == step_spec(
                old(self).pop@,
                final(self).matrix,
                final(self).params,
                stim,
            ),
            final(self).pop@.len() == old(self).pop@.len(),
    {
        if reset {
            self.matrix = AttractionMatrix::generate(self.params.n_colors, &mut self.rng);
        }
        let next = step_parallel(&self.pop, &self.matrix, &self.params, stim);
        self.pop = next;
    }

    /// Read-only view of the current population for the renderer.
    pub fn snapshot(&self) -> (view: &Vec<Particle>)
        ensures
            view@ == self.pop@,
    {
        &self.pop.particles
    }
}

} // verus!
