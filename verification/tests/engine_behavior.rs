use particle_life::engine::SimulationEngine;
use particle_life::fixed::SCALE;
use particle_life::geom::Vec2;
use particle_life::integrator::{step, step_parallel};
use particle_life::matrix::AttractionMatrix;
use particle_life::params::{ConfigError, SimParams, Stimulus};
use particle_life::population::{Particle, Population};
use rand::{Rng, SeedableRng};

fn params(n_particles: usize, n_colors: usize) -> SimParams {
    SimParams::new(n_particles, n_colors, 1_000_000, 300_000, 20_000, 707_107)
        .expect("valid parameters")
}

fn two_color_matrix(coeff: i64) -> AttractionMatrix {
    AttractionMatrix { n_colors: 2, entries: vec![0, coeff, coeff, 0] }
}

// The concrete two-particle scenario: colors 0 and 1, both cross
// coefficients 0.5, beta 0.3, cutoff 1.0, separation 0.5 along x, dt 0.02.
// Expected velocity delta per particle: 2/7 * 0.02 toward the other,
// within 1e-5.
#[test]
fn two_particle_attraction_scenario() {
    let prm = params(2, 2);
    let pop = Population {
        particles: vec![
            Particle { color: 0, pos: Vec2 { x: 0, y: 0 }, vel: Vec2 { x: 0, y: 0 } },
            Particle { color: 1, pos: Vec2 { x: 500_000, y: 0 }, vel: Vec2 { x: 0, y: 0 } },
        ],
    };
    let mat = two_color_matrix(500_000);
    let next = step(&pop, &mat, &prm, None);
    let v0 = next.particles[0].vel;
    let v1 = next.particles[1].vel;
    assert_eq!(v0.x, 5_714);
    assert_eq!(v1.x, -5_714);
    assert_eq!(v0.y, 0);
    assert_eq!(v1.y, 0);
    let expected = 0.5 * (1.0 - 0.3 / 0.7) * 1.0 * 0.02;
    assert!((v0.x as f64 / 1e6 - expected).abs() < 1e-5);
    assert!((v1.x as f64 / 1e6 + expected).abs() < 1e-5);
}

// A single free particle: after N ticks its velocity is exactly the N-fold
// truncating fixed-point product with the friction factor, which tracks
// velocity_0 * factor^N.
#[test]
fn free_particle_friction_decay() {
    let prm = params(1, 1);
    let mut pop = Population {
        particles: vec![
            Particle {
                color: 0,
                pos: Vec2 { x: 0, y: 0 },
                vel: Vec2 { x: 1_000_000, y: -2_000_000 },
            },
        ],
    };
    let mat = AttractionMatrix { n_colors: 1, entries: vec![0] };
    let mut expect_x: i64 = 1_000_000;
    let mut expect_y: i64 = -2_000_000;
    for _ in 0..10 {
        pop = step(&pop, &mat, &prm, None);
        expect_x = expect_x * 707_107 / 1_000_000;
        expect_y = expect_y * 707_107 / 1_000_000;
        assert_eq!(pop.particles[0].vel.x, expect_x);
        assert_eq!(pop.particles[0].vel.y, expect_y);
    }
    let ideal = 1.0 * 0.707107f64.powi(10);
    assert!((pop.particles[0].vel.x as f64 / 1e6 - ideal).abs() < 1e-4);
}

// The pointer stimulus pulls a particle toward the target: the velocity
// decrement is the unit vector away from the target scaled by the magnitude.
#[test]
fn stimulus_pulls_toward_target() {
    let prm = params(1, 1);
    let pop = Population {
        particles: vec![
            Particle { color: 0, pos: Vec2 { x: 1_000_000, y: 0 }, vel: Vec2 { x: 0, y: 0 } },
        ],
    };
    let mat = AttractionMatrix { n_colors: 1, entries: vec![0] };
    let stim = Stimulus { target: Vec2 { x: 0, y: 0 }, magnitude: 500_000 };
    let next = step(&pop, &mat, &prm, Some(stim));
    assert_eq!(next.particles[0].vel.x, -500_000);
    assert_eq!(next.particles[0].vel.y, 0);
}

// A stimulus exactly on the particle contributes nothing.
#[test]
fn stimulus_on_coincident_particle_is_noop() {
    let prm = params(1, 1);
    let pop = Population {
        particles: vec![
            Particle { color: 0, pos: Vec2 { x: 7, y: 9 }, vel: Vec2 { x: 11, y: 13 } },
        ],
    };
    let mat = AttractionMatrix { n_colors: 1, entries: vec![0] };
    let stim = Stimulus { target: Vec2 { x: 7, y: 9 }, magnitude: 500_000 };
    let with = step(&pop, &mat, &prm, Some(stim));
    let without = step(&pop, &mat, &prm, None);
    assert_eq!(with.particles, without.particles);
}

// Two exactly coincident particles exert no force on each other (degenerate
// direction is defined away), and identity is by index, not value.
#[test]
fn coincident_particles_no_force() {
    let prm = params(2, 2);
    let pop = Population {
        particles: vec![
            Particle { color: 0, pos: Vec2 { x: 5, y: 5 }, vel: Vec2 { x: 0, y: 0 } },
            Particle { color: 1, pos: Vec2 { x: 5, y: 5 }, vel: Vec2 { x: 0, y: 0 } },
        ],
    };
    let mat = two_color_matrix(999_999);
    let next = step(&pop, &mat, &prm, None);
    assert_eq!(next.particles[0].vel, Vec2 { x: 0, y: 0 });
    assert_eq!(next.particles[1].vel, Vec2 { x: 0, y: 0 });
}

// The parallel path computes exactly what the sequential path computes.
#[test]
fn parallel_step_matches_sequential() {
    let mut rng = rand_chacha::ChaCha8Rng::seed_from_u64(11);
    let prm = params(150, 4);
    let mut particles = Vec::new();
    for _ in 0..150 {
        particles.push(Particle {
            color: rng.gen_range(0..4),
            pos: Vec2 {
                x: rng.gen_range(-3_000_000..3_000_000),
                y: rng.gen_range(-3_000_000..3_000_000),
            },
            vel: Vec2 { x: rng.gen_range(-50_000..50_000), y: rng.gen_range(-50_000..50_000) },
        });
    }
    let pop = Population { particles };
    let mut entries = Vec::new();
    for _ in 0..16 {
        entries.push(rng.gen_range(-SCALE..SCALE));
    }
    let mat = AttractionMatrix { n_colors: 4, entries };
    let sequential = step(&pop, &mat, &prm, None);
    let parallel = step_parallel(&pop, &mat, &prm, None);
    assert_eq!(sequential.particles, parallel.particles);
}

// Determinism: same seed, same tick inputs (including a matrix reset and a
// stimulus) give bit-identical populations and matrices.
#[test]
fn determinism_two_runs() {
    let run = || {
        let mut eng = SimulationEngine::create(
            120, 3, 1_000_000, 300_000, 20_000, 707_107, 4_000_000, 4_000_000, 42,
        ).expect("valid configuration");
        let stim = Stimulus { target: Vec2 { x: 100_000, y: -50_000 }, magnitude: 250_000 };
        eng.tick(false, None);
        eng.tick(false, Some(stim));
        eng.tick(true, None);
        eng.tick(false, Some(stim));
        eng.tick(false, None);
        eng
    };
    let e1 = run();
    let e2 = run();
    assert_eq!(e1.pop.particles, e2.pop.particles);
    assert_eq!(e1.matrix.entries, e2.matrix.entries);
}

// Without a reset request the attraction matrix never changes.
#[test]
fn matrix_untouched_without_reset() {
    let mut eng = SimulationEngine::create(
        50, 5, 1_000_000, 300_000, 20_000, 707_107, 2_000_000, 2_000_000, 50,
    ).expect("valid configuration");
    let before = eng.matrix.entries.clone();
    for _ in 0..4 {
        eng.tick(false, None);
    }
    assert_eq!(eng.matrix.entries, before);
}

// A fresh engine: right population size, colors below the color count,
// positions inside the spawn box, zero velocities, matrix entries uniform in
// [-1, 1) — so never handed back out of range by the random source.
#[test]
fn fresh_engine_well_formed() {
    let eng = SimulationEngine::create(
        300, 5, 1_000_000, 300_000, 20_000, 707_107, 2_000_000, 1_000_000, 9,
    ).expect("valid configuration");
    let snap = eng.snapshot();
    assert_eq!(snap.len(), 300);
    for p in snap.iter() {
        assert!(p.color < 5);
        assert!(-2_000_000 <= p.pos.x && p.pos.x < 2_000_000);
        assert!(-1_000_000 <= p.pos.y && p.pos.y < 1_000_000);
        assert_eq!(p.vel, Vec2 { x: 0, y: 0 });
    }
    assert_eq!(eng.matrix.entries.len(), 25);
    for &c in eng.matrix.entries.iter() {
        assert!(-SCALE <= c && c < SCALE);
    }
}

// Row-major coefficient lookup.
#[test]
fn matrix_lookup_row_major() {
    let mat = AttractionMatrix { n_colors: 3, entries: (0..9).collect() };
    for i in 0..3usize {
        for j in 0..3usize {
            assert_eq!(mat.lookup(i, j), (i * 3 + j) as i64);
        }
    }
}

// Every configuration error comes on exactly the inputs that earn it.
#[test]
fn configuration_rejections() {
    let mk = |n: usize, c: usize, cut: i64, beta: i64, dt: i64, fr: i64, hw: i64, hh: i64| {
        SimulationEngine::create(n, c, cut, beta, dt, fr, hw, hh, 1).err()
    };
    assert_eq!(mk(0, 5, 1_000_000, 300_000, 20_000, 707_107, 1, 1),
        Some(ConfigError::ZeroParticles));
    assert_eq!(mk(1_000_000_001, 5, 1_000_000, 300_000, 20_000, 707_107, 1, 1),
        Some(ConfigError::TooManyParticles));
    assert_eq!(mk(10, 0, 1_000_000, 300_000, 20_000, 707_107, 1, 1),
        Some(ConfigError::ZeroColors));
    assert_eq!(mk(10, 4097, 1_000_000, 300_000, 20_000, 707_107, 1, 1),
        Some(ConfigError::TooManyColors));
    assert_eq!(mk(10, 5, 1_000_000, 0, 20_000, 707_107, 1, 1),
        Some(ConfigError::BetaOutOfRange));
    assert_eq!(mk(10, 5, 1_000_000, SCALE, 20_000, 707_107, 1, 1),
        Some(ConfigError::BetaOutOfRange));
    assert_eq!(mk(10, 5, 0, 300_000, 20_000, 707_107, 1, 1),
        Some(ConfigError::CutoffOutOfRange));
    assert_eq!(mk(10, 5, i64::MAX, 300_000, 20_000, 707_107, 1, 1),
        Some(ConfigError::CutoffOutOfRange));
    assert_eq!(mk(10, 5, 1_000_000, 300_000, 0, 707_107, 1, 1),
        Some(ConfigError::DtNotPositive));
    assert_eq!(mk(10, 5, 1_000_000, 300_000, 20_000, -1, 1, 1),
        Some(ConfigError::FrictionOutOfRange));
    assert_eq!(mk(10, 5, 1_000_000, 300_000, 20_000, SCALE + 1, 1, 1),
        Some(ConfigError::FrictionOutOfRange));
    assert_eq!(mk(10, 5, 1_000_000, 300_000, 20_000, 707_107, 0, 1),
        Some(ConfigError::SpawnExtentNotPositive));
    assert_eq!(mk(10, 5, 1_000_000, 300_000, 20_000, 707_107, 1, 0),
        Some(ConfigError::SpawnExtentNotPositive));
    assert!(mk(10, 5, 1_000_000, 300_000, 20_000, 707_107, 1, 1).is_none());
}
