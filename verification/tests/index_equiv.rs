use particle_life::axis::AxisIndex;
use particle_life::geom::{dist_fp_i64, Vec2};
use particle_life::index::BruteIndex;
use particle_life::population::Particle;
use rand::{Rng, SeedableRng};

fn random_particles(rng: &mut rand_chacha::ChaCha8Rng, n: usize, extent: i64) -> Vec<Particle> {
    let mut v = Vec::new();
    for _ in 0..n {
        v.push(Particle {
            color: rng.gen_range(0..4),
            pos: Vec2 { x: rng.gen_range(-extent..extent), y: rng.gen_range(-extent..extent) },
            vel: Vec2 { x: 0, y: 0 },
        });
    }
    v
}

// The brute-force and the axis-bisection index return identical results
// (same indices, same distances, same order) over randomized configurations
// of particles, query points and radii.
#[test]
fn brute_and_axis_agree_on_random_configurations() {
    let mut rng = rand_chacha::ChaCha8Rng::seed_from_u64(7);
    for round in 0..100 {
        let n = rng.gen_range(0..120);
        let extent = rng.gen_range(1..3_000_000i64);
        let particles = random_particles(&mut rng, n, extent);
        let brute = BruteIndex::build(&particles);
        let axis = AxisIndex::build(&particles);
        let p = Vec2 {
            x: rng.gen_range(-extent..=extent),
            y: rng.gen_range(-extent..=extent),
        };
        let radius = rng.gen_range(0..2 * extent);
        let qb = brute.query(p, radius);
        let qa = axis.query(p, radius);
        assert_eq!(qb, qa, "strategies disagreed in round {round}");
    }
}

// A handcrafted picture: three in range of the origin (including one exactly
// on the boundary), one out, one coincident with the query point.
#[test]
fn query_membership_and_distances() {
    let mk = |x: i64, y: i64| Particle { color: 0, pos: Vec2 { x, y }, vel: Vec2 { x: 0, y: 0 } };
    let particles = vec![
        mk(0, 0),            // distance 0 (self-style inclusion)
        mk(1_000_000, 0),    // exactly on the boundary
        mk(0, -600_000),     // inside
        mk(1_000_001, 0),    // just outside
        mk(-2_000_000, 5),   // outside
    ];
    let brute = BruteIndex::build(&particles);
    let q = brute.query(Vec2 { x: 0, y: 0 }, 1_000_000);
    let got: Vec<usize> = q.iter().map(|e| e.1).collect();
    assert_eq!(got, vec![0, 1, 2]);
    assert_eq!(q[0].0, 0);
    assert_eq!(q[1].0, 1_000_000);
    assert_eq!(q[2].0, 600_000);
    let axis = AxisIndex::build(&particles);
    assert_eq!(axis.query(Vec2 { x: 0, y: 0 }, 1_000_000), q);
}

// Edge cases: an empty population yields an empty result; a zero radius
// keeps only exact coincidences.
#[test]
fn empty_population_and_zero_radius() {
    let empty: Vec<Particle> = Vec::new();
    let brute = BruteIndex::build(&empty);
    let axis = AxisIndex::build(&empty);
    assert!(brute.query(Vec2 { x: 3, y: 4 }, 1_000_000).is_empty());
    assert!(axis.query(Vec2 { x: 3, y: 4 }, 1_000_000).is_empty());

    let mk = |x: i64, y: i64| Particle { color: 0, pos: Vec2 { x, y }, vel: Vec2 { x: 0, y: 0 } };
    let particles = vec![mk(10, 10), mk(10, 11), mk(10, 10)];
    let brute = BruteIndex::build(&particles);
    let axis = AxisIndex::build(&particles);
    let q = brute.query(Vec2 { x: 10, y: 10 }, 0);
    let got: Vec<usize> = q.iter().map(|e| e.1).collect();
    assert_eq!(got, vec![0, 2]);
    assert_eq!(axis.query(Vec2 { x: 10, y: 10 }, 0), q);
}

// The fixed-point distance is the Euclidean one: a 3-4-5 triangle.
#[test]
fn distance_three_four_five() {
    let a = Vec2 { x: 0, y: 0 };
    let b = Vec2 { x: 3_000_000, y: 4_000_000 };
    assert_eq!(dist_fp_i64(a, b), 5_000_000);
}
