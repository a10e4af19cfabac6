use particle_life::fixed::SCALE;
use particle_life::force::force_law;

// Boundary continuity: the force is exactly zero at r == beta and at the
// cutoff r == SCALE, for any coefficient and any beta strictly inside (0, 1).
#[test]
fn boundary_zero_at_beta_and_cutoff() {
    let betas = [100i64, 250_000, 300_000, 500_000, 999_999];
    let coeffs = [-SCALE, -333_333, -3, 0, 7, 777_777, SCALE];
    for &beta in betas.iter() {
        for &a in coeffs.iter() {
            assert_eq!(force_law(beta, a, beta), 0);
            assert_eq!(force_law(SCALE, a, beta), 0);
        }
    }
}

// Beyond the cutoff the force vanishes.
#[test]
fn zero_beyond_cutoff() {
    assert_eq!(force_law(SCALE + 1, SCALE, 300_000), 0);
    assert_eq!(force_law(10 * SCALE, -SCALE, 300_000), 0);
}

// Between beta and the cutoff the force carries the sign of the coefficient.
#[test]
fn sign_follows_coefficient() {
    let beta = 300_000i64;
    for &r in [310_000i64, 500_000, 650_000, 900_000].iter() {
        let fp = force_law(r, 500_000, beta);
        let fn_ = force_law(r, -500_000, beta);
        let f0 = force_law(r, 0, beta);
        assert!(fp > 0, "expected positive force at r={r}, got {fp}");
        assert!(fn_ < 0, "expected negative force at r={r}, got {fn_}");
        assert_eq!(f0, 0);
    }
}

// The attraction peaks at the midpoint of the band with magnitude close to
// the coefficient.
#[test]
fn peak_at_midpoint() {
    let beta = 300_000i64;
    let mid = (SCALE + beta) / 2;
    let f = force_law(mid, SCALE, beta);
    assert!((f - SCALE).abs() <= 5, "expected ~SCALE at the peak, got {f}");
}

// Inside the repulsion core: independent of the coefficient, strictly
// increasing in r, equal to -SCALE at r == 0, strictly negative before beta.
#[test]
fn repulsion_core_profile() {
    let beta = 300_000i64;
    assert_eq!(force_law(0, 123_456, beta), -SCALE);
    assert_eq!(force_law(0, -654_321, beta), -SCALE);
    let mut prev = force_law(0, 0, beta);
    let mut r = 1_000i64;
    while r < beta {
        let f = force_law(r, 0, beta);
        assert!(f > prev, "repulsion not strictly increasing at r={r}");
        assert!(f < 0, "repulsion must stay negative before beta, r={r}");
        assert_eq!(f, force_law(r, 999_999, beta), "repulsion must ignore the coefficient");
        prev = f;
        r += 1_000;
    }
}

// One exact value per branch of the formula.
#[test]
fn exact_values() {
    // r/beta - 1 at r = 0.15, beta = 0.3: -0.5
    assert_eq!(force_law(150_000, 777, 300_000), -500_000);
    // the attraction band: a = 0.5, r = 0.5, beta = 0.3:
    // 0.5 * (1 - 0.3/0.7) = 2/7, truncated in fixed point
    assert_eq!(force_law(500_000, 500_000, 300_000), 285_714);
    let exact: f64 = 285_714.0 / 1e6;
    let ideal: f64 = 0.5 * (1.0 - 0.3 / 0.7);
    assert!((exact - ideal).abs() < 1e-5);
}
