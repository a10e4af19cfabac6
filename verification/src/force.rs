//! The pairwise force law: universal short-range repulsion below the
//! repulsion-core fraction `beta`, and a signed triangular attraction profile
//! between `beta` and the cutoff.
//!
//! All quantities are fixed-point: `r` is the distance divided by the cutoff
//! radius (so `SCALE` means exactly the cutoff), `a` is the attraction
//! coefficient in `[-SCALE, SCALE]`, and `beta` lies strictly between `0` and
//! `SCALE`.

use vstd::prelude::*;
use crate::fixed::{absi, tdiv, mul_div_i64, SCALE};

verus! {

/// Height of the triangular profile at normalized distance `r`:
/// `SCALE - |2r - SCALE - beta| * SCALE / (SCALE - beta)`,
/// which is `0` at `r == beta` and at `r == SCALE` and peaks midway.
pub open spec fn triangle(r: int, beta: int) -> int {
    let s = SCALE as int;
    s - tdiv(absi(2 * r - s - beta) * s, s - beta)
}

/// The force law. For `r < beta` a universal repulsion `r/beta - 1`
/// independent of `a`; for `beta <= r < SCALE` the triangular profile scaled
/// by `a`; zero at and beyond the cutoff.
pub open spec fn force_law_spec(r: int, a: int, beta: int) -> int {
    let s = SCALE as int;
    if r < beta {
        tdiv(r * s, beta) - s
    } else if r < s {
        tdiv(a * triangle(r, beta), s)
    } else {
        0
    }
}

/// For `beta <= r <= SCALE` the triangle height lies in `[0, SCALE]`,
/// and it is strictly positive strictly between the endpoints.
pub proof fn lemma_triangle_range(r: int, beta: int)
    requires
        0 < beta < SCALE as int,
        beta <= r <= SCALE as int,
    ensures
        0 <= triangle(r, beta) <= SCALE as int,
        beta < r < SCALE as int ==> triangle(r, beta) > 0,
{
    let s = SCALE as int;
    let k = s - beta;
    let num = absi(2 * r - s - beta);
    assert(num <= k);
    assert(beta < r < s ==> num < k);
    assert(0 <= num * s <= k * s) by (nonlinear_arith)
        requires
            0 <= num <= k,
            s > 0,
    ;
    assert(tdiv(num * s, k) == num * s / k);
    assert(0 <= num * s / k <= s) by (nonlinear_arith)
        requires
            0 <= num * s <= k * s,
            k > 0,
            s > 0,
    ;
    if num < k {
        assert(num * s <= k * s - s) by (nonlinear_arith)
            requires
                num <= k - 1,
                s > 0,
        ;
        assert(num * s / k < s) by (nonlinear_arith)
            requires
                0 <= num * s <= k * s - s,
                k > 0,
                s > 0,
        ;
    }
}

/// The scaled profile keeps magnitude at most `|a|` and never opposes the
/// sign of `a`.
proof fn lemma_scaled_profile(a: int, t: int)
    requires
        -(SCALE as int) <= a <= SCALE as int,
        0 <= t <= SCALE as int,
    ensures
        absi(tdiv(a * t, SCALE as int)) <= absi(a),
        a >= 0 ==> 0 <= tdiv(a * t, SCALE as int),
        a <= 0 ==> tdiv(a * t, SCALE as int) <= 0,
        absi(a) * t >= SCALE as int ==> absi(tdiv(a * t, SCALE as int)) >= 1,
{
    let s = SCALE as int;
    if a >= 0 {
        assert(0 <= a * t <= a * s) by (nonlinear_arith)
            requires
                0 <= t <= s,
                a >= 0,
        ;
        assert(tdiv(a * t, s) == a * t / s);
        assert(0 <= a * t / s <= a) by (nonlinear_arith)
            requires
                0 <= a * t <= a * s,
                s > 0,
        ;
        assert(a * t >= s ==> a * t / s >= 1) by (nonlinear_arith)
            requires
                s > 0,
        ;
    } else {
        assert(0 <= (-a) * t <= (-a) * s) by (nonlinear_arith)
            requires
                0 <= t <= s,
                a < 0,
        ;
        assert(-(a * t) == (-a) * t) by (nonlinear_arith);
        assert(tdiv(a * t, s) == -(((-a) * t) / s));
        assert(0 <= (-a) * t / s <= -a) by (nonlinear_arith)
            requires
                0 <= (-a) * t <= (-a) * s,
                s > 0,
        ;
        assert((-a) * t >= s ==> (-a) * t / s >= 1) by (nonlinear_arith)
            requires
                s > 0,
        ;
    }
}

/// The force law stays within `[-SCALE, SCALE]`, with magnitude at most `|a|`
/// outside the repulsion core.
pub proof fn lemma_force_law_range(r: int, a: int, beta: int)
    requires
        r >= 0,
        0 < beta < SCALE as int,
        -(SCALE as int) <= a <= SCALE as int,
    ensures
        -(SCALE as int) <= force_law_spec(r, a, beta) <= SCALE as int,
        beta <= r ==> absi(force_law_spec(r, a, beta)) <= absi(a),
{
    let s = SCALE as int;
    if r < beta {
        assert(0 <= r * s <= beta * s - s) by (nonlinear_arith)
            requires
                0 <= r <= beta - 1,
                s > 0,
        ;
        assert(tdiv(r * s, beta) == r * s / beta);
        assert(0 <= r * s / beta < s) by (nonlinear_arith)
            requires
                0 <= r * s <= beta * s - s,
                beta > 0,
                s > 0,
        ;
    } else if r < s {
        lemma_triangle_range(r, beta);
        lemma_scaled_profile(a, triangle(r, beta));
    }
}

/// Boundary continuity: the force is exactly zero at `r == beta` and at the
/// cutoff `r == SCALE`, whatever the coefficient.
pub proof fn lemma_force_law_boundary(a: int, beta: int)
    requires
        0 < beta < SCALE as int,
        -(SCALE as int) <= a <= SCALE as int,
    ensures
        force_law_spec(beta, a, beta) == 0,
        force_law_spec(SCALE as int, a, beta) == 0,
{
    let s = SCALE as int;
    let k = s - beta;
    assert(absi(2 * beta - s - beta) == k);
    assert(k * s / k == s) by (nonlinear_arith)
        requires
            k > 0,
            s > 0,
    ;
    assert(triangle(beta, beta) == 0);
    assert(tdiv(a * 0, s) == 0) by {
        assert(a * 0 == 0) by (nonlinear_arith);
        assert(0int / s == 0) by (nonlinear_arith)
            requires
                s > 0,
        ;
    };
}

/// Away from the repulsion core and strictly inside the cutoff, the force
/// never opposes the sign of the coefficient; and whenever the coefficient is
/// large enough that truncation cannot swallow the product
/// (`|a| * triangle(r, beta) >= SCALE`), the force is strictly of the sign of
/// `a`. For coefficients below that threshold the truncated force may be `0`.
pub proof fn lemma_force_law_sign(r: int, a: int, beta: int)
    requires
        0 < beta < SCALE as int,
        -(SCALE as int) <= a <= SCALE as int,
        beta < r < SCALE as int,
    ensures
        a >= 0 ==> force_law_spec(r, a, beta) >= 0,
        a <= 0 ==> force_law_spec(r, a, beta) <= 0,
        absi(a) * triangle(r, beta) >= SCALE as int && a > 0 ==> force_law_spec(r, a, beta) > 0,
        absi(a) * triangle(r, beta) >= SCALE as int && a < 0 ==> force_law_spec(r, a, beta) < 0,
{
    lemma_triangle_range(r, beta);
    lemma_scaled_profile(a, triangle(r, beta));
}

/// Inside the repulsion core the force is independent of the coefficient,
/// strictly increasing in `r`, and runs from `-SCALE` at `r == 0` up toward
/// `0` (always strictly negative before `beta`).
pub proof fn lemma_force_law_repulsion(r1: int, r2: int, a1: int, a2: int, beta: int)
    requires
        0 < beta < SCALE as int,
        0 <= r1 < beta,
        0 <= r2 < beta,
        r1 < r2,
    ensures
        force_law_spec(r1, a1, beta) == force_law_spec(r1, a2, beta),
        force_law_spec(r1, a1, beta) < force_law_spec(r2, a1, beta),
        force_law_spec(0, a1, beta) == -(SCALE as int),
        -(SCALE as int) <= force_law_spec(r1, a1, beta) < 0,
{
    let s = SCALE as int;
    assert(tdiv(r1 * s, beta) == r1 * s / beta);
    assert(tdiv(r2 * s, beta) == r2 * s / beta);
    assert(r1 * s + s <= r2 * s) by (nonlinear_arith)
        requires
            r1 + 1 <= r2,
            s > 0,
    ;
    assert(r1 * s / beta < r2 * s / beta) by (nonlinear_arith)
        requires
            0 <= r1 * s,
            r1 * s + beta <= r2 * s,
            0 < beta <= s,
    ;
    assert(0 <= r1 * s <= beta * s - s) by (nonlinear_arith)
        requires
            0 <= r1 <= beta - 1,
            s > 0,
    ;
    assert(0 <= r1 * s / beta < s) by (nonlinear_arith)
        requires
            0 <= r1 * s <= beta * s - s,
            beta > 0,
            s > 0,
    ;
    assert(0 <= r2 * s <= beta * s - s) by (nonlinear_arith)
        requires
            0 <= r2 <= beta - 1,
            s > 0,
    ;
    assert(0 <= r2 * s / beta < s) by (nonlinear_arith)
        requires
            0 <= r2 * s <= beta * s - s,
            beta > 0,
            s > 0,
        ;
    assert(0int * s == 0) by (nonlinear_arith);
    assert(0int / beta == 0) by (nonlinear_arith)
        requires
            beta > 0,
    ;
}

/// The force law, exact per `force_law_spec` and bounded by `SCALE` in
/// magnitude.
pub fn force_law(r: i64, a: i64, beta: i64) -> (f: i64)
    requires
        r >= 0,
        0 < beta < SCALE,
        -SCALE <= a <= SCALE,
    ensures
        f as int == force_law_spec(r as int, a as int, beta as int),
        -SCALE <= f <= SCALE,
{
    proof {
        lemma_force_law_range(r as int, a as int, beta as int);
    }
    if r < beta {
        let q: i64 = mul_div_i64(r, SCALE, beta);
        proof {
            assert(0 <= r as int * SCALE as int <= beta as int * SCALE as int - SCALE as int)
                by (nonlinear_arith)
                requires
                    0 <= r as int <= beta as int - 1,
                    SCALE as int > 0,
            ;
            assert(tdiv(r as int * SCALE as int, beta as int)
                == r as int * SCALE as int / beta as int);
            assert(0 <= r as int * SCALE as int / (beta as int) < SCALE as int)
                by (nonlinear_arith)
                requires
                    0 <= r as int * SCALE as int <= beta as int * SCALE as int - SCALE as int,
                    beta as int > 0,
                    SCALE as int > 0,
            ;
        }
        q - SCALE
    } else if r < SCALE {
        let two_r: i64 = 2 * r;
        let dcore: i64 = two_r - SCALE - beta;
        let num: i64 = if dcore >= 0 {
            dcore
        } else {
            -dcore
        };
        proof {
            lemma_triangle_range(r as int, beta as int);
            assert(0 <= num as int * SCALE as int
                <= (SCALE as int - beta as int) * SCALE as int) by (nonlinear_arith)
                requires
                    0 <= num as int <= SCALE as int - beta as int,
                    SCALE as int > 0,
            ;
            assert(tdiv(num as int * SCALE as int, SCALE as int - beta as int)
                == num as int * SCALE as int / (SCALE as int - beta as int));
            assert(0 <= num as int * SCALE as int / (SCALE as int - beta as int) <= SCALE as int)
                by (nonlinear_arith)
                requires
                    0 <= num as int * SCALE as int
                        <= (SCALE as int - beta as int) * SCALE as int,
                    SCALE as int - beta as int > 0,
                    SCALE as int > 0,
            ;
        }
        let tval: i64 = SCALE - mul_div_i64(num, SCALE, SCALE - beta);
        proof {
            assert(tval as int == triangle(r as int, beta as int));
            lemma_scaled_profile(a as int, tval as int);
        }
        mul_div_i64(a, tval, SCALE)
    } else {
        0
    }
}

} // verus!
