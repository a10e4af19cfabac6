//! Plane geometry on fixed-point coordinates: the vector type shared by
//! positions and velocities, squared distances, and truncated unit vectors.
//!
//! Coordinate differences are clamped into `[-i64::MAX, i64::MAX]` and the
//! distance saturates at `i64::MAX`, so every operation is total; within any
//! physically sensible range of coordinates nothing ever saturates.

use vstd::prelude::*;
use crate::fixed::{absi, sat_sym, sat64, sqrt_floor, tdiv, sat_sub_sym_i64, mul_div_i64,
    isqrt_u128, SCALE};

verus! {

/// A plane vector in fixed-point units (`SCALE` units per whole unit).
#[derive(Clone, Copy, PartialEq, Eq, Structural, Debug)]
pub struct Vec2 {
    pub x: i64,
    pub y: i64,
}

/// Componentwise clamped difference `b - a`.
pub open spec fn delta(a: Vec2, b: Vec2) -> (int, int) {
    (sat_sym(b.x - a.x), sat_sym(b.y - a.y))
}

/// Squared distance between two points, over the clamped differences.
pub open spec fn dist2(a: Vec2, b: Vec2) -> int {
    let (dx, dy) = delta(a, b);
    dx * dx + dy * dy
}

/// Fixed-point distance between two points: the integer square root of
/// `dist2` (saturating at `i64::MAX`), so the result is in fixed-point units.
pub open spec fn dist_fp(a: Vec2, b: Vec2) -> int {
    sat64(sqrt_floor(dist2(a, b) as nat) as int)
}

proof fn lemma_dist2_nonneg(a: Vec2, b: Vec2)
    ensures
        0 <= dist2(a, b),
        dist2(a, b) <= 2 * (0x7FFF_FFFF_FFFF_FFFFint * 0x7FFF_FFFF_FFFF_FFFFint),
        0 <= delta(a, b).0 * delta(a, b).0
            <= 0x7FFF_FFFF_FFFF_FFFFint * 0x7FFF_FFFF_FFFF_FFFFint,
        0 <= delta(a, b).1 * delta(a, b).1
            <= 0x7FFF_FFFF_FFFF_FFFFint * 0x7FFF_FFFF_FFFF_FFFFint,
{
    let (dx, dy) = delta(a, b);
    let m = 0x7FFF_FFFF_FFFF_FFFFint;
    assert(0 <= dx * dx && dx * dx <= m * m) by (nonlinear_arith)
        requires
            -m <= dx <= m,
    ;
    assert(0 <= dy * dy && dy * dy <= m * m) by (nonlinear_arith)
        requires
            -m <= dy <= m,
    ;
}

/// Squared distance, exact per `dist2`.
pub fn dist2_i128(a: Vec2, b: Vec2) -> (r: i128)
    ensures
        r as int == dist2(a, b),
        r >= 0,
{
    let dx: i64 = sat_sub_sym_i64(b.x, a.x);
    let dy: i64 = sat_sub_sym_i64(b.y, a.y);
    proof {
        lemma_dist2_nonneg(a, b);
    }
    (dx as i128) * (dx as i128) + (dy as i128) * (dy as i128)
}

/// Fixed-point distance, exact per `dist_fp`.
pub fn dist_fp_i64(a: Vec2, b: Vec2) -> (r: i64)
    ensures
        r as int == dist_fp(a, b),
        r >= 0,
{
    let d2: i128 = dist2_i128(a, b);
    let d: u128 = isqrt_u128(d2 as u128);
    if d > 0x7FFF_FFFF_FFFF_FFFFu128 {
        i64::MAX
    } else {
        d as i64
    }
}

/// Components of the truncated fixed-point unit vector from `a` toward `b`,
/// for points at distance `d > 0`: each is `delta * SCALE / d`.
pub open spec fn unit_toward(a: Vec2, b: Vec2) -> (int, int) {
    let (dx, dy) = delta(a, b);
    let d = dist_fp(a, b);
    (tdiv(dx * SCALE as int, d), tdiv(dy * SCALE as int, d))
}

/// If the points do not coincide, the distance is positive and the unit
/// vector's components lie in `[-SCALE, SCALE]`.
pub proof fn lemma_unit_bounded(a: Vec2, b: Vec2)
    requires
        dist2(a, b) > 0,
    ensures
        dist_fp(a, b) > 0,
        absi(delta(a, b).0) <= dist_fp(a, b),
        absi(delta(a, b).1) <= dist_fp(a, b),
        absi(unit_toward(a, b).0) <= SCALE as int,
        absi(unit_toward(a, b).1) <= SCALE as int,
{
    let (dx, dy) = delta(a, b);
    let d2 = dist2(a, b);
    let s = sqrt_floor(d2 as nat);
    let d = dist_fp(a, b);
    crate::fixed::lemma_sqrt_floor(d2 as nat);
    if s == 0 {
        assert((s + 1) * (s + 1) == 1) by (nonlinear_arith)
            requires
                s == 0,
        ;
    }
    assert(0 <= dx * dx && 0 <= dy * dy) by (nonlinear_arith);
    assert(absi(dx) * absi(dx) == dx * dx) by (nonlinear_arith);
    assert(absi(dy) * absi(dy) == dy * dy) by (nonlinear_arith);
    crate::fixed::lemma_sqrt_le(absi(dx) as nat, d2 as nat);
    crate::fixed::lemma_sqrt_le(absi(dy) as nat, d2 as nat);
    assert(absi(dx) <= d && absi(dy) <= d);
    lemma_unit_component(dx, d);
    lemma_unit_component(dy, d);
}

proof fn lemma_unit_component(dx: int, d: int)
    requires
        0 < d,
        absi(dx) <= d,
    ensures
        absi(tdiv(dx * SCALE as int, d)) <= SCALE as int,
{
    let s = SCALE as int;
    if dx >= 0 {
        assert(0 <= dx * s <= d * s) by (nonlinear_arith)
            requires
                0 <= dx <= d,
                s > 0,
        ;
        assert(tdiv(dx * s, d) == dx * s / d);
        assert(0 <= dx * s / d <= s) by (nonlinear_arith)
            requires
                0 <= dx * s <= d * s,
                d > 0,
                s > 0,
        ;
    } else {
        assert(0 <= (-dx) * s <= d * s) by (nonlinear_arith)
            requires
                0 <= -dx <= d,
                s > 0,
        ;
        assert(-(dx * s) == (-dx) * s) by (nonlinear_arith);
        assert(tdiv(dx * s, d) == -(((-dx) * s) / d));
        assert(0 <= (-dx) * s / d <= s) by (nonlinear_arith)
            requires
                0 <= (-dx) * s <= d * s,
                d > 0,
                s > 0,
        ;
    }
}

/// Truncated unit vector from `a` toward `b`, exact per `unit_toward`.
pub fn unit_toward_i64(a: Vec2, b: Vec2, d: i64) -> (r: (i64, i64))
    requires
        d as int == dist_fp(a, b),
        dist2(a, b) > 0,
    ensures
        r.0 as int == unit_toward(a, b).0,
        r.1 as int == unit_toward(a, b).1,
        absi(r.0 as int) <= SCALE as int,
        absi(r.1 as int) <= SCALE as int,
{
    let dx: i64 = sat_sub_sym_i64(b.x, a.x);
    let dy: i64 = sat_sub_sym_i64(b.y, a.y);
    proof {
        lemma_unit_bounded(a, b);
        assert(sat64(tdiv(dx as int * SCALE as int, d as int))
            == tdiv(dx as int * SCALE as int, d as int));
        assert(sat64(tdiv(dy as int * SCALE as int, d as int))
            == tdiv(dy as int * SCALE as int, d as int));
    }
    let ux: i64 = mul_div_i64(dx, SCALE, d);
    let uy: i64 = mul_div_i64(dy, SCALE, d);
    (ux, uy)
}

} // verus!
