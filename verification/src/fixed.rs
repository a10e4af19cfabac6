//! Saturating fixed-point arithmetic on `i64`, with `SCALE` fractional units
//! per whole unit, and an exact integer square root.
//!
//! Every executable operation here is total: products are taken in 128-bit
//! intermediates and results are clamped to the `i64` range, so callers never
//! face an overflow obligation. The spec functions `sat_add`, `sat_sub`,
//! `mul_div` and `sqrt_floor` state the exact value returned.

use vstd::prelude::*;

verus! {

/// Number of fixed-point units in one whole unit.
pub const SCALE: i64 = 1_000_000;

/// Absolute value of a mathematical integer.
pub open spec fn absi(a: int) -> int {
    if a >= 0 {
        a
    } else {
        -a
    }
}

/// Clamp a mathematical integer into the `i64` range.
pub open spec fn sat64(x: int) -> int {
    if x > i64::MAX {
        i64::MAX as int
    } else if x < i64::MIN {
        i64::MIN as int
    } else {
        x
    }
}

/// Division truncating toward zero (the `/` of executable Rust),
/// for a positive divisor.
pub open spec fn tdiv(a: int, b: int) -> int {
    if a >= 0 {
        a / b
    } else {
        -((-a) / b)
    }
}

/// `a * b / d`, truncating toward zero and clamped to the `i64` range.
pub open spec fn mul_div(a: int, b: int, d: int) -> int {
    sat64(tdiv(a * b, d))
}

/// Fixed-point product: `a * b / SCALE`, truncated and clamped.
pub open spec fn fp_mul(a: int, b: int) -> int {
    mul_div(a, b, SCALE as int)
}

/// Saturating sum.
pub open spec fn sat_add(a: int, b: int) -> int {
    sat64(a + b)
}

/// Saturating difference.
pub open spec fn sat_sub(a: int, b: int) -> int {
    sat64(a - b)
}

/// Clamp into the symmetric range `[-i64::MAX, i64::MAX]`.
pub open spec fn sat_sym(x: int) -> int {
    if x > i64::MAX {
        i64::MAX as int
    } else if x < -(i64::MAX as int) {
        -(i64::MAX as int)
    } else {
        x
    }
}

/// Difference clamped into the symmetric range `[-i64::MAX, i64::MAX]`,
/// so that its absolute value and square always stay small enough to work with.
pub fn sat_sub_sym_i64(a: i64, b: i64) -> (r: i64)
    ensures
        r as int == sat_sym(a as int - b as int),
        absi(r as int) <= i64::MAX as int,
{
    let s: i128 = a as i128 - b as i128;
    if s > i64::MAX as i128 {
        i64::MAX
    } else if s < -(i64::MAX as i128) {
        -i64::MAX
    } else {
        s as i64
    }
}

proof fn lemma_abs_mul(a: int, b: int)
    ensures
        absi(a) * absi(b) == absi(a * b),
{
    assert(absi(a) * absi(b) == absi(a * b)) by (nonlinear_arith);
}

/// `|a|` as a `u128`.
fn abs_u128(a: i64) -> (r: u128)
    ensures
        r as int == absi(a as int),
{
    if a >= 0 {
        a as u128
    } else {
        (-(a as i128)) as u128
    }
}

/// Saturating addition on `i64`.
pub fn sat_add_i64(a: i64, b: i64) -> (r: i64)
    ensures
        r as int == sat_add(a as int, b as int),
{
    let s: i128 = a as i128 + b as i128;
    if s > i64::MAX as i128 {
        i64::MAX
    } else if s < i64::MIN as i128 {
        i64::MIN
    } else {
        s as i64
    }
}

/// Saturating subtraction on `i64`.
pub fn sat_sub_i64(a: i64, b: i64) -> (r: i64)
    ensures
        r as int == sat_sub(a as int, b as int),
{
    let s: i128 = a as i128 - b as i128;
    if s > i64::MAX as i128 {
        i64::MAX
    } else if s < i64::MIN as i128 {
        i64::MIN
    } else {
        s as i64
    }
}

/// `a * b / d` truncating toward zero, clamped to the `i64` range.
pub fn mul_div_i64(a: i64, b: i64, d: i64) -> (r: i64)
    requires
        d > 0,
    ensures
        r as int == mul_div(a as int, b as int, d as int),
{
    let an: u128 = abs_u128(a);
    let bn: u128 = abs_u128(b);
    proof {
        lemma_abs_mul(a as int, b as int);
        assert(an * bn <= 0x8000_0000_0000_0000u128 * 0x8000_0000_0000_0000u128)
            by (nonlinear_arith)
            requires
                an <= 0x8000_0000_0000_0000u128,
                bn <= 0x8000_0000_0000_0000u128,
        ;
    }
    let mag: u128 = (an * bn) / (d as u128);
    proof {
        assert(mag as int == absi(a as int * b as int) / (d as int));
        if a as int * b as int >= 0 {
            assert(tdiv(a as int * b as int, d as int) == mag as int);
        } else {
            assert(tdiv(a as int * b as int, d as int) == -(mag as int));
        }
    }
    if (a < 0) != (b < 0) {
        proof {
            assert((a as int) * (b as int) <= 0) by (nonlinear_arith)
                requires
                    ((a as int) < 0) != ((b as int) < 0),
            ;
            if (a as int) * (b as int) == 0 {
                assert(absi((a as int) * (b as int)) == 0);
                assert(0int / (d as int) == 0) by (nonlinear_arith)
                    requires
                        d > 0,
                ;
            }
        }
        if mag >= 0x8000_0000_0000_0000u128 {
            i64::MIN
        } else {
            -(mag as i64)
        }
    } else {
        proof {
            assert((a as int) * (b as int) >= 0) by (nonlinear_arith)
                requires
                    ((a as int) < 0) == ((b as int) < 0),
            ;
        }
        if mag >= 0x7FFF_FFFF_FFFF_FFFFu128 {
            i64::MAX
        } else {
            mag as i64
        }
    }
}

/// Largest `r` with `r * r <= v`, by downward search (spec only).
pub open spec fn sqrt_rec(v: nat, r: nat) -> nat
    decreases r,
{
    if r * r <= v {
        r
    } else if r == 0 {
        0
    } else {
        sqrt_rec(v, (r - 1) as nat)
    }
}

/// Integer square root: the unique `r` with `r * r <= v < (r + 1) * (r + 1)`.
pub open spec fn sqrt_floor(v: nat) -> nat {
    sqrt_rec(v, v)
}

proof fn lemma_sqrt_rec(v: nat, r: nat)
    requires
        v < (r + 1) * (r + 1),
    ensures
        sqrt_rec(v, r) * sqrt_rec(v, r) <= v,
        v < (sqrt_rec(v, r) + 1) * (sqrt_rec(v, r) + 1),
        sqrt_rec(v, r) <= r,
    decreases r,
{
    if r * r <= v {
    } else {
        assert(r != 0) by {
            if r == 0 {
                assert(r * r == 0) by (nonlinear_arith)
                    requires
                        r == 0,
                ;
            }
        };
        lemma_sqrt_rec(v, (r - 1) as nat);
    }
}

/// The defining property of `sqrt_floor`.
pub proof fn lemma_sqrt_floor(v: nat)
    ensures
        sqrt_floor(v) * sqrt_floor(v) <= v,
        v < (sqrt_floor(v) + 1) * (sqrt_floor(v) + 1),
        sqrt_floor(v) <= v,
{
    assert(v < (v + 1) * (v + 1)) by (nonlinear_arith);
    lemma_sqrt_rec(v, v);
}

/// Any `r` satisfying the square-root bracketing is `sqrt_floor`.
pub proof fn lemma_sqrt_unique(v: nat, r: nat)
    requires
        r * r <= v,
        v < (r + 1) * (r + 1),
    ensures
        r == sqrt_floor(v),
{
    lemma_sqrt_floor(v);
    let s = sqrt_floor(v);
    if r < s {
        assert((r + 1) * (r + 1) <= s * s) by (nonlinear_arith)
            requires
                r + 1 <= s,
        ;
    } else if s < r {
        assert((s + 1) * (s + 1) <= r * r) by (nonlinear_arith)
            requires
                s + 1 <= r,
        ;
    }
}

/// If `x * x <= v` then `x <= sqrt_floor(v)`.
pub proof fn lemma_sqrt_le(x: nat, v: nat)
    requires
        x * x <= v,
    ensures
        x <= sqrt_floor(v),
{
    lemma_sqrt_floor(v);
    let s = sqrt_floor(v);
    if s < x {
        assert((s + 1) * (s + 1) <= x * x) by (nonlinear_arith)
            requires
                s + 1 <= x,
        ;
    }
}

/// Integer square root of a `u128`, by binary search.
pub fn isqrt_u128(v: u128) -> (r: u128)
    ensures
        r as nat == sqrt_floor(v as nat),
{
    if v == 0 {
        proof {
            assert(0nat * 0nat == 0nat && (0nat + 1) * (0nat + 1) == 1nat) by (nonlinear_arith);
            lemma_sqrt_unique(0, 0);
        }
        return 0;
    }
    let mut lo: u128 = 0;
    let mut hi: u128 = 0x1_0000_0000_0000_0000u128;
    proof {
        assert((hi as int) * (hi as int) > v as int) by (nonlinear_arith)
            requires
                hi as int == 0x1_0000_0000_0000_0000int,
                (v as int) < 0x1_0000_0000_0000_0000int * 0x1_0000_0000_0000_0000int,
        ;
    }
    while lo + 1 < hi
        invariant
            lo < hi,
            hi <= 0x1_0000_0000_0000_0000u128,
            (lo as int) * (lo as int) <= v as int,
            (hi as int) * (hi as int) > v as int,
        decreases hi - lo,
    {
        let mid: u128 = lo + (hi - lo) / 2;
        proof {
            assert(mid < 0x1_0000_0000_0000_0000u128);
            assert(mid * mid < 0x1_0000_0000_0000_0000u128 * 0x1_0000_0000_0000_0000u128)
                by (nonlinear_arith)
                requires
                    mid < 0x1_0000_0000_0000_0000u128,
            ;
        }
        if mid * mid <= v {
            lo = mid;
        } else {
            hi = mid;
        }
    }
    proof {
        lemma_sqrt_unique(v as nat, lo as nat);
    }
    lo
}

} // verus!
