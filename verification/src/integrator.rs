//! One tick of the simulation: for every particle, sum the pairwise forces of
//! its in-range neighbors, damp its velocity by the friction factor, add the
//! scaled force, step the position (semi-implicit Euler), and apply an
//! optional pointer stimulus to the new velocity.
//!
//! `step_spec` pins the whole tick: the executable step returns exactly that
//! sequence, whichever spatial index strategy supplied the neighbor lists.

use vstd::prelude::*;
use rayon::iter::{IntoParallelIterator, ParallelIterator};
use crate::axis::AxisIndex;
use crate::fixed::{absi, fp_mul, mul_div, sat_add, sat_sub, tdiv, mul_div_i64, sat_add_i64,
    sat_sub_i64, SCALE};
use crate::force::{force_law_spec, force_law, lemma_force_law_range};
use crate::geom::{dist2, dist_fp, unit_toward, dist2_i128, dist_fp_i64, unit_toward_i64, Vec2};
use crate::index::{entry_ok, in_range, positions, query_good, BruteIndex};
use crate::matrix::AttractionMatrix;
use crate::params::{SimParams, Stimulus, MAX_PARTICLES};
use crate::population::{colors_ok, Particle, Population};

verus! {

/// The force that particle `p2` exerts on `p1` under coefficient `a`:
/// zero for coincident particles (undefined direction) and beyond the cutoff,
/// otherwise the truncated unit vector from `p1` toward `p2` scaled by the
/// force law at the normalized distance.
pub open spec fn pair_force(p1: Particle, p2: Particle, a: int, cutoff: int, beta: int) -> (
    int,
    int,
) {
    let d2 = dist2(p1.pos, p2.pos);
    if d2 == 0 || d2 > cutoff * cutoff {
        (0, 0)
    } else {
        let d = dist_fp(p1.pos, p2.pos);
        let r = mul_div(d, SCALE as int, cutoff);
        let f = force_law_spec(r, a, beta);
        let u = unit_toward(p1.pos, p2.pos);
        (mul_div(u.0, f, SCALE as int), mul_div(u.1, f, SCALE as int))
    }
}

/// Total force on particle `i` from all neighbors with index below `upto`,
/// skipping `i` itself (identity is the index, never the value).
pub open spec fn total_force(
    s: Seq<Particle>,
    m: AttractionMatrix,
    prm: SimParams,
    i: int,
    upto: int,
) -> (int, int)
    decreases upto,
{
    if upto <= 0 {
        (0, 0)
    } else {
        let prev = total_force(s, m, prm, i, upto - 1);
        let c = pair_term(s, m, prm, i, upto - 1);
        (prev.0 + c.0, prev.1 + c.1)
    }
}

/// The contribution of neighbor `j` to the force on particle `i`.
pub open spec fn pair_term(
    s: Seq<Particle>,
    m: AttractionMatrix,
    prm: SimParams,
    i: int,
    j: int,
) -> (int, int) {
    if j == i {
        (0, 0)
    } else {
        pair_force(
            s[i],
            s[j],
            m.coeff(s[i].color as int, s[j].color as int),
            prm.cutoff as int,
            prm.beta as int,
        )
    }
}

/// Validity of the step inputs as a whole.
pub open spec fn inputs_ok(s: Seq<Particle>, m: AttractionMatrix, prm: SimParams) -> bool {
    &&& prm.valid()
    &&& m.wf()
    &&& m.n_colors == prm.n_colors
    &&& colors_ok(s, prm.n_colors as int)
    &&& s.len() <= MAX_PARTICLES
}

/// Each pair force component has magnitude at most `SCALE`.
pub proof fn lemma_pair_force_bounded(p1: Particle, p2: Particle, a: int, cutoff: int, beta: int)
    requires
        0 < cutoff,
        0 < beta < SCALE as int,
        -(SCALE as int) <= a <= SCALE as int,
    ensures
        absi(pair_force(p1, p2, a, cutoff, beta).0) <= SCALE as int,
        absi(pair_force(p1, p2, a, cutoff, beta).1) <= SCALE as int,
{
    let d2 = dist2(p1.pos, p2.pos);
    if d2 == 0 || d2 > cutoff * cutoff {
    } else {
        let d = dist_fp(p1.pos, p2.pos);
        let r = mul_div(d, SCALE as int, cutoff);
        let (dx, dy) = crate::geom::delta(p1.pos, p2.pos);
        assert(dx * dx >= 0 && dy * dy >= 0) by (nonlinear_arith);
        crate::geom::lemma_unit_bounded(p1.pos, p2.pos);
        assert(0 <= d * SCALE as int) by (nonlinear_arith)
            requires
                d >= 0,
        ;
        assert(tdiv(d * SCALE as int, cutoff) >= 0) by (nonlinear_arith)
            requires
                d * SCALE as int >= 0,
                cutoff > 0,
        ;
        assert(r >= 0);
        lemma_force_law_range(r, a, beta);
        let f = force_law_spec(r, a, beta);
        let u = unit_toward(p1.pos, p2.pos);
        lemma_mul_div_small(u.0, f);
        lemma_mul_div_small(u.1, f);
    }
}

/// `|x| <= SCALE` and `|y| <= SCALE` give `|x * y / SCALE| <= SCALE`.
proof fn lemma_mul_div_small(x: int, y: int)
    requires
        absi(x) <= SCALE as int,
        absi(y) <= SCALE as int,
    ensures
        absi(mul_div(x, y, SCALE as int)) <= SCALE as int,
{
    let s = SCALE as int;
    assert(absi(x * y) == absi(x) * absi(y)) by (nonlinear_arith);
    assert(absi(x) * absi(y) <= s * s) by (nonlinear_arith)
        requires
            0 <= absi(x) <= s,
            0 <= absi(y) <= s,
    ;
    if x * y >= 0 {
        assert(tdiv(x * y, s) == x * y / s);
        assert(0 <= x * y / s <= s) by (nonlinear_arith)
            requires
                0 <= x * y <= s * s,
                s > 0,
        ;
    } else {
        assert(tdiv(x * y, s) == -((-(x * y)) / s));
        assert(0 <= (-(x * y)) / s <= s) by (nonlinear_arith)
            requires
                0 <= -(x * y) <= s * s,
                s > 0,
        ;
    }
}

/// The running force total is bounded by `upto * SCALE` per component.
pub proof fn lemma_total_force_bounded(
    s: Seq<Particle>,
    m: AttractionMatrix,
    prm: SimParams,
    i: int,
    upto: int,
)
    requires
        inputs_ok(s, m, prm),
        0 <= i < s.len(),
        0 <= upto <= s.len(),
    ensures
        absi(total_force(s, m, prm, i, upto).0) <= upto * SCALE as int,
        absi(total_force(s, m, prm, i, upto).1) <= upto * SCALE as int,
    decreases upto,
{
    if upto <= 0 {
        assert(0 * SCALE as int == 0) by (nonlinear_arith);
    } else {
        lemma_total_force_bounded(s, m, prm, i, upto - 1);
        let j = upto - 1;
        if j != i {
            let ci = s[i].color as int;
            let cj = s[j].color as int;
            assert(-(SCALE as int) <= m.coeff(ci, cj) <= SCALE as int) by {
                let n = m.n_colors as int;
                assert(0 <= ci * n && ci * n + cj < n * n) by (nonlinear_arith)
                    requires
                        0 <= ci <= n - 1,
                        0 <= cj < n,
                        n > 0,
                ;
            };
            lemma_pair_force_bounded(
                s[i],
                s[j],
                m.coeff(ci, cj),
                prm.cutoff as int,
                prm.beta as int,
            );
        }
        assert((upto - 1) * SCALE as int + SCALE as int == upto * SCALE as int)
            by (nonlinear_arith);
    }
}

/// Indices whose pair term vanishes contribute nothing: the total over
/// `[0, b)` equals the total over `[0, a)` when every index of `[a, b)` is
/// `i` itself or out of interaction range.
pub proof fn lemma_total_force_gap(
    s: Seq<Particle>,
    m: AttractionMatrix,
    prm: SimParams,
    i: int,
    a: int,
    b: int,
)
    requires
        0 <= a <= b <= s.len(),
        forall|j: int| a <= j < b ==> pair_term(s, m, prm, i, j) == (0int, 0int),
    ensures
        total_force(s, m, prm, i, b) == total_force(s, m, prm, i, a),
    decreases b - a,
{
    if a < b {
        lemma_total_force_gap(s, m, prm, i, a, b - 1);
    }
}

/// Velocity after friction damping and force application, before any
/// stimulus: `v * friction + (F * cutoff) * dt`, componentwise in saturating
/// fixed point.
pub open spec fn damped_vel(s: Seq<Particle>, m: AttractionMatrix, prm: SimParams, i: int) -> (
    int,
    int,
) {
    let fr = total_force(s, m, prm, i, s.len() as int);
    let fsx = fp_mul(fr.0, prm.cutoff as int);
    let fsy = fp_mul(fr.1, prm.cutoff as int);
    (
        sat_add(fp_mul(s[i].vel.x as int, prm.friction as int), fp_mul(fsx, prm.dt as int)),
        sat_add(fp_mul(s[i].vel.y as int, prm.friction as int), fp_mul(fsy, prm.dt as int)),
    )
}

/// Position after the velocity update: `pos + vel' * dt` (semi-implicit
/// Euler — the just-updated velocity moves the particle).
pub open spec fn moved_pos(s: Seq<Particle>, m: AttractionMatrix, prm: SimParams, i: int) -> Vec2 {
    let v = damped_vel(s, m, prm, i);
    Vec2 {
        x: sat_add(s[i].pos.x as int, fp_mul(v.0, prm.dt as int)) as i64,
        y: sat_add(s[i].pos.y as int, fp_mul(v.1, prm.dt as int)) as i64,
    }
}

/// The stimulus contribution at a position: the truncated unit vector from
/// the target toward the position, scaled by the magnitude; zero when the
/// position coincides with the target (undefined direction).
pub open spec fn stim_delta(st: Stimulus, pos: Vec2) -> (int, int) {
    if dist2(st.target, pos) == 0 {
        (0, 0)
    } else {
        let u = unit_toward(st.target, pos);
        (mul_div(u.0, st.magnitude as int, SCALE as int), mul_div(
            u.1,
            st.magnitude as int,
            SCALE as int,
        ))
    }
}

/// The complete next state of particle `i`: color kept, position stepped,
/// velocity damped, forced, and then decremented by any stimulus (a pull
/// toward the stimulus target), evaluated at the new position.
pub open spec fn next_particle(
    s: Seq<Particle>,
    m: AttractionMatrix,
    prm: SimParams,
    stim: Option<Stimulus>,
    i: int,
) -> Particle {
    let v = damped_vel(s, m, prm, i);
    let np = moved_pos(s, m, prm, i);
    let v2 = match stim {
        Option::None => v,
        Option::Some(st) => {
            let dlt = stim_delta(st, np);
            (sat_sub(v.0, dlt.0), sat_sub(v.1, dlt.1))
        },
    };
    Particle { color: s[i].color, pos: np, vel: Vec2 { x: v2.0 as i64, y: v2.1 as i64 } }
}

/// The whole tick: every particle advanced independently from the same
/// snapshot.
pub open spec fn step_spec(
    s: Seq<Particle>,
    m: AttractionMatrix,
    prm: SimParams,
    stim: Option<Stimulus>,
) -> Seq<Particle> {
    Seq::new(s.len(), |i: int| next_particle(s, m, prm, stim, i))
}

/// The population after a whole sequence of ticks under a fixed matrix and
/// parameters, one stimulus option per tick.
pub open spec fn run_spec(
    s: Seq<Particle>,
    m: AttractionMatrix,
    prm: SimParams,
    stims: Seq<Option<Stimulus>>,
) -> Seq<Particle>
    decreases stims.len(),
{
    if stims.len() == 0 {
        s
    } else {
        run_spec(step_spec(s, m, prm, stims[0]), m, prm, stims.drop_first())
    }
}

/// `n`-fold application of the friction factor to a velocity component, in
/// truncating fixed point.
pub open spec fn decay_pow(v: int, fric: int, n: nat) -> int
    decreases n,
{
    if n == 0 {
        v
    } else {
        fp_mul(decay_pow(v, fric, (n - 1) as nat), fric)
    }
}

proof fn lemma_total_force_congruent(
    s: Seq<Particle>,
    m1: AttractionMatrix,
    m2: AttractionMatrix,
    prm: SimParams,
    i: int,
    upto: int,
)
    requires
        m1.n_colors == m2.n_colors,
        m1.entries@ == m2.entries@,
    ensures
        total_force(s, m1, prm, i, upto) == total_force(s, m2, prm, i, upto),
    decreases upto,
{
    if upto > 0 {
        lemma_total_force_congruent(s, m1, m2, prm, i, upto - 1);
    }
}

proof fn lemma_step_congruent(
    s: Seq<Particle>,
    m1: AttractionMatrix,
    m2: AttractionMatrix,
    prm: SimParams,
    stim: Option<Stimulus>,
)
    requires
        m1.n_colors == m2.n_colors,
        m1.entries@ == m2.entries@,
    ensures
        step_spec(s, m1, prm, stim) == step_spec(s, m2, prm, stim),
{
    assert forall|i: int| 0 <= i < s.len() implies next_particle(s, m1, prm, stim, i)
        == next_particle(s, m2, prm, stim, i) by {
        lemma_total_force_congruent(s, m1, m2, prm, i, s.len() as int);
    }
    assert(step_spec(s, m1, prm, stim) =~= step_spec(s, m2, prm, stim));
}

/// Determinism: a run is a function of the initial population, the matrix
/// table (its color count and coefficients — not the matrix value's
/// identity), the parameters, and the per-tick inputs, and of nothing else.
/// Two runs over equal such data produce equal populations, tick for tick.
pub proof fn lemma_run_deterministic(
    s1: Seq<Particle>,
    s2: Seq<Particle>,
    m1: AttractionMatrix,
    m2: AttractionMatrix,
    prm: SimParams,
    stims: Seq<Option<Stimulus>>,
)
    requires
        s1 == s2,
        m1.n_colors == m2.n_colors,
        m1.entries@ == m2.entries@,
    ensures
        run_spec(s1, m1, prm, stims) == run_spec(s2, m2, prm, stims),
    decreases stims.len(),
{
    if stims.len() > 0 {
        lemma_step_congruent(s1, m1, m2, prm, stims[0]);
        lemma_run_deterministic(
            step_spec(s1, m1, prm, stims[0]),
            step_spec(s2, m2, prm, stims[0]),
            m1,
            m2,
            prm,
            stims.drop_first(),
        );
    }
}

/// A tick leaves an isolated particle's velocity as exactly its old velocity
/// damped by the friction factor, and its color unchanged: with no neighbor
/// in interaction range and no stimulus, the force term vanishes.
pub proof fn lemma_isolated_particle_tick(
    s: Seq<Particle>,
    m: AttractionMatrix,
    prm: SimParams,
    i: int,
)
    requires
        inputs_ok(s, m, prm),
        0 <= i < s.len(),
        forall|j: int|
            0 <= j < s.len() && j != i ==> dist2(s[i].pos, (#[trigger] s[j]).pos)
                > prm.cutoff as int * prm.cutoff as int,
    ensures
        step_spec(s, m, prm, Option::None)[i].vel.x == fp_mul(
            s[i].vel.x as int,
            prm.friction as int,
        ),
        step_spec(s, m, prm, Option::None)[i].vel.y == fp_mul(
            s[i].vel.y as int,
            prm.friction as int,
        ),
        step_spec(s, m, prm, Option::None)[i].color == s[i].color,
{
    assert forall|j: int| 0 <= j < s.len() implies pair_term(s, m, prm, i, j) == (0int, 0int) by {
        if j != i {
            assert(dist2(s[i].pos, s[j].pos) > prm.cutoff as int * prm.cutoff as int);
        }
    }
    lemma_total_force_gap(s, m, prm, i, 0, s.len() as int);
    let fr = total_force(s, m, prm, i, s.len() as int);
    assert(fr == (0int, 0int));
    assert(0 * prm.cutoff as int == 0) by (nonlinear_arith);
    assert(tdiv(0, SCALE as int) == 0) by {
        assert(0int / SCALE as int == 0) by (nonlinear_arith)
            requires
                SCALE as int > 0,
        ;
    };
    assert(fp_mul(0, prm.cutoff as int) == 0);
    assert(0 * prm.dt as int == 0) by (nonlinear_arith);
    assert(fp_mul(0, prm.dt as int) == 0);
    let vx = fp_mul(s[i].vel.x as int, prm.friction as int);
    let vy = fp_mul(s[i].vel.y as int, prm.friction as int);
    assert(sat_add(vx, 0) == vx);
    assert(sat_add(vy, 0) == vy);
}

/// The friction decay commutes with one application of the factor: damping
/// first and then decaying `n - 1` times is decaying `n` times.
proof fn lemma_decay_shift(v: int, fric: int, n: nat)
    requires
        n >= 1,
    ensures
        decay_pow(v, fric, n) == decay_pow(fp_mul(v, fric), fric, (n - 1) as nat),
    decreases n,
{
    let w = fp_mul(v, fric);
    if n == 1 {
        assert(decay_pow(v, fric, 1) == fp_mul(decay_pow(v, fric, 0), fric));
        assert(decay_pow(w, fric, 0) == w);
    } else {
        lemma_decay_shift(v, fric, (n - 1) as nat);
        assert(decay_pow(v, fric, n) == fp_mul(decay_pow(v, fric, (n - 1) as nat), fric));
        assert(decay_pow(w, fric, (n - 1) as nat) == fp_mul(
            decay_pow(w, fric, (n - 2) as nat),
            fric,
        ));
    }
}

/// A single free particle under `n` stimulus-free ticks has velocity exactly
/// `decay_pow` of its initial velocity: the `n`-fold truncating fixed-point
/// product with the friction factor, the discrete form of
/// `velocity_0 * friction ^ n`.
pub proof fn lemma_single_free_particle(
    s: Seq<Particle>,
    m: AttractionMatrix,
    prm: SimParams,
    stims: Seq<Option<Stimulus>>,
)
    requires
        inputs_ok(s, m, prm),
        s.len() == 1,
        forall|t: int| 0 <= t < stims.len() ==> (#[trigger] stims[t]) is None,
    ensures
        run_spec(s, m, prm, stims).len() == 1,
        run_spec(s, m, prm, stims)[0].vel.x == decay_pow(
            s[0].vel.x as int,
            prm.friction as int,
            stims.len(),
        ),
        run_spec(s, m, prm, stims)[0].vel.y == decay_pow(
            s[0].vel.y as int,
            prm.friction as int,
            stims.len(),
        ),
    decreases stims.len(),
{
    if stims.len() == 0 {
    } else {
        assert(stims[0] is None);
        lemma_isolated_particle_tick(s, m, prm, 0);
        let s1 = step_spec(s, m, prm, Option::None);
        assert(s1.len() == 1);
        assert(colors_ok(s1, prm.n_colors as int)) by {
            assert(s1[0].color == s[0].color);
        };
        let v1x = fp_mul(s[0].vel.x as int, prm.friction as int);
        let v1y = fp_mul(s[0].vel.y as int, prm.friction as int);
        assert(s1[0].vel.x as int == v1x && s1[0].vel.y as int == v1y);
        lemma_single_free_particle(s1, m, prm, stims.drop_first());
        lemma_decay_shift(s[0].vel.x as int, prm.friction as int, stims.len());
        lemma_decay_shift(s[0].vel.y as int, prm.friction as int, stims.len());
        assert(stims[0] == Option::None::<Stimulus>);
        assert(run_spec(s, m, prm, stims) == run_spec(s1, m, prm, stims.drop_first()));
    }
}

/// Total force on particle `i`, accumulated from a neighbor list that meets
/// the spatial-index query contract for the interaction cutoff.
pub fn force_on(
    pop: &Population,
    q: &Vec<(i64, usize)>,
    mat: &AttractionMatrix,
    prm: &SimParams,
    i: usize,
) -> (fr: (i64, i64))
    requires
        inputs_ok(pop@, *mat, *prm),
        i < pop@.len(),
        query_good(positions(pop@), pop@[i as int].pos, prm.cutoff as int, q@),
    ensures
        fr.0 as int == total_force(pop@, *mat, *prm, i as int, pop@.len() as int).0,
        fr.1 as int == total_force(pop@, *mat, *prm, i as int, pop@.len() as int).1,
{
    let ghost s = pop@;
    let ghost ps = positions(pop@);
    let n: usize = pop.len();
    let me: Particle = pop.get(i);
    let mut fx: i64 = 0;
    let mut fy: i64 = 0;
    let ghost mut cur: int = 0;
    let mut k: usize = 0;
    proof {
        assert(total_force(s, *mat, *prm, i as int, 0) == (0int, 0int));
        assert(0 * SCALE as int == 0) by (nonlinear_arith);
    }
    while k < q.len()
        invariant
            inputs_ok(s, *mat, *prm),
            s == pop@,
            ps == positions(s),
            n == s.len(),
            i < n,
            me == s[i as int],
            query_good(ps, s[i as int].pos, prm.cutoff as int, q@),
            k <= q@.len(),
            0 <= cur <= n,
            forall|kk: int| k <= kk < q@.len() ==> cur <= (#[trigger] q@[kk]).1,
            forall|kk: int| 0 <= kk < k ==> (#[trigger] q@[kk]).1 < cur,
            fx as int == total_force(s, *mat, *prm, i as int, cur).0,
            fy as int == total_force(s, *mat, *prm, i as int, cur).1,
        decreases q@.len() - k,
    {
        let e: (i64, usize) = q[k];
        let dk: i64 = e.0;
        let j: usize = e.1;
        proof {
            assert(entry_ok(ps, s[i as int].pos, prm.cutoff as int, q@[k as int]));
            assert(ps[j as int] == s[j as int].pos);
            // every index of [cur, j) is missing from the rest of the list,
            // hence out of range, hence a vanishing pair term
            assert forall|t: int| cur <= t < j implies pair_term(s, *mat, *prm, i as int, t)
                == (0int, 0int) by {
                if exists|kk: int| 0 <= kk < q@.len() && (#[trigger] q@[kk]).1 == t {
                    let kk = choose|kk: int| 0 <= kk < q@.len() && (#[trigger] q@[kk]).1 == t;
                    if kk > k {
                        assert(q@[k as int].1 < q@[kk].1);
                    }
                    assert(false);
                }
                assert(!in_range(ps, s[i as int].pos, prm.cutoff as int, t));
                assert(ps[t] == s[t].pos);
            }
            lemma_total_force_gap(s, *mat, *prm, i as int, cur, j as int);
            lemma_total_force_bounded(s, *mat, *prm, i as int, j as int);
        }
        if j != i {
            let p2: Particle = pop.get(j);
            let d2: i128 = dist2_i128(me.pos, p2.pos);
            proof {
                assert((prm.cutoff as int) * (prm.cutoff as int)
                    <= 0x8000_0000_0000_0000int * 0x8000_0000_0000_0000int) by (nonlinear_arith)
                    requires
                        0 <= prm.cutoff as int <= 0x8000_0000_0000_0000int,
                ;
            }
            let r2: i128 = (prm.cutoff as i128) * (prm.cutoff as i128);
            if d2 != 0 {
                proof {
                    assert(in_range(ps, s[i as int].pos, prm.cutoff as int, j as int));
                    assert(d2 as int <= r2 as int);
                    crate::geom::lemma_unit_bounded(me.pos, p2.pos);
                    assert(0 <= (dk as int) * (SCALE as int)) by (nonlinear_arith)
                        requires
                            dk as int >= 0,
                    ;
                    assert(tdiv((dk as int) * (SCALE as int), prm.cutoff as int) >= 0)
                        by (nonlinear_arith)
                        requires
                            (dk as int) * (SCALE as int) >= 0,
                            prm.cutoff as int > 0,
                    ;
                }
                let r: i64 = mul_div_i64(dk, SCALE, prm.cutoff);
                let a: i64 = mat.lookup(me.color, p2.color);
                let f: i64 = force_law(r, a, prm.beta);
                let u: (i64, i64) = unit_toward_i64(me.pos, p2.pos, dk);
                let cx: i64 = mul_div_i64(u.0, f, SCALE);
                let cy: i64 = mul_div_i64(u.1, f, SCALE);
                proof {
                    lemma_mul_div_small(u.0 as int, f as int);
                    lemma_mul_div_small(u.1 as int, f as int);
                    lemma_total_force_bounded(s, *mat, *prm, i as int, j as int);
                    assert((j as int) * SCALE as int + SCALE as int <= (n as int) * SCALE as int)
                        by (nonlinear_arith)
                        requires
                            j as int + 1 <= n as int,
                            SCALE as int > 0,
                    ;
                    assert((n as int) * SCALE as int
                        <= 1_000_000_000int * 1_000_000int) by (nonlinear_arith)
                        requires
                            n as int <= 1_000_000_000int,
                            SCALE as int == 1_000_000int,
                    ;
                }
                fx = fx + cx;
                fy = fy + cy;
            }
        }
        proof {
            cur = j as int + 1;
        }
        k = k + 1;
    }
    proof {
        assert forall|t: int| cur <= t < n implies pair_term(s, *mat, *prm, i as int, t)
            == (0int, 0int) by {
            if exists|kk: int| 0 <= kk < q@.len() && (#[trigger] q@[kk]).1 == t {
                let kk = choose|kk: int| 0 <= kk < q@.len() && (#[trigger] q@[kk]).1 == t;
                assert(false);
            }
            assert(!in_range(ps, s[i as int].pos, prm.cutoff as int, t));
            assert(ps[t] == s[t].pos);
        }
        lemma_total_force_gap(s, *mat, *prm, i as int, cur, n as int);
    }
    (fx, fy)
}

/// One particle's total force, queried through an accelerated index built
/// over the same population.
pub fn force_at(
    pop: &Population,
    idx: &AxisIndex,
    mat: &AttractionMatrix,
    prm: &SimParams,
    i: usize,
) -> (fr: (i64, i64))
    requires
        inputs_ok(pop@, *mat, *prm),
        i < pop@.len(),
        idx.wf(),
        idx.src@ == positions(pop@),
    ensures
        fr.0 as int == total_force(pop@, *mat, *prm, i as int, pop@.len() as int).0,
        fr.1 as int == total_force(pop@, *mat, *prm, i as int, pop@.len() as int).1,
{
    let pi: Particle = pop.get(i);
    let q: Vec<(i64, usize)> = idx.query(pi.pos, prm.cutoff);
    force_on(pop, &q, mat, prm, i)
}

/// Relies on rayon: `into_par_iter().map(..).collect()` over an index range
/// applies the closure to every index and collects the results in index
/// order, so the output equals the sequential map of `force_at`. The force
/// evaluation reads only the immutable snapshot, index, matrix and
/// parameters, so the fan-out is race-free.
#[verifier::external_body]
fn par_force_pass(
    pop: &Population,
    idx: &AxisIndex,
    mat: &AttractionMatrix,
    prm: &SimParams,
) -> (r: Vec<(i64, i64)>)
    requires
        inputs_ok(pop@, *mat, *prm),
        idx.wf(),
        idx.src@ == positions(pop@),
    ensures
        r@.len() == pop@.len(),
        forall|t: int|
            0 <= t < r@.len() ==> (#[trigger] r@[t]).0 as int
                == total_force(pop@, *mat, *prm, t, pop@.len() as int).0
                && r@[t].1 as int == total_force(pop@, *mat, *prm, t, pop@.len() as int).1,
{
    (0..pop.particles.len()).into_par_iter().map(|i| force_at(pop, idx, mat, prm, i)).collect()
}

/// Advance the whole population one tick, evaluating forces in parallel
/// through the accelerated index. Returns exactly `step_spec` of the inputs.
pub fn step_parallel(
    pop: &Population,
    mat: &AttractionMatrix,
    prm: &SimParams,
    stim: Option<Stimulus>,
) -> (next: Population)
    requires
        inputs_ok(pop@, *mat, *prm),
    ensures
        next@ == step_spec(pop@, *mat, *prm, stim),
        next@.len() == pop@.len(),
        colors_ok(next@, prm.n_colors as int),
{
    let idx: AxisIndex = AxisIndex::build(&pop.particles);
    let forces: Vec<(i64, i64)> = par_force_pass(pop, &idx, mat, prm);
    integrate(pop, mat, prm, stim, &forces)
}

/// Advance the whole population one tick, using the brute-force index.
/// Returns exactly `step_spec` of the inputs.
pub fn step(
    pop: &Population,
    mat: &AttractionMatrix,
    prm: &SimParams,
    stim: Option<Stimulus>,
) -> (next: Population)
    requires
        inputs_ok(pop@, *mat, *prm),
    ensures
        next@ == step_spec(pop@, *mat, *prm, stim),
        next@.len() == pop@.len(),
        colors_ok(next@, prm.n_colors as int),
{
    let ghost s = pop@;
    let n: usize = pop.len();
    let idx: BruteIndex = BruteIndex::build(&pop.particles);
    let mut forces: Vec<(i64, i64)> = Vec::new();
    let mut i: usize = 0;
    while i < n
        invariant
            inputs_ok(s, *mat, *prm),
            s == pop@,
            n == s.len(),
            idx@ == positions(s),
            forces@.len() == i,
            i <= n,
            forall|t: int|
                0 <= t < i ==> (#[trigger] forces@[t]).0 as int
                    == total_force(s, *mat, *prm, t, s.len() as int).0
                    && forces@[t].1 as int == total_force(s, *mat, *prm, t, s.len() as int).1,
        decreases n - i,
    {
        let pi: Particle = pop.get(i);
        let q: Vec<(i64, usize)> = idx.query(pi.pos, prm.cutoff);
        let fr: (i64, i64) = force_on(pop, &q, mat, prm, i);
        forces.push(fr);
        i = i + 1;
    }
    integrate(pop, mat, prm, stim, &forces)
}

/// Damp, force and move every particle, given each particle's total force.
fn integrate(
    pop: &Population,
    mat: &AttractionMatrix,
    prm: &SimParams,
    stim: Option<Stimulus>,
    forces: &Vec<(i64, i64)>,
) -> (next: Population)
    requires
        inputs_ok(pop@, *mat, *prm),
        forces@.len() == pop@.len(),
        forall|t: int|
            0 <= t < forces@.len() ==> (#[trigger] forces@[t]).0 as int
                == total_force(pop@, *mat, *prm, t, pop@.len() as int).0
                && forces@[t].1 as int == total_force(pop@, *mat, *prm, t, pop@.len() as int).1,
    ensures
        next@ == step_spec(pop@, *mat, *prm, stim),
        next@.len() == pop@.len(),
        colors_ok(next@, prm.n_colors as int),
{
    let ghost s = pop@;
    let n: usize = pop.len();
    let mut out: Vec<Particle> = Vec::new();
    let mut t: usize = 0;
    while t < n
        invariant
            inputs_ok(s, *mat, *prm),
            s == pop@,
            n == s.len(),
            forces@.len() == n,
            forall|w: int|
                0 <= w < n ==> (#[trigger] forces@[w]).0 as int
                    == total_force(s, *mat, *prm, w, s.len() as int).0
                    && forces@[w].1 as int == total_force(s, *mat, *prm, w, s.len() as int).1,
            out@.len() == t,
            t <= n,
            forall|w: int| 0 <= w < t ==> out@[w] == next_particle(s, *mat, *prm, stim, w),
        decreases n - t,
    {
        let p: Particle = pop.get(t);
        let fr: (i64, i64) = forces[t];
        let fsx: i64 = mul_div_i64(fr.0, prm.cutoff, SCALE);
        let fsy: i64 = mul_div_i64(fr.1, prm.cutoff, SCALE);
        let v1x: i64 = sat_add_i64(
            mul_div_i64(p.vel.x, prm.friction, SCALE),
            mul_div_i64(fsx, prm.dt, SCALE),
        );
        let v1y: i64 = sat_add_i64(
            mul_div_i64(p.vel.y, prm.friction, SCALE),
            mul_div_i64(fsy, prm.dt, SCALE),
        );
        let np = Vec2 {
            x: sat_add_i64(p.pos.x, mul_div_i64(v1x, prm.dt, SCALE)),
            y: sat_add_i64(p.pos.y, mul_div_i64(v1y, prm.dt, SCALE)),
        };
        let (v2x, v2y): (i64, i64) = match stim {
            Option::None => (v1x, v1y),
            Option::Some(st) => {
                let ds: i128 = dist2_i128(st.target, np);
                if ds == 0 {
                    proof {
                        assert(stim_delta(st, np) == (0int, 0int));
                        assert(sat_sub(v1x as int, 0) == v1x as int);
                        assert(sat_sub(v1y as int, 0) == v1y as int);
                    }
                    (v1x, v1y)
                } else {
                    let dsf: i64 = dist_fp_i64(st.target, np);
                    let u: (i64, i64) = unit_toward_i64(st.target, np, dsf);
                    let dx: i64 = mul_div_i64(u.0, st.magnitude, SCALE);
                    let dy: i64 = mul_div_i64(u.1, st.magnitude, SCALE);
                    (sat_sub_i64(v1x, dx), sat_sub_i64(v1y, dy))
                }
            },
        };
        let newp = Particle { color: p.color, pos: np, vel: Vec2 { x: v2x, y: v2y } };
        proof {
            assert(newp == next_particle(s, *mat, *prm, stim, t as int));
        }
        out.push(newp);
        t = t + 1;
    }
    proof {
        assert(out@ =~= step_spec(s, *mat, *prm, stim));
    }
    Population { particles: out }
}

} // verus!
