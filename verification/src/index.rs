//! The spatial index contract, and its simplest implementation.
//!
//! An index is built fresh each tick from a snapshot of the population's
//! positions and answers radius queries: all particle indices within `radius`
//! of a point (inclusive), each exactly once, paired with its fixed-point
//! distance, sorted by particle index. Self-inclusion is allowed — the caller
//! filters by index, never by value.
//!
//! `query_good` is the whole contract; any two implementations that meet it
//! return the same index set for the same input (`lemma_strategies_agree`).

use vstd::prelude::*;
use crate::geom::{dist2, dist_fp, dist2_i128, dist_fp_i64, Vec2};
use crate::population::Particle;

verus! {

/// The positions of a particle sequence, in order.
pub open spec fn positions(s: Seq<Particle>) -> Seq<Vec2> {
    s.map_values(|p: Particle| p.pos)
}

/// Index `j` lies within `radius` of `p` (inclusive boundary), measured on
/// squared distances so no rounding intervenes.
pub open spec fn in_range(ps: Seq<Vec2>, p: Vec2, radius: int, j: int) -> bool {
    dist2(p, ps[j]) <= radius * radius
}

/// One query result entry is sound: a valid index, in range, with its exact
/// fixed-point distance from the query point.
pub open spec fn entry_ok(ps: Seq<Vec2>, p: Vec2, radius: int, e: (i64, usize)) -> bool {
    &&& (e.1 as int) < ps.len()
    &&& in_range(ps, p, radius, e.1 as int)
    &&& e.0 as int == dist_fp(p, ps[e.1 as int])
}

/// Every entry of the result is sound.
pub open spec fn entries_sound(ps: Seq<Vec2>, p: Vec2, radius: int, q: Seq<(i64, usize)>) -> bool {
    forall|k: int| 0 <= k < q.len() ==> entry_ok(ps, p, radius, #[trigger] q[k])
}

/// The result's particle indices are strictly increasing, so each index
/// appears at most once.
pub open spec fn indices_strict(q: Seq<(i64, usize)>) -> bool {
    forall|k1: int, k2: int|
        0 <= k1 < k2 < q.len() ==> (#[trigger] q[k1]).1 < (#[trigger] q[k2]).1
}

/// No particle index appears twice in the result.
pub open spec fn indices_distinct(q: Seq<(i64, usize)>) -> bool {
    forall|k1: int, k2: int|
        0 <= k1 < k2 < q.len() ==> (#[trigger] q[k1]).1 != (#[trigger] q[k2]).1
}

/// Every in-range particle index is present in the result.
pub open spec fn covers(ps: Seq<Vec2>, p: Vec2, radius: int, q: Seq<(i64, usize)>) -> bool {
    forall|j: int|
        0 <= j < ps.len() && in_range(ps, p, radius, j) ==> exists|k: int|
            0 <= k < q.len() && (#[trigger] q[k]).1 == j
}

/// The full query contract: every entry sound, entries strictly increasing by
/// particle index (so each index at most once), and every in-range index
/// present.
pub open spec fn query_good(ps: Seq<Vec2>, p: Vec2, radius: int, q: Seq<(i64, usize)>) -> bool {
    &&& entries_sound(ps, p, radius, q)
    &&& indices_strict(q)
    &&& covers(ps, p, radius, q)
}

/// The set of particle indices a query result names.
pub open spec fn result_indices(q: Seq<(i64, usize)>) -> Set<int> {
    Set::new(|j: int| exists|k: int| 0 <= k < q.len() && (#[trigger] q[k]).1 == j)
}

/// Any two implementations of the query contract return identical neighbor
/// index sets (as unordered sets) for the same positions, point and radius.
pub proof fn lemma_strategies_agree(
    ps: Seq<Vec2>,
    p: Vec2,
    radius: int,
    q1: Seq<(i64, usize)>,
    q2: Seq<(i64, usize)>,
)
    requires
        query_good(ps, p, radius, q1),
        query_good(ps, p, radius, q2),
    ensures
        result_indices(q1) == result_indices(q2),
{
    let target = Set::new(|j: int| 0 <= j < ps.len() && in_range(ps, p, radius, j));
    assert forall|j: int| result_indices(q1).contains(j) <==> target.contains(j) by {
        if result_indices(q1).contains(j) {
            let k = choose|k: int| 0 <= k < q1.len() && (#[trigger] q1[k]).1 == j;
            assert(entry_ok(ps, p, radius, q1[k]));
        }
    }
    assert forall|j: int| result_indices(q2).contains(j) <==> target.contains(j) by {
        if result_indices(q2).contains(j) {
            let k = choose|k: int| 0 <= k < q2.len() && (#[trigger] q2[k]).1 == j;
            assert(entry_ok(ps, p, radius, q2[k]));
        }
    }
    assert(result_indices(q1) =~= result_indices(q2));
}

proof fn lemma_query_prefix(
    ps: Seq<Vec2>,
    p: Vec2,
    radius: int,
    q1: Seq<(i64, usize)>,
    q2: Seq<(i64, usize)>,
    k: int,
)
    requires
        query_good(ps, p, radius, q1),
        query_good(ps, p, radius, q2),
        0 <= k < q1.len(),
        k < q2.len(),
    ensures
        forall|c: int| 0 <= c <= k ==> q1[c] == q2[c],
    decreases k,
{
    if k > 0 {
        lemma_query_prefix(ps, p, radius, q1, q2, k - 1);
    }
    let j1 = q1[k].1 as int;
    let j2 = q2[k].1 as int;
    assert(entry_ok(ps, p, radius, q1[k]));
    assert(entry_ok(ps, p, radius, q2[k]));
    if j1 < j2 {
        assert(in_range(ps, p, radius, j1));
        let c = choose|c: int| 0 <= c < q2.len() && (#[trigger] q2[c]).1 == j1;
        if c > k {
            assert(q2[k].1 < q2[c].1);
        }
        assert(c < k);
        assert(q1[c] == q2[c]);
        assert(q1[c].1 < q1[k].1);
        assert(false);
    } else if j2 < j1 {
        assert(in_range(ps, p, radius, j2));
        let c = choose|c: int| 0 <= c < q1.len() && (#[trigger] q1[c]).1 == j2;
        if c > k {
            assert(q1[k].1 < q1[c].1);
        }
        assert(c < k);
        assert(q1[c] == q2[c]);
        assert(q2[c].1 < q2[k].1);
        assert(false);
    }
    assert(q1[k].0 as int == dist_fp(p, ps[j1]));
    assert(q2[k].0 as int == dist_fp(p, ps[j1]));
    assert(q1[k] == q2[k]);
}

/// Stronger than set agreement: the query contract pins the whole result, so
/// any two implementations return the very same sequence of
/// (distance, index) pairs.
pub proof fn lemma_query_unique(
    ps: Seq<Vec2>,
    p: Vec2,
    radius: int,
    q1: Seq<(i64, usize)>,
    q2: Seq<(i64, usize)>,
)
    requires
        query_good(ps, p, radius, q1),
        query_good(ps, p, radius, q2),
    ensures
        q1 == q2,
{
    if q1.len() < q2.len() {
        let k = q1.len() as int;
        assert(entry_ok(ps, p, radius, q2[k]));
        let j = q2[k].1 as int;
        assert(in_range(ps, p, radius, j));
        let c = choose|c: int| 0 <= c < q1.len() && (#[trigger] q1[c]).1 == j;
        if k > 0 {
            lemma_query_prefix(ps, p, radius, q1, q2, k - 1);
        }
        assert(q1[c] == q2[c]);
        assert(q2[c].1 < q2[k].1);
        assert(false);
    } else if q2.len() < q1.len() {
        let k = q2.len() as int;
        assert(entry_ok(ps, p, radius, q1[k]));
        let j = q1[k].1 as int;
        assert(in_range(ps, p, radius, j));
        let c = choose|c: int| 0 <= c < q2.len() && (#[trigger] q2[c]).1 == j;
        if k > 0 {
            lemma_query_prefix(ps, p, radius, q2, q1, k - 1);
        }
        assert(q1[c] == q2[c]);
        assert(q1[c].1 < q1[k].1);
        assert(false);
    }
    if q1.len() > 0 {
        lemma_query_prefix(ps, p, radius, q1, q2, q1.len() - 1);
    }
    assert(q1 =~= q2);
}

/// The brute-force strategy: a plain snapshot of the positions; every query
/// scans them all. Exact and adequate for populations up to a few thousand.
pub struct BruteIndex {
    pub snapshot: Vec<Vec2>,
}

impl View for BruteIndex {
    type V = Seq<Vec2>;

    open spec fn view(&self) -> Seq<Vec2> {
        self.snapshot@
    }
}

impl BruteIndex {
    /// Snapshot the positions of a particle sequence.
    pub fn build(particles: &Vec<Particle>) -> (idx: BruteIndex)
        ensures
            idx@ == positions(particles@),
    {
        let mut snapshot: Vec<Vec2> = Vec::new();
        let n: usize = particles.len();
        let mut i: usize = 0;
        while i < n
            invariant
                i <= n,
                n == particles@.len(),
                snapshot@.len() == i,
                forall|t: int| 0 <= t < i ==> snapshot@[t] == (#[trigger] particles@[t]).pos,
            decreases n - i,
        {
            snapshot.push(particles[i].pos);
            i = i + 1;
        }
        proof {
            assert(snapshot@ =~= positions(particles@));
        }
        BruteIndex { snapshot }
    }

    /// All indices within `radius` of `p`, by full scan.
    pub fn query(&self, p: Vec2, radius: i64) -> (q: Vec<(i64, usize)>)
        requires
            radius >= 0,
        ensures
            query_good(self@, p, radius as int, q@),
    {
        let mut q: Vec<(i64, usize)> = Vec::new();
        let n: usize = self.snapshot.len();
        let mut j: usize = 0;
        while j < n
            invariant
                j <= n,
                n == self@.len(),
                radius >= 0,
                forall|k: int| 0 <= k < q@.len() ==> entry_ok(self@, p, radius as int, #[trigger] q@[k]),
                forall|k: int| 0 <= k < q@.len() ==> (#[trigger] q@[k]).1 < j,
                forall|k1: int, k2: int|
                    0 <= k1 < k2 < q@.len() ==> (#[trigger] q@[k1]).1 < (#[trigger] q@[k2]).1,
                forall|t: int|
                    0 <= t < j && in_range(self@, p, radius as int, t) ==> exists|k: int|
                        0 <= k < q@.len() && (#[trigger] q@[k]).1 == t,
            decreases n - j,
        {
            let ghost pre = q@;
            let d2: i128 = dist2_i128(p, self.snapshot[j]);
            proof {
                assert((radius as int) * (radius as int)
                    <= 0x8000_0000_0000_0000int * 0x8000_0000_0000_0000int) by (nonlinear_arith)
                    requires
                        0 <= radius as int <= 0x8000_0000_0000_0000int,
                ;
            }
            let r2: i128 = (radius as i128) * (radius as i128);
            if d2 <= r2 {
                let d: i64 = dist_fp_i64(p, self.snapshot[j]);
                q.push((d, j));
                proof {
                    assert(q@ == pre.push((d, j)));
                    assert(q@[pre.len() as int].1 == j);
                    assert(entry_ok(self@, p, radius as int, (d, j)));
                }
            }
            proof {
                assert forall|t: int|
                    0 <= t <= j && in_range(self@, p, radius as int, t) implies exists|k: int|
                    0 <= k < q@.len() && (#[trigger] q@[k]).1 == t by {
                    if t < j {
                        let k0 = choose|k: int| 0 <= k < pre.len() && (#[trigger] pre[k]).1 == t;
                        assert(q@[k0].1 == t);
                    } else {
                        assert(dist2(p, self@[t]) == d2 as int);
                        assert(q@[pre.len() as int].1 == t);
                    }
                }
            }
            j = j + 1;
        }
        q
    }
}

} // verus!
