//! The accelerated spatial-index strategy: a balanced binary partition of the
//! particles along the x axis (entries kept sorted by x, searched by
//! bisection). A query bisects to the left edge of the x window, walks only
//! the entries whose x lies within the radius, and so touches O(log n + w)
//! entries where w is the window size.
//!
//! Meets exactly the same `query_good` contract as the brute-force strategy;
//! `lemma_strategies_agree` in `index` says the two return identical sets.

use vstd::prelude::*;
use crate::geom::{dist2, dist2_i128, dist_fp_i64, Vec2};
use crate::index::{covers, entries_sound, entry_ok, in_range, indices_distinct, positions,
    query_good};
use crate::population::Particle;

verus! {

/// One indexed position: a particle's position and its index in the
/// population it was built from.
#[derive(Clone, Copy, PartialEq, Eq, Structural, Debug)]
pub struct AxisEntry {
    pub pos: Vec2,
    pub idx: usize,
}

/// Some entry carries particle index `j`.
pub open spec fn has_idx(es: Seq<AxisEntry>, j: int) -> bool {
    exists|k: int| 0 <= k < es.len() && ((#[trigger] es[k]).idx as int) == j
}

/// Entries in nondecreasing order of x coordinate.
pub open spec fn sorted_by_x(es: Seq<AxisEntry>) -> bool {
    forall|k1: int, k2: int|
        0 <= k1 < k2 < es.len() ==> (#[trigger] es[k1]).pos.x <= (#[trigger] es[k2]).pos.x
}

/// The x-sorted index. `src` records (in ghost) the position sequence the
/// index was built from, so the query contract can speak of it.
pub struct AxisIndex {
    pub entries: Vec<AxisEntry>,
    pub src: Ghost<Seq<Vec2>>,
}

impl AxisIndex {
    /// Well-formed: a permutation of the source positions paired with their
    /// indices, sorted by x.
    pub open spec fn wf(self) -> bool {
        let es = self.entries@;
        let ps = self.src@;
        &&& es.len() == ps.len()
        &&& forall|k: int|
            0 <= k < es.len() ==> ((#[trigger] es[k]).idx as int) < ps.len() && es[k].pos
                == ps[es[k].idx as int]
        &&& forall|j: int| 0 <= j < ps.len() ==> #[trigger] has_idx(es, j)
        &&& forall|k1: int, k2: int|
            0 <= k1 < k2 < es.len() ==> (#[trigger] es[k1]).idx != (#[trigger] es[k2]).idx
        &&& sorted_by_x(es)
    }

    /// Build the index over the positions of a particle sequence, inserting
    /// each entry at its bisected place in x order.
    pub fn build(particles: &Vec<Particle>) -> (idx: AxisIndex)
        ensures
            idx.wf(),
            idx.src@ == positions(particles@),
    {
        let n: usize = particles.len();
        let mut entries: Vec<AxisEntry> = Vec::new();
        let mut j: usize = 0;
        while j < n
            invariant
                j <= n,
                n == particles@.len(),
                entries@.len() == j,
                forall|k: int|
                    0 <= k < j ==> ((#[trigger] entries@[k]).idx as int) < j && entries@[k].pos
                        == (particles@[entries@[k].idx as int]).pos,
                forall|t: int| 0 <= t < j ==> #[trigger] has_idx(entries@, t),
                forall|k1: int, k2: int|
                    0 <= k1 < k2 < j ==> (#[trigger] entries@[k1]).idx
                        != (#[trigger] entries@[k2]).idx,
                sorted_by_x(entries@),
            decreases n - j,
        {
            let p: Particle = particles[j];
            let x: i64 = p.pos.x;
            let mut lo: usize = 0;
            let mut hi: usize = entries.len();
            while lo < hi
                invariant
                    lo <= hi <= entries@.len(),
                    forall|k: int| 0 <= k < lo ==> (#[trigger] entries@[k]).pos.x <= x,
                    forall|k: int|
                        hi <= k < entries@.len() ==> (#[trigger] entries@[k]).pos.x > x,
                    sorted_by_x(entries@),
                decreases hi - lo,
            {
                let mid: usize = lo + (hi - lo) / 2;
                if entries[mid].pos.x <= x {
                    proof {
                        assert forall|k: int| 0 <= k < mid + 1 implies (#[trigger] entries@[k]).pos.x
                            <= x by {
                            if k < mid {
                                assert(entries@[k].pos.x <= entries@[mid as int].pos.x);
                            }
                        }
                    }
                    lo = mid + 1;
                } else {
                    proof {
                        assert forall|k: int| mid <= k < entries@.len() implies (#[trigger] entries@[k]).pos.x
                            > x by {
                            if k > mid {
                                assert(entries@[mid as int].pos.x <= entries@[k].pos.x);
                            }
                        }
                    }
                    hi = mid;
                }
            }
            let ghost pre = entries@;
            let e = AxisEntry { pos: p.pos, idx: j };
            entries.insert(lo, e);
            proof {
                pre.insert_ensures(lo as int, e);
                assert(entries@ == pre.insert(lo as int, e));
                assert forall|k: int| lo < k < entries@.len() implies entries@[k] == pre[k - 1] by {
                    assert(pre.insert(lo as int, e)[(k - 1) + 1] == pre[k - 1]);
                }
                assert(entries@[lo as int] == e);
                // x order is kept: everything left of the slot is <= x,
                // everything right of it was > x
                assert forall|k1: int, k2: int| 0 <= k1 < k2 < entries@.len() implies
                    (#[trigger] entries@[k1]).pos.x <= (#[trigger] entries@[k2]).pos.x by {
                    if k1 < lo && k2 == lo {
                        assert(entries@[k1] == pre[k1]);
                    } else if k1 == lo && k2 > lo {
                        assert(entries@[k2] == pre[k2 - 1]);
                        assert(pre[k2 - 1].pos.x > x);
                    }
                }
                // the fresh index j was nowhere before
                assert forall|t: int| 0 <= t < j + 1 implies #[trigger] has_idx(entries@, t) by {
                    if t == j {
                        assert(entries@[lo as int].idx as int == t);
                    } else {
                        assert(has_idx(pre, t));
                        let k0 = choose|k: int|
                            0 <= k < pre.len() && ((#[trigger] pre[k]).idx as int) == t;
                        if k0 < lo {
                            assert(entries@[k0].idx as int == t);
                        } else {
                            assert(entries@[k0 + 1] == pre[k0]);
                            assert(entries@[k0 + 1].idx as int == t);
                        }
                    }
                }
                assert forall|k1: int, k2: int| 0 <= k1 < k2 < entries@.len() implies
                    (#[trigger] entries@[k1]).idx != (#[trigger] entries@[k2]).idx by {
                    if k2 < lo {
                    } else if k1 < lo && k2 == lo {
                        assert(entries@[k1] == pre[k1] && pre[k1].idx < j);
                    } else if k1 < lo && k2 > lo {
                        assert(entries@[k2] == pre[k2 - 1]);
                    } else if k1 == lo {
                        assert(entries@[k2] == pre[k2 - 1] && pre[k2 - 1].idx < j);
                    } else {
                        assert(entries@[k1] == pre[k1 - 1] && entries@[k2] == pre[k2 - 1]);
                    }
                }
            }
            j = j + 1;
        }
        proof {
            assert forall|k: int| 0 <= k < entries@.len() implies
                ((#[trigger] entries@[k]).idx as int) < positions(particles@).len()
                && entries@[k].pos == positions(particles@)[entries@[k].idx as int] by {
                assert(positions(particles@)[entries@[k].idx as int]
                    == particles@[entries@[k].idx as int].pos);
            }
        }
        AxisIndex { entries, src: Ghost(positions(particles@)) }
    }

    /// All indices within `radius` of `p`: bisect to the left edge of the x
    /// window, walk the window, then order the hits by particle index.
    #[verifier::rlimit(100)]
    pub fn query(&self, p: Vec2, radius: i64) -> (q: Vec<(i64, usize)>)
        requires
            self.wf(),
            0 <= radius < i64::MAX,
        ensures
            query_good(self.src@, p, radius as int, q@),
    {
        let ghost ps = self.src@;
        let ghost es = self.entries@;
        let n: usize = self.entries.len();
        let xmin: i128 = p.x as i128 - radius as i128;
        let xmax: i128 = p.x as i128 + radius as i128;
        let mut lo: usize = 0;
        let mut hi: usize = n;
        while lo < hi
            invariant
                lo <= hi <= n,
                n == es.len(),
                es == self.entries@,
                forall|k: int| 0 <= k < lo ==> ((#[trigger] es[k]).pos.x as i128) < xmin,
                forall|k: int| hi <= k < n ==> ((#[trigger] es[k]).pos.x as i128) >= xmin,
                sorted_by_x(es),
            decreases hi - lo,
        {
            let mid: usize = lo + (hi - lo) / 2;
            if (self.entries[mid].pos.x as i128) < xmin {
                proof {
                    assert forall|k: int| 0 <= k < mid + 1 implies ((#[trigger] es[k]).pos.x as i128)
                        < xmin by {
                        if k < mid {
                            assert(es[k].pos.x <= es[mid as int].pos.x);
                        }
                    }
                }
                lo = mid + 1;
            } else {
                proof {
                    assert forall|k: int| mid <= k < n implies ((#[trigger] es[k]).pos.x as i128)
                        >= xmin by {
                        if k > mid {
                            assert(es[mid as int].pos.x <= es[k].pos.x);
                        }
                    }
                }
                hi = mid;
            }
        }
        let start: usize = lo;
        let mut cand: Vec<(i64, usize)> = Vec::new();
        let mut k: usize = start;
        while k < n && (self.entries[k].pos.x as i128) <= xmax
            invariant
                start <= k <= n,
                n == es.len(),
                es == self.entries@,
                ps == self.src@,
                self.wf(),
                0 <= radius < i64::MAX,
                xmin == p.x as i128 - radius as i128,
                xmax == p.x as i128 + radius as i128,
                forall|t: int| 0 <= t < start ==> ((#[trigger] es[t]).pos.x as i128) < xmin,
                entries_sound(ps, p, radius as int, cand@),
                indices_distinct(cand@),
                forall|c: int|
                    0 <= c < cand@.len() ==> exists|t: int|
                        start <= t < k && ((#[trigger] cand@[c]).1 as int) == es[t].idx as int,
                forall|t: int|
                    start <= t < k && in_range(ps, p, radius as int, (#[trigger] es[t]).idx as int)
                        ==> exists|c: int|
                        0 <= c < cand@.len() && ((#[trigger] cand@[c]).1 as int) == es[t].idx
                            as int,
            decreases n - k,
        {
            let e: AxisEntry = self.entries[k];
            let d2: i128 = dist2_i128(p, e.pos);
            proof {
                assert((radius as int) * (radius as int)
                    <= 0x8000_0000_0000_0000int * 0x8000_0000_0000_0000int) by (nonlinear_arith)
                    requires
                        0 <= radius as int <= 0x8000_0000_0000_0000int,
                ;
                assert(es[k as int].pos == ps[es[k as int].idx as int]);
            }
            let r2: i128 = (radius as i128) * (radius as i128);
            let ghost pre = cand@;
            if d2 <= r2 {
                let d: i64 = dist_fp_i64(p, e.pos);
                proof {
                    if exists|c: int|
                        0 <= c < pre.len() && ((#[trigger] pre[c]).1 as int) == es[k as int].idx
                            as int {
                        let c0 = choose|c: int|
                            0 <= c < pre.len() && ((#[trigger] pre[c]).1 as int) == es[k as int].idx
                                as int;
                        let t0 = choose|t: int|
                            start <= t < k && ((#[trigger] pre[c0]).1 as int) == es[t].idx as int;
                        assert(es[t0].idx != es[k as int].idx);
                        assert(false);
                    }
                }
                cand.push((d, e.idx));
                proof {
                    assert(cand@ == pre.push((d, e.idx)));
                    assert(entry_ok(ps, p, radius as int, (d, e.idx)));
                }
            }
            proof {
                assert forall|t: int|
                    start <= t < k + 1 && in_range(ps, p, radius as int,
                        (#[trigger] es[t]).idx as int) implies exists|c: int|
                    0 <= c < cand@.len() && ((#[trigger] cand@[c]).1 as int) == es[t].idx as int by {
                    if t < k {
                        let c0 = choose|c: int|
                            0 <= c < pre.len() && ((#[trigger] pre[c]).1 as int) == es[t].idx
                                as int;
                        assert(cand@[c0].1 as int == es[t].idx as int);
                    } else {
                        assert(ps[es[t].idx as int] == es[t].pos);
                        assert(dist2(p, es[t].pos) <= (radius as int) * (radius as int));
                        assert(cand@[cand@.len() - 1].1 as int == es[t].idx as int);
                    }
                }
                assert forall|c: int| 0 <= c < cand@.len() implies exists|t: int|
                    start <= t < k + 1 && ((#[trigger] cand@[c]).1 as int) == es[t].idx as int by {
                    if c < pre.len() {
                        let t0 = choose|t: int|
                            start <= t < k && ((#[trigger] pre[c]).1 as int) == es[t].idx as int;
                        assert(cand@[c] == pre[c]);
                        assert(((cand@[c]).1 as int) == es[t0].idx as int);
                    } else {
                        assert(((cand@[c]).1 as int) == es[k as int].idx as int);
                    }
                }
            }
            k = k + 1;
        }
        proof {
            // every in-range particle has its entry inside the walked window
            assert forall|j: int| 0 <= j < ps.len() && in_range(ps, p, radius as int, j)
                implies exists|c: int|
                0 <= c < cand@.len() && ((#[trigger] cand@[c]).1 as int) == j by {
                assert(has_idx(es, j));
                let kj = choose|t: int|
                    0 <= t < es.len() && ((#[trigger] es[t]).idx as int) == j;
                assert(es[kj].pos == ps[j]);
                lemma_window(p, ps[j], radius as int);
                assert((es[kj].pos.x as i128) >= xmin && (es[kj].pos.x as i128) <= xmax);
                assert(kj >= start);
                if kj >= k {
                    assert(k < n);
                    if kj > k {
                        assert(es[k as int].pos.x <= es[kj].pos.x);
                    }
                    assert(false);
                }
                assert(in_range(ps, p, radius as int, es[kj].idx as int));
                let c0 = choose|c: int|
                    0 <= c < cand@.len() && ((#[trigger] cand@[c]).1 as int) == es[kj].idx as int;
                assert(cand@[c0].1 as int == j);
            }
        }
        let mut q: Vec<(i64, usize)> = cand;
        sort_by_particle(&mut q, Ghost(ps), Ghost(p), Ghost(radius as int));
        q
    }
}

/// A position within interaction range has its x coordinate within the exact
/// x window of the query point (the clamped difference cannot have clamped,
/// because the radius is below the clamp bound).
proof fn lemma_window(p: Vec2, w: Vec2, radius: int)
    requires
        0 <= radius < i64::MAX as int,
        dist2(p, w) <= radius * radius,
    ensures
        p.x - radius <= w.x <= p.x + radius,
{
    let (dx, dy) = crate::geom::delta(p, w);
    assert(dy * dy >= 0) by (nonlinear_arith);
    assert(dx * dx <= radius * radius);
    assert(crate::fixed::absi(dx) <= radius) by (nonlinear_arith)
        requires
            dx * dx <= radius * radius,
            radius >= 0,
    ;
}

/// Insertion sort of a query candidate list by particle index: keeps exactly
/// the same entries (so soundness, distinctness and coverage carry over) and
/// leaves the indices strictly increasing.
fn sort_by_particle(
    q: &mut Vec<(i64, usize)>,
    Ghost(ps): Ghost<Seq<Vec2>>,
    Ghost(p): Ghost<Vec2>,
    Ghost(radius): Ghost<int>,
)
    requires
        entries_sound(ps, p, radius, old(q)@),
        indices_distinct(old(q)@),
        covers(ps, p, radius, old(q)@),
    ensures
        query_good(ps, p, radius, final(q)@),
{
    let n: usize = q.len();
    let mut i: usize = 1;
    while i < n && n > 1
        invariant
            1 <= i <= n || n <= 1,
            n == q@.len(),
            entries_sound(ps, p, radius, q@),
            indices_distinct(q@),
            covers(ps, p, radius, q@),
            forall|a: int, b: int| 0 <= a < b < i ==> ((#[trigger] q@[a]).1) <= ((#[trigger] q@[b]).1),
        decreases n - i,
    {
        let mut w: usize = i;
        while w > 0 && q[w - 1].1 > q[w].1
            invariant
                0 <= w <= i < n,
                n == q@.len(),
                entries_sound(ps, p, radius, q@),
                indices_distinct(q@),
                covers(ps, p, radius, q@),
                forall|a: int, b: int|
                    0 <= a < b <= i && b != w ==> ((#[trigger] q@[a]).1) <= ((#[trigger] q@[b]).1),
            decreases w,
        {
            let ghost pre = q@;
            let ea: (i64, usize) = q[w - 1];
            let eb: (i64, usize) = q[w];
            q.set(w - 1, eb);
            q.set(w, ea);
            proof {
                assert(q@ == pre.update(w - 1, eb).update(w as int, ea));
                assert(q@[w - 1] == eb && q@[w as int] == ea);
                assert(forall|c: int| 0 <= c < n && c != w - 1 && c != w ==> q@[c] == pre[c]);
                assert forall|j: int| 0 <= j < ps.len() && in_range(ps, p, radius, j)
                    implies exists|c: int|
                    0 <= c < q@.len() && ((#[trigger] q@[c]).1 as int) == j by {
                    let c0 = choose|c: int|
                        0 <= c < pre.len() && ((#[trigger] pre[c]).1 as int) == j;
                    if c0 == w - 1 {
                        assert(q@[w as int].1 as int == j);
                    } else if c0 == w {
                        assert(q@[w - 1].1 as int == j);
                    } else {
                        assert(q@[c0].1 as int == j);
                    }
                }
            }
            w = w - 1;
        }
        proof {
            assert forall|a: int, b: int| 0 <= a < b <= i implies ((#[trigger] q@[a]).1)
                <= ((#[trigger] q@[b]).1) by {
                if b == w && w > 0 {
                    assert(q@[w - 1].1 <= q@[w as int].1);
                    if a < w - 1 {
                        assert(q@[a].1 <= q@[w - 1].1);
                    }
                }
            }
        }
        i = i + 1;
    }
    proof {
        assert forall|k1: int, k2: int| 0 <= k1 < k2 < q@.len() implies ((#[trigger] q@[k1]).1)
            < ((#[trigger] q@[k2]).1) by {
            if n > 1 {
                assert(q@[k1].1 <= q@[k2].1);
            }
        }
    }
}

} // verus!
