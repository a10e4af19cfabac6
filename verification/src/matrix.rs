//! The attraction matrix: a square table of fixed-point coefficients in
//! `[-SCALE, SCALE)`, one entry per ordered color pair, stored row-major.
//! Entry `(i, j)` is the force multiplier felt by a particle of color `i`
//! due to a particle of color `j`; the table need not be symmetric.

use vstd::prelude::*;
use crate::fixed::SCALE;
use crate::rng::rand_i64;

verus! {

/// Most colors a matrix (and so an engine) will ever be built with.
pub const MAX_COLORS: usize = 4096;

pub struct AttractionMatrix {
    pub n_colors: usize,
    pub entries: Vec<i64>,
}

impl AttractionMatrix {
    /// A square table with every coefficient uniform in `[-SCALE, SCALE)`.
    pub open spec fn wf(self) -> bool {
        &&& 0 < self.n_colors <= MAX_COLORS
        &&& self.entries@.len() == self.n_colors * self.n_colors
        &&& forall|k: int|
            0 <= k < self.entries@.len() ==> -(SCALE as int) <= #[trigger] self.entries@[k]
                < SCALE as int
    }

    /// The coefficient for the ordered color pair `(i, j)`, row-major.
    pub open spec fn coeff(self, i: int, j: int) -> int {
        self.entries@[i * self.n_colors + j] as int
    }

    proof fn lemma_slot(self, i: int, j: int)
        requires
            self.wf(),
            0 <= i < self.n_colors,
            0 <= j < self.n_colors,
        ensures
            0 <= i * self.n_colors,
            i * self.n_colors + j < self.n_colors * self.n_colors,
    {
        let n = self.n_colors as int;
        assert(0 <= i * n && i * n + j < n * n) by (nonlinear_arith)
            requires
                0 <= i <= n - 1,
                0 <= j < n,
                n > 0,
        ;
    }

    /// Row-major lookup of the coefficient felt by color `i` due to color `j`.
    pub fn lookup(&self, i: usize, j: usize) -> (a: i64)
        requires
            self.wf(),
            i < self.n_colors,
            j < self.n_colors,
        ensures
            a as int == self.coeff(i as int, j as int),
            -SCALE <= a < SCALE,
    {
        let len: usize = self.entries.len();
        proof {
            self.lemma_slot(i as int, j as int);
            assert(i as int * self.n_colors as int + j < len as int);
        }
        self.entries[i * self.n_colors + j]
    }

    /// A fresh matrix with `n_colors * n_colors` coefficients drawn from the
    /// generator, each uniform in `[-SCALE, SCALE)`.
    pub fn generate(n_colors: usize, rng: &mut rand_chacha::ChaCha8Rng) -> (m: AttractionMatrix)
        requires
            0 < n_colors <= MAX_COLORS,
        ensures
            m.wf(),
            m.n_colors == n_colors,
    {
        proof {
            assert(n_colors * n_colors <= MAX_COLORS * MAX_COLORS) by (nonlinear_arith)
                requires
                    0 < n_colors <= MAX_COLORS,
            ;
        }
        let total: usize = n_colors * n_colors;
        let mut entries: Vec<i64> = Vec::new();
        let mut k: usize = 0;
        while k < total
            invariant
                k <= total,
                entries@.len() == k,
                forall|q: int|
                    0 <= q < k ==> -(SCALE as int) <= #[trigger] entries@[q] < SCALE as int,
            decreases total - k,
        {
            let c: i64 = rand_i64(rng, -SCALE, SCALE);
            entries.push(c);
            k = k + 1;
        }
        AttractionMatrix { n_colors, entries }
    }
}

} // verus!
