//! The population: an ordered, index-addressable sequence of particles, the
//! unit of state carried between ticks. A particle's identity for a tick is
//! its index in this sequence, never its value: two particles may coincide in
//! color, position and velocity.

use vstd::prelude::*;
use crate::geom::Vec2;
use crate::rng::{rand_below, rand_i64};

verus! {

/// A colored point particle: a color index, and fixed-point position and
/// velocity vectors.
#[derive(Clone, Copy, PartialEq, Eq, Structural, Debug)]
pub struct Particle {
    pub color: usize,
    pub pos: Vec2,
    pub vel: Vec2,
}

/// An ordered sequence of particles of fixed length.
pub struct Population {
    pub particles: Vec<Particle>,
}

impl View for Population {
    type V = Seq<Particle>;

    open spec fn view(&self) -> Seq<Particle> {
        self.particles@
    }
}

/// Every color of the sequence lies below the given color count.
pub open spec fn colors_ok(s: Seq<Particle>, n_colors: int) -> bool {
    forall|i: int| 0 <= i < s.len() ==> (#[trigger] s[i]).color < n_colors
}

impl Population {
    /// Number of particles; fixed for the engine's lifetime.
    pub fn len(&self) -> (n: usize)
        ensures
            n == self@.len(),
    {
        self.particles.len()
    }

    /// The particle at index `i`.
    pub fn get(&self, i: usize) -> (p: Particle)
        requires
            i < self@.len(),
        ensures
            p == self@[i as int],
    {
        self.particles[i]
    }

    /// A fresh population: `count` particles with colors drawn below
    /// `n_colors`, positions uniform in the centered box of half-extent
    /// `half_w` by `half_h`, and zero velocity.
    pub fn generate(
        count: usize,
        n_colors: usize,
        half_w: i64,
        half_h: i64,
        rng: &mut rand_chacha::ChaCha8Rng,
    ) -> (pop: Population)
        requires
            n_colors > 0,
            half_w > 0,
            half_h > 0,
        ensures
            pop@.len() == count,
            colors_ok(pop@, n_colors as int),
            forall|i: int|
                0 <= i < count ==> (#[trigger] pop@[i]).vel == (Vec2 { x: 0i64, y: 0i64 }),
            forall|i: int|
                0 <= i < count ==> -half_w <= (#[trigger] pop@[i]).pos.x < half_w
                    && -half_h <= pop@[i].pos.y < half_h,
    {
        let mut particles: Vec<Particle> = Vec::new();
        let mut k: usize = 0;
        while k < count
            invariant
                k <= count,
                n_colors > 0,
                half_w > 0,
                half_h > 0,
                particles@.len() == k,
                colors_ok(particles@, n_colors as int),
                forall|i: int|
                    0 <= i < k ==> (#[trigger] particles@[i]).vel == (Vec2 { x: 0i64, y: 0i64 }),
                forall|i: int|
                    0 <= i < k ==> -half_w <= (#[trigger] particles@[i]).pos.x < half_w
                        && -half_h <= particles@[i].pos.y < half_h,
            decreases count - k,
        {
            let color: usize = rand_below(rng, n_colors);
            let px: i64 = rand_i64(rng, -half_w, half_w);
            let py: i64 = rand_i64(rng, -half_h, half_h);
            let p = Particle { color, pos: Vec2 { x: px, y: py }, vel: Vec2 { x: 0, y: 0 } };
            particles.push(p);
            k = k + 1;
        }
        Population { particles }
    }
}

} // verus!
