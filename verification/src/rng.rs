//! Deterministic pseudo-random generator for the stochastic search: a
//! splitmix-style 64-bit mixer, so every draw is a pure function of the
//! seed and the search is reproducible.

use vstd::prelude::*;

verus! {

pub const GOLDEN_GAMMA: u64 = 0x9E3779B97F4A7C15;
pub const MIX_A: u64 = 0xBF58476D1CE4E5B9;
pub const MIX_B: u64 = 0x94D049BB133111EB;

/// The generator's state after one step.
pub open spec fn next_state(s: u64) -> u64 {
    vstd::wrapping::u64_specs::wrapping_add(s, GOLDEN_GAMMA)
}

/// The value a state mixes down to.
pub open spec fn mix(s: u64) -> u64 {
    let z1 = vstd::wrapping::u64_specs::wrapping_mul(s ^ (s >> 30), MIX_A);
    let z2 = vstd::wrapping::u64_specs::wrapping_mul(z1 ^ (z1 >> 27), MIX_B);
    z2 ^ (z2 >> 31)
}

/// A seeded deterministic random source.
#[derive(Debug, Clone, Copy, PartialEq, Eq, Structural)]
pub struct Rng {
    pub state: u64,
}

impl Rng {
    pub fn new(seed: u64) -> (r: Rng)
        ensures
            r.state == seed,
    {
        Rng { state: seed }
    }

    /// The next raw 64-bit draw.
    pub fn next_u64(&mut self) -> (r: u64)
        ensures
            final(self).state == next_state(old(self).state),
            r == mix(next_state(old(self).state)),
    {
        self.state = self.state.wrapping_add(GOLDEN_GAMMA);
        let z = self.state;
        let z = (z ^ (z >> 30)).wrapping_mul(MIX_A);
        let z = (z ^ (z >> 27)).wrapping_mul(MIX_B);
        z ^ (z >> 31)
    }

    /// A draw in `0..n`.
    pub fn next_below(&mut self, n: u64) -> (r: u64)
        requires
            n >= 1,
        ensures
            final(self).state == next_state(old(self).state),
            r == mix(next_state(old(self).state)) % n,
            r < n,
    {
        self.next_u64() % n
    }
}

} // verus!
