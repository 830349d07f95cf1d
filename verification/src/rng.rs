//! Deterministic pseudorandom numbers for centroid seeding.
//!
//! The quantizer must be reproducible for a fixed seed, so randomness is a
//! small linear-congruential generator whose every step is pinned by its
//! contract: the same seed always yields the same draw sequence.

use vstd::prelude::*;

verus! {

/// Multiplier of the linear-congruential step (Knuth's MMIX constant).
pub const RNG_MULT: u64 = 6364136223846793005;

/// Increment of the linear-congruential step.
pub const RNG_INC: u64 = 1442695040888963407;

/// Seeded pseudorandom generator with a fully specified step function.
pub struct Rng {
    pub state: u64,
}

/// The successor state: `state * RNG_MULT + RNG_INC` modulo 2^64.
pub open spec fn next_state(s: u64) -> u64 {
    ((s * RNG_MULT + RNG_INC) % 0x1_0000_0000_0000_0000) as u64
}

impl Rng {
    pub fn new(seed: u64) -> (rng: Rng)
        ensures
            rng.state == seed,
    {
        Rng { state: seed }
    }

    /// Advance the generator and return the new state as the raw draw.
    pub fn next(&mut self) -> (r: u64)
        ensures
            final(self).state == next_state(old(self).state),
            r == final(self).state,
    {
        let s0 = self.state;
        assert((s0 as u128) * (RNG_MULT as u128) + (RNG_INC as u128) <= u128::MAX)
            by (nonlinear_arith)
            requires
                s0 <= u64::MAX,
        ;
        let wide: u128 = (s0 as u128) * (RNG_MULT as u128) + (RNG_INC as u128);
        self.state = (wide % 0x1_0000_0000_0000_0000u128) as u64;
        self.state
    }

    /// A draw uniform over `0 .. bound`.
    pub fn below(&mut self, bound: u64) -> (r: u64)
        requires
            bound > 0,
        ensures
            r < bound,
            r == next_state(old(self).state) % bound,
            final(self).state == next_state(old(self).state),
    {
        let x = self.next();
        x % bound
    }

    /// A wide draw uniform over `0 .. bound`, made of two raw draws.
    pub fn below_wide(&mut self, bound: u128) -> (r: u128)
        requires
            bound > 0,
        ensures
            r < bound,
            r == spec_below_wide(old(self).state, bound),
            final(self).state == next_state(next_state(old(self).state)),
    {
        let hi = self.next();
        let lo = self.next();
        let wide: u128 = (hi as u128) * 0x1_0000_0000_0000_0000u128 + (lo as u128);
        wide % bound
    }
}

/// What `below_wide` returns for a given starting state.
pub open spec fn spec_below_wide(s: u64, bound: u128) -> u128 {
    let hi = next_state(s);
    let lo = next_state(hi);
    ((hi * 0x1_0000_0000_0000_0000 + lo) % (bound as int)) as u128
}

} // verus!
