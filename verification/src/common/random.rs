//! The random source for sampling and diffuse scattering.
//!
//! Every random draw in the renderer goes through an explicit, seedable
//! generator (a 64-bit xorshift), threaded through the sampling and
//! scatter functions as a parameter. Its step function is part of the
//! specification, so rendering is a deterministic function of the seed;
//! a fresh seed can be drawn from the operating system's entropy through
//! the `rand` crate.

use vstd::prelude::*;

verus! {

/// One xorshift step: the next state (and output) of the generator.
pub open spec fn spec_rng_step(x: u64) -> u64 {
    let a = x ^ (x << 13);
    let b = a ^ (a >> 7);
    b ^ (b << 17)
}

/// Three consecutive xorshift steps.
pub open spec fn spec_rng_step3(x: u64) -> u64 {
    spec_rng_step(spec_rng_step(spec_rng_step(x)))
}

/// A seedable xorshift pseudo-random generator.
///
/// A zero seed is a fixed point of the step function and yields the
/// all-zero stream; any other seed cycles through the full period.
#[derive(Clone, Copy, Debug, PartialEq, Eq, Structural)]
pub struct Rng {
    /// The current state; the next output is one step ahead of it.
    pub state: u64,
}

/// Relies on rand::random: one 64-bit value drawn from the thread-local
/// generator, used only to seed this crate's own generator.
#[verifier::external_body]
fn entropy_seed() -> u64 {
    rand::random::<u64>()
}

impl Rng {
    /// A generator with the given seed, for reproducible runs.
    pub fn seeded(seed: u64) -> (r: Rng)
        ensures
            r.state == seed,
    {
        Rng { state: seed }
    }

    /// A generator seeded from the operating system's entropy.
    pub fn from_entropy() -> Rng {
        Rng { state: entropy_seed() }
    }

    /// Advances the generator one step and returns the new state.
    pub fn next_u64(&mut self) -> (r: u64)
        ensures
            r == spec_rng_step(old(self).state),
            final(self).state == spec_rng_step(old(self).state),
    {
        let mut x: u64 = self.state;
        x = x ^ (x << 13u64);
        x = x ^ (x >> 7u64);
        x = x ^ (x << 17u64);
        self.state = x;
        x
    }

    /// One uniformly distributed fixed-point value in `[0, 1)`: the low
    /// sixteen bits of the next draw.
    pub fn next_unit(&mut self) -> (r: i64)
        ensures
            r == spec_rng_step(old(self).state) % 65536,
            final(self).state == spec_rng_step(old(self).state),
            0 <= r < 65536,
    {
        let x: u64 = self.next_u64();
        (x % 65536) as i64
    }
}

} // verus!
