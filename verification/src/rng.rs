//! Deterministic pseudo-random generator.
//!
//! A linear congruential generator `x = (A * x + C) mod M` with
//! `A = 1664525`, `C = 1013904223`, `M = 2^31`. Given the same seed the
//! full sequence is reproducible, which is what makes episodes
//! replayable bit for bit.

use vstd::prelude::*;
use vstd::arithmetic::div_mod::lemma_mod_division_less_than_divisor;

verus! {

/// Multiplier of the linear congruence.
pub const LCG_A: u64 = 1664525;

/// Increment of the linear congruence.
pub const LCG_C: u64 = 1013904223;

/// Modulus of the linear congruence, `2^31`.
pub const LCG_M: u64 = 0x8000_0000;

/// The successor of a generator state: `(A * x + C) mod 2^31`.
#[verifier::opaque]
pub open spec fn rng_next(x: u32) -> u32 {
    (((LCG_A as int) * (x as int) + (LCG_C as int)) % (LCG_M as int)) as u32
}

/// The value drawn from state `x` for an inclusive range `[lo, hi]`:
/// `lo + next % (hi - lo + 1)`.
#[verifier::opaque]
pub open spec fn rng_in_range(x: u32, lo: u32, hi: u32) -> u32
    recommends
        lo <= hi,
        hi - lo < u32::MAX,
{
    (lo + (rng_next(x) as int) % (hi - lo + 1)) as u32
}

/// Deterministic pseudo-random generator with a 31-bit state.
pub struct Rng {
    /// Current state; always below `2^31` once the generator has stepped,
    /// though nothing relies on that.
    pub state: u32,
}

impl Rng {
    /// Seed the generator. The same seed yields the same sequence.
    pub fn new(seed: u32) -> (r: Rng)
        ensures
            r.state == seed,
    {
        Rng { state: seed }
    }

    /// Advance the state once and return it.
    pub fn next(&mut self) -> (r: u32)
        ensures
            final(self).state == rng_next(old(self).state),
            r == rng_next(old(self).state),
    {
        let next64: u64 = (LCG_A * (self.state as u64) + LCG_C) % LCG_M;
        proof {
            reveal(rng_next);
        }
        assert(next64 == rng_next(self.state));
        self.state = next64 as u32;
        self.state
    }

    /// Draw a value in the inclusive range `[lo, hi]`, advancing the
    /// state once.
    pub fn rand_in_range(&mut self, lo: u32, hi: u32) -> (r: u32)
        requires
            lo <= hi,
            hi - lo < u32::MAX,
        ensures
            final(self).state == rng_next(old(self).state),
            r == rng_in_range(old(self).state, lo, hi),
            lo <= r <= hi,
    {
        let v = self.next();
        let span = hi - lo + 1;
        proof {
            reveal(rng_in_range);
        }
        lo + v % span
    }
}

/// A drawn value lies in its inclusive range.
pub proof fn lemma_rng_in_range_bounds(x: u32, lo: u32, hi: u32)
    requires
        lo <= hi,
        hi - lo < u32::MAX,
    ensures
        lo <= rng_in_range(x, lo, hi) <= hi,
{
    reveal(rng_in_range);
    lemma_mod_division_less_than_divisor(rng_next(x) as int, hi - lo + 1);
}

} // verus!
