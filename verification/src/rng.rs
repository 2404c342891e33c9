//! The random source of the renderer.
//!
//! Sampling operations do not own randomness: every draw comes from a
//! `RandomStream` that the caller seeds and passes down explicitly.  The
//! stream is a SplitMix64 generator, so each draw and each successor state is
//! an exact function of the state before it; a render is therefore a pure
//! function of scene, camera and seed, and reproducibility is provable rather
//! than assumed.

use crate::fixed::{Fixed, FX_ONE};
use vstd::prelude::*;

verus! {

/// The successor of a stream state.
pub open spec fn stream_step(s: u64) -> u64 {
    s.wrapping_add(0x9E3779B97F4A7C15)
}

/// The output word mixed out of a stream state.
pub open spec fn stream_mix(z0: u64) -> u64 {
    let z1 = (z0 ^ (z0 >> 30)).wrapping_mul(0xBF58476D1CE4E5B9);
    let z2 = (z1 ^ (z1 >> 27)).wrapping_mul(0x94D049BB133111EB);
    z2 ^ (z2 >> 31)
}

/// The fraction in `[0, 1)` carried by the top bits of a draw.
pub open spec fn unit_fraction(d: u64) -> int {
    (d >> 40) as int
}

/// Every draw's unit fraction lies on the grid inside `[0, 1)`.
pub proof fn lemma_unit_fraction_range(d: u64)
    ensures
        0 <= unit_fraction(d) < FX_ONE,
{
    assert((d >> 40) < 16777216) by (bit_vector);
}

/// An explicitly seeded pseudo-random stream (SplitMix64).
#[derive(Clone, Copy, PartialEq, Eq, Structural, Debug)]
pub struct RandomStream {
    pub state: u64,
}

impl RandomStream {
    /// A stream at the given seed.
    pub fn seeded(seed: u64) -> (r: RandomStream)
        ensures
            r.state == seed,
    {
        RandomStream { state: seed }
    }

    /// The next raw draw: advances the state by one step and mixes the word
    /// out of it.
    pub fn next_u64(&mut self) -> (r: u64)
        ensures
            final(self).state == stream_step(old(self).state),
            r == stream_mix(final(self).state),
    {
        self.state = self.state.wrapping_add(0x9E3779B97F4A7C15);
        let z0: u64 = self.state;
        let z1: u64 = (z0 ^ (z0 >> 30)).wrapping_mul(0xBF58476D1CE4E5B9);
        let z2: u64 = (z1 ^ (z1 >> 27)).wrapping_mul(0x94D049BB133111EB);
        z2 ^ (z2 >> 31)
    }

    /// A uniform fixed-point draw in `[0, 1)`: the top 24 bits of the next
    /// word, laid on the grid.
    pub fn next_unit(&mut self) -> (r: Fixed)
        ensures
            final(self).state == stream_step(old(self).state),
            r.bits == unit_fraction(stream_mix(final(self).state)),
            0 <= r.bits < FX_ONE,
    {
        let d: u64 = self.next_u64();
        let top: u64 = d >> 40;
        proof {
            assert(top < 16777216) by (bit_vector)
                requires
                    top == d >> 40,
            ;
        }
        Fixed { bits: top as i128 }
    }
}

} // verus!
