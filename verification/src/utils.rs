//! Small shared helpers: clamping, the uniform draw, and angle conversion.

use crate::fixed::{fdiv, fmul, mag, Fixed, FX_ONE, FX_SCALE};
use crate::rng::{stream_mix, stream_step, unit_fraction, RandomStream};
use vstd::prelude::*;

verus! {

/// The circle constant laid on the grid, rounded toward zero.
pub const FX_PI: i128 = 52707178;

/// `x` clamped onto `[min, max]`.
pub open spec fn clamp_spec(x: int, min: int, max: int) -> int {
    if x < min {
        min
    } else if x > max {
        max
    } else {
        x
    }
}

/// Clamps `x` onto `[min, max]`.
pub fn clamp(x: Fixed, min: Fixed, max: Fixed) -> (r: Fixed)
    ensures
        r.bits == clamp_spec(x.bits as int, min.bits as int, max.bits as int),
{
    if x.bits < min.bits {
        min
    } else if x.bits > max.bits {
        max
    } else {
        x
    }
}

/// A uniform draw in `[0, 1)` from the explicit stream.
pub fn random(rng: &mut RandomStream) -> (r: Fixed)
    ensures
        final(rng).state == stream_step(old(rng).state),
        r.bits == unit_fraction(stream_mix(final(rng).state)),
        0 <= r.bits < FX_ONE,
{
    rng.next_unit()
}

/// The angle in radians: `degrees * pi / 180`, with the grid's rounded
/// circle constant.
pub open spec fn radians_spec(degrees: int) -> int {
    fdiv(fmul(degrees, FX_PI as int), (180 * FX_SCALE) as int)
}

/// Converts degrees to radians.
pub fn degrees_to_radians(degrees: Fixed) -> (r: Fixed)
    requires
        mag(degrees.bits as int) <= 0x10000000000,
    ensures
        r.bits == radians_spec(degrees.bits as int),
{
    proof {
        crate::fixed::lemma_fmul_bound(
            degrees.bits as int,
            FX_PI as int,
            0x10000000000,
            FX_PI as int,
        );
    }
    let scaled: Fixed = degrees.mul(Fixed { bits: FX_PI });
    scaled.div(Fixed { bits: 180 * FX_SCALE })
}

} // verus!
