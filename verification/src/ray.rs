//! Rays: an origin plus a direction, with parametric point evaluation.

use crate::fixed::{mag, Fixed};
use crate::vec::{add_spec, scale_spec, vec_within, Vec3};
use vstd::prelude::*;

verus! {

/// Magnitude cap on the components of a traced ray's origin.
pub const ORIGIN_CAP: i128 = 0x10000000000;

/// Magnitude cap on the components of a traced ray's direction.
pub const DIR_CAP: i128 = 0x1000000000;

/// Magnitude cap on a ray parameter handed to `at` and on trace windows.
pub const T_CAP: i128 = 0x400000000;

/// A ray; the direction need not have unit length.
#[derive(Clone, Copy, PartialEq, Eq, Structural, Debug)]
pub struct Ray {
    pub origin: Vec3,
    pub direction: Vec3,
}

/// The ray's origin and direction components lie within the trace caps.
pub open spec fn ray_within(r: Ray) -> bool {
    vec_within(r.origin, ORIGIN_CAP as int) && vec_within(r.direction, DIR_CAP as int)
}

/// The point a ray reaches at parameter of bit pattern `t`.
pub open spec fn at_spec(r: Ray, t: int) -> Vec3 {
    add_spec(r.origin, scale_spec(r.direction, t))
}

impl Ray {
    /// The ray with the given origin and direction.
    pub fn new(origin: Vec3, direction: Vec3) -> (r: Ray)
        ensures
            r == (Ray { origin, direction }),
    {
        Ray { origin, direction }
    }

    /// The point reached at parameter `t`: `origin + direction * t`.
    pub fn at(self, t: Fixed) -> (p: Vec3)
        requires
            ray_within(self),
            mag(t.bits as int) <= T_CAP,
        ensures
            p == at_spec(self, t.bits as int),
    {
        proof {
            crate::vec::lemma_scale_within(
                self.direction,
                t.bits as int,
                DIR_CAP as int,
                T_CAP as int,
            );
        }
        self.origin.add(self.direction.scale(t))
    }
}

} // verus!
