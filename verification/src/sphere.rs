//! The sphere primitive and its closed-form intersection test.

use crate::fixed::{
    fdiv, fmul, isqrt, lemma_fmul_bound, lemma_isqrt_exists, lemma_tdiv_mono, Fixed, FX_HALF,
    FX_SCALE,
};
use crate::hittable::{hit_record_spec, rec_wf, HitRecord, NORMAL_CAP};
use crate::material::{material_wf, Material};
use crate::ray::{at_spec, ray_within, Ray, DIR_CAP, ORIGIN_CAP, T_CAP};
use crate::vec::{
    div_spec, dot_spec, lemma_dot_bound, lemma_ls_neg, lemma_scale_within, lemma_sub_within,
    ls_spec, sub_spec, vec_within, Vec3,
};
use vstd::prelude::*;

verus! {

/// Magnitude cap on the components of a sphere's center.
pub const CENTER_CAP: i128 = 0x400000000;

/// Cap on a sphere's radius.
pub const RADIUS_CAP: i128 = 0x400000000;

/// A sphere owning its material.
#[derive(Clone, Copy, PartialEq, Eq, Structural, Debug)]
pub struct Sphere {
    pub center: Vec3,
    pub radius: Fixed,
    pub material: Material,
}

/// A well-formed sphere: center within the scene caps, radius positive and
/// capped, material well-formed.
pub open spec fn sphere_wf(s: Sphere) -> bool {
    vec_within(s.center, CENTER_CAP as int) && 1 <= s.radius.bits <= RADIUS_CAP && material_wf(
        s.material,
    )
}

/// The record reported for a hit of `r` on `s` at parameter `root`, or
/// nothing if the computed normal is too degenerate for the grid (a rounding
/// corner that well-scaled scenes never reach).
pub open spec fn sphere_hit_at(s: Sphere, r: Ray, root: int) -> Option<HitRecord> {
    let point = at_spec(r, root);
    let outward = div_spec(sub_spec(point, s.center), s.radius.bits as int);
    if vec_within(outward, NORMAL_CAP as int) && ls_spec(outward) >= FX_HALF {
        Some(hit_record_spec(point, outward, Fixed { bits: root as i128 }, r, s.material))
    } else {
        None
    }
}

/// The nearest intersection of `r` with `s` in the half-open window
/// `[tmin, tmax)`: the standard half-`b` quadratic test, preferring the
/// smaller root and falling back to the larger.  A direction whose squared
/// length rounds to zero hits nothing.
pub open spec fn sphere_hit_spec(s: Sphere, r: Ray, tmin: int, tmax: int) -> Option<HitRecord> {
    let oc = sub_spec(r.origin, s.center);
    let a = ls_spec(r.direction);
    let half_b = dot_spec(oc, r.direction);
    let c = ls_spec(oc) - fmul(s.radius.bits as int, s.radius.bits as int);
    let disc = fmul(half_b, half_b) - fmul(a, c);
    if a <= 0 || disc < 0 {
        None
    } else {
        let sqrtd = isqrt(disc * FX_SCALE);
        let root1 = fdiv(-half_b - sqrtd, a);
        let root2 = fdiv(-half_b + sqrtd, a);
        if tmin <= root1 && root1 < tmax {
            sphere_hit_at(s, r, root1)
        } else if tmin <= root2 && root2 < tmax {
            sphere_hit_at(s, r, root2)
        } else {
            None
        }
    }
}

impl Sphere {
    /// True exactly when this sphere is well-formed.
    pub fn is_well_formed(&self) -> (r: bool)
        ensures
            r == sphere_wf(*self),
    {
        self.center.within_checked(CENTER_CAP) && 1 <= self.radius.bits && self.radius.bits
            <= RADIUS_CAP && self.material.is_well_formed()
    }

    /// The reported record for a candidate root already known to lie in the
    /// trace window.
    fn hit_at(&self, ray: &Ray, root: Fixed) -> (r: Option<HitRecord>)
        requires
            sphere_wf(*self),
            ray_within(*ray),
            0 < root.bits <= T_CAP,
        ensures
            r == sphere_hit_at(*self, *ray, root.bits as int),
            match r {
                Some(h) => rec_wf(h) && h.t == root && h.material == self.material,
                None => true,
            },
    {
        let point: Vec3 = ray.at(root);
        proof {
            lemma_scale_within(ray.direction, root.bits as int, DIR_CAP as int, T_CAP as int);
            crate::vec::lemma_add_within(
                ray.origin,
                crate::vec::scale_spec(ray.direction, root.bits as int),
                ORIGIN_CAP as int,
                0x400000000000,
            );
            lemma_sub_within(point, self.center, 0x410000000000, CENTER_CAP as int);
        }
        let op: Vec3 = point.sub(self.center);
        let outward: Vec3 = op.div(self.radius);
        if !outward.within_checked(crate::hittable::NORMAL_CAP) {
            return None;
        }
        let nls: Fixed = outward.length_squared();
        if nls.bits < FX_HALF {
            return None;
        }
        proof {
            lemma_ls_neg(outward);
        }
        Some(HitRecord::new(point, outward, root, ray, self.material))
    }

    /// The nearest intersection of `ray` with this sphere in the half-open
    /// window `[t_min, t_max)`, if any.
    pub fn hit(&self, ray: &Ray, t_min: Fixed, t_max: Fixed) -> (r: Option<HitRecord>)
        requires
            sphere_wf(*self),
            ray_within(*ray),
            0 < t_min.bits,
            t_max.bits <= T_CAP,
        ensures
            r == sphere_hit_spec(*self, *ray, t_min.bits as int, t_max.bits as int),
            match r {
                Some(h) => rec_wf(h) && t_min.bits <= h.t.bits < t_max.bits && h.material
                    == self.material,
                None => true,
            },
    {
        proof {
            lemma_sub_within(ray.origin, self.center, ORIGIN_CAP as int, CENTER_CAP as int);
        }
        let oc: Vec3 = ray.origin.sub(self.center);
        let a: Fixed = ray.direction.length_squared();
        let half_b: Fixed = oc.dot(ray.direction);
        proof {
            lemma_fmul_bound(
                self.radius.bits as int,
                self.radius.bits as int,
                RADIUS_CAP as int,
                RADIUS_CAP as int,
            );
            lemma_dot_bound(oc, oc, 0x14000000000, 0x14000000000);
            lemma_dot_bound(oc, ray.direction, 0x14000000000, DIR_CAP as int);
            lemma_dot_bound(ray.direction, ray.direction, DIR_CAP as int, DIR_CAP as int);
        }
        let rr: Fixed = self.radius.mul(self.radius);
        let ls_oc: Fixed = oc.length_squared();
        let c: Fixed = Fixed { bits: ls_oc.bits - rr.bits };
        proof {
            lemma_fmul_bound(
                half_b.bits as int,
                half_b.bits as int,
                0x180000000000000,
                0x180000000000000,
            );
            lemma_fmul_bound(a.bits as int, c.bits as int, 0x4000000000000, 0x2000000000000000);
        }
        let hb2: Fixed = half_b.mul(half_b);
        let ac: Fixed = a.mul(c);
        let disc: Fixed = Fixed { bits: hb2.bits - ac.bits };
        if a.bits <= 0 || disc.bits < 0 {
            return None;
        }
        let sqrtd: Fixed = disc.sqrt();
        let num1: Fixed = Fixed { bits: -half_b.bits - sqrtd.bits };
        let root1: Fixed = num1.div(a);
        if t_min.bits <= root1.bits && root1.bits < t_max.bits {
            return self.hit_at(ray, root1);
        }
        let num2: Fixed = Fixed { bits: -half_b.bits + sqrtd.bits };
        let root2: Fixed = num2.div(a);
        if t_min.bits <= root2.bits && root2.bits < t_max.bits {
            return self.hit_at(ray, root2);
        }
        None
    }
}

/// Widening the trace window above a successful hit does not change the
/// record: the preferred smaller root cannot newly become valid below the
/// returned parameter.
pub proof fn lemma_sphere_hit_widen(s: Sphere, r: Ray, tmin: int, c: int, tmax: int, h: HitRecord)
    requires
        c <= tmax,
        sphere_hit_spec(s, r, tmin, c) == Some(h),
    ensures
        sphere_hit_spec(s, r, tmin, tmax) == Some(h),
{
    let oc = sub_spec(r.origin, s.center);
    let a = ls_spec(r.direction);
    let half_b = dot_spec(oc, r.direction);
    let cc = ls_spec(oc) - fmul(s.radius.bits as int, s.radius.bits as int);
    let disc = fmul(half_b, half_b) - fmul(a, cc);
    assert(a > 0 && disc >= 0);
    lemma_isqrt_exists(disc * FX_SCALE);
    let sqrtd = isqrt(disc * FX_SCALE);
    lemma_tdiv_mono((-half_b - sqrtd) * FX_SCALE, (-half_b + sqrtd) * FX_SCALE, a);
    let root1 = fdiv(-half_b - sqrtd, a);
    let root2 = fdiv(-half_b + sqrtd, a);
    if tmin <= root1 && root1 < c {
        assert(sphere_hit_spec(s, r, tmin, tmax) == sphere_hit_at(s, r, root1));
    } else {
        assert(tmin <= root2 && root2 < c);
        assert(root1 <= root2);
        assert(!(tmin < root1 && root1 < tmax));
        assert(sphere_hit_spec(s, r, tmin, tmax) == sphere_hit_at(s, r, root2));
    }
}

/// A window that reported no hit pushes any hit of a wider window at least
/// to its upper bound.
pub proof fn lemma_sphere_hit_tight(s: Sphere, r: Ray, tmin: int, c: int, tmax: int, h: HitRecord)
    requires
        sphere_wf(s),
        ray_within(r),
        c <= tmax,
        sphere_hit_spec(s, r, tmin, c) == None::<HitRecord>,
        sphere_hit_spec(s, r, tmin, tmax) == Some(h),
    ensures
        h.t.bits >= c,
        tmin <= h.t.bits < tmax,
{
    let oc = sub_spec(r.origin, s.center);
    let a = ls_spec(r.direction);
    let half_b = dot_spec(oc, r.direction);
    let cc = ls_spec(oc) - fmul(s.radius.bits as int, s.radius.bits as int);
    let disc = fmul(half_b, half_b) - fmul(a, cc);
    assert(a > 0 && disc >= 0);
    lemma_isqrt_exists(disc * FX_SCALE);
    let sqrtd = isqrt(disc * FX_SCALE);
    let root1 = fdiv(-half_b - sqrtd, a);
    let root2 = fdiv(-half_b + sqrtd, a);
    lemma_tdiv_mono(-half_b - sqrtd, -half_b + sqrtd, a);
    lemma_sub_within(r.origin, s.center, ORIGIN_CAP as int, CENTER_CAP as int);
    lemma_dot_bound(oc, r.direction, 0x14000000000, DIR_CAP as int);
    lemma_dot_bound(oc, oc, 0x14000000000, 0x14000000000);
    lemma_dot_bound(r.direction, r.direction, DIR_CAP as int, DIR_CAP as int);
    crate::fixed::lemma_fmul_bound(
        s.radius.bits as int,
        s.radius.bits as int,
        RADIUS_CAP as int,
        RADIUS_CAP as int,
    );
    crate::fixed::lemma_fmul_bound(half_b, half_b, 0x180000000000000, 0x180000000000000);
    crate::fixed::lemma_fmul_bound(a, cc, 0x4000000000000, 0x2000000000000000);
    crate::fixed::lemma_isqrt_le(disc * FX_SCALE, sqrtd, 0x100000000000000000);
    crate::fixed::lemma_fdiv_bound(-half_b - sqrtd, a, 0x200000000000000000);
    crate::fixed::lemma_fdiv_bound(-half_b + sqrtd, a, 0x200000000000000000);
    if tmin <= root1 && root1 < tmax {
        assert(h.t.bits == root1);
    } else {
        assert(h.t.bits == root2);
    }
}

} // verus!
