//! The surface abstraction: what a successful intersection reports.

use crate::fixed::{Fixed, FX_HALF};
use crate::material::{material_wf, Material};
use crate::ray::{Ray, T_CAP};
use crate::sphere::{sphere_hit_spec, sphere_wf, Sphere};
use crate::vec::{dot_spec, ls_spec, neg_spec, vec_within, Vec3};
use vstd::prelude::*;

verus! {

/// Magnitude cap on the components of a hit record's normal: two units.
pub const NORMAL_CAP: i128 = 0x2000000;

/// Magnitude cap on the components of a hit record's point.
pub const POINT_CAP: i128 = 0x800000000000;

/// What a successful intersection reports: the point reached, the unit-ish
/// normal oriented against the incoming ray, the ray parameter, which side
/// the ray arrived from, and the material governing the point.
#[derive(Clone, Copy, PartialEq, Eq, Structural, Debug)]
pub struct HitRecord {
    pub point: Vec3,
    pub normal: Vec3,
    pub t: Fixed,
    pub front_face: bool,
    pub material: Material,
}

/// The record `HitRecord::new` builds: `front_face` holds exactly when the
/// ray and the geometric normal point against each other, and the stored
/// normal is the geometric normal flipped onto the ray's side.
pub open spec fn hit_record_spec(point: Vec3, normal: Vec3, t: Fixed, ray: Ray, material: Material) -> HitRecord {
    let front_face = dot_spec(ray.direction, normal) < 0;
    HitRecord {
        point,
        normal: if front_face {
            normal
        } else {
            neg_spec(normal)
        },
        t,
        front_face,
        material,
    }
}

/// A record fit to scatter from: the normal is unit-grade and oriented, the
/// point and parameter are within the trace caps, and the material is
/// well-formed.
pub open spec fn rec_wf(rec: HitRecord) -> bool {
    vec_within(rec.normal, NORMAL_CAP as int) && FX_HALF <= ls_spec(rec.normal)
        && vec_within(rec.point, POINT_CAP as int) && 0 < rec.t.bits <= T_CAP && material_wf(
        rec.material,
    )
}

impl HitRecord {
    /// Builds the record for a hit at `point` with geometric normal
    /// `normal`, orienting the normal against the ray.
    pub fn new(point: Vec3, normal: Vec3, t: Fixed, ray: &Ray, material: Material) -> (r:
        HitRecord)
        requires
            vec_within(normal, NORMAL_CAP as int),
            vec_within(ray.direction, crate::ray::DIR_CAP as int),
        ensures
            r == hit_record_spec(point, normal, t, *ray, material),
            r.front_face == (dot_spec(ray.direction, normal) < 0),
    {
        let d: Fixed = ray.direction.dot(normal);
        let front_face: bool = d.bits < 0;
        HitRecord {
            point,
            normal: if front_face {
                normal
            } else {
                normal.neg()
            },
            t,
            front_face,
            material,
        }
    }
}

/// The closed set of surface variants a scene may hold.
#[derive(Clone, Copy, PartialEq, Eq, Structural, Debug)]
pub enum Hittable {
    Sphere(Sphere),
}

/// A well-formed surface.
pub open spec fn hittable_wf(h: Hittable) -> bool {
    match h {
        Hittable::Sphere(s) => sphere_wf(s),
    }
}

/// What a surface's intersection test reports.
pub open spec fn hittable_hit_spec(h: Hittable, r: Ray, tmin: int, tmax: int) -> Option<
    HitRecord,
> {
    match h {
        Hittable::Sphere(s) => sphere_hit_spec(s, r, tmin, tmax),
    }
}

/// Widening the trace window above a successful hit does not change the
/// record, whatever the surface.
pub proof fn lemma_hittable_hit_widen(
    ho: Hittable,
    r: Ray,
    tmin: int,
    c: int,
    tmax: int,
    h: HitRecord,
)
    requires
        c <= tmax,
        hittable_hit_spec(ho, r, tmin, c) == Some(h),
    ensures
        hittable_hit_spec(ho, r, tmin, tmax) == Some(h),
{
    match ho {
        Hittable::Sphere(s) => crate::sphere::lemma_sphere_hit_widen(s, r, tmin, c, tmax, h),
    }
}

/// A window that reported no hit pushes any hit of a wider window at least
/// to its upper bound, whatever the surface.
pub proof fn lemma_hittable_hit_tight(
    ho: Hittable,
    r: Ray,
    tmin: int,
    c: int,
    tmax: int,
    h: HitRecord,
)
    requires
        hittable_wf(ho),
        crate::ray::ray_within(r),
        c <= tmax,
        hittable_hit_spec(ho, r, tmin, c) == None::<HitRecord>,
        hittable_hit_spec(ho, r, tmin, tmax) == Some(h),
    ensures
        h.t.bits >= c,
        tmin <= h.t.bits < tmax,
{
    match ho {
        Hittable::Sphere(s) => crate::sphere::lemma_sphere_hit_tight(s, r, tmin, c, tmax, h),
    }
}

impl Hittable {
    /// True exactly when this surface is well-formed.
    pub fn is_well_formed(&self) -> (r: bool)
        ensures
            r == hittable_wf(*self),
    {
        match self {
            Hittable::Sphere(s) => s.is_well_formed(),
        }
    }

    /// The nearest intersection of `ray` with this surface in the half-open
    /// window `[t_min, t_max)`, if any.
    pub fn hit(&self, ray: &Ray, t_min: Fixed, t_max: Fixed) -> (r: Option<HitRecord>)
        requires
            hittable_wf(*self),
            crate::ray::ray_within(*ray),
            0 < t_min.bits,
            t_max.bits <= T_CAP,
        ensures
            r == hittable_hit_spec(*self, *ray, t_min.bits as int, t_max.bits as int),
            match r {
                Some(h) => rec_wf(h) && t_min.bits <= h.t.bits < t_max.bits,
                None => true,
            },
    {
        match self {
            Hittable::Sphere(s) => s.hit(ray, t_min, t_max),
        }
    }
}

} // verus!
