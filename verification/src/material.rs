//! The scattering model: how a ray leaves a surface point.
//!
//! A material either scatters an incoming ray into an outgoing ray with an
//! attenuation color, or absorbs it.  The three variants are Lambertian
//! diffuse, fuzzed metal reflection and dielectric refraction; the set is
//! closed, so the capability is a tagged variant rather than an open trait.

use crate::fixed::{fdiv, fmul, is_isqrt, isqrt, mag, Fixed, FX_HALF, FX_ONE, FX_SCALE};
use crate::hittable::{rec_wf, HitRecord};
use crate::ray::Ray;
use crate::rng::{stream_mix, stream_step, unit_fraction, RandomStream};
use crate::vec::{
    add_spec, ball_sample_spec, dot_spec, lemma_add_within, lemma_dot_bound, lemma_scale_within,
    ls_spec, neg_spec, reflect_spec, refract_spec, scale_spec, unit_sample_spec, unit_spec,
    vec_within, Vec3,
};
use vstd::prelude::*;

verus! {

/// A color has every channel in `[0, 1]`.
pub open spec fn color_wf(c: Vec3) -> bool {
    0 <= c.x.bits <= FX_ONE && 0 <= c.y.bits <= FX_ONE && 0 <= c.z.bits <= FX_ONE
}

/// True exactly when every channel lies in `[0, 1]`.
pub fn color_ok(c: &Vec3) -> (r: bool)
    ensures
        r == color_wf(*c),
{
    0 <= c.x.bits && c.x.bits <= FX_ONE && 0 <= c.y.bits && c.y.bits <= FX_ONE && 0 <= c.z.bits
        && c.z.bits <= FX_ONE
}

/// A diffuse surface: scatters around the normal, attenuating by its albedo.
#[derive(Clone, Copy, PartialEq, Eq, Structural, Debug)]
pub struct Lambertian {
    pub albedo: Vec3,
}

/// A reflective surface: mirrors the ray, perturbed by `fuzz`, attenuating
/// by its albedo; absorbs rays that the perturbation grazes into the
/// surface.
#[derive(Clone, Copy, PartialEq, Eq, Structural, Debug)]
pub struct Metal {
    pub albedo: Vec3,
    pub fuzz: Fixed,
}

/// A clear surface: refracts or reflects by Snell's law and the Schlick
/// reflectance, never absorbing.
#[derive(Clone, Copy, PartialEq, Eq, Structural, Debug)]
pub struct Dielectric {
    pub refraction_index: Fixed,
}

/// The closed set of material variants.
#[derive(Clone, Copy, PartialEq, Eq, Structural, Debug)]
pub enum Material {
    Lambertian(Lambertian),
    Metal(Metal),
    Dielectric(Dielectric),
}

/// A well-formed material: albedo channels in `[0, 1]`, fuzz in `[0, 1]`,
/// refraction index in `(1, 16]`.
pub open spec fn material_wf(m: Material) -> bool {
    match m {
        Material::Lambertian(l) => color_wf(l.albedo),
        Material::Metal(mt) => color_wf(mt.albedo) && 0 <= mt.fuzz.bits <= FX_ONE,
        Material::Dielectric(d) => FX_ONE < d.refraction_index.bits <= 16 * FX_ONE,
    }
}

/// What a Lambertian surface scatters: the normal plus a random unit
/// direction, with the normal itself standing in when the sum degenerates
/// to zero; the attenuation is the albedo, and the ray always scatters.
pub open spec fn lambertian_scatter_spec(l: Lambertian, hit: HitRecord, s0: u64) -> (
    Ray,
    Vec3,
    u64,
) {
    let (u, s1) = unit_sample_spec(s0, 64);
    let d0 = add_spec(hit.normal, u);
    let dir = if d0.x.bits == 0 && d0.y.bits == 0 && d0.z.bits == 0 {
        hit.normal
    } else {
        d0
    };
    (Ray { origin: hit.point, direction: dir }, l.albedo, s1)
}

/// What a metal surface scatters: the mirrored unit direction perturbed by
/// a fuzzed ball point, kept only if it still points off the surface; the
/// attenuation is the albedo.
pub open spec fn metal_scatter_spec(m: Metal, ray_in: Ray, hit: HitRecord, s0: u64) -> (
    Option<(Ray, Vec3)>,
    u64,
) {
    let u = unit_spec(ray_in.direction);
    let (b, s1) = ball_sample_spec(s0, 64);
    let reflected = add_spec(reflect_spec(u, hit.normal), scale_spec(b, m.fuzz.bits as int));
    if dot_spec(reflected, hit.normal) > 0 {
        (Some((Ray { origin: hit.point, direction: reflected }, m.albedo)), s1)
    } else {
        (None, s1)
    }
}

/// The Schlick reflectance approximation
/// `r0 + (1 - r0) * (1 - cosine)^5` with `r0 = ((1 - n) / (1 + n))^2`.
pub open spec fn reflectance_spec(cos: int, ref_idx: int) -> int {
    let r0 = fdiv(FX_ONE - ref_idx, FX_ONE + ref_idx);
    let r0sq = fmul(r0, r0);
    let omc = FX_ONE - cos;
    let p5 = fmul(fmul(fmul(fmul(omc, omc), omc), omc), omc);
    r0sq + fmul(FX_ONE - r0sq, p5)
}

/// The refraction ratio a dielectric uses at a hit: the reciprocal index
/// entering from outside, the index itself leaving from inside.
pub open spec fn dielectric_ratio_spec(d: Dielectric, hit: HitRecord) -> int {
    if hit.front_face {
        fdiv(FX_ONE as int, d.refraction_index.bits as int)
    } else {
        d.refraction_index.bits as int
    }
}

/// What a dielectric surface scatters: with the refraction ratio picked by
/// the hit side, reflect on total internal reflection or a Schlick draw,
/// refract otherwise; the attenuation is white and the ray always scatters.
/// The cosine is clamped onto `[-1, 1]` against grid rounding.
pub open spec fn dielectric_scatter_spec(d: Dielectric, ray_in: Ray, hit: HitRecord, s0: u64) -> (
    Ray,
    Vec3,
    u64,
) {
    let ratio = dielectric_ratio_spec(d, hit);
    let u = unit_spec(ray_in.direction);
    let c0 = -dot_spec(u, hit.normal);
    let cos = if c0 >= FX_ONE {
        FX_ONE as int
    } else if c0 <= -FX_ONE {
        (-FX_ONE) as int
    } else {
        c0
    };
    let sin = isqrt((FX_ONE - fmul(cos, cos)) * FX_SCALE);
    let cannot_refract = fmul(ratio, sin) > FX_ONE;
    let s1 = stream_step(s0);
    let draw = unit_fraction(stream_mix(s1));
    let dir = if cannot_refract || reflectance_spec(cos, ratio) > draw {
        reflect_spec(u, hit.normal)
    } else {
        refract_spec(u, hit.normal, ratio)
    };
    (
        Ray { origin: hit.point, direction: dir },
        Vec3 { x: Fixed { bits: FX_ONE }, y: Fixed { bits: FX_ONE }, z: Fixed { bits: FX_ONE } },
        s1,
    )
}

/// What a material scatters, over the closed variant set.
pub open spec fn material_scatter_spec(m: Material, ray_in: Ray, hit: HitRecord, s0: u64) -> (
    Option<(Ray, Vec3)>,
    u64,
) {
    match m {
        Material::Lambertian(l) => {
            let (ray, att, s1) = lambertian_scatter_spec(l, hit, s0);
            (Some((ray, att)), s1)
        },
        Material::Metal(mt) => metal_scatter_spec(mt, ray_in, hit, s0),
        Material::Dielectric(d) => {
            let (ray, att, s1) = dielectric_scatter_spec(d, ray_in, hit, s0);
            (Some((ray, att)), s1)
        },
    }
}

/// At normal incidence a dielectric cannot totally internally reflect: the
/// sine term is exactly zero, so only the Schlick draw may pick the mirror,
/// and a draw at or above the reflectance refracts.  When moreover the unit
/// direction exactly opposes a unit normal, the refracted ray continues
/// straight through: Snell's law at a zero angle, exact on the grid.
pub proof fn lemma_dielectric_normal_incidence(d: Dielectric, ray_in: Ray, hit: HitRecord, s0: u64)
    requires
        vec_within(hit.normal, 0x2000000),
        -dot_spec(unit_spec(ray_in.direction), hit.normal) >= FX_ONE,
        reflectance_spec(FX_ONE as int, dielectric_ratio_spec(d, hit)) <= unit_fraction(
            stream_mix(stream_step(s0)),
        ),
    ensures
        dielectric_scatter_spec(d, ray_in, hit, s0).0.direction == refract_spec(
            unit_spec(ray_in.direction),
            hit.normal,
            dielectric_ratio_spec(d, hit),
        ),
        unit_spec(ray_in.direction) == neg_spec(hit.normal) && ls_spec(hit.normal) == FX_ONE
            ==> dielectric_scatter_spec(d, ray_in, hit, s0).0.direction == unit_spec(
            ray_in.direction,
        ),
{
    let ratio = dielectric_ratio_spec(d, hit);
    let u = unit_spec(ray_in.direction);
    let n = hit.normal;
    // the clamped cosine is exactly one, the sine exactly zero
    crate::fixed::lemma_fmul_one(FX_ONE as int);
    assert(FX_ONE - fmul(FX_ONE as int, FX_ONE as int) == 0);
    assert(is_isqrt(0, 0));
    crate::fixed::lemma_isqrt_unique(0, 0);
    crate::fixed::lemma_fmul_zero(ratio);
    assert(dielectric_scatter_spec(d, ray_in, hit, s0).0.direction == refract_spec(u, n, ratio));
    if u == neg_spec(n) && ls_spec(n) == FX_ONE {
        // the refraction's own cosine is one as well
        crate::fixed::lemma_fmul_neg(n.x.bits as int, n.x.bits as int);
        crate::fixed::lemma_fmul_neg(n.y.bits as int, n.y.bits as int);
        crate::fixed::lemma_fmul_neg(n.z.bits as int, n.z.bits as int);
        assert(dot_spec(n, u) == -ls_spec(n));
        // shifting the direction by the normal cancels it exactly
        crate::fixed::lemma_fmul_one(n.x.bits as int);
        crate::fixed::lemma_fmul_one(n.y.bits as int);
        crate::fixed::lemma_fmul_one(n.z.bits as int);
        assert(scale_spec(n, FX_ONE as int) == n);
        let shifted = add_spec(u, scale_spec(n, FX_ONE as int));
        assert(shifted.x.bits == 0 && shifted.y.bits == 0 && shifted.z.bits == 0);
        crate::fixed::lemma_fmul_zero(ratio);
        let perp = scale_spec(shifted, ratio);
        assert(perp.x.bits == 0 && perp.y.bits == 0 && perp.z.bits == 0);
        crate::fixed::lemma_fmul_zero(0);
        assert(ls_spec(perp) == 0);
        // the parallel radicand is one, its root exactly one
        assert(is_isqrt(FX_ONE * FX_SCALE, FX_ONE as int)) by (nonlinear_arith)
            requires
                FX_ONE == 16777216,
                FX_SCALE == 16777216,
        ;
        crate::fixed::lemma_isqrt_unique(FX_ONE * FX_SCALE, FX_ONE as int);
        crate::fixed::lemma_fmul_one(-n.x.bits as int);
        crate::fixed::lemma_fmul_one(-n.y.bits as int);
        crate::fixed::lemma_fmul_one(-n.z.bits as int);
        assert(scale_spec(neg_spec(n), FX_ONE as int) == neg_spec(n));
        assert(refract_spec(u, n, ratio) == add_spec(perp, neg_spec(n)));
        assert(add_spec(perp, neg_spec(n)) == u);
    }
}

impl Dielectric {
    /// The Schlick reflectance approximation for the given cosine and
    /// refraction ratio.
    pub fn reflectance(cosine: Fixed, ref_idx: Fixed) -> (r: Fixed)
        requires
            mag(cosine.bits as int) <= 2 * FX_ONE,
            0 <= ref_idx.bits <= 16 * FX_ONE,
        ensures
            r.bits == reflectance_spec(cosine.bits as int, ref_idx.bits as int),
    {
        let num: Fixed = Fixed { bits: FX_ONE - ref_idx.bits };
        let den: Fixed = Fixed { bits: FX_ONE + ref_idx.bits };
        let r0: Fixed = num.div(den);
        proof {
            crate::fixed::lemma_fdiv_bound_low(
                num.bits as int,
                den.bits as int,
                0x11000000,
                FX_ONE as int,
            );
            crate::fixed::lemma_fmul_bound(r0.bits as int, r0.bits as int, 0x11000000, 0x11000000);
        }
        let r0sq: Fixed = r0.mul(r0);
        let omc: Fixed = Fixed { bits: FX_ONE - cosine.bits };
        proof {
            crate::fixed::lemma_fmul_bound(omc.bits as int, omc.bits as int, 0x4000000, 0x4000000);
        }
        let p2: Fixed = omc.mul(omc);
        proof {
            crate::fixed::lemma_fmul_bound(p2.bits as int, omc.bits as int, 0x1000000000, 0x4000000);
        }
        let p3: Fixed = p2.mul(omc);
        proof {
            crate::fixed::lemma_fmul_bound(p3.bits as int, omc.bits as int, 0x400000000000, 0x4000000);
        }
        let p4: Fixed = p3.mul(omc);
        proof {
            crate::fixed::lemma_fmul_bound(
                p4.bits as int,
                omc.bits as int,
                0x100000000000000,
                0x4000000,
            );
        }
        let p5: Fixed = p4.mul(omc);
        let one_minus_r0sq: Fixed = Fixed { bits: FX_ONE - r0sq.bits };
        proof {
            crate::fixed::lemma_fmul_bound(
                one_minus_r0sq.bits as int,
                p5.bits as int,
                0x200000000,
                0x400000000000000,
            );
        }
        let tail: Fixed = one_minus_r0sq.mul(p5);
        Fixed { bits: r0sq.bits + tail.bits }
    }
}

impl Material {
    /// True exactly when this material is well-formed.
    pub fn is_well_formed(&self) -> (r: bool)
        ensures
            r == material_wf(*self),
    {
        match self {
            Material::Lambertian(l) => color_ok(&l.albedo),
            Material::Metal(m) => color_ok(&m.albedo) && 0 <= m.fuzz.bits && m.fuzz.bits
                <= FX_ONE,
            Material::Dielectric(d) => FX_ONE < d.refraction_index.bits
                && d.refraction_index.bits <= 16 * FX_ONE,
        }
    }

    /// How the incoming ray scatters at `hit`: the outgoing ray and the
    /// attenuation color, or nothing when the ray is absorbed.  Lambertian
    /// and dielectric surfaces always scatter; only metal absorbs, and only
    /// when the fuzzed reflection grazes into the surface.
    pub fn scatter(&self, ray_in: &Ray, hit: &HitRecord, rng: &mut RandomStream) -> (r: Option<
        (Ray, Vec3),
    >)
        requires
            material_wf(*self),
            rec_wf(*hit),
            crate::vec::vec_within(ray_in.direction, crate::ray::DIR_CAP as int),
            ls_spec(ray_in.direction) >= FX_HALF,
        ensures
            (r, final(rng).state) == material_scatter_spec(*self, *ray_in, *hit, old(rng).state),
            match r {
                Some(sc) => sc.0.origin == hit.point && color_wf(sc.1),
                None => self is Metal,
            },
            self is Lambertian ==> r is Some,
            self is Dielectric ==> r is Some,
    {
        match self {
            Material::Lambertian(l) => {
                let u: Vec3 = Vec3::random_unit_vector(rng);
                proof {
                    lemma_add_within(hit.normal, u, 0x2000000, 2 * FX_ONE);
                }
                let d0: Vec3 = hit.normal.add(u);
                let dir: Vec3 = if d0.near_zero() {
                    hit.normal
                } else {
                    d0
                };
                Some((Ray { origin: hit.point, direction: dir }, l.albedo))
            },
            Material::Metal(m) => {
                let u: Vec3 = ray_in.direction.unit_vector();
                let reflected0: Vec3 = u.reflect(hit.normal);
                proof {
                    lemma_dot_bound(u, hit.normal, 0x2000000, 0x2000000);
                    lemma_scale_within(
                        hit.normal,
                        (2 * dot_spec(u, hit.normal)) as i128 as int,
                        0x2000000,
                        0x20000000,
                    );
                    crate::vec::lemma_sub_within(
                        u,
                        scale_spec(hit.normal, (2 * dot_spec(u, hit.normal)) as i128 as int),
                        0x2000000,
                        0x40000000,
                    );
                }
                let b: Vec3 = Vec3::random_in_unit_sphere(rng);
                proof {
                    lemma_scale_within(b, m.fuzz.bits as int, FX_ONE as int, FX_ONE as int);
                    lemma_add_within(
                        reflected0,
                        scale_spec(b, m.fuzz.bits as int),
                        0x42000000,
                        FX_ONE as int,
                    );
                }
                let reflected: Vec3 = reflected0.add(b.scale(m.fuzz));
                let d: Fixed = reflected.dot(hit.normal);
                if d.bits > 0 {
                    Some((Ray { origin: hit.point, direction: reflected }, m.albedo))
                } else {
                    None
                }
            },
            Material::Dielectric(d) => {
                let ratio: Fixed = if hit.front_face {
                    proof {
                        vstd::arithmetic::div_mod::lemma_div_pos_is_pos(
                            FX_ONE * FX_SCALE,
                            d.refraction_index.bits as int,
                        );
                    }
                    Fixed { bits: FX_ONE }.div(d.refraction_index)
                } else {
                    d.refraction_index
                };
                proof {
                    crate::fixed::lemma_tdiv_mag(
                        FX_ONE * FX_SCALE,
                        d.refraction_index.bits as int,
                    );
                    vstd::arithmetic::div_mod::lemma_div_is_ordered_by_denominator(
                        FX_ONE * FX_SCALE,
                        FX_ONE as int,
                        d.refraction_index.bits as int,
                    );
                }
                let u: Vec3 = ray_in.direction.unit_vector();
                proof {
                    lemma_dot_bound(u, hit.normal, 0x2000000, 0x2000000);
                }
                let c0: Fixed = u.dot(hit.normal).neg();
                let cos_theta: Fixed = if c0.bits >= FX_ONE {
                    Fixed { bits: FX_ONE }
                } else if c0.bits <= -FX_ONE {
                    Fixed { bits: -FX_ONE }
                } else {
                    c0
                };
                proof {
                    crate::fixed::lemma_fmul_bound(
                        cos_theta.bits as int,
                        cos_theta.bits as int,
                        FX_ONE as int,
                        FX_ONE as int,
                    );
                }
                let cos_sq: Fixed = cos_theta.mul(cos_theta);
                let radicand: Fixed = Fixed { bits: FX_ONE - cos_sq.bits };
                let sin_theta: Fixed = radicand.sqrt();
                proof {
                    crate::fixed::lemma_isqrt_le(
                        radicand.bits * FX_SCALE,
                        sin_theta.bits as int,
                        0x2000000,
                    );
                    crate::fixed::lemma_fmul_bound(
                        ratio.bits as int,
                        sin_theta.bits as int,
                        0x10000000,
                        0x2000000,
                    );
                }
                let rs: Fixed = ratio.mul(sin_theta);
                let cannot_refract: bool = rs.bits > FX_ONE;
                let refl: Fixed = Dielectric::reflectance(cos_theta, ratio);
                let draw: Fixed = rng.next_unit();
                let dir: Vec3 = if cannot_refract || refl.bits > draw.bits {
                    u.reflect(hit.normal)
                } else {
                    u.refract(hit.normal, ratio)
                };
                let white: Vec3 = Vec3 {
                    x: Fixed { bits: FX_ONE },
                    y: Fixed { bits: FX_ONE },
                    z: Fixed { bits: FX_ONE },
                };
                Some((Ray { origin: hit.point, direction: dir }, white))
            },
        }
    }
}

} // verus!
