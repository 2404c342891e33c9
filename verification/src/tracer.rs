//! The radiance estimator: traces a ray through the scene, scattering off
//! materials up to a depth budget, and falls back to the sky gradient; and
//! the output writer's post-processing contract.

use crate::fixed::{fdiv, fmul, fsqrt, lemma_fmul_bound, mag, Fixed, FX_HALF, FX_ONE, FX_SCALE};
use crate::hittable::{HitRecord, Hittable};
use crate::hittable_list::{list_hit_spec, list_wf, HittableList};
use crate::material::material_scatter_spec;
use crate::ray::{Ray, DIR_CAP, ORIGIN_CAP, T_CAP};
use crate::rng::RandomStream;
use crate::utils::{clamp, clamp_spec};
use crate::vec::{
    add_spec, lemma_add_within, lemma_mul_within, lemma_scale_within, ls_spec, mul_spec,
    scale_spec, unit_spec, vec_within, Vec3,
};
use vstd::prelude::*;

verus! {

/// The lower trace bound: about a thousandth of a unit, tolerating the
/// rounding at a scattered ray's origin (the shadow-acne mitigation).
pub const T_EPS: i128 = 16777;

/// The clamp ceiling of the output writer, just under one.
pub const CHANNEL_MAX: i128 = 16760438;

/// Black: zero radiance.
pub open spec fn black_spec() -> Vec3 {
    Vec3 { x: Fixed { bits: 0 }, y: Fixed { bits: 0 }, z: Fixed { bits: 0 } }
}

/// White.
pub open spec fn white_spec() -> Vec3 {
    Vec3 { x: Fixed { bits: FX_ONE }, y: Fixed { bits: FX_ONE }, z: Fixed { bits: FX_ONE } }
}

/// The sky's zenith color.
pub open spec fn sky_blue_spec() -> Vec3 {
    Vec3 { x: Fixed { bits: FX_HALF }, y: Fixed { bits: 11744051 }, z: Fixed { bits: FX_ONE } }
}

/// The gradient position of a unit direction: half of one plus its height.
pub open spec fn sky_t_spec(u: Vec3) -> int {
    fmul(u.y.bits + FX_ONE, FX_HALF as int)
}

/// The vertical interpolation between white and sky blue at position `t`.
pub open spec fn gradient_spec(t: int) -> Vec3 {
    add_spec(scale_spec(white_spec(), FX_ONE - t), scale_spec(sky_blue_spec(), t))
}

/// The background a ray of unit direction `u` receives: the sky gradient,
/// a function of the direction alone.
pub open spec fn background_spec(u: Vec3) -> Vec3 {
    gradient_spec(sky_t_spec(u))
}

/// A ray the estimator traces: origin and direction within the caps and a
/// direction long enough to normalize on the grid.  Anything else
/// contributes no radiance.
pub open spec fn ray_ok_spec(r: Ray) -> bool {
    vec_within(r.origin, ORIGIN_CAP as int) && vec_within(r.direction, DIR_CAP as int) && ls_spec(
        r.direction,
    ) >= FX_HALF
}

/// The color of one sample: black on an exhausted budget or an untraceable
/// ray; otherwise the scene's nearest hit scatters and attenuates the color
/// of the scattered ray, absorption yields black, and a miss yields the
/// background gradient.
pub open spec fn ray_color_spec(r: Ray, objs: Seq<Hittable>, depth: nat, s0: u64) -> (Vec3, u64)
    decreases depth,
{
    if depth == 0 {
        (black_spec(), s0)
    } else if !ray_ok_spec(r) {
        (black_spec(), s0)
    } else {
        match list_hit_spec(objs, r, T_EPS as int, T_CAP as int) {
            Some(hit) => {
                let (sc, s1) = material_scatter_spec(hit.material, r, hit, s0);
                match sc {
                    Some(pair) => {
                        let (rec, s2) = ray_color_spec(pair.0, objs, (depth - 1) as nat, s1);
                        (mul_spec(pair.1, rec), s2)
                    },
                    None => (black_spec(), s1),
                }
            },
            None => (background_spec(unit_spec(r.direction)), s0),
        }
    }
}

/// The background of a unit direction, computed on the grid.
fn background(u: Vec3) -> (c: Vec3)
    requires
        vec_within(u, 2 * FX_ONE),
    ensures
        c == background_spec(u),
        vec_within(c, 4 * FX_ONE),
{
    proof {
        lemma_fmul_bound(u.y.bits + FX_ONE, FX_HALF as int, 3 * FX_ONE, FX_HALF as int);
    }
    let tt: Fixed = Fixed { bits: u.y.bits + FX_ONE }.mul(Fixed { bits: FX_HALF });
    let start: Vec3 = Vec3 {
        x: Fixed { bits: FX_ONE },
        y: Fixed { bits: FX_ONE },
        z: Fixed { bits: FX_ONE },
    };
    let end: Vec3 = Vec3 {
        x: Fixed { bits: FX_HALF },
        y: Fixed { bits: 11744051 },
        z: Fixed { bits: FX_ONE },
    };
    let one_minus: Fixed = Fixed { bits: FX_ONE - tt.bits };
    proof {
        lemma_scale_within(start, one_minus.bits as int, FX_ONE as int, 3 * FX_ONE);
        lemma_scale_within(end, tt.bits as int, FX_ONE as int, 2 * FX_ONE);
        lemma_add_within(
            scale_spec(start, one_minus.bits as int),
            scale_spec(end, tt.bits as int),
            3 * FX_ONE,
            2 * FX_ONE,
        );
    }
    start.scale(one_minus).add(end.scale(tt))
}

/// The color of one sample along `r`, with `depth` scatters left.  With an
/// exhausted budget the color is black whatever the scene holds; a ray that
/// misses every surface receives exactly the background gradient of its
/// direction.
pub fn ray_color(r: &Ray, world: &HittableList, depth: u32, rng: &mut RandomStream) -> (c: Vec3)
    requires
        list_wf(world.objects@),
    ensures
        (c, final(rng).state) == ray_color_spec(*r, world.objects@, depth as nat, old(rng).state),
        vec_within(c, 4 * FX_ONE),
        depth == 0 ==> c == black_spec() && final(rng).state == old(rng).state,
        depth > 0 && ray_ok_spec(*r) && list_hit_spec(
            world.objects@,
            *r,
            T_EPS as int,
            T_CAP as int,
        ) is None ==> c == background_spec(unit_spec(r.direction)),
    decreases depth,
{
    if depth == 0 {
        return Vec3::zero();
    }
    if !(r.origin.within_checked(ORIGIN_CAP) && r.direction.within_checked(DIR_CAP)) {
        return Vec3::zero();
    }
    let dls: Fixed = r.direction.length_squared();
    if dls.bits < FX_HALF {
        return Vec3::zero();
    }
    let hit_opt: Option<HitRecord> = world.hit(r, Fixed { bits: T_EPS }, Fixed { bits: T_CAP });
    match hit_opt {
        Some(hit) => {
            let scattered_opt: Option<(Ray, Vec3)> = hit.material.scatter(r, &hit, rng);
            match scattered_opt {
                Some(pair) => {
                    let rec: Vec3 = ray_color(&pair.0, world, depth - 1, rng);
                    proof {
                        lemma_mul_within(pair.1, rec, FX_ONE as int, 4 * FX_ONE);
                    }
                    pair.1.mul(rec)
                },
                None => Vec3::zero(),
            }
        },
        None => {
            let u: Vec3 = r.direction.unit_vector();
            background(u)
        },
    }
}

/// Rendering is reproducible: a sample's color is a function of the ray,
/// the scene, the depth budget and the generator state alone, so tracing
/// the same scene twice from equal seeds repeats the same colors exactly.
pub proof fn lemma_render_deterministic(
    r1: Ray,
    r2: Ray,
    o1: Seq<Hittable>,
    o2: Seq<Hittable>,
    d1: nat,
    d2: nat,
    s1: u64,
    s2: u64,
)
    requires
        r1 == r2,
        o1 == o2,
        d1 == d2,
        s1 == s2,
    ensures
        ray_color_spec(r1, o1, d1, s1) == ray_color_spec(r2, o2, d2, s2),
{
}

/// A channel of the gradient: the white part is exact, and the sky part is
/// an exactly divided product that never exceeds the position.
proof fn lemma_gradient_channel(c: int, t: int)
    requires
        0 <= t <= FX_ONE,
        0 <= c <= FX_ONE,
    ensures
        fmul(FX_ONE as int, FX_ONE - t) == FX_ONE - t,
        fmul(c, t) == (c * t) / (FX_SCALE as int),
        0 <= fmul(c, t) <= t,
{
    crate::fixed::lemma_fmul_nonneg(FX_ONE as int, FX_ONE - t);
    vstd::arithmetic::div_mod::lemma_div_multiples_vanish(FX_ONE - t, FX_SCALE as int);
    assert(FX_ONE * (FX_ONE - t) == FX_SCALE * (FX_ONE - t)) by (nonlinear_arith)
        requires
            FX_ONE == 16777216,
            FX_SCALE == 16777216,
    ;
    crate::fixed::lemma_fmul_nonneg(c, t);
    assert(c * t <= FX_SCALE * t) by (nonlinear_arith)
        requires
            0 <= c <= FX_ONE,
            0 <= t,
            FX_ONE == FX_SCALE,
    ;
    vstd::arithmetic::div_mod::lemma_div_is_ordered(c * t, FX_SCALE * t, FX_SCALE as int);
    vstd::arithmetic::div_mod::lemma_div_multiples_vanish(t, FX_SCALE as int);
}

/// The background's endpoints are exact: at gradient position zero a ray
/// receives white, and at position one the sky blue.
pub proof fn lemma_background_endpoints()
    ensures
        gradient_spec(0) == white_spec(),
        gradient_spec(FX_ONE as int) == sky_blue_spec(),
{
    lemma_gradient_channel(FX_ONE as int, 0);
    lemma_gradient_channel(FX_HALF as int, 0);
    lemma_gradient_channel(11744051, 0);
    lemma_gradient_channel(FX_ONE as int, FX_ONE as int);
    lemma_gradient_channel(FX_HALF as int, FX_ONE as int);
    lemma_gradient_channel(11744051, FX_ONE as int);
    assert(fmul(FX_HALF as int, FX_ONE as int) == FX_HALF) by {
        vstd::arithmetic::div_mod::lemma_div_by_multiple(FX_HALF as int, FX_SCALE as int);
        assert(FX_HALF * FX_ONE == FX_HALF * FX_SCALE) by (nonlinear_arith)
            requires
                FX_ONE == FX_SCALE,
        ;
    }
    assert(fmul(11744051, FX_ONE as int) == 11744051) by {
        vstd::arithmetic::div_mod::lemma_div_by_multiple(11744051, FX_SCALE as int);
        assert(11744051 * FX_ONE == 11744051 * FX_SCALE) by (nonlinear_arith)
            requires
                FX_ONE == FX_SCALE,
        ;
    }
    assert(fmul(FX_ONE as int, FX_ONE as int) == FX_ONE) by {
        vstd::arithmetic::div_mod::lemma_div_by_multiple(FX_ONE as int, FX_SCALE as int);
        assert(FX_ONE * FX_ONE == FX_ONE * FX_SCALE) by (nonlinear_arith)
            requires
                FX_ONE == FX_SCALE,
        ;
    }
    assert(fmul(FX_ONE as int, 0) == 0) by {
        crate::fixed::lemma_fmul_nonneg(FX_ONE as int, 0);
    }
    assert(fmul(FX_HALF as int, 0) == 0) by {
        crate::fixed::lemma_fmul_nonneg(FX_HALF as int, 0);
    }
    assert(fmul(11744051, 0) == 0) by {
        crate::fixed::lemma_fmul_nonneg(11744051, 0);
    }
}

/// Between its endpoints the background interpolates one way: as the
/// gradient position grows, the red and green channels never increase and
/// the blue channel stays exactly one.
pub proof fn lemma_background_monotone(t1: int, t2: int)
    requires
        0 <= t1 <= t2 <= FX_ONE,
    ensures
        gradient_spec(t2).x.bits <= gradient_spec(t1).x.bits,
        gradient_spec(t2).y.bits <= gradient_spec(t1).y.bits,
        gradient_spec(t2).z.bits == FX_ONE && gradient_spec(t1).z.bits == FX_ONE,
{
    lemma_gradient_channel_mono(FX_HALF as int, t1, t2);
    lemma_gradient_channel_mono(11744051, t1, t2);
    lemma_gradient_channel(FX_ONE as int, t1);
    lemma_gradient_channel(FX_ONE as int, t2);
    assert(fmul(FX_ONE as int, t1) == t1 && fmul(FX_ONE as int, t2) == t2) by {
        vstd::arithmetic::div_mod::lemma_div_multiples_vanish(t1, FX_SCALE as int);
        vstd::arithmetic::div_mod::lemma_div_multiples_vanish(t2, FX_SCALE as int);
        assert(FX_ONE * t1 == FX_SCALE * t1 && FX_ONE * t2 == FX_SCALE * t2) by (nonlinear_arith)
            requires
                FX_ONE == FX_SCALE,
        ;
    }
}

/// One sky channel of weight `c` grows no faster than the white channel
/// shrinks, so the interpolated channel never increases.
proof fn lemma_gradient_channel_mono(c: int, t1: int, t2: int)
    requires
        0 <= t1 <= t2 <= FX_ONE,
        0 <= c <= FX_ONE,
    ensures
        (FX_ONE - t2) + fmul(c, t2) <= (FX_ONE - t1) + fmul(c, t1),
        fmul(FX_ONE as int, FX_ONE - t1) == FX_ONE - t1,
        fmul(FX_ONE as int, FX_ONE - t2) == FX_ONE - t2,
{
    lemma_gradient_channel(c, t1);
    lemma_gradient_channel(c, t2);
    assert(c * t2 <= c * t1 + (t2 - t1) * FX_SCALE) by (nonlinear_arith)
        requires
            0 <= c <= FX_ONE,
            t1 <= t2,
            FX_ONE == FX_SCALE,
    ;
    vstd::arithmetic::div_mod::lemma_div_is_ordered(
        c * t2,
        c * t1 + (t2 - t1) * FX_SCALE,
        FX_SCALE as int,
    );
    vstd::arithmetic::div_mod::lemma_hoist_over_denominator(
        c * t1,
        t2 - t1,
        FX_SCALE as nat,
    );
}

/// One output channel: the accumulated radiance divided by the sample
/// count, gamma-corrected by square root, clamped onto `[0, CHANNEL_MAX]`
/// and scaled into one byte.  A negative accumulated channel resolves as
/// zero.
pub open spec fn resolve_channel_spec(c: int, samples: int) -> int {
    let scaled = fdiv(c, samples * FX_SCALE);
    let floor0 = if scaled < 0 {
        0
    } else {
        scaled
    };
    let gamma = fsqrt(floor0);
    let clamped = clamp_spec(gamma, 0, CHANNEL_MAX as int);
    (256 * clamped) / (FX_SCALE as int)
}

fn resolve_channel(c: Fixed, samples: u32) -> (r: u8)
    requires
        1 <= samples,
        mag(c.bits as int) <= 0x4000000000,
    ensures
        r == resolve_channel_spec(c.bits as int, samples as int),
        r <= 255,
{
    let divisor: Fixed = Fixed::from_int(samples as i64);
    let scaled: Fixed = c.div(divisor);
    let floor0: Fixed = if scaled.bits < 0 {
        Fixed { bits: 0 }
    } else {
        scaled
    };
    proof {
        crate::fixed::lemma_fdiv_bound(c.bits as int, divisor.bits as int, 0x4000000000);
    }
    let gamma: Fixed = floor0.sqrt();
    let clamped: Fixed = clamp(gamma, Fixed { bits: 0 }, Fixed { bits: CHANNEL_MAX });
    let wide: u128 = (256 * clamped.bits) as u128;
    let byte: u128 = wide / (FX_SCALE as u128);
    proof {
        vstd::arithmetic::div_mod::lemma_div_is_ordered(
            256 * clamped.bits as int,
            256 * (CHANNEL_MAX as int),
            FX_SCALE as int,
        );
    }
    byte as u8
}

/// The linear radiance sum of a pixel resolved into its displayed bytes:
/// averaged over the samples, gamma-corrected, clamped and scaled, channel
/// by channel.
pub fn resolve_color(color: Vec3, samples_per_pixel: u32) -> (r: (u8, u8, u8))
    requires
        1 <= samples_per_pixel,
        vec_within(color, 0x4000000000),
    ensures
        r.0 == resolve_channel_spec(color.x.bits as int, samples_per_pixel as int),
        r.1 == resolve_channel_spec(color.y.bits as int, samples_per_pixel as int),
        r.2 == resolve_channel_spec(color.z.bits as int, samples_per_pixel as int),
{
    (
        resolve_channel(color.x, samples_per_pixel),
        resolve_channel(color.y, samples_per_pixel),
        resolve_channel(color.z, samples_per_pixel),
    )
}

} // verus!
