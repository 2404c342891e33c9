//! The camera: maps normalized 2D sample positions to world-space rays,
//! with defocus blur from a lens disk.

use crate::fixed::{fdiv, fmul, mag, Fixed, FX_HALF, FX_ONE, FX_SCALE};
use crate::ray::Ray;
use crate::rng::RandomStream;
use crate::utils::radians_spec;
use crate::vec::{
    add_spec, cross_spec, disk_sample_spec, lemma_add_within, lemma_scale_within,
    lemma_sub_within, ls_spec, scale_spec, sub_spec, unit_spec, vec_within, Vec3,
};
use vstd::prelude::*;

verus! {

/// The truncated sine series `t - t^3/6 + t^5/120` on the grid.
pub open spec fn sin_series_spec(t: int) -> int {
    let t2 = fmul(t, t);
    let t3 = fmul(t2, t);
    let t5 = fmul(t3, t2);
    t - fdiv(t3, (6 * FX_SCALE) as int) + fdiv(t5, (120 * FX_SCALE) as int)
}

/// The truncated cosine series `1 - t^2/2 + t^4/24` on the grid.
pub open spec fn cos_series_spec(t: int) -> int {
    let t2 = fmul(t, t);
    let t4 = fmul(t2, t2);
    FX_ONE - fdiv(t2, (2 * FX_SCALE) as int) + fdiv(t4, (24 * FX_SCALE) as int)
}

/// Derived, immutable camera configuration.
#[derive(Clone, Copy, PartialEq, Eq, Structural, Debug)]
pub struct Camera {
    pub origin: Vec3,
    pub lower_left_corner: Vec3,
    pub horizontal: Vec3,
    pub vertical: Vec3,
    pub u: Vec3,
    pub v: Vec3,
    pub lens_radius: Fixed,
}

/// The camera's fields lie within the caps `get_ray` relies on.
pub open spec fn camera_wf(c: Camera) -> bool {
    vec_within(c.origin, 0x100000000) && vec_within(c.lower_left_corner, 0x200000000000)
        && vec_within(c.horizontal, 0x100000000000) && vec_within(c.vertical, 0x100000000000)
        && vec_within(c.u, 0x2000000) && vec_within(c.v, 0x8000000) && 0 <= c.lens_radius.bits
        <= 0x2000000
}

/// The configuration derived from the scene-setup parameters, or nothing
/// when an angle or basis degenerates on the grid: the vertical field of
/// view fixes the viewport through the tangent of its half (computed by
/// truncated series), the look vectors fix the orthonormal basis, and the
/// focus distance places the viewport plane.
pub open spec fn camera_spec(
    lookfrom: Vec3,
    lookat: Vec3,
    vup: Vec3,
    vfov: int,
    aspect_ratio: int,
    aperture: int,
    focus_dist: int,
) -> Option<Camera> {
    let theta = radians_spec(vfov);
    if !(0 < theta <= 3 * FX_ONE) {
        None
    } else {
        let t = fmul(theta, FX_HALF as int);
        let cos_h = cos_series_spec(t);
        if cos_h <= 0 {
            None
        } else {
            let h = fdiv(sin_series_spec(t), cos_h);
            if !(0 <= h <= 0x40000000) {
                None
            } else {
                let viewport_height = fmul(2 * h, focus_dist);
                let viewport_width = fmul(viewport_height, aspect_ratio);
                let back = sub_spec(lookfrom, lookat);
                if ls_spec(back) < FX_HALF {
                    None
                } else {
                    let w = unit_spec(back);
                    let cu = cross_spec(vup, w);
                    if ls_spec(cu) < FX_HALF {
                        None
                    } else {
                        let u = unit_spec(cu);
                        let v = cross_spec(w, u);
                        let horizontal = scale_spec(u, viewport_width);
                        let vertical = scale_spec(v, viewport_height);
                        let lower_left_corner = sub_spec(
                            sub_spec(
                                sub_spec(lookfrom, scale_spec(horizontal, FX_HALF as int)),
                                scale_spec(vertical, FX_HALF as int),
                            ),
                            scale_spec(w, focus_dist),
                        );
                        Some(
                            Camera {
                                origin: lookfrom,
                                lower_left_corner,
                                horizontal,
                                vertical,
                                u,
                                v,
                                lens_radius: Fixed { bits: fmul(aperture, FX_HALF as int) as i128 },
                            },
                        )
                    }
                }
            }
        }
    }
}

/// The ray `get_ray` builds: the origin offset by a lens-disk point laid on
/// the camera's plane basis, aimed at the viewport point of the normalized
/// sample position.
pub open spec fn get_ray_spec(c: Camera, s: int, t: int, s0: u64) -> (Ray, u64) {
    let (d, s1) = disk_sample_spec(s0, 64);
    let rd = scale_spec(d, c.lens_radius.bits as int);
    let offset = add_spec(scale_spec(c.u, rd.x.bits as int), scale_spec(c.v, rd.y.bits as int));
    let origin = add_spec(c.origin, offset);
    let direction = sub_spec(
        sub_spec(
            add_spec(add_spec(c.lower_left_corner, scale_spec(c.horizontal, s)), scale_spec(c.vertical, t)),
            c.origin,
        ),
        offset,
    );
    (Ray { origin, direction }, s1)
}

impl Camera {
    /// Derives a camera from the scene-setup parameters; nothing is
    /// returned when an angle or basis degenerates on the grid.
    pub fn new(
        lookfrom: Vec3,
        lookat: Vec3,
        vup: Vec3,
        vfov: Fixed,
        aspect_ratio: Fixed,
        aperture: Fixed,
        focus_dist: Fixed,
    ) -> (r: Option<Camera>)
        requires
            vec_within(lookfrom, 0x100000000),
            vec_within(lookat, 0x100000000),
            vec_within(vup, 0x100000000),
            mag(vfov.bits as int) <= 0x10000000000,
            mag(aspect_ratio.bits as int) <= 0x8000000,
            0 <= aperture.bits <= 0x2000000,
            mag(focus_dist.bits as int) <= 0x100000000,
        ensures
            r == camera_spec(
                lookfrom,
                lookat,
                vup,
                vfov.bits as int,
                aspect_ratio.bits as int,
                aperture.bits as int,
                focus_dist.bits as int,
            ),
            match r {
                Some(c) => camera_wf(c) && c.origin == lookfrom,
                None => true,
            },
    {
        let theta: Fixed = crate::utils::degrees_to_radians(vfov);
        if !(0 < theta.bits && theta.bits <= 3 * FX_ONE) {
            return None;
        }
        proof {
            crate::fixed::lemma_fmul_bound(
                theta.bits as int,
                FX_HALF as int,
                0x3000000,
                FX_HALF as int,
            );
        }
        let t: Fixed = theta.mul(Fixed { bits: FX_HALF });
        proof {
            crate::fixed::lemma_fmul_bound(t.bits as int, t.bits as int, 0x1800000, 0x1800000);
        }
        let t2: Fixed = t.mul(t);
        proof {
            crate::fixed::lemma_fmul_bound(t2.bits as int, t.bits as int, 0x2400000, 0x1800000);
            crate::fixed::lemma_fmul_bound(t2.bits as int, t2.bits as int, 0x2400000, 0x2400000);
        }
        let t3: Fixed = t2.mul(t);
        let t4: Fixed = t2.mul(t2);
        proof {
            crate::fixed::lemma_fmul_bound(t3.bits as int, t2.bits as int, 0x3600000, 0x2400000);
        }
        let t5: Fixed = t3.mul(t2);
        proof {
            crate::fixed::lemma_fdiv_bound(t3.bits as int, 6 * FX_SCALE, 0x3600000);
            crate::fixed::lemma_fdiv_bound(t5.bits as int, 120 * FX_SCALE, 0x7a10000);
            crate::fixed::lemma_fdiv_bound(t2.bits as int, 2 * FX_SCALE, 0x2400000);
            crate::fixed::lemma_fdiv_bound(t4.bits as int, 24 * FX_SCALE, 0x5100000);
        }
        let sin_h: Fixed = Fixed {
            bits: t.bits - t3.div(Fixed { bits: 6 * FX_SCALE }).bits + t5.div(
                Fixed { bits: 120 * FX_SCALE },
            ).bits,
        };
        let cos_h: Fixed = Fixed {
            bits: FX_ONE - t2.div(Fixed { bits: 2 * FX_SCALE }).bits + t4.div(
                Fixed { bits: 24 * FX_SCALE },
            ).bits,
        };
        if cos_h.bits <= 0 {
            return None;
        }
        proof {
            crate::fixed::lemma_fdiv_bound(sin_h.bits as int, cos_h.bits as int, 0x10000000000);
        }
        let h: Fixed = sin_h.div(cos_h);
        if !(0 <= h.bits && h.bits <= 0x40000000) {
            return None;
        }
        let two_h: Fixed = Fixed { bits: h.bits + h.bits };
        proof {
            crate::fixed::lemma_fmul_bound(
                two_h.bits as int,
                focus_dist.bits as int,
                0x80000000,
                0x100000000,
            );
        }
        let viewport_height: Fixed = two_h.mul(focus_dist);
        proof {
            crate::fixed::lemma_fmul_bound(
                viewport_height.bits as int,
                aspect_ratio.bits as int,
                0x8000000000,
                0x8000000,
            );
        }
        let viewport_width: Fixed = viewport_height.mul(aspect_ratio);
        proof {
            lemma_sub_within(lookfrom, lookat, 0x100000000, 0x100000000);
        }
        let back: Vec3 = lookfrom.sub(lookat);
        let back_ls: Fixed = back.length_squared();
        if back_ls.bits < FX_HALF {
            return None;
        }
        let w: Vec3 = back.unit_vector();
        proof {
            crate::fixed::lemma_fmul_bound(vup.x.bits as int, w.z.bits as int, 0x100000000, 0x2000000);
            crate::fixed::lemma_fmul_bound(vup.y.bits as int, w.z.bits as int, 0x100000000, 0x2000000);
            crate::fixed::lemma_fmul_bound(vup.z.bits as int, w.z.bits as int, 0x100000000, 0x2000000);
            crate::fixed::lemma_fmul_bound(vup.x.bits as int, w.y.bits as int, 0x100000000, 0x2000000);
            crate::fixed::lemma_fmul_bound(vup.y.bits as int, w.x.bits as int, 0x100000000, 0x2000000);
            crate::fixed::lemma_fmul_bound(vup.z.bits as int, w.y.bits as int, 0x100000000, 0x2000000);
            crate::fixed::lemma_fmul_bound(vup.x.bits as int, w.x.bits as int, 0x100000000, 0x2000000);
            crate::fixed::lemma_fmul_bound(vup.y.bits as int, w.y.bits as int, 0x100000000, 0x2000000);
            crate::fixed::lemma_fmul_bound(vup.z.bits as int, w.x.bits as int, 0x100000000, 0x2000000);
        }
        proof {
            crate::vec::lemma_cross_within(vup, w, 0x100000000, 0x2000000);
        }
        let cu: Vec3 = vup.cross(w);
        let cu_ls: Fixed = cu.length_squared();
        if cu_ls.bits < FX_HALF {
            return None;
        }
        let u: Vec3 = cu.unit_vector();
        proof {
            crate::vec::lemma_cross_within(w, u, 0x2000000, 0x2000000);
        }
        let v: Vec3 = w.cross(u);
        proof {
            lemma_scale_within(u, viewport_width.bits as int, 0x2000000, 0x40000000000);
            lemma_scale_within(v, viewport_height.bits as int, 0x8000000, 0x8000000000);
        }
        let horizontal: Vec3 = u.scale(viewport_width);
        let vertical: Vec3 = v.scale(viewport_height);
        proof {
            lemma_scale_within(horizontal, FX_HALF as int, 0x100000000000, FX_HALF as int);
            lemma_scale_within(vertical, FX_HALF as int, 0x100000000000, FX_HALF as int);
            lemma_scale_within(w, focus_dist.bits as int, 0x2000000, 0x100000000);
            lemma_sub_within(
                lookfrom,
                scale_spec(horizontal, FX_HALF as int),
                0x100000000,
                0x80000000000,
            );
            lemma_sub_within(
                sub_spec(lookfrom, scale_spec(horizontal, FX_HALF as int)),
                scale_spec(vertical, FX_HALF as int),
                0x80100000000,
                0x80000000000,
            );
            lemma_sub_within(
                sub_spec(
                    sub_spec(lookfrom, scale_spec(horizontal, FX_HALF as int)),
                    scale_spec(vertical, FX_HALF as int),
                ),
                scale_spec(w, focus_dist.bits as int),
                0x100100000000,
                0x200000000,
            );
        }
        let half: Fixed = Fixed { bits: FX_HALF };
        let lower_left_corner: Vec3 = lookfrom.sub(horizontal.scale(half)).sub(
            vertical.scale(half),
        ).sub(w.scale(focus_dist));
        proof {
            crate::fixed::lemma_fmul_bound(
                aperture.bits as int,
                FX_HALF as int,
                0x2000000,
                FX_HALF as int,
            );
        }
        let lens_radius: Fixed = aperture.mul(half);
        Some(
            Camera {
                origin: lookfrom,
                lower_left_corner,
                horizontal,
                vertical,
                u,
                v,
                lens_radius,
            },
        )
    }

    /// The ray toward the viewport point of the normalized sample position
    /// `(s, t)`, from the origin offset by a random lens-disk point.
    pub fn get_ray(&self, s: Fixed, t: Fixed, rng: &mut RandomStream) -> (r: Ray)
        requires
            camera_wf(*self),
            0 <= s.bits <= FX_ONE,
            0 <= t.bits <= FX_ONE,
        ensures
            (r, final(rng).state) == get_ray_spec(*self, s.bits as int, t.bits as int, old(
                rng,
            ).state),
    {
        let d: Vec3 = Vec3::random_in_unit_disk(rng);
        proof {
            lemma_scale_within(d, self.lens_radius.bits as int, FX_ONE as int, 0x2000000);
        }
        let rd: Vec3 = d.scale(self.lens_radius);
        proof {
            lemma_scale_within(self.u, rd.x.bits as int, 0x2000000, 0x2000000);
            lemma_scale_within(self.v, rd.y.bits as int, 0x8000000, 0x2000000);
            lemma_add_within(
                scale_spec(self.u, rd.x.bits as int),
                scale_spec(self.v, rd.y.bits as int),
                0x4000000,
                0x10000000,
            );
        }
        let offset: Vec3 = self.u.scale(rd.x).add(self.v.scale(rd.y));
        proof {
            lemma_add_within(self.origin, offset, 0x100000000, 0x14000000);
            lemma_scale_within(self.horizontal, s.bits as int, 0x100000000000, FX_ONE as int);
            lemma_scale_within(self.vertical, t.bits as int, 0x100000000000, FX_ONE as int);
            lemma_add_within(
                self.lower_left_corner,
                scale_spec(self.horizontal, s.bits as int),
                0x200000000000,
                0x100000000000,
            );
            lemma_add_within(
                add_spec(self.lower_left_corner, scale_spec(self.horizontal, s.bits as int)),
                scale_spec(self.vertical, t.bits as int),
                0x300000000000,
                0x100000000000,
            );
            lemma_sub_within(
                add_spec(
                    add_spec(self.lower_left_corner, scale_spec(self.horizontal, s.bits as int)),
                    scale_spec(self.vertical, t.bits as int),
                ),
                self.origin,
                0x400000000000,
                0x100000000,
            );
            lemma_sub_within(
                sub_spec(
                    add_spec(
                        add_spec(
                            self.lower_left_corner,
                            scale_spec(self.horizontal, s.bits as int),
                        ),
                        scale_spec(self.vertical, t.bits as int),
                    ),
                    self.origin,
                ),
                offset,
                0x400100000000,
                0x14000000,
            );
        }
        let origin: Vec3 = self.origin.add(offset);
        let direction: Vec3 = self.lower_left_corner.add(self.horizontal.scale(s)).add(
            self.vertical.scale(t),
        ).sub(self.origin).sub(offset);
        Ray { origin, direction }
    }
}

} // verus!
