use ray_tracer::camera::Camera;
use ray_tracer::fixed::{Fixed, FX_HALF, FX_ONE};
use ray_tracer::hittable::Hittable;
use ray_tracer::hittable_list::HittableList;
use ray_tracer::material::{Dielectric, Lambertian, Material, Metal};
use ray_tracer::ray::Ray;
use ray_tracer::rng::RandomStream;
use ray_tracer::sphere::Sphere;
use ray_tracer::tracer::{ray_color, resolve_color};
use ray_tracer::utils::{clamp, random};
use ray_tracer::vec::Vec3;

fn vi(x: i64, y: i64, z: i64) -> Vec3 {
    Vec3::new(Fixed::from_int(x), Fixed::from_int(y), Fixed::from_int(z))
}

fn small_scene() -> HittableList {
    let mut world = HittableList::new();
    world.add(
        Hittable::Sphere(
            Sphere {
                center: vi(0, -1000, 0),
                radius: Fixed::from_int(1000),
                material: Material::Lambertian(
                    Lambertian {
                        albedo: Vec3::new(
                            Fixed::from_ratio(1, 2),
                            Fixed::from_ratio(1, 2),
                            Fixed::from_ratio(1, 2),
                        ),
                    },
                ),
            },
        ),
    );
    world.add(
        Hittable::Sphere(
            Sphere {
                center: vi(0, 1, 0),
                radius: Fixed::from_int(1),
                material: Material::Dielectric(
                    Dielectric { refraction_index: Fixed::from_ratio(3, 2) },
                ),
            },
        ),
    );
    world.add(
        Hittable::Sphere(
            Sphere {
                center: vi(4, 1, 0),
                radius: Fixed::from_int(1),
                material: Material::Metal(
                    Metal {
                        albedo: Vec3::new(
                            Fixed::from_ratio(7, 10),
                            Fixed::from_ratio(6, 10),
                            Fixed::from_ratio(1, 2),
                        ),
                        fuzz: Fixed { bits: 0 },
                    },
                ),
            },
        ),
    );
    world
}

// An exhausted depth budget yields exactly black, whatever the scene, and
// consumes no randomness.
#[test]
fn depth_zero_is_black() {
    let world = small_scene();
    assert!(world.is_well_formed());
    let r = Ray::new(vi(13, 2, 3), vi(-13, -2, -3));
    let mut rng = RandomStream::seeded(21);
    let c = ray_color(&r, &world, 0, &mut rng);
    assert_eq!((c.x.bits, c.y.bits, c.z.bits), (0, 0, 0));
    assert_eq!(rng.state, 21);
}

// A ray that misses everything receives exactly the background gradient:
// white looking straight down the gradient, sky blue at its top, and a
// value between the two in between.
#[test]
fn missing_rays_receive_the_background() {
    let world = HittableList::new();
    let mut rng = RandomStream::seeded(1);

    let down = ray_color(&Ray::new(vi(0, 5, 0), vi(0, -1, 0)), &world, 8, &mut rng);
    assert_eq!((down.x.bits, down.y.bits, down.z.bits), (FX_ONE, FX_ONE, FX_ONE));

    let up = ray_color(&Ray::new(vi(0, 0, 0), vi(0, 1, 0)), &world, 8, &mut rng);
    assert_eq!((up.x.bits, up.y.bits, up.z.bits), (FX_HALF, 11744051, FX_ONE));

    let level = ray_color(&Ray::new(vi(0, 0, 0), vi(1, 0, 0)), &world, 8, &mut rng);
    assert_eq!((level.x.bits, level.y.bits, level.z.bits), (12582912, 14260633, FX_ONE));

    assert!(up.x.bits <= level.x.bits && level.x.bits <= down.x.bits);
    assert!(up.y.bits <= level.y.bits && level.y.bits <= down.y.bits);
}

// The background is independent of the ray's origin.
#[test]
fn background_depends_on_direction_alone() {
    let world = HittableList::new();
    let mut rng = RandomStream::seeded(1);
    let a = ray_color(&Ray::new(vi(0, 0, 0), vi(1, 0, 0)), &world, 4, &mut rng);
    let b = ray_color(&Ray::new(vi(-7, 3, 2), vi(1, 0, 0)), &world, 4, &mut rng);
    assert_eq!(a, b);
}

// An absorbed path contributes zero radiance: a polished metal floor seen
// from below its horizon absorbs the reflection driven into it.
#[test]
fn absorption_yields_black() {
    let mut world = HittableList::new();
    world.add(
        Hittable::Sphere(
            Sphere {
                center: vi(0, 0, -1),
                radius: Fixed::from_ratio(1, 2),
                material: Material::Metal(
                    Metal {
                        albedo: Vec3::new(Fixed::from_int(1), Fixed::from_int(1), Fixed::from_int(1)),
                        fuzz: Fixed { bits: 0 },
                    },
                ),
            },
        ),
    );
    // Entering through the back of the sphere, the mirrored direction still
    // points inward and the path dies.
    let r = Ray::new(vi(0, 0, -1), vi(0, 0, -1));
    let mut rng = RandomStream::seeded(2);
    let c = ray_color(&r, &world, 8, &mut rng);
    assert_eq!((c.x.bits, c.y.bits, c.z.bits), (0, 0, 0));
}

fn render_tile(seed: u64) -> (Vec<(u8, u8, u8)>, u64) {
    let world = small_scene();
    assert!(world.is_well_formed());
    let cam = Camera::new(
        vi(13, 2, 3),
        vi(0, 0, 0),
        vi(0, 1, 0),
        Fixed::from_int(20),
        Fixed::from_ratio(3, 2),
        Fixed::from_ratio(1, 10),
        Fixed::from_int(10),
    )
    .unwrap();
    let width: i64 = 4;
    let height: i64 = 4;
    let samples: u32 = 2;
    let mut rng = RandomStream::seeded(seed);
    let mut pixels: Vec<(u8, u8, u8)> = Vec::new();
    for j in (0..height).rev() {
        for i in 0..width {
            let mut color = Vec3::zero();
            for _ in 0..samples {
                let u = clamp(
                    Fixed::from_int(i).add(random(&mut rng)).div(Fixed::from_int(width - 1)),
                    Fixed { bits: 0 },
                    Fixed { bits: FX_ONE },
                );
                let v = clamp(
                    Fixed::from_int(j).add(random(&mut rng)).div(Fixed::from_int(height - 1)),
                    Fixed { bits: 0 },
                    Fixed { bits: FX_ONE },
                );
                let ray = cam.get_ray(u, v, &mut rng);
                color = color.add(ray_color(&ray, &world, 8, &mut rng));
            }
            pixels.push(resolve_color(color, samples));
        }
    }
    (pixels, rng.state)
}

// Rendering the same scene and camera twice from the same seed yields
// identical output, down to the generator's final state.
#[test]
fn fixed_seed_renders_identically() {
    let (first, state1) = render_tile(42);
    let (second, state2) = render_tile(42);
    assert_eq!(first, second);
    assert_eq!(state1, state2);
}

#[test]
fn resolve_color_applies_the_output_contract() {
    let one = Vec3::new(Fixed::from_int(1), Fixed::from_int(1), Fixed::from_int(1));
    assert_eq!(resolve_color(one, 1), (255, 255, 255));
    assert_eq!(resolve_color(Vec3::zero(), 1), (0, 0, 0));
    // A quarter of full radiance gamma-corrects to one half: 128 per byte.
    let quarter = Vec3::new(
        Fixed::from_ratio(1, 4),
        Fixed::from_ratio(1, 4),
        Fixed::from_ratio(1, 4),
    );
    assert_eq!(resolve_color(quarter, 1), (128, 128, 128));
    // Averaging: full radiance accumulated over four samples is a quarter.
    let four = Vec3::new(Fixed::from_int(1), Fixed::from_int(1), Fixed::from_int(1));
    assert_eq!(resolve_color(four, 4), (128, 128, 128));
    // Negative accumulations floor at zero.
    let neg = Vec3::new(Fixed::from_int(-1), Fixed::from_int(0), Fixed::from_int(0));
    assert_eq!(resolve_color(neg, 1), (0, 0, 0));
}
