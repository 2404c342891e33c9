use ray_tracer::fixed::{Fixed, FX_HALF, FX_ONE, FX_SCALE};
use ray_tracer::hittable::HitRecord;
use ray_tracer::material::{Dielectric, Lambertian, Material, Metal};
use ray_tracer::ray::Ray;
use ray_tracer::rng::RandomStream;
use ray_tracer::vec::Vec3;

fn vi(x: i64, y: i64, z: i64) -> Vec3 {
    Vec3::new(Fixed::from_int(x), Fixed::from_int(y), Fixed::from_int(z))
}

fn record_with(material: Material, front_face: bool) -> HitRecord {
    HitRecord {
        point: Vec3::new(Fixed::from_int(0), Fixed::from_int(0), Fixed { bits: -FX_HALF }),
        normal: vi(0, 0, 1),
        t: Fixed { bits: FX_HALF },
        front_face,
        material,
    }
}

// A Lambertian surface always scatters, from the hit point, attenuated by
// its albedo.
#[test]
fn lambertian_always_scatters_with_albedo() {
    let albedo = Vec3::new(
        Fixed::from_ratio(7, 10),
        Fixed::from_ratio(1, 2),
        Fixed::from_ratio(3, 10),
    );
    let mat = Material::Lambertian(Lambertian { albedo });
    let hit = record_with(mat, true);
    let ray_in = Ray::new(vi(0, 0, 0), vi(0, 0, -1));
    for seed in 0..10u64 {
        let mut rng = RandomStream::seeded(seed);
        let (scattered, attenuation) = mat.scatter(&ray_in, &hit, &mut rng).unwrap();
        assert_eq!(
            (attenuation.x.bits, attenuation.y.bits, attenuation.z.bits),
            (albedo.x.bits, albedo.y.bits, albedo.z.bits),
        );
        assert_eq!(scattered.origin.z.bits, -FX_HALF);
        assert!(!scattered.direction.near_zero());
    }
}

// A polished metal mirrors the incoming direction exactly.
#[test]
fn metal_without_fuzz_mirrors() {
    let albedo = Vec3::new(
        Fixed::from_ratio(8, 10),
        Fixed::from_ratio(8, 10),
        Fixed::from_ratio(8, 10),
    );
    let mat = Material::Metal(Metal { albedo, fuzz: Fixed { bits: 0 } });
    let hit = record_with(mat, true);
    let ray_in = Ray::new(vi(0, 0, 0), vi(0, 0, -1));
    let mut rng = RandomStream::seeded(5);
    let (scattered, attenuation) = mat.scatter(&ray_in, &hit, &mut rng).unwrap();
    assert_eq!(
        (scattered.direction.x.bits, scattered.direction.y.bits, scattered.direction.z.bits),
        (0, 0, FX_ONE),
    );
    assert_eq!(attenuation.x.bits, albedo.x.bits);
}

// A reflection driven into the surface is absorbed.
#[test]
fn metal_absorbs_grazing_reflections() {
    let albedo = Vec3::new(Fixed::from_int(1), Fixed::from_int(1), Fixed::from_int(1));
    let mat = Material::Metal(Metal { albedo, fuzz: Fixed { bits: 0 } });
    let hit = record_with(mat, true);
    let ray_in = Ray::new(vi(0, 0, -1), vi(0, 0, 1));
    let mut rng = RandomStream::seeded(5);
    assert!(mat.scatter(&ray_in, &hit, &mut rng).is_none());
}

#[test]
fn schlick_reflectance_exact_case() {
    // With cosine one the angular term vanishes; with index three the base
    // reflectance is exactly one quarter.
    let refl = Dielectric::reflectance(Fixed { bits: FX_ONE }, Fixed::from_int(3));
    assert_eq!(refl.bits, FX_SCALE / 4);
}

// At normal incidence from outside with index 3/2 the ray refracts (no
// total internal reflection) and passes straight through: Snell's law at a
// zero angle, exact on the grid.
#[test]
fn dielectric_normal_incidence_refracts() {
    let mat = Material::Dielectric(Dielectric { refraction_index: Fixed::from_ratio(3, 2) });
    let hit = record_with(mat, true);
    let ray_in = Ray::new(vi(0, 0, 0), vi(0, 0, -1));
    let ratio = Fixed::from_int(1).div(Fixed::from_ratio(3, 2));
    let refl = Dielectric::reflectance(Fixed { bits: FX_ONE }, ratio);

    let mut chosen: Option<u64> = None;
    for seed in 0..64u64 {
        let mut probe = RandomStream::seeded(seed);
        if probe.next_unit().bits >= refl.bits {
            chosen = Some(seed);
            break;
        }
    }
    let seed = chosen.expect("some small seed draws above the reflectance");
    let mut rng = RandomStream::seeded(seed);
    let (scattered, attenuation) = mat.scatter(&ray_in, &hit, &mut rng).unwrap();
    assert_eq!(
        (scattered.direction.x.bits, scattered.direction.y.bits, scattered.direction.z.bits),
        (0, 0, -FX_ONE),
    );
    assert_eq!(
        (attenuation.x.bits, attenuation.y.bits, attenuation.z.bits),
        (FX_ONE, FX_ONE, FX_ONE),
    );
}

// Grazing from inside the denser medium, the ratio times the sine exceeds
// one: total internal reflection, whatever the draw.
#[test]
fn dielectric_total_internal_reflection() {
    let mat = Material::Dielectric(Dielectric { refraction_index: Fixed::from_ratio(3, 2) });
    let hit = record_with(mat, false);
    let ray_in = Ray::new(vi(0, 0, 0), vi(1, 0, 0));
    for seed in 0..10u64 {
        let mut rng = RandomStream::seeded(seed);
        let (scattered, _) = mat.scatter(&ray_in, &hit, &mut rng).unwrap();
        assert_eq!(
            (scattered.direction.x.bits, scattered.direction.y.bits, scattered.direction.z.bits),
            (FX_ONE, 0, 0),
        );
    }
}

#[test]
fn material_well_formedness_checks() {
    let good = Material::Dielectric(Dielectric { refraction_index: Fixed::from_ratio(3, 2) });
    assert!(good.is_well_formed());
    let flat = Material::Dielectric(Dielectric { refraction_index: Fixed::from_int(1) });
    assert!(!flat.is_well_formed());
    let loud = Material::Lambertian(
        Lambertian { albedo: Vec3::new(Fixed::from_int(2), Fixed::from_int(0), Fixed::from_int(0)) },
    );
    assert!(!loud.is_well_formed());
}
