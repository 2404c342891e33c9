use ray_tracer::fixed::{Fixed, FX_HALF, FX_ONE};
use ray_tracer::hittable::Hittable;
use ray_tracer::hittable_list::HittableList;
use ray_tracer::material::{Lambertian, Material};
use ray_tracer::ray::Ray;
use ray_tracer::sphere::Sphere;
use ray_tracer::vec::Vec3;

fn vi(x: i64, y: i64, z: i64) -> Vec3 {
    Vec3::new(Fixed::from_int(x), Fixed::from_int(y), Fixed::from_int(z))
}

fn gray() -> Material {
    Material::Lambertian(
        Lambertian {
            albedo: Vec3::new(
                Fixed::from_ratio(1, 2),
                Fixed::from_ratio(1, 2),
                Fixed::from_ratio(1, 2),
            ),
        },
    )
}

fn sphere_at(z: i64, radius_num: i64, radius_den: i64) -> Sphere {
    Sphere {
        center: vi(0, 0, z),
        radius: Fixed::from_ratio(radius_num, radius_den),
        material: gray(),
    }
}

fn forward_ray() -> Ray {
    Ray::new(vi(0, 0, 0), vi(0, 0, -1))
}

// A ray from the origin toward -z against the sphere of radius one half
// centered one unit away hits at exactly t = 1/2 with normal +z.
#[test]
fn sphere_hit_front_is_exact() {
    let s = sphere_at(-1, 1, 2);
    let hit = s.hit(&forward_ray(), Fixed { bits: 1 }, Fixed::from_int(100)).unwrap();
    assert_eq!(hit.t.bits, FX_HALF);
    assert!(hit.front_face);
    assert_eq!((hit.normal.x.bits, hit.normal.y.bits, hit.normal.z.bits), (0, 0, FX_ONE));
    assert_eq!((hit.point.x.bits, hit.point.y.bits, hit.point.z.bits), (0, 0, -FX_HALF));
}

// From inside the sphere the smaller root is behind the window, the larger
// root is taken, and the normal is flipped onto the ray's side.
#[test]
fn sphere_hit_from_inside_flips_the_normal() {
    let s = sphere_at(-1, 1, 2);
    let r = Ray::new(vi(0, 0, -1), vi(0, 0, -1));
    let hit = s.hit(&r, Fixed { bits: 1 }, Fixed::from_int(100)).unwrap();
    assert_eq!(hit.t.bits, FX_HALF);
    assert!(!hit.front_face);
    assert_eq!((hit.normal.x.bits, hit.normal.y.bits, hit.normal.z.bits), (0, 0, FX_ONE));
}

#[test]
fn sphere_miss_returns_nothing() {
    let s = sphere_at(-5, 1, 2);
    let up = Ray::new(vi(0, 0, 0), vi(0, 1, 0));
    assert!(s.hit(&up, Fixed { bits: 1 }, Fixed::from_int(100)).is_none());
}

#[test]
fn sphere_ignores_hits_outside_the_window() {
    let s = sphere_at(-1, 1, 2);
    assert!(s.hit(&forward_ray(), Fixed { bits: 1 }, Fixed::from_ratio(1, 4)).is_none());
    assert!(s.hit(&forward_ray(), Fixed::from_int(2), Fixed::from_int(100)).is_none());
}

#[test]
fn sphere_window_includes_its_lower_bound() {
    let s = sphere_at(-1, 1, 2);
    let at_bound = s.hit(&forward_ray(), Fixed { bits: FX_HALF }, Fixed::from_int(100)).unwrap();
    assert_eq!(at_bound.t.bits, FX_HALF);
    // Past the near root, the far root at three halves is next.
    let far = s.hit(&forward_ray(), Fixed::from_int(1), Fixed::from_int(100)).unwrap();
    assert_eq!(far.t.bits, FX_HALF * 3);
    assert!(!far.front_face);
}

#[test]
fn degenerate_direction_hits_nothing() {
    let s = sphere_at(-1, 1, 2);
    let still = Ray::new(vi(0, 0, 0), vi(0, 0, 0));
    assert!(s.hit(&still, Fixed { bits: 1 }, Fixed::from_int(100)).is_none());
}

// Of two overlapping spheres along the ray's path the nearer hit wins,
// whatever the insertion order, and its record obeys the orientation
// invariant.
#[test]
fn scene_returns_the_nearest_hit() {
    let near = Hittable::Sphere(sphere_at(-1, 1, 2));
    let far = Hittable::Sphere(sphere_at(-2, 1, 2));

    let mut world = HittableList::new();
    world.add(far);
    world.add(near);
    let hit = world.hit(&forward_ray(), Fixed { bits: 1 }, Fixed::from_int(100)).unwrap();
    assert_eq!(hit.t.bits, FX_HALF);
    assert!(hit.front_face);
    assert_eq!((hit.normal.x.bits, hit.normal.y.bits, hit.normal.z.bits), (0, 0, FX_ONE));

    let mut world2 = HittableList::new();
    world2.add(near);
    world2.add(far);
    let hit2 = world2.hit(&forward_ray(), Fixed { bits: 1 }, Fixed::from_int(100)).unwrap();
    assert_eq!(hit2.t.bits, FX_HALF);
    assert_eq!(hit2.front_face, hit.front_face);
}

#[test]
fn scene_membership_and_clear() {
    let mut world = HittableList::new();
    assert_eq!(world.objects.len(), 0);
    world.add(Hittable::Sphere(sphere_at(-1, 1, 2)));
    world.add(Hittable::Sphere(sphere_at(-2, 1, 2)));
    assert_eq!(world.objects.len(), 2);
    assert!(world.is_well_formed());
    world.clear();
    assert_eq!(world.objects.len(), 0);
    assert!(world.hit(&forward_ray(), Fixed { bits: 1 }, Fixed::from_int(100)).is_none());
}

#[test]
fn ray_at_evaluates_the_parametric_point() {
    let r = Ray::new(vi(1, 2, 3), vi(1, 0, 0));
    let p = r.at(Fixed::from_int(2));
    assert_eq!(
        (p.x.bits, p.y.bits, p.z.bits),
        (Fixed::from_int(3).bits, Fixed::from_int(2).bits, Fixed::from_int(3).bits),
    );
}
