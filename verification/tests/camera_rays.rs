use ray_tracer::camera::Camera;
use ray_tracer::fixed::{Fixed, FX_ONE};
use ray_tracer::rng::RandomStream;
use ray_tracer::vec::Vec3;

fn vi(x: i64, y: i64, z: i64) -> Vec3 {
    Vec3::new(Fixed::from_int(x), Fixed::from_int(y), Fixed::from_int(z))
}

fn standard_camera(aperture: Fixed) -> Option<Camera> {
    Camera::new(
        vi(13, 2, 3),
        vi(0, 0, 0),
        vi(0, 1, 0),
        Fixed::from_int(20),
        Fixed::from_ratio(3, 2),
        aperture,
        Fixed::from_int(10),
    )
}

#[test]
fn camera_derives_from_standard_parameters() {
    let cam = standard_camera(Fixed::from_ratio(1, 10)).unwrap();
    assert_eq!(cam.lens_radius.bits, 838860);
    assert_eq!(cam.origin.x.bits, 13 * FX_ONE);
}

#[test]
fn camera_rejects_a_collapsed_look_axis() {
    let r = Camera::new(
        vi(1, 1, 1),
        vi(1, 1, 1),
        vi(0, 1, 0),
        Fixed::from_int(20),
        Fixed::from_ratio(3, 2),
        Fixed { bits: 0 },
        Fixed::from_int(10),
    );
    assert!(r.is_none());
}

#[test]
fn camera_rejects_a_zero_field_of_view() {
    let r = Camera::new(
        vi(13, 2, 3),
        vi(0, 0, 0),
        vi(0, 1, 0),
        Fixed::from_int(0),
        Fixed::from_ratio(3, 2),
        Fixed { bits: 0 },
        Fixed::from_int(10),
    );
    assert!(r.is_none());
}

#[test]
fn camera_rejects_an_up_vector_along_the_view() {
    let r = Camera::new(
        vi(0, 0, 5),
        vi(0, 0, 0),
        vi(0, 0, 1),
        Fixed::from_int(20),
        Fixed::from_ratio(3, 2),
        Fixed { bits: 0 },
        Fixed::from_int(10),
    );
    assert!(r.is_none());
}

// With a closed aperture the lens offset vanishes and every ray leaves the
// camera's own origin.
#[test]
fn pinhole_rays_leave_the_origin() {
    let cam = standard_camera(Fixed { bits: 0 }).unwrap();
    let mut rng = RandomStream::seeded(3);
    for (num_s, num_t) in [(0i64, 0i64), (2, 0), (0, 2), (1, 1), (2, 2)] {
        let s = Fixed::from_ratio(num_s, 2);
        let t = Fixed::from_ratio(num_t, 2);
        let ray = cam.get_ray(s, t, &mut rng);
        assert_eq!(
            (ray.origin.x.bits, ray.origin.y.bits, ray.origin.z.bits),
            (cam.origin.x.bits, cam.origin.y.bits, cam.origin.z.bits),
        );
    }
}

#[test]
fn equal_seeds_give_equal_rays() {
    let cam = standard_camera(Fixed::from_ratio(1, 10)).unwrap();
    let s = Fixed::from_ratio(1, 3);
    let t = Fixed::from_ratio(2, 3);
    let mut rng1 = RandomStream::seeded(99);
    let mut rng2 = RandomStream::seeded(99);
    let r1 = cam.get_ray(s, t, &mut rng1);
    let r2 = cam.get_ray(s, t, &mut rng2);
    assert_eq!(r1, r2);
    assert_eq!(rng1.state, rng2.state);
}
