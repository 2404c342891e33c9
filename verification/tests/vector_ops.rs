use ray_tracer::fixed::{Fixed, FX_ONE, FX_SCALE};
use ray_tracer::rng::RandomStream;
use ray_tracer::vec::Vec3;

fn vi(x: i64, y: i64, z: i64) -> Vec3 {
    Vec3::new(Fixed::from_int(x), Fixed::from_int(y), Fixed::from_int(z))
}

#[test]
fn componentwise_arithmetic_is_exact() {
    let a = vi(1, 2, 3);
    let b = vi(4, 5, 6);
    let s = a.add(b);
    assert_eq!((s.x.bits, s.y.bits, s.z.bits), (5 * FX_SCALE, 7 * FX_SCALE, 9 * FX_SCALE));
    let d = b.sub(a);
    assert_eq!((d.x.bits, d.y.bits, d.z.bits), (3 * FX_SCALE, 3 * FX_SCALE, 3 * FX_SCALE));
    let n = a.neg();
    assert_eq!((n.x.bits, n.y.bits, n.z.bits), (-FX_SCALE, -2 * FX_SCALE, -3 * FX_SCALE));
    let m = a.mul(b);
    assert_eq!((m.x.bits, m.y.bits, m.z.bits), (4 * FX_SCALE, 10 * FX_SCALE, 18 * FX_SCALE));
}

#[test]
fn dot_and_cross_match_the_formulas() {
    let a = vi(1, 2, 3);
    let b = vi(4, 5, 6);
    assert_eq!(a.dot(b).bits, 32 * FX_SCALE);
    let c = vi(1, 0, 0).cross(vi(0, 1, 0));
    assert_eq!((c.x.bits, c.y.bits, c.z.bits), (0, 0, FX_ONE));
}

#[test]
fn length_of_a_pythagorean_vector_is_exact() {
    let v = vi(3, 0, 4);
    assert_eq!(v.length_squared().bits, 25 * FX_SCALE);
    assert_eq!(v.length().bits, 5 * FX_SCALE);
}

// A unit vector has length one, up to the grid's rounding.
#[test]
fn unit_vector_length_is_one_within_tolerance() {
    let v = vi(3, 0, 4);
    let u = v.unit_vector();
    assert!((u.length().bits - FX_ONE).abs() <= 16);
    let w = vi(-7, 11, 2).unit_vector();
    assert!((w.length().bits - FX_ONE).abs() <= 16);
}

// Along an axis the normalization is exact: the slice the library proves.
#[test]
fn unit_vector_axis_is_exactly_one() {
    let v = vi(1, 0, 0);
    let u = v.unit_vector();
    assert_eq!(u.x.bits, FX_ONE);
    assert_eq!(u.length().bits, FX_ONE);
    let v2 = vi(0, 0, 5).unit_vector();
    assert!((v2.length().bits - FX_ONE).abs() <= 16);
}

// Reflection about a unit normal preserves the squared length exactly when
// the products stay on the grid.
#[test]
fn reflect_preserves_length() {
    let v = vi(1, -2, 3);
    let n = vi(0, 0, 1);
    let r = v.reflect(n);
    assert_eq!((r.x.bits, r.y.bits, r.z.bits), (FX_SCALE, -2 * FX_SCALE, -3 * FX_SCALE));
    assert_eq!(r.length_squared().bits, v.length_squared().bits);
    assert_eq!(r.length().bits, v.length().bits);
}

#[test]
fn near_zero_is_the_grid_origin() {
    assert!(Vec3::zero().near_zero());
    assert!(!vi(1, 0, 0).near_zero());
    let tiny = Vec3::new(Fixed { bits: 1 }, Fixed { bits: 0 }, Fixed { bits: 0 });
    assert!(!tiny.near_zero());
}

#[test]
fn ball_samples_stay_inside_the_ball() {
    let mut rng = RandomStream::seeded(11);
    for _ in 0..50 {
        let p = Vec3::random_in_unit_sphere(&mut rng);
        assert!(p.length_squared().bits < FX_ONE);
    }
}

#[test]
fn unit_samples_are_unit_within_tolerance() {
    let mut rng = RandomStream::seeded(12);
    for _ in 0..50 {
        let u = Vec3::random_unit_vector(&mut rng);
        assert!((u.length().bits - FX_ONE).abs() <= 32);
    }
}

#[test]
fn disk_samples_stay_inside_the_disk() {
    let mut rng = RandomStream::seeded(13);
    for _ in 0..50 {
        let p = Vec3::random_in_unit_disk(&mut rng);
        assert_eq!(p.z.bits, 0);
        assert!(p.length_squared().bits < FX_ONE);
    }
}

#[test]
fn random_between_stays_in_range() {
    let mut rng = RandomStream::seeded(14);
    let lo = Fixed::from_int(-2);
    let hi = Fixed::from_int(3);
    for _ in 0..50 {
        let p = Vec3::random_between(lo, hi, &mut rng);
        for b in [p.x.bits, p.y.bits, p.z.bits] {
            assert!(lo.bits <= b && b < hi.bits);
        }
    }
}

#[test]
fn refract_at_normal_incidence_is_straight_through() {
    let u = vi(0, 0, -1);
    let n = vi(0, 0, 1);
    let eta = Fixed::from_int(1).div(Fixed::from_ratio(3, 2));
    let r = u.refract(n, eta);
    assert_eq!((r.x.bits, r.y.bits, r.z.bits), (0, 0, -FX_ONE));
}
