use ray_tracer::fixed::{Fixed, FX_HALF, FX_ONE, FX_SCALE};

#[test]
fn from_int_scales_onto_grid() {
    assert_eq!(Fixed::from_int(1).bits, FX_ONE);
    assert_eq!(Fixed::from_int(-3).bits, -3 * FX_SCALE);
    assert_eq!(Fixed::from_int(0).bits, 0);
}

#[test]
fn from_ratio_rounds_toward_zero() {
    assert_eq!(Fixed::from_ratio(1, 2).bits, FX_HALF);
    assert_eq!(Fixed::from_ratio(-1, 2).bits, -FX_HALF);
    assert_eq!(Fixed::from_ratio(1, 10).bits, 1677721);
    assert_eq!(Fixed::from_ratio(-1, 10).bits, -1677721);
    assert_eq!(Fixed::from_ratio(7, 10).bits, 11744051);
}

#[test]
fn add_sub_neg_are_exact() {
    let a = Fixed::from_int(5);
    let b = Fixed::from_ratio(1, 2);
    assert_eq!(a.add(b).bits, 5 * FX_SCALE + FX_HALF);
    assert_eq!(a.sub(b).bits, 5 * FX_SCALE - FX_HALF);
    assert_eq!(b.neg().bits, -FX_HALF);
}

#[test]
fn mul_matches_exact_products() {
    assert_eq!(Fixed::from_int(3).mul(Fixed::from_int(4)).bits, 12 * FX_SCALE);
    assert_eq!(Fixed::from_int(-3).mul(Fixed::from_int(4)).bits, -12 * FX_SCALE);
    let half = Fixed { bits: FX_HALF };
    assert_eq!(half.mul(half).bits, FX_SCALE / 4);
}

#[test]
fn div_matches_exact_quotients() {
    assert_eq!(Fixed::from_int(12).div(Fixed::from_int(4)).bits, 3 * FX_SCALE);
    assert_eq!(Fixed::from_int(1).div(Fixed::from_int(2)).bits, FX_HALF);
    assert_eq!(Fixed::from_int(-1).div(Fixed::from_int(2)).bits, -FX_HALF);
}

#[test]
fn sqrt_of_perfect_squares_is_exact() {
    assert_eq!(Fixed::from_int(9).sqrt().bits, 3 * FX_SCALE);
    assert_eq!(Fixed::from_int(0).sqrt().bits, 0);
    assert_eq!(Fixed::from_int(1).sqrt().bits, FX_ONE);
    assert_eq!(Fixed::from_ratio(1, 4).sqrt().bits, FX_HALF);
}

#[test]
fn sqrt_is_the_rounded_down_root() {
    let r = Fixed::from_int(2).sqrt().bits;
    let n = 2 * FX_SCALE * FX_SCALE;
    assert!(r * r <= n);
    assert!(n < (r + 1) * (r + 1));
}

#[test]
fn abs_min_behave() {
    assert_eq!(Fixed::from_int(-7).abs().bits, 7 * FX_SCALE);
    assert_eq!(Fixed::from_int(7).abs().bits, 7 * FX_SCALE);
    assert_eq!(Fixed::from_int(3).min(Fixed::from_int(2)).bits, 2 * FX_SCALE);
}
