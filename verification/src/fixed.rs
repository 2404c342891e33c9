//! Fixed-point scalars.
//!
//! A `Fixed` carries a real quantity as `bits`, an integer count of
//! `1 / FX_SCALE` steps.  Addition and subtraction are exact; multiplication,
//! division and square root round their mathematical result toward zero onto
//! the grid.  Each operation's contract states the resulting bit pattern
//! exactly, as an integer function of the operands' bit patterns.

use vstd::prelude::*;

verus! {

/// Grid resolution: the number of fixed-point steps per unit (2^24).
pub const FX_SCALE: i128 = 16777216;

/// One unit, in bits.
pub const FX_ONE: i128 = 16777216;

/// One half unit, in bits.
pub const FX_HALF: i128 = 8388608;

/// Magnitude cap (2^126) under which a sum of two bit patterns fits in `i128`.
pub const FX_SUM_CAP: i128 = 0x40000000000000000000000000000000;

/// Cap (2^124) on the product of two operand magnitudes in `mul`.
pub const FX_MUL_CAP: i128 = 0x10000000000000000000000000000000;

/// Cap (2^100) on the numerator magnitude in `div`.
pub const FX_DIV_CAP: i128 = 0x10000000000000000000000000;

/// Cap (2^96) on the operand of `sqrt`.
pub const FX_SQRT_CAP: i128 = 0x1000000000000000000000000;

/// The magnitude of an integer.
pub open spec fn mag(a: int) -> int {
    if a >= 0 {
        a
    } else {
        -a
    }
}

/// Division rounding toward zero, as Rust's integer division does.
pub open spec fn tdiv(a: int, b: int) -> int {
    if (a >= 0) == (b >= 0) {
        mag(a) / mag(b)
    } else {
        -(mag(a) / mag(b))
    }
}

/// The bit pattern of a fixed-point product: the mathematical product of the
/// two represented values, rounded toward zero onto the grid.
pub open spec fn fmul(a: int, b: int) -> int {
    tdiv(a * b, FX_SCALE as int)
}

/// The bit pattern of a fixed-point quotient: the mathematical quotient of
/// the two represented values, rounded toward zero onto the grid.
pub open spec fn fdiv(a: int, b: int) -> int {
    tdiv(a * FX_SCALE, b)
}

/// `r` is the integer square root of `n`: the largest integer whose square
/// does not exceed `n`.
pub open spec fn is_isqrt(n: int, r: int) -> bool {
    0 <= r && r * r <= n && n < (r + 1) * (r + 1)
}

/// The integer square root of `n` (for `n >= 0`).
pub open spec fn isqrt(n: int) -> int {
    choose|r: int| is_isqrt(n, r)
}

/// The bit pattern of a fixed-point square root: `sqrt(v)` in value is
/// `isqrt(bits * FX_SCALE)` in bits.
pub open spec fn fsqrt(a: int) -> int {
    isqrt(a * FX_SCALE)
}

/// The magnitude of a product is the product of the magnitudes, and the
/// product is non-negative exactly when the signs agree.
pub proof fn lemma_mul_mag(a: int, b: int)
    ensures
        mag(a * b) == mag(a) * mag(b),
        a * b >= 0 <==> (a >= 0 && b >= 0) || (a <= 0 && b <= 0),
{
    assert(mag(a * b) == mag(a) * mag(b) && (a * b >= 0 <==> ((a >= 0 && b >= 0) || (a <= 0
        && b <= 0)))) by (nonlinear_arith);
}

/// Squares are monotone over the non-negative integers.
pub proof fn lemma_square_ordered(x: int, y: int)
    requires
        0 <= x <= y,
    ensures
        x * x <= y * y,
{
    assert(x * x <= y * y) by (nonlinear_arith)
        requires
            0 <= x <= y,
    ;
}

/// An integer has at most one integer square root.
pub proof fn lemma_isqrt_unique(n: int, r: int)
    requires
        is_isqrt(n, r),
    ensures
        isqrt(n) == r,
{
    assert(is_isqrt(n, isqrt(n))) by {
        assert(exists|q: int| is_isqrt(n, q)) by {
            assert(is_isqrt(n, r));
        }
    }
    let s = isqrt(n);
    if s < r {
        lemma_square_ordered(s + 1, r);
    }
    if r < s {
        lemma_square_ordered(r + 1, s);
    }
}

/// Every non-negative integer has an integer square root.
pub proof fn lemma_isqrt_exists(n: int)
    requires
        n >= 0,
    ensures
        is_isqrt(n, isqrt(n)),
    decreases n,
{
    if n == 0 {
        assert(is_isqrt(0, 0));
    } else {
        lemma_isqrt_exists(n - 1);
        let rp = isqrt(n - 1);
        if (rp + 1) * (rp + 1) <= n {
            assert(is_isqrt(n, rp + 1)) by (nonlinear_arith)
                requires
                    is_isqrt(n - 1, rp),
                    (rp + 1) * (rp + 1) <= n,
            ;
        } else {
            assert(is_isqrt(n, rp));
        }
    }
    assert(exists|q: int| is_isqrt(n, q));
}

/// Division rounding toward zero is monotone in the dividend.
pub proof fn lemma_tdiv_mono(x: int, y: int, d: int)
    requires
        x <= y,
        d > 0,
    ensures
        tdiv(x, d) <= tdiv(y, d),
{
    if x >= 0 {
        vstd::arithmetic::div_mod::lemma_div_is_ordered(x, y, d);
    } else if y >= 0 {
        vstd::arithmetic::div_mod::lemma_div_pos_is_pos(-x, d);
        vstd::arithmetic::div_mod::lemma_div_pos_is_pos(y, d);
    } else {
        vstd::arithmetic::div_mod::lemma_div_is_ordered(-y, -x, d);
    }
}

/// Dividing by a positive integer maps magnitudes to magnitudes.
pub proof fn lemma_tdiv_mag(a: int, b: int)
    requires
        b > 0,
    ensures
        mag(tdiv(a, b)) == mag(a) / b,
        mag(tdiv(a, b)) <= mag(a),
{
    vstd::arithmetic::div_mod::lemma_div_pos_is_pos(mag(a), b);
    vstd::arithmetic::div_mod::lemma_div_nonincreasing(mag(a), b);
}

/// Rounded products respect magnitude bounds on their operands.
pub proof fn lemma_fmul_bound(a: int, b: int, ma: int, mb: int)
    requires
        mag(a) <= ma,
        mag(b) <= mb,
    ensures
        mag(a) * mag(b) <= ma * mb,
        mag(a * b) <= ma * mb,
        mag(fmul(a, b)) <= (ma * mb) / (FX_SCALE as int),
        mag(fmul(a, b)) * FX_SCALE <= ma * mb,
{
    lemma_mul_mag(a, b);
    assert(mag(a) * mag(b) <= ma * mb) by (nonlinear_arith)
        requires
            0 <= mag(a) <= ma,
            0 <= mag(b) <= mb,
    ;
    lemma_tdiv_mag(a * b, FX_SCALE as int);
    vstd::arithmetic::div_mod::lemma_div_is_ordered(mag(a * b), ma * mb, FX_SCALE as int);
    vstd::arithmetic::div_mod::lemma_fundamental_div_mod(ma * mb, FX_SCALE as int);
    vstd::arithmetic::div_mod::lemma_mod_bound(ma * mb, FX_SCALE as int);
    assert(((ma * mb) / (FX_SCALE as int)) * FX_SCALE <= ma * mb) by (nonlinear_arith)
        requires
            ma * mb == FX_SCALE * ((ma * mb) / (FX_SCALE as int)) + (ma * mb) % (
            FX_SCALE as int),
            0 <= (ma * mb) % (FX_SCALE as int),
    ;
    assert(mag(fmul(a, b)) * FX_SCALE <= ((ma * mb) / (FX_SCALE as int)) * FX_SCALE)
        by (nonlinear_arith)
        requires
            mag(fmul(a, b)) <= (ma * mb) / (FX_SCALE as int),
            FX_SCALE == 16777216,
    ;
}

/// A rounded product of non-negative factors is their exact product divided
/// by the grid, and in particular non-negative.
pub proof fn lemma_fmul_nonneg(a: int, b: int)
    requires
        a >= 0,
        b >= 0,
    ensures
        fmul(a, b) == (a * b) / (FX_SCALE as int),
        fmul(a, b) >= 0,
{
    lemma_mul_mag(a, b);
    vstd::arithmetic::div_mod::lemma_div_pos_is_pos(a * b, FX_SCALE as int);
}

/// An integer square root is bounded by any number whose square bounds the
/// operand.
pub proof fn lemma_isqrt_le(n: int, r: int, m: int)
    requires
        is_isqrt(n, r),
        0 <= m,
        n <= m * m,
    ensures
        r <= m,
{
    if m < r {
        lemma_square_ordered(m + 1, r);
        assert(m * m < (m + 1) * (m + 1)) by (nonlinear_arith)
            requires
                m >= 0,
        ;
    }
}

/// Rounded quotients respect a magnitude bound on the numerator when the
/// divisor's magnitude is at least one.
pub proof fn lemma_fdiv_bound(a: int, b: int, ma: int)
    requires
        mag(a) <= ma,
        mag(b) >= 1,
    ensures
        mag(fdiv(a, b)) <= ma * FX_SCALE,
{
    if b >= 0 {
        lemma_tdiv_mag(a * FX_SCALE, b);
    } else {
        lemma_tdiv_mag(a * FX_SCALE, -b);
        assert(mag(tdiv(a * FX_SCALE, b)) == mag(tdiv(a * FX_SCALE, -b)));
    }
    lemma_mul_mag(a, FX_SCALE as int);
    assert(mag(a) * FX_SCALE <= ma * FX_SCALE) by (nonlinear_arith)
        requires
            0 <= mag(a) <= ma,
            FX_SCALE == 16777216,
    ;
    vstd::arithmetic::div_mod::lemma_div_is_ordered(mag(a * FX_SCALE), ma * FX_SCALE, mag(b));
    vstd::arithmetic::div_mod::lemma_div_is_ordered_by_denominator(ma * FX_SCALE, 1, mag(b));
    vstd::arithmetic::div_mod::lemma_div_by_self(1);
}

/// Rounded quotients respect a magnitude bound on the numerator and a lower
/// bound on the divisor's magnitude.
pub proof fn lemma_fdiv_bound_low(a: int, b: int, ma: int, mb_low: int)
    requires
        mag(a) <= ma,
        1 <= mb_low <= mag(b),
    ensures
        mag(fdiv(a, b)) <= (ma * FX_SCALE) / mb_low,
{
    if b >= 0 {
        lemma_tdiv_mag(a * FX_SCALE, b);
    } else {
        lemma_tdiv_mag(a * FX_SCALE, -b);
        assert(mag(tdiv(a * FX_SCALE, b)) == mag(tdiv(a * FX_SCALE, -b)));
    }
    lemma_mul_mag(a, FX_SCALE as int);
    assert(mag(a) * FX_SCALE <= ma * FX_SCALE) by (nonlinear_arith)
        requires
            0 <= mag(a) <= ma,
            FX_SCALE == 16777216,
    ;
    vstd::arithmetic::div_mod::lemma_div_is_ordered(mag(a * FX_SCALE), ma * FX_SCALE, mag(b));
    vstd::arithmetic::div_mod::lemma_div_is_ordered_by_denominator(ma * FX_SCALE, mb_low, mag(b));
}

/// One is the multiplicative identity of the rounded product.
pub proof fn lemma_fmul_one(a: int)
    ensures
        fmul(a, FX_ONE as int) == a,
{
    lemma_mul_mag(a, FX_ONE as int);
    lemma_tdiv_mag(a * FX_ONE, FX_SCALE as int);
    vstd::arithmetic::div_mod::lemma_div_by_multiple(mag(a), FX_SCALE as int);
    assert(mag(a) * FX_ONE == mag(a) * FX_SCALE);
}

/// Multiplying by zero gives zero on the grid.
pub proof fn lemma_fmul_zero(a: int)
    ensures
        fmul(a, 0) == 0,
        fmul(0, a) == 0,
{
    lemma_mul_mag(a, 0);
    lemma_mul_mag(0, a);
    vstd::arithmetic::div_mod::lemma_div_of0(FX_SCALE as int);
}

/// Negating one factor negates the rounded product.
pub proof fn lemma_fmul_neg(a: int, b: int)
    ensures
        fmul(a, -b) == -fmul(a, b),
{
    lemma_mul_mag(a, b);
    lemma_mul_mag(a, -b);
    assert(a * -b == -(a * b)) by (nonlinear_arith);
}

/// A fixed-point scalar: the represented value is `bits / FX_SCALE`.
#[derive(Clone, Copy, PartialEq, Eq, Structural, Debug)]
pub struct Fixed {
    pub bits: i128,
}

impl Fixed {
    /// The zero scalar.
    pub fn zero() -> (r: Fixed)
        ensures
            r.bits == 0,
    {
        Fixed { bits: 0 }
    }

    /// The unit scalar.
    pub fn one() -> (r: Fixed)
        ensures
            r.bits == FX_ONE,
    {
        Fixed { bits: FX_ONE }
    }

    /// The scalar representing the integer `n` exactly.
    pub fn from_int(n: i64) -> (r: Fixed)
        ensures
            r.bits == n * FX_SCALE,
    {
        Fixed { bits: (n as i128) * FX_SCALE }
    }

    /// The scalar nearest `num / den` from the side of zero.
    pub fn from_ratio(num: i64, den: i64) -> (r: Fixed)
        requires
            den > 0,
        ensures
            r.bits == tdiv(num * FX_SCALE, den as int),
    {
        let scaled: i128 = (num as i128) * FX_SCALE;
        if scaled >= 0 {
            let q: u128 = (scaled as u128) / (den as u128);
            Fixed { bits: q as i128 }
        } else {
            let q: u128 = ((-scaled) as u128) / (den as u128);
            Fixed { bits: -(q as i128) }
        }
    }

    /// Exact addition.
    pub fn add(self, o: Fixed) -> (r: Fixed)
        requires
            mag(self.bits as int) + mag(o.bits as int) < FX_SUM_CAP,
        ensures
            r.bits == self.bits + o.bits,
    {
        Fixed { bits: self.bits + o.bits }
    }

    /// Exact subtraction.
    pub fn sub(self, o: Fixed) -> (r: Fixed)
        requires
            mag(self.bits as int) + mag(o.bits as int) < FX_SUM_CAP,
        ensures
            r.bits == self.bits - o.bits,
    {
        Fixed { bits: self.bits - o.bits }
    }

    /// Exact negation.
    pub fn neg(self) -> (r: Fixed)
        requires
            mag(self.bits as int) < FX_SUM_CAP,
        ensures
            r.bits == -self.bits,
    {
        Fixed { bits: -self.bits }
    }

    /// Product, rounded toward zero onto the grid.
    pub fn mul(self, o: Fixed) -> (r: Fixed)
        requires
            mag(self.bits as int) < FX_SUM_CAP,
            mag(o.bits as int) < FX_SUM_CAP,
            mag(self.bits as int) * mag(o.bits as int) <= FX_MUL_CAP,
        ensures
            r.bits == fmul(self.bits as int, o.bits as int),
    {
        let a: i128 = self.bits;
        let b: i128 = o.bits;
        proof {
            lemma_mul_mag(a as int, b as int);
        }
        let ma: u128 = if a >= 0 {
            a as u128
        } else {
            (-a) as u128
        };
        let mb: u128 = if b >= 0 {
            b as u128
        } else {
            (-b) as u128
        };
        let mp: u128 = ma * mb;
        let q: u128 = mp / (FX_SCALE as u128);
        proof {
            lemma_tdiv_mag(a as int * b as int, FX_SCALE as int);
        }
        let qi: i128 = q as i128;
        if (a < 0) != (b < 0) {
            Fixed { bits: -qi }
        } else {
            Fixed { bits: qi }
        }
    }

    /// Quotient, rounded toward zero onto the grid.
    pub fn div(self, o: Fixed) -> (r: Fixed)
        requires
            o.bits != 0,
            mag(self.bits as int) <= FX_DIV_CAP,
            mag(o.bits as int) < FX_SUM_CAP,
        ensures
            r.bits == fdiv(self.bits as int, o.bits as int),
    {
        let a: i128 = self.bits;
        let b: i128 = o.bits;
        let ma: u128 = if a >= 0 {
            a as u128
        } else {
            (-a) as u128
        };
        let mb: u128 = if b >= 0 {
            b as u128
        } else {
            (-b) as u128
        };
        proof {
            assert(ma <= 0x10000000000000000000000000u128);
        }
        let num: u128 = ma * (FX_SCALE as u128);
        let q: u128 = num / mb;
        proof {
            lemma_mul_mag(a as int, FX_SCALE as int);
            lemma_tdiv_mag(a as int * FX_SCALE as int, mag(b as int));
            vstd::arithmetic::div_mod::lemma_div_nonincreasing(
                mag(a as int * FX_SCALE as int),
                mag(b as int),
            );
        }
        let qi: i128 = q as i128;
        if (a < 0) != (b < 0) {
            Fixed { bits: -qi }
        } else {
            Fixed { bits: qi }
        }
    }

    /// The magnitude of a scalar.
    pub fn abs(self) -> (r: Fixed)
        requires
            mag(self.bits as int) < FX_SUM_CAP,
        ensures
            r.bits == mag(self.bits as int),
    {
        if self.bits >= 0 {
            self
        } else {
            Fixed { bits: -self.bits }
        }
    }

    /// The smaller of two scalars.
    pub fn min(self, o: Fixed) -> (r: Fixed)
        ensures
            r.bits == if self.bits <= o.bits {
                self.bits
            } else {
                o.bits
            },
    {
        if self.bits <= o.bits {
            self
        } else {
            o
        }
    }

    /// Square root of a non-negative scalar, rounded toward zero onto the
    /// grid.
    pub fn sqrt(self) -> (r: Fixed)
        requires
            0 <= self.bits <= FX_SQRT_CAP,
        ensures
            r.bits == fsqrt(self.bits as int),
            is_isqrt(self.bits * FX_SCALE, r.bits as int),
            0 <= r.bits <= 0x2000000000000000,
    {
        let n: u128 = (self.bits as u128) * (FX_SCALE as u128);
        proof {
            assert(n as int <= 0x1000000000000000000000000000000int) by (nonlinear_arith)
                requires
                    n as int == (self.bits as int) * 16777216,
                    0 <= self.bits as int <= 0x1000000000000000000000000int,
            ;
        }
        let s: u128 = isqrt_u128(n);
        proof {
            lemma_isqrt_unique(n as int, s as int);
        }
        Fixed { bits: s as i128 }
    }
}

/// Binary search for the integer square root.
fn isqrt_u128(n: u128) -> (r: u128)
    requires
        n <= 0x1000000000000000000000000000000,
    ensures
        is_isqrt(n as int, r as int),
        r <= 0x2000000000000000,
{
    let mut lo: u128 = 0;
    let mut hi: u128 = 0x2000000000000000;
    proof {
        assert((0x2000000000000000 as int) * (0x2000000000000000 as int)
            > 0x1000000000000000000000000000000) by (nonlinear_arith);
    }
    while lo + 1 < hi
        invariant
            lo < hi <= 0x2000000000000000,
            (lo as int) * (lo as int) <= n as int,
            (n as int) < (hi as int) * (hi as int),
        decreases hi - lo,
    {
        let mid: u128 = lo + (hi - lo) / 2;
        proof {
            assert((mid as int) * (mid as int) <= (0x2000000000000000 as int) * (
            0x2000000000000000 as int)) by (nonlinear_arith)
                requires
                    0 <= mid <= 0x2000000000000000,
            ;
        }
        if mid * mid <= n {
            lo = mid;
        } else {
            hi = mid;
        }
    }
    lo
}

} // verus!
