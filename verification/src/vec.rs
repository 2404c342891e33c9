//! The three-component vector kernel.
//!
//! A `Vec3` serves uniformly as a point, a direction and a linear-space
//! color.  Every operation returns a new vector and carries an exact
//! contract: the resulting bit patterns are stated as integer functions of
//! the operands' bit patterns, through the spec mirrors below.

use crate::fixed::{
    fdiv, fmul, fsqrt, is_isqrt, isqrt, lemma_fmul_bound, lemma_fmul_nonneg, lemma_isqrt_exists,
    lemma_isqrt_le, lemma_isqrt_unique, lemma_mul_mag, lemma_square_ordered, lemma_tdiv_mag, mag,
    Fixed, FX_HALF, FX_MUL_CAP, FX_ONE, FX_SCALE,
};
use crate::rng::{stream_mix, stream_step, unit_fraction, RandomStream};
use vstd::prelude::*;

verus! {

/// Magnitude cap on the components of the operands of the vector operations:
/// large enough for every intermediate of the tracer, small enough that no
/// product leaves `i128`.
pub const VEC_CAP: i128 = 0x4000000000000;

/// A vector of three fixed-point components.
#[derive(Clone, Copy, PartialEq, Eq, Structural, Debug)]
pub struct Vec3 {
    pub x: Fixed,
    pub y: Fixed,
    pub z: Fixed,
}

/// All three components have magnitude at most `m`.
pub open spec fn vec_within(v: Vec3, m: int) -> bool {
    mag(v.x.bits as int) <= m && mag(v.y.bits as int) <= m && mag(v.z.bits as int) <= m
}

/// Componentwise sum.
pub open spec fn add_spec(a: Vec3, b: Vec3) -> Vec3 {
    Vec3 {
        x: Fixed { bits: (a.x.bits + b.x.bits) as i128 },
        y: Fixed { bits: (a.y.bits + b.y.bits) as i128 },
        z: Fixed { bits: (a.z.bits + b.z.bits) as i128 },
    }
}

/// Componentwise difference.
pub open spec fn sub_spec(a: Vec3, b: Vec3) -> Vec3 {
    Vec3 {
        x: Fixed { bits: (a.x.bits - b.x.bits) as i128 },
        y: Fixed { bits: (a.y.bits - b.y.bits) as i128 },
        z: Fixed { bits: (a.z.bits - b.z.bits) as i128 },
    }
}

/// Componentwise negation.
pub open spec fn neg_spec(a: Vec3) -> Vec3 {
    Vec3 {
        x: Fixed { bits: (-a.x.bits) as i128 },
        y: Fixed { bits: (-a.y.bits) as i128 },
        z: Fixed { bits: (-a.z.bits) as i128 },
    }
}

/// Componentwise product.
pub open spec fn mul_spec(a: Vec3, b: Vec3) -> Vec3 {
    Vec3 {
        x: Fixed { bits: fmul(a.x.bits as int, b.x.bits as int) as i128 },
        y: Fixed { bits: fmul(a.y.bits as int, b.y.bits as int) as i128 },
        z: Fixed { bits: fmul(a.z.bits as int, b.z.bits as int) as i128 },
    }
}

/// Product with the scalar of bit pattern `t`.
pub open spec fn scale_spec(a: Vec3, t: int) -> Vec3 {
    Vec3 {
        x: Fixed { bits: fmul(a.x.bits as int, t) as i128 },
        y: Fixed { bits: fmul(a.y.bits as int, t) as i128 },
        z: Fixed { bits: fmul(a.z.bits as int, t) as i128 },
    }
}

/// Quotient by the scalar of bit pattern `t`.
pub open spec fn div_spec(a: Vec3, t: int) -> Vec3 {
    Vec3 {
        x: Fixed { bits: fdiv(a.x.bits as int, t) as i128 },
        y: Fixed { bits: fdiv(a.y.bits as int, t) as i128 },
        z: Fixed { bits: fdiv(a.z.bits as int, t) as i128 },
    }
}

/// The dot product's bit pattern.
pub open spec fn dot_spec(a: Vec3, b: Vec3) -> int {
    fmul(a.x.bits as int, b.x.bits as int) + fmul(a.y.bits as int, b.y.bits as int) + fmul(
        a.z.bits as int,
        b.z.bits as int,
    )
}

/// The squared length's bit pattern.
pub open spec fn ls_spec(v: Vec3) -> int {
    dot_spec(v, v)
}

/// The length's bit pattern: the fixed-point square root of the squared
/// length.
pub open spec fn len_spec(v: Vec3) -> int {
    fsqrt(ls_spec(v))
}

/// The cross product.
pub open spec fn cross_spec(a: Vec3, b: Vec3) -> Vec3 {
    Vec3 {
        x: Fixed {
            bits: (fmul(a.y.bits as int, b.z.bits as int) - fmul(
                b.y.bits as int,
                a.z.bits as int,
            )) as i128,
        },
        y: Fixed {
            bits: (fmul(a.z.bits as int, b.x.bits as int) - fmul(
                b.z.bits as int,
                a.x.bits as int,
            )) as i128,
        },
        z: Fixed {
            bits: (fmul(a.x.bits as int, b.y.bits as int) - fmul(
                b.x.bits as int,
                a.y.bits as int,
            )) as i128,
        },
    }
}

/// The normalized vector: each component divided by the length.
pub open spec fn unit_spec(v: Vec3) -> Vec3 {
    div_spec(v, len_spec(v))
}

/// Reflection about a normal: `v - n * (2 * dot(v, n))`.
pub open spec fn reflect_spec(v: Vec3, n: Vec3) -> Vec3 {
    sub_spec(v, scale_spec(n, (2 * dot_spec(v, n)) as i128 as int))
}

/// Refraction of the unit direction `u` at the normal `n` with refraction
/// ratio of bit pattern `eta`: the perpendicular component is the direction
/// shifted by the normal scaled with the clamped cosine and then scaled by
/// the ratio; the parallel component is the normal scaled by the root of the
/// clamped complement of the perpendicular part's squared length.
pub open spec fn refract_spec(u: Vec3, n: Vec3, eta: int) -> Vec3 {
    let d = dot_spec(n, u);
    let cos = if FX_ONE <= -d {
        FX_ONE as int
    } else {
        -d
    };
    let perp = scale_spec(add_spec(u, scale_spec(n, cos)), eta);
    let radicand = mag(FX_ONE - ls_spec(perp));
    let par = scale_spec(neg_spec(n), isqrt(radicand * FX_SCALE));
    add_spec(perp, par)
}

/// A dot product of vectors within `ma` and `mb` is within `3 * ma * mb`
/// scaled down by the grid.
pub proof fn lemma_dot_bound(a: Vec3, b: Vec3, ma: int, mb: int)
    requires
        vec_within(a, ma),
        vec_within(b, mb),
    ensures
        mag(dot_spec(a, b)) <= 3 * ((ma * mb) / (FX_SCALE as int)),
{
    lemma_fmul_bound(a.x.bits as int, b.x.bits as int, ma, mb);
    lemma_fmul_bound(a.y.bits as int, b.y.bits as int, ma, mb);
    lemma_fmul_bound(a.z.bits as int, b.z.bits as int, ma, mb);
}

/// Componentwise sums respect componentwise bounds.
pub proof fn lemma_add_within(a: Vec3, b: Vec3, ma: int, mb: int)
    requires
        vec_within(a, ma),
        vec_within(b, mb),
        0 <= ma,
        0 <= mb,
        ma + mb < 0x40000000000000000000000000000000,
    ensures
        vec_within(add_spec(a, b), ma + mb),
{
}

/// Componentwise differences respect componentwise bounds.
pub proof fn lemma_sub_within(a: Vec3, b: Vec3, ma: int, mb: int)
    requires
        vec_within(a, ma),
        vec_within(b, mb),
        0 <= ma,
        0 <= mb,
        ma + mb < 0x40000000000000000000000000000000,
    ensures
        vec_within(sub_spec(a, b), ma + mb),
{
}

/// Scalar products respect componentwise bounds.
pub proof fn lemma_scale_within(a: Vec3, t: int, ma: int, mt: int)
    requires
        vec_within(a, ma),
        mag(t) <= mt,
        0 <= ma,
        0 <= mt,
        ma * mt <= FX_MUL_CAP,
    ensures
        vec_within(scale_spec(a, t), (ma * mt) / (FX_SCALE as int)),
{
    lemma_fmul_bound(a.x.bits as int, t, ma, mt);
    lemma_fmul_bound(a.y.bits as int, t, ma, mt);
    lemma_fmul_bound(a.z.bits as int, t, ma, mt);
}

/// Componentwise products respect componentwise bounds.
pub proof fn lemma_mul_within(a: Vec3, b: Vec3, ma: int, mb: int)
    requires
        vec_within(a, ma),
        vec_within(b, mb),
        0 <= ma,
        0 <= mb,
        ma * mb <= FX_MUL_CAP,
    ensures
        vec_within(mul_spec(a, b), (ma * mb) / (FX_SCALE as int)),
{
    lemma_fmul_bound(a.x.bits as int, b.x.bits as int, ma, mb);
    lemma_fmul_bound(a.y.bits as int, b.y.bits as int, ma, mb);
    lemma_fmul_bound(a.z.bits as int, b.z.bits as int, ma, mb);
}

/// Reflection preserves magnitude.  In the homogeneous integer form: for
/// integer vectors `v` and `n` with `dot(n, n) == k`, the reflected vector
/// `k*v - 2*dot(v, n)*n` has squared length `k*k*dot(v, v)`; for a unit
/// normal (`k` one) the squared length of the reflection equals that of the
/// original vector.  This is the exact identity that the grid's rounded
/// `reflect` approximates.
pub proof fn lemma_reflect_preserves_length(
    vx: int,
    vy: int,
    vz: int,
    nx: int,
    ny: int,
    nz: int,
    k: int,
)
    requires
        nx * nx + ny * ny + nz * nz == k,
    ensures
        ({
            let d = vx * nx + vy * ny + vz * nz;
            let rx = k * vx - 2 * d * nx;
            let ry = k * vy - 2 * d * ny;
            let rz = k * vz - 2 * d * nz;
            rx * rx + ry * ry + rz * rz == k * k * (vx * vx + vy * vy + vz * vz)
        }),
{
    let d = vx * nx + vy * ny + vz * nz;
    lemma_square_of_shifted(k * vx, d * nx);
    lemma_square_of_shifted(k * vy, d * ny);
    lemma_square_of_shifted(k * vz, d * nz);
    lemma_square_of_product(k, vx);
    lemma_square_of_product(k, vy);
    lemma_square_of_product(k, vz);
    lemma_square_of_product(d, nx);
    lemma_square_of_product(d, ny);
    lemma_square_of_product(d, nz);
    lemma_product_shuffle(k, vx, d, nx);
    lemma_product_shuffle(k, vy, d, ny);
    lemma_product_shuffle(k, vz, d, nz);
    lemma_triple_distribute(k * k, vx * vx, vy * vy, vz * vz);
    lemma_triple_distribute(k * d, vx * nx, vy * ny, vz * nz);
    lemma_triple_distribute(d * d, nx * nx, ny * ny, nz * nz);
    assert(2 * d * nx == 2 * (d * nx) && 2 * d * ny == 2 * (d * ny) && 2 * d * nz == 2 * (d * nz))
        by (nonlinear_arith);
    assert((k * d) * d == k * (d * d) && (d * d) * k == k * (d * d)) by (nonlinear_arith);
}

/// A product of two whole-unit scalars rounds onto the grid exactly.
proof fn lemma_fmul_scaled(p: int, q: int)
    ensures
        fmul(FX_ONE * p, FX_ONE * q) == FX_ONE * (p * q),
{
    assert((FX_ONE * p) * (FX_ONE * q) == (FX_ONE * (p * q)) * FX_SCALE) by (nonlinear_arith)
        requires
            FX_ONE == 16777216,
            FX_SCALE == 16777216,
    ;
    crate::fixed::lemma_fmul_one(FX_ONE * (p * q));
    assert((FX_ONE * (p * q)) * FX_ONE == (FX_ONE * (p * q)) * FX_SCALE);
}

/// On whole-unit vectors the rounded reflection is exact: for a vector and
/// a unit normal whose components are all whole units, reflecting preserves
/// the squared length with no error at all.
pub proof fn lemma_reflect_exact_on_grid(
    v: Vec3,
    n: Vec3,
    ax: int,
    ay: int,
    az: int,
    bx: int,
    by: int,
    bz: int,
)
    requires
        v.x.bits == FX_ONE * ax,
        v.y.bits == FX_ONE * ay,
        v.z.bits == FX_ONE * az,
        n.x.bits == FX_ONE * bx,
        n.y.bits == FX_ONE * by,
        n.z.bits == FX_ONE * bz,
        mag(ax) <= 16384,
        mag(ay) <= 16384,
        mag(az) <= 16384,
        mag(bx) <= 16384,
        mag(by) <= 16384,
        mag(bz) <= 16384,
        ls_spec(n) == FX_ONE,
    ensures
        ls_spec(reflect_spec(v, n)) == ls_spec(v),
{
    let d = ax * bx + ay * by + az * bz;
    lemma_fmul_scaled(ax, bx);
    lemma_fmul_scaled(ay, by);
    lemma_fmul_scaled(az, bz);
    lemma_fmul_scaled(bx, bx);
    lemma_fmul_scaled(by, by);
    lemma_fmul_scaled(bz, bz);
    lemma_fmul_scaled(ax, ax);
    lemma_fmul_scaled(ay, ay);
    lemma_fmul_scaled(az, az);
    assert(dot_spec(v, n) == FX_ONE * d) by (nonlinear_arith)
        requires
            dot_spec(v, n) == FX_ONE * (ax * bx) + FX_ONE * (ay * by) + FX_ONE * (az * bz),
            d == ax * bx + ay * by + az * bz,
    ;
    assert(bx * bx + by * by + bz * bz == 1) by (nonlinear_arith)
        requires
            FX_ONE * (bx * bx) + FX_ONE * (by * by) + FX_ONE * (bz * bz) == FX_ONE,
            FX_ONE == 16777216,
    ;
    lemma_mul_mag(ax, bx);
    lemma_mul_mag(ay, by);
    lemma_mul_mag(az, bz);
    assert(mag(ax) * mag(bx) <= 268435456 && mag(ay) * mag(by) <= 268435456 && mag(az) * mag(bz)
        <= 268435456) by (nonlinear_arith)
        requires
            0 <= mag(ax) <= 16384,
            0 <= mag(ay) <= 16384,
            0 <= mag(az) <= 16384,
            0 <= mag(bx) <= 16384,
            0 <= mag(by) <= 16384,
            0 <= mag(bz) <= 16384,
    ;
    assert(mag(d) <= 805306368);
    let r = reflect_spec(v, n);
    lemma_fmul_scaled(bx, 2 * d);
    lemma_fmul_scaled(by, 2 * d);
    lemma_fmul_scaled(bz, 2 * d);
    assert(2 * (FX_ONE * d) == FX_ONE * (2 * d)) by (nonlinear_arith);
    lemma_mul_mag(bx, 2 * d);
    lemma_mul_mag(by, 2 * d);
    lemma_mul_mag(bz, 2 * d);
    assert(mag(bx) * mag(2 * d) <= 0x600000000000 && mag(by) * mag(2 * d) <= 0x600000000000
        && mag(bz) * mag(2 * d) <= 0x600000000000) by (nonlinear_arith)
        requires
            0 <= mag(bx) <= 16384,
            0 <= mag(by) <= 16384,
            0 <= mag(bz) <= 16384,
            0 <= mag(2 * d) <= 1610612736,
    ;
    assert(r.x.bits == FX_ONE * (ax - 2 * d * bx) && r.y.bits == FX_ONE * (ay - 2 * d * by)
        && r.z.bits == FX_ONE * (az - 2 * d * bz)) by (nonlinear_arith)
        requires
            r.x.bits == FX_ONE * ax - FX_ONE * (bx * (2 * d)),
            r.y.bits == FX_ONE * ay - FX_ONE * (by * (2 * d)),
            r.z.bits == FX_ONE * az - FX_ONE * (bz * (2 * d)),
            FX_ONE == 16777216,
    ;
    lemma_fmul_scaled(ax - 2 * d * bx, ax - 2 * d * bx);
    lemma_fmul_scaled(ay - 2 * d * by, ay - 2 * d * by);
    lemma_fmul_scaled(az - 2 * d * bz, az - 2 * d * bz);
    lemma_reflect_preserves_length(ax, ay, az, bx, by, bz, 1);
    assert(1 * ax - 2 * d * bx == ax - 2 * d * bx && 1 * ay - 2 * d * by == ay - 2 * d * by && 1
        * az - 2 * d * bz == az - 2 * d * bz) by (nonlinear_arith);
    assert(ls_spec(r) == ls_spec(v)) by (nonlinear_arith)
        requires
            ls_spec(r) == FX_ONE * ((ax - 2 * d * bx) * (ax - 2 * d * bx)) + FX_ONE * ((ay - 2 * d
                * by) * (ay - 2 * d * by)) + FX_ONE * ((az - 2 * d * bz) * (az - 2 * d * bz)),
            ls_spec(v) == FX_ONE * (ax * ax) + FX_ONE * (ay * ay) + FX_ONE * (az * az),
            (ax - 2 * d * bx) * (ax - 2 * d * bx) + (ay - 2 * d * by) * (ay - 2 * d * by) + (az - 2
                * d * bz) * (az - 2 * d * bz) == ax * ax + ay * ay + az * az,
    ;
}

/// `(a - 2b)^2 == a^2 - 4ab + 4b^2`.
proof fn lemma_square_of_shifted(a: int, b: int)
    by (nonlinear_arith)
    ensures
        (a - 2 * b) * (a - 2 * b) == a * a - 4 * (a * b) + 4 * (b * b),
{
}

/// `(xy)^2 == x^2 y^2`.
proof fn lemma_square_of_product(x: int, y: int)
    by (nonlinear_arith)
    ensures
        (x * y) * (x * y) == (x * x) * (y * y),
{
}

/// `(ab)(ce) == (ac)(be)`.
proof fn lemma_product_shuffle(a: int, b: int, c: int, e: int)
    by (nonlinear_arith)
    ensures
        (a * b) * (c * e) == (a * c) * (b * e),
{
}

/// Multiplication distributes over a three-part sum.
proof fn lemma_triple_distribute(a: int, x: int, y: int, z: int)
    by (nonlinear_arith)
    ensures
        a * x + a * y + a * z == a * (x + y + z),
{
}

/// The slice of unit-length normalization that is exact on the grid: a
/// vector along an axis whose component is a multiple of the grid root
/// squares onto the grid with no rounding, and its normalization has length
/// exactly one.
pub proof fn lemma_unit_vector_axis_exact(v: Vec3, m: int)
    requires
        1 <= m <= 0x4000000,
        v.x.bits == 4096 * m,
        v.y.bits == 0,
        v.z.bits == 0,
    ensures
        len_spec(unit_spec(v)) == FX_ONE,
{
    let a = v.x.bits as int;
    assert(a * a == (m * m) * FX_SCALE) by (nonlinear_arith)
        requires
            a == 4096 * m,
            FX_SCALE == 16777216,
    ;
    lemma_fmul_nonneg(a, a);
    lemma_fmul_nonneg(0, 0);
    vstd::arithmetic::div_mod::lemma_div_by_multiple(m * m, FX_SCALE as int);
    assert(ls_spec(v) == m * m);
    assert(is_isqrt((m * m) * FX_SCALE, a)) by (nonlinear_arith)
        requires
            a == 4096 * m,
            1 <= m,
            (m * m) * FX_SCALE == a * a,
    ;
    lemma_isqrt_unique((m * m) * FX_SCALE, a);
    assert(len_spec(v) == a);
    assert(fdiv(a, a) == FX_ONE) by {
        assert(a * FX_SCALE == a * FX_ONE) by (nonlinear_arith);
        vstd::arithmetic::div_mod::lemma_div_multiples_vanish(FX_ONE as int, a);
        assert(a * FX_ONE == FX_ONE * a) by (nonlinear_arith);
        lemma_tdiv_mag(a * FX_SCALE, a);
    }
    assert(fdiv(0, a) == 0) by {
        lemma_tdiv_mag(0, a);
    }
    let u = unit_spec(v);
    assert(u.x.bits == FX_ONE && u.y.bits == 0 && u.z.bits == 0);
    lemma_fmul_nonneg(FX_ONE as int, FX_ONE as int);
    vstd::arithmetic::div_mod::lemma_div_by_multiple(FX_ONE as int, FX_SCALE as int);
    assert(FX_ONE * FX_ONE == FX_ONE * FX_SCALE) by (nonlinear_arith);
    assert(ls_spec(u) == FX_ONE);
    assert(is_isqrt(FX_ONE * FX_SCALE, FX_ONE as int)) by (nonlinear_arith)
        requires
            FX_ONE == 16777216,
            FX_SCALE == 16777216,
    ;
    lemma_isqrt_unique(FX_ONE * FX_SCALE, FX_ONE as int);
}

/// The squared magnitudes around a truncated scaled quotient
/// `q = fdiv(c, l)`: `q^2 l^2` does not exceed `c^2` at grid scale, which in
/// turn lies under `(|q|+1)^2 l^2`.
proof fn lemma_trunc_square_bounds(c: int, l: int)
    requires
        l >= 1,
    ensures
        ({
            let q = fdiv(c, l);
            (q * q) * (l * l) <= (c * c) * (FX_SCALE * FX_SCALE) && (c * c) * (FX_SCALE
                * FX_SCALE) < ((mag(q) + 1) * (mag(q) + 1)) * (l * l)
        }),
{
    let q = fdiv(c, l);
    let mq = mag(q);
    let x = mag(c) * FX_SCALE;
    lemma_mul_mag(c, FX_SCALE as int);
    lemma_tdiv_mag(c * FX_SCALE, l);
    vstd::arithmetic::div_mod::lemma_fundamental_div_mod(x, l);
    vstd::arithmetic::div_mod::lemma_mod_bound(x, l);
    assert(mq * l <= x && x < (mq + 1) * l) by (nonlinear_arith)
        requires
            x == l * (x / l) + x % l,
            0 <= x % l < l,
            mq == x / l,
    ;
    assert(mag(c) == c || mag(c) == -c);
    assert(mag(c) * mag(c) == c * c) by (nonlinear_arith)
        requires
            mag(c) == c || mag(c) == -c,
    ;
    assert(mq == q || mq == -q);
    assert(mq * mq == q * q) by (nonlinear_arith)
        requires
            mq == q || mq == -q,
    ;
    assert(x * x == (c * c) * (FX_SCALE * FX_SCALE)) by (nonlinear_arith)
        requires
            x == mag(c) * FX_SCALE,
            mag(c) * mag(c) == c * c,
    ;
    assert((mq * l) * (mq * l) <= x * x) by (nonlinear_arith)
        requires
            0 <= mq * l <= x,
    ;
    assert(x * x < ((mq + 1) * l) * ((mq + 1) * l)) by (nonlinear_arith)
        requires
            0 <= x < (mq + 1) * l,
    ;
    assert((mq * l) * (mq * l) == (mq * mq) * (l * l)) by (nonlinear_arith);
    assert(((mq + 1) * l) * ((mq + 1) * l) == ((mq + 1) * (mq + 1)) * (l * l))
        by (nonlinear_arith);
}

/// A square's grid rounding sits within one step: `S * fmul(q, q)` reaches
/// `q^2` and falls short by under one grid step.
proof fn lemma_square_fmul_bounds(q: int)
    ensures
        FX_SCALE * fmul(q, q) <= q * q,
        q * q < FX_SCALE * fmul(q, q) + FX_SCALE,
        fmul(q, q) >= 0,
{
    lemma_fmul_self_nonneg(q);
    lemma_mul_mag(q, q);
    vstd::arithmetic::div_mod::lemma_fundamental_div_mod(q * q, FX_SCALE as int);
    vstd::arithmetic::div_mod::lemma_mod_bound(q * q, FX_SCALE as int);
}

/// An integer square root lies between any non-negative number whose square
/// does not exceed the operand and any number the operand's successor square
/// stays under.
proof fn lemma_isqrt_between(n: int, r: int, lo: int, hi: int)
    requires
        is_isqrt(n, r),
        0 <= lo,
        lo * lo <= n,
        n < (hi + 1) * (hi + 1),
        0 <= hi,
    ensures
        lo <= r <= hi,
{
    if r < lo {
        lemma_square_ordered(r + 1, lo);
    }
    if hi < r {
        lemma_square_ordered(hi + 1, r);
    }
}

/// Normalization is exact to a few grid steps: every vector long enough to
/// normalize has a unit vector whose squared length, and length, lie within
/// 32 grid steps of one.
pub proof fn lemma_unit_vector_near_one(v: Vec3)
    requires
        vec_within(v, VEC_CAP as int),
        ls_spec(v) >= FX_HALF,
    ensures
        mag(ls_spec(unit_spec(v)) - FX_ONE) <= 32,
        mag(len_spec(unit_spec(v)) - FX_ONE) <= 32,
{
    let ls = ls_spec(v);
    lemma_isqrt_exists(ls * FX_SCALE);
    let l = len_spec(v);
    lemma_unit_within(v, l);
    let cx = v.x.bits as int;
    let cy = v.y.bits as int;
    let cz = v.z.bits as int;
    let qx = fdiv(cx, l);
    let qy = fdiv(cy, l);
    let qz = fdiv(cz, l);
    let u = unit_spec(v);
    assert(u.x.bits == qx && u.y.bits == qy && u.z.bits == qz);
    let lsu = ls_spec(u);
    lemma_trunc_square_bounds(cx, l);
    lemma_trunc_square_bounds(cy, l);
    lemma_trunc_square_bounds(cz, l);
    lemma_square_fmul_bounds(qx);
    lemma_square_fmul_bounds(qy);
    lemma_square_fmul_bounds(qz);
    lemma_square_fmul_bounds(cx);
    lemma_square_fmul_bounds(cy);
    lemma_square_fmul_bounds(cz);
    let aa = qx * qx + qy * qy + qz * qz;
    let bb = cx * cx + cy * cy + cz * cz;
    let l2 = l * l;
    let s2 = FX_SCALE * FX_SCALE;
    assert(FX_SCALE * lsu <= aa && aa < FX_SCALE * lsu + 3 * FX_SCALE);
    assert(FX_SCALE * ls <= bb && bb < FX_SCALE * ls + 3 * FX_SCALE);
    assert(l * l <= ls * FX_SCALE);
    assert(ls * FX_SCALE <= l2 + 2 * l) by (nonlinear_arith)
        requires
            ls * FX_SCALE < (l + 1) * (l + 1),
            l2 == l * l,
    ;
    // summed component bounds: aa * l2 <= bb * s2 < (aa + 12S + 3) * l2
    lemma_triple_distribute(l2, qx * qx, qy * qy, qz * qz);
    lemma_triple_distribute(s2, cx * cx, cy * cy, cz * cz);
    assert(aa * l2 == l2 * aa && bb * s2 == s2 * bb) by (nonlinear_arith);
    assert((qx * qx) * (l * l) + (qy * qy) * (l * l) + (qz * qz) * (l * l) == l2 * aa)
        by (nonlinear_arith)
        requires
            l2 == l * l,
            l2 * (qx * qx) + l2 * (qy * qy) + l2 * (qz * qz) == l2 * (qx * qx + qy * qy + qz
                * qz),
            aa == qx * qx + qy * qy + qz * qz,
    ;
    assert((cx * cx) * s2 + (cy * cy) * s2 + (cz * cz) * s2 == s2 * bb) by (nonlinear_arith)
        requires
            s2 * (cx * cx) + s2 * (cy * cy) + s2 * (cz * cz) == s2 * (cx * cx + cy * cy + cz
                * cz),
            bb == cx * cx + cy * cy + cz * cz,
    ;
    assert((cx * cx) * s2 == (cx * cx) * (FX_SCALE * FX_SCALE));
    assert(l2 * aa <= s2 * bb);
    let mqs = (mag(qx) + 1) * (mag(qx) + 1) + (mag(qy) + 1) * (mag(qy) + 1) + (mag(qz) + 1) * (
    mag(qz) + 1);
    lemma_triple_distribute(
        l2,
        (mag(qx) + 1) * (mag(qx) + 1),
        (mag(qy) + 1) * (mag(qy) + 1),
        (mag(qz) + 1) * (mag(qz) + 1),
    );
    assert(((mag(qx) + 1) * (mag(qx) + 1)) * (l * l) + ((mag(qy) + 1) * (mag(qy) + 1)) * (l * l)
        + ((mag(qz) + 1) * (mag(qz) + 1)) * (l * l) == l2 * mqs) by (nonlinear_arith)
        requires
            l2 == l * l,
            l2 * ((mag(qx) + 1) * (mag(qx) + 1)) + l2 * ((mag(qy) + 1) * (mag(qy) + 1)) + l2 * ((
            mag(qz) + 1) * (mag(qz) + 1)) == l2 * mqs,
    ;
    assert(s2 * bb < l2 * mqs);
    // the guarded magnitudes keep the successor squares close to aa
    assert(mag(qx) == qx || mag(qx) == -qx);
    assert(mag(qy) == qy || mag(qy) == -qy);
    assert(mag(qz) == qz || mag(qz) == -qz);
    assert(mqs <= aa + 12 * FX_SCALE + 3) by (nonlinear_arith)
        requires
            mag(qx) == qx || mag(qx) == -qx,
            mag(qy) == qy || mag(qy) == -qy,
            mag(qz) == qz || mag(qz) == -qz,
            mag(qx) <= 2 * FX_ONE,
            mag(qy) <= 2 * FX_ONE,
            mag(qz) <= 2 * FX_ONE,
            mqs == (mag(qx) + 1) * (mag(qx) + 1) + (mag(qy) + 1) * (mag(qy) + 1) + (mag(qz) + 1)
                * (mag(qz) + 1),
            aa == qx * qx + qy * qy + qz * qz,
            FX_ONE == 16777216,
            FX_SCALE == 16777216,
    ;
    vstd::arithmetic::mul::lemma_mul_inequality(mqs, aa + 12 * FX_SCALE + 3, l2);
    assert(mqs * l2 == l2 * mqs && (aa + 12 * FX_SCALE + 3) * l2 == l2 * (aa + 12 * FX_SCALE
        + 3)) by (nonlinear_arith);
    assert(s2 * bb < l2 * (aa + 12 * FX_SCALE + 3));
    // upper direction
    vstd::arithmetic::mul::lemma_mul_inequality(FX_SCALE * lsu, aa, l2);
    assert((FX_SCALE * lsu) * l2 <= aa * l2);
    assert(s2 * bb <= s2 * (FX_SCALE * ls + 3 * FX_SCALE - 1)) by (nonlinear_arith)
        requires
            bb < FX_SCALE * ls + 3 * FX_SCALE,
            s2 >= 0,
    ;
    assert(s2 * (FX_SCALE * ls + 3 * FX_SCALE - 1) <= s2 * (l2 + 2 * l) + 3 * FX_SCALE * s2)
        by (nonlinear_arith)
        requires
            ls * FX_SCALE <= l2 + 2 * l,
            s2 >= 0,
    ;
    assert(s2 * (l2 + 2 * l) == s2 * l2 + 2 * s2 * l) by (nonlinear_arith);
    assert(2 * s2 * l + 3 * FX_SCALE * s2 <= 32 * FX_SCALE * l2) by (nonlinear_arith)
        requires
            8388608 <= l,
            l2 == l * l,
            s2 == FX_SCALE * FX_SCALE,
            FX_SCALE == 16777216,
    ;
    assert((FX_SCALE * lsu) * l2 < (FX_SCALE * FX_ONE + 32 * FX_SCALE) * l2) by (nonlinear_arith)
        requires
            (FX_SCALE * lsu) * l2 <= aa * l2,
            aa * l2 == l2 * aa,
            l2 * aa <= s2 * bb,
            s2 * bb <= s2 * (FX_SCALE * ls + 3 * FX_SCALE - 1),
            s2 * (FX_SCALE * ls + 3 * FX_SCALE - 1) <= s2 * (l2 + 2 * l) + 3 * FX_SCALE * s2,
            s2 * (l2 + 2 * l) == s2 * l2 + 2 * s2 * l,
            2 * s2 * l + 3 * FX_SCALE * s2 <= 32 * FX_SCALE * l2,
            s2 == FX_SCALE * FX_SCALE,
            FX_ONE == FX_SCALE,
            l2 >= 1,
    ;
    vstd::arithmetic::mul::lemma_mul_strict_inequality_converse(
        FX_SCALE * lsu,
        FX_SCALE * FX_ONE + 32 * FX_SCALE,
        l2,
    );
    assert(lsu <= FX_ONE + 31);
    // lower direction
    assert(s2 * l2 <= s2 * (ls * FX_SCALE)) by (nonlinear_arith)
        requires
            l2 <= ls * FX_SCALE,
            s2 >= 0,
    ;
    assert(s2 * (ls * FX_SCALE) <= s2 * bb) by (nonlinear_arith)
        requires
            FX_SCALE * ls <= bb,
            s2 >= 0,
    ;
    assert(s2 * l2 < l2 * (aa + 12 * FX_SCALE + 3));
    assert((s2) * l2 < (aa + 12 * FX_SCALE + 3) * l2) by (nonlinear_arith)
        requires
            s2 * l2 < l2 * (aa + 12 * FX_SCALE + 3),
    ;
    vstd::arithmetic::mul::lemma_mul_strict_inequality_converse(s2, aa + 12 * FX_SCALE + 3, l2);
    assert(aa > s2 - 12 * FX_SCALE - 3);
    assert(FX_SCALE * lsu > s2 - 15 * FX_SCALE - 3);
    assert(lsu >= FX_ONE - 16) by (nonlinear_arith)
        requires
            FX_SCALE * lsu > s2 - 15 * FX_SCALE - 3,
            s2 == FX_SCALE * FX_SCALE,
            FX_ONE == 16777216,
            FX_SCALE == 16777216,
    ;
    // and the length itself
    lemma_isqrt_exists(lsu * FX_SCALE);
    let lu = isqrt(lsu * FX_SCALE);
    assert((FX_ONE - 32) * (FX_ONE - 32) <= lsu * FX_SCALE && lsu * FX_SCALE < (FX_ONE + 32 + 1) * (
    FX_ONE + 32 + 1)) by (nonlinear_arith)
        requires
            FX_ONE - 16 <= lsu <= FX_ONE + 31,
            FX_ONE == 16777216,
            FX_SCALE == 16777216,
    ;
    lemma_isqrt_between(lsu * FX_SCALE, lu, FX_ONE - 32, FX_ONE + 32);
}

/// Cross products respect componentwise bounds.
pub proof fn lemma_cross_within(a: Vec3, b: Vec3, ma: int, mb: int)
    requires
        vec_within(a, ma),
        vec_within(b, mb),
        0 <= ma,
        0 <= mb,
        ma * mb <= FX_MUL_CAP,
    ensures
        vec_within(cross_spec(a, b), 2 * ((ma * mb) / (FX_SCALE as int))),
{
    lemma_fmul_bound(a.y.bits as int, b.z.bits as int, ma, mb);
    lemma_fmul_bound(b.y.bits as int, a.z.bits as int, mb, ma);
    lemma_fmul_bound(a.z.bits as int, b.x.bits as int, ma, mb);
    lemma_fmul_bound(b.z.bits as int, a.x.bits as int, mb, ma);
    lemma_fmul_bound(a.x.bits as int, b.y.bits as int, ma, mb);
    lemma_fmul_bound(b.x.bits as int, a.y.bits as int, mb, ma);
    assert(ma * mb == mb * ma) by (nonlinear_arith);
}

/// Negating a vector preserves its squared length.
pub proof fn lemma_ls_neg(v: Vec3)
    requires
        vec_within(v, VEC_CAP as int),
    ensures
        ls_spec(neg_spec(v)) == ls_spec(v),
{
    assert((-v.x.bits as int) * (-v.x.bits as int) == (v.x.bits as int) * (v.x.bits as int))
        by (nonlinear_arith);
    assert((-v.y.bits as int) * (-v.y.bits as int) == (v.y.bits as int) * (v.y.bits as int))
        by (nonlinear_arith);
    assert((-v.z.bits as int) * (-v.z.bits as int) == (v.z.bits as int) * (v.z.bits as int))
        by (nonlinear_arith);
}

/// A square `fmul(a, a)` is non-negative.
pub proof fn lemma_fmul_self_nonneg(a: int)
    ensures
        fmul(a, a) >= 0,
        fmul(a, a) == (mag(a) * mag(a)) / (FX_SCALE as int),
{
    lemma_mul_mag(a, a);
    lemma_tdiv_mag(a * a, FX_SCALE as int);
    vstd::arithmetic::div_mod::lemma_div_pos_is_pos(mag(a * a), FX_SCALE as int);
}

/// One component of a normalized vector has magnitude at most two units:
/// the divisor is the root of the squared length, which dominates each
/// component up to one grid step of rounding.
proof fn lemma_unit_comp(c: int, ls: int, l: int)
    requires
        0 <= fmul(c, c) <= ls,
        FX_HALF <= l,
        is_isqrt(ls * FX_SCALE, l),
    ensures
        mag(fdiv(c, l)) <= 2 * FX_ONE,
{
    lemma_mul_mag(c, c);
    lemma_fmul_nonneg(mag(c), mag(c));
    vstd::arithmetic::div_mod::lemma_fundamental_div_mod(mag(c) * mag(c), FX_SCALE as int);
    vstd::arithmetic::div_mod::lemma_mod_bound(mag(c) * mag(c), FX_SCALE as int);
    assert(mag(c) * mag(c) < (ls + 1) * FX_SCALE) by (nonlinear_arith)
        requires
            mag(c) * mag(c) == FX_SCALE * ((mag(c) * mag(c)) / (FX_SCALE as int)) + (mag(c) * mag(
                c,
            )) % (FX_SCALE as int),
            (mag(c) * mag(c)) / (FX_SCALE as int) <= ls,
            0 <= (mag(c) * mag(c)) % (FX_SCALE as int) < FX_SCALE,
            FX_SCALE == 16777216,
    ;
    assert(ls * FX_SCALE < (l + 1) * (l + 1));
    assert((ls + 1) * FX_SCALE <= l * l + 2 * l + FX_SCALE) by (nonlinear_arith)
        requires
            ls * FX_SCALE < (l + 1) * (l + 1),
            FX_SCALE == 16777216,
    ;
    assert(l * l + 2 * l + FX_SCALE <= 4 * (l * l)) by (nonlinear_arith)
        requires
            l >= 8388608,
            FX_SCALE == 16777216,
    ;
    assert(mag(c) * mag(c) < (2 * l) * (2 * l)) by (nonlinear_arith)
        requires
            mag(c) * mag(c) < (ls + 1) * FX_SCALE,
            (ls + 1) * FX_SCALE <= 4 * (l * l),
    ;
    if mag(c) > 2 * l {
        lemma_square_ordered(2 * l, mag(c));
    }
    lemma_mul_mag(c, FX_SCALE as int);
    lemma_tdiv_mag(c * FX_SCALE, l);
    assert(mag(c) * FX_SCALE <= l * (2 * FX_ONE)) by (nonlinear_arith)
        requires
            mag(c) <= 2 * l,
            FX_SCALE == 16777216,
            FX_ONE == 16777216,
    ;
    vstd::arithmetic::div_mod::lemma_div_is_ordered(mag(c) * FX_SCALE, l * (2 * FX_ONE), l);
    vstd::arithmetic::div_mod::lemma_div_multiples_vanish(2 * FX_ONE, l);
}

/// The length of a vector of squared length at least one half is at least
/// half a unit of grid steps, and dividing by it keeps every component
/// within two units.
proof fn lemma_unit_within(v: Vec3, l: int)
    requires
        vec_within(v, VEC_CAP as int),
        ls_spec(v) >= FX_HALF,
        is_isqrt(ls_spec(v) * FX_SCALE, l),
    ensures
        l >= FX_HALF,
        vec_within(div_spec(v, l), 2 * FX_ONE),
{
    let ls = ls_spec(v);
    if l < FX_HALF {
        lemma_square_ordered(l + 1, FX_HALF as int);
        assert(FX_HALF * FX_SCALE <= ls * FX_SCALE) by (nonlinear_arith)
            requires
                FX_HALF <= ls,
                FX_SCALE == 16777216,
        ;
    }
    lemma_fmul_self_nonneg(v.x.bits as int);
    lemma_fmul_self_nonneg(v.y.bits as int);
    lemma_fmul_self_nonneg(v.z.bits as int);
    lemma_unit_comp(v.x.bits as int, ls, l);
    lemma_unit_comp(v.y.bits as int, ls, l);
    lemma_unit_comp(v.z.bits as int, ls, l);
}

impl Vec3 {
    /// The vector with the three given components.
    pub fn new(x: Fixed, y: Fixed, z: Fixed) -> (r: Vec3)
        ensures
            r == (Vec3 { x, y, z }),
    {
        Vec3 { x, y, z }
    }

    /// The zero vector.
    pub fn zero() -> (r: Vec3)
        ensures
            r.x.bits == 0 && r.y.bits == 0 && r.z.bits == 0,
    {
        Vec3 { x: Fixed { bits: 0 }, y: Fixed { bits: 0 }, z: Fixed { bits: 0 } }
    }

    /// Componentwise sum.
    pub fn add(self, o: Vec3) -> (r: Vec3)
        requires
            vec_within(self, VEC_CAP as int),
            vec_within(o, VEC_CAP as int),
        ensures
            r == add_spec(self, o),
    {
        Vec3 {
            x: Fixed { bits: self.x.bits + o.x.bits },
            y: Fixed { bits: self.y.bits + o.y.bits },
            z: Fixed { bits: self.z.bits + o.z.bits },
        }
    }

    /// Componentwise difference.
    pub fn sub(self, o: Vec3) -> (r: Vec3)
        requires
            vec_within(self, VEC_CAP as int),
            vec_within(o, VEC_CAP as int),
        ensures
            r == sub_spec(self, o),
    {
        Vec3 {
            x: Fixed { bits: self.x.bits - o.x.bits },
            y: Fixed { bits: self.y.bits - o.y.bits },
            z: Fixed { bits: self.z.bits - o.z.bits },
        }
    }

    /// Componentwise negation.
    pub fn neg(self) -> (r: Vec3)
        requires
            vec_within(self, VEC_CAP as int),
        ensures
            r == neg_spec(self),
    {
        Vec3 {
            x: Fixed { bits: -self.x.bits },
            y: Fixed { bits: -self.y.bits },
            z: Fixed { bits: -self.z.bits },
        }
    }

    /// Componentwise product (used for color attenuation).
    pub fn mul(self, o: Vec3) -> (r: Vec3)
        requires
            vec_within(self, VEC_CAP as int),
            vec_within(o, VEC_CAP as int),
        ensures
            r == mul_spec(self, o),
    {
        proof {
            lemma_fmul_bound(self.x.bits as int, o.x.bits as int, VEC_CAP as int, VEC_CAP as int);
            lemma_fmul_bound(self.y.bits as int, o.y.bits as int, VEC_CAP as int, VEC_CAP as int);
            lemma_fmul_bound(self.z.bits as int, o.z.bits as int, VEC_CAP as int, VEC_CAP as int);
        }
        Vec3 { x: self.x.mul(o.x), y: self.y.mul(o.y), z: self.z.mul(o.z) }
    }

    /// Product with a scalar.
    pub fn scale(self, t: Fixed) -> (r: Vec3)
        requires
            vec_within(self, VEC_CAP as int),
            mag(t.bits as int) <= VEC_CAP,
        ensures
            r == scale_spec(self, t.bits as int),
    {
        proof {
            lemma_fmul_bound(self.x.bits as int, t.bits as int, VEC_CAP as int, VEC_CAP as int);
            lemma_fmul_bound(self.y.bits as int, t.bits as int, VEC_CAP as int, VEC_CAP as int);
            lemma_fmul_bound(self.z.bits as int, t.bits as int, VEC_CAP as int, VEC_CAP as int);
        }
        Vec3 { x: self.x.mul(t), y: self.y.mul(t), z: self.z.mul(t) }
    }

    /// Quotient by a scalar.
    pub fn div(self, t: Fixed) -> (r: Vec3)
        requires
            t.bits != 0,
            vec_within(self, VEC_CAP as int),
            mag(t.bits as int) < 0x40000000000000000000000000000000,
        ensures
            r == div_spec(self, t.bits as int),
    {
        Vec3 { x: self.x.div(t), y: self.y.div(t), z: self.z.div(t) }
    }

    /// The dot product.
    pub fn dot(self, o: Vec3) -> (r: Fixed)
        requires
            vec_within(self, VEC_CAP as int),
            vec_within(o, VEC_CAP as int),
        ensures
            r.bits == dot_spec(self, o),
    {
        proof {
            lemma_fmul_bound(self.x.bits as int, o.x.bits as int, VEC_CAP as int, VEC_CAP as int);
            lemma_fmul_bound(self.y.bits as int, o.y.bits as int, VEC_CAP as int, VEC_CAP as int);
            lemma_fmul_bound(self.z.bits as int, o.z.bits as int, VEC_CAP as int, VEC_CAP as int);
        }
        let px: Fixed = self.x.mul(o.x);
        let py: Fixed = self.y.mul(o.y);
        let pz: Fixed = self.z.mul(o.z);
        Fixed { bits: px.bits + py.bits + pz.bits }
    }

    /// The cross product.
    pub fn cross(self, o: Vec3) -> (r: Vec3)
        requires
            vec_within(self, VEC_CAP as int),
            vec_within(o, VEC_CAP as int),
        ensures
            r == cross_spec(self, o),
    {
        proof {
            lemma_fmul_bound(self.y.bits as int, o.z.bits as int, VEC_CAP as int, VEC_CAP as int);
            lemma_fmul_bound(o.y.bits as int, self.z.bits as int, VEC_CAP as int, VEC_CAP as int);
            lemma_fmul_bound(self.z.bits as int, o.x.bits as int, VEC_CAP as int, VEC_CAP as int);
            lemma_fmul_bound(o.z.bits as int, self.x.bits as int, VEC_CAP as int, VEC_CAP as int);
            lemma_fmul_bound(self.x.bits as int, o.y.bits as int, VEC_CAP as int, VEC_CAP as int);
            lemma_fmul_bound(o.x.bits as int, self.y.bits as int, VEC_CAP as int, VEC_CAP as int);
        }
        Vec3 {
            x: Fixed { bits: self.y.mul(o.z).bits - o.y.mul(self.z).bits },
            y: Fixed { bits: self.z.mul(o.x).bits - o.z.mul(self.x).bits },
            z: Fixed { bits: self.x.mul(o.y).bits - o.x.mul(self.y).bits },
        }
    }

    /// The squared length.
    pub fn length_squared(self) -> (r: Fixed)
        requires
            vec_within(self, VEC_CAP as int),
        ensures
            r.bits == ls_spec(self),
            r.bits >= 0,
    {
        proof {
            lemma_fmul_self_nonneg(self.x.bits as int);
            lemma_fmul_self_nonneg(self.y.bits as int);
            lemma_fmul_self_nonneg(self.z.bits as int);
        }
        self.dot(self)
    }

    /// The length.
    pub fn length(self) -> (r: Fixed)
        requires
            vec_within(self, VEC_CAP as int),
        ensures
            r.bits == len_spec(self),
            r.bits >= 0,
    {
        let ls: Fixed = self.length_squared();
        proof {
            lemma_dot_bound(self, self, VEC_CAP as int, VEC_CAP as int);
        }
        ls.sqrt()
    }

    /// True exactly when every component is too small for the grid to
    /// distinguish from zero (the degenerate-direction test; at this
    /// resolution the threshold is the grid point itself).
    pub fn near_zero(self) -> (r: bool)
        ensures
            r == (self.x.bits == 0 && self.y.bits == 0 && self.z.bits == 0),
    {
        self.x.bits == 0 && self.y.bits == 0 && self.z.bits == 0
    }

    /// True exactly when every component's magnitude is at most `m`.
    pub fn within_checked(self, m: i128) -> (r: bool)
        requires
            m >= 0,
        ensures
            r == vec_within(self, m as int),
    {
        -m <= self.x.bits && self.x.bits <= m && -m <= self.y.bits && self.y.bits <= m
            && -m <= self.z.bits && self.z.bits <= m
    }

    /// Reflection of `self` about the normal `normal`.
    pub fn reflect(self, normal: Vec3) -> (r: Vec3)
        requires
            vec_within(self, 0x40000000),
            vec_within(normal, 0x40000000),
        ensures
            r == reflect_spec(self, normal),
    {
        let d: Fixed = self.dot(normal);
        proof {
            lemma_dot_bound(self, normal, 0x40000000, 0x40000000);
        }
        let two_d: Fixed = Fixed { bits: d.bits + d.bits };
        proof {
            lemma_fmul_bound(normal.x.bits as int, two_d.bits as int, 0x40000000, 0x8000000000);
            lemma_fmul_bound(normal.y.bits as int, two_d.bits as int, 0x40000000, 0x8000000000);
            lemma_fmul_bound(normal.z.bits as int, two_d.bits as int, 0x40000000, 0x8000000000);
        }
        self.sub(normal.scale(two_d))
    }

    /// The vector scaled to length one.  The squared length must be at least
    /// one half: on the grid, shorter vectors normalize too imprecisely to
    /// mean anything (callers reject or substitute such directions).
    pub fn unit_vector(self) -> (r: Vec3)
        requires
            vec_within(self, VEC_CAP as int),
            ls_spec(self) >= FX_HALF,
        ensures
            r == unit_spec(self),
            vec_within(r, 2 * FX_ONE),
            len_spec(self) >= FX_HALF,
            mag(ls_spec(r) - FX_ONE) <= 32,
            mag(len_spec(r) - FX_ONE) <= 32,
    {
        let ls: Fixed = self.length_squared();
        proof {
            lemma_dot_bound(self, self, VEC_CAP as int, VEC_CAP as int);
        }
        let l: Fixed = ls.sqrt();
        proof {
            lemma_unit_within(self, l.bits as int);
            lemma_unit_vector_near_one(self);
        }
        self.div(l)
    }

    /// Refraction of the unit direction `self` at the normal `v` with
    /// refraction ratio `eta`, by the vector form of Snell's law; the cosine
    /// is clamped to one and the parallel radicand to zero against rounding.
    pub fn refract(self, v: Vec3, eta: Fixed) -> (r: Vec3)
        requires
            vec_within(self, 0x2000000),
            vec_within(v, 0x2000000),
            0 <= eta.bits <= 0x10000000,
        ensures
            r == refract_spec(self, v, eta.bits as int),
            vec_within(r, 0x4000000000),
    {
        let d: Fixed = v.dot(self);
        proof {
            lemma_dot_bound(v, self, 0x2000000, 0x2000000);
        }
        let cos_theta: Fixed = Fixed { bits: FX_ONE }.min(Fixed { bits: -d.bits });
        proof {
            lemma_scale_within(v, cos_theta.bits as int, 0x2000000, 0x10000000);
            lemma_add_within(self, scale_spec(v, cos_theta.bits as int), 0x2000000, 0x20000000);
        }
        let shifted: Vec3 = self.add(v.scale(cos_theta));
        proof {
            lemma_scale_within(shifted, eta.bits as int, 0x22000000, 0x10000000);
        }
        let r_out_perp: Vec3 = shifted.scale(eta);
        let perp_ls: Fixed = r_out_perp.length_squared();
        proof {
            lemma_dot_bound(r_out_perp, r_out_perp, 0x400000000, 0x400000000);
        }
        let radicand: Fixed = Fixed { bits: FX_ONE }.sub(perp_ls).abs();
        let root: Fixed = radicand.sqrt();
        proof {
            lemma_isqrt_le(
                radicand.bits * FX_SCALE,
                root.bits as int,
                0x1000000000,
            );
            lemma_scale_within(neg_spec(v), root.bits as int, 0x2000000, 0x1000000000);
            lemma_add_within(
                r_out_perp,
                scale_spec(neg_spec(v), root.bits as int),
                0x400000000,
                0x2000000000,
            );
        }
        let r_out_parallel: Vec3 = v.neg().scale(root);
        r_out_perp.add(r_out_parallel)
    }

    /// A vector with each component drawn uniformly from `[min, max)`.
    pub fn random_between(min: Fixed, max: Fixed, rng: &mut RandomStream) -> (r: Vec3)
        requires
            mag(min.bits as int) <= 0x10000000000,
            mag(max.bits as int) <= 0x10000000000,
        ensures
            (r, final(rng).state) == sample_between_spec(
                min.bits as int,
                max.bits as int,
                old(rng).state,
            ),
            vec_within(r, 0x40000000000),
    {
        let range: Fixed = max.sub(min);
        let ux: Fixed = rng.next_unit();
        let uy: Fixed = rng.next_unit();
        let uz: Fixed = rng.next_unit();
        proof {
            lemma_fmul_bound(range.bits as int, ux.bits as int, 0x20000000000, 0x1000000);
            lemma_fmul_bound(range.bits as int, uy.bits as int, 0x20000000000, 0x1000000);
            lemma_fmul_bound(range.bits as int, uz.bits as int, 0x20000000000, 0x1000000);
        }
        Vec3 {
            x: Fixed { bits: min.bits + range.mul(ux).bits },
            y: Fixed { bits: min.bits + range.mul(uy).bits },
            z: Fixed { bits: min.bits + range.mul(uz).bits },
        }
    }

    /// A point drawn uniformly from the open unit ball, by rejection from
    /// the cube; after the attempt budget a fixed interior point stands in.
    #[verifier::rlimit(100)]
    pub fn random_in_unit_sphere(rng: &mut RandomStream) -> (r: Vec3)
        ensures
            (r, final(rng).state) == ball_sample_spec(old(rng).state, 64),
            ls_spec(r) < FX_ONE,
            vec_within(r, FX_ONE as int),
    {
        let ghost s0: u64 = rng.state;
        let mut attempts: u64 = 64;
        while attempts > 0
            invariant
                attempts <= 64,
                ball_sample_spec(old(rng).state, 64) == ball_sample_spec(rng.state, attempts as nat),
            decreases attempts,
        {
            let ghost s_before: u64 = rng.state;
            let p: Vec3 = Vec3::random_between(
                Fixed { bits: -FX_ONE },
                Fixed { bits: FX_ONE },
                rng,
            );
            proof {
                lemma_cube_sample_within(s_before);
            }
            let ls: Fixed = p.length_squared();
            proof {
                reveal_with_fuel(ball_sample_spec, 1);
                assert(ball_sample_spec(s_before, attempts as nat) == if ls_spec(p) < FX_ONE {
                    (p, rng.state)
                } else {
                    ball_sample_spec(rng.state, (attempts - 1) as nat)
                });
            }
            if ls.bits < FX_ONE {
                return p;
            }
            attempts = attempts - 1;
        }
        proof {
            reveal_with_fuel(ball_sample_spec, 1);
            lemma_fmul_nonneg(FX_HALF as int, FX_HALF as int);
        }
        Vec3 { x: Fixed { bits: FX_HALF }, y: Fixed { bits: 0 }, z: Fixed { bits: 0 } }
    }

    /// A direction drawn uniformly from the unit sphere's surface: a
    /// rejection-sampled cube point of usable length, normalized.  Points
    /// with squared length under one half are rejected along with those
    /// outside the ball: the grid normalizes them too imprecisely, and
    /// dropping them leaves the direction distribution uniform.  After the
    /// attempt budget a fixed axis direction stands in.
    #[verifier::rlimit(100)]
    pub fn random_unit_vector(rng: &mut RandomStream) -> (r: Vec3)
        ensures
            (r, final(rng).state) == unit_sample_spec(old(rng).state, 64),
            vec_within(r, 2 * FX_ONE),
            mag(ls_spec(r) - FX_ONE) <= 32,
    {
        let ghost s0: u64 = rng.state;
        let mut attempts: u64 = 64;
        while attempts > 0
            invariant
                attempts <= 64,
                unit_sample_spec(old(rng).state, 64) == unit_sample_spec(rng.state, attempts as nat),
            decreases attempts,
        {
            let ghost s_before: u64 = rng.state;
            let p: Vec3 = Vec3::random_between(
                Fixed { bits: -FX_ONE },
                Fixed { bits: FX_ONE },
                rng,
            );
            proof {
                lemma_cube_sample_within(s_before);
            }
            let ls: Fixed = p.length_squared();
            proof {
                reveal_with_fuel(unit_sample_spec, 1);
                assert(unit_sample_spec(s_before, attempts as nat) == if FX_HALF <= ls_spec(p)
                    && ls_spec(p) < FX_ONE {
                    (unit_spec(p), rng.state)
                } else {
                    unit_sample_spec(rng.state, (attempts - 1) as nat)
                });
            }
            if FX_HALF <= ls.bits && ls.bits < FX_ONE {
                return p.unit_vector();
            }
            attempts = attempts - 1;
        }
        proof {
            reveal_with_fuel(unit_sample_spec, 1);
            crate::fixed::lemma_fmul_one(FX_ONE as int);
            lemma_fmul_nonneg(0, 0);
        }
        Vec3 { x: Fixed { bits: FX_ONE }, y: Fixed { bits: 0 }, z: Fixed { bits: 0 } }
    }

    /// A point drawn uniformly from the open unit disk in the x-y plane, by
    /// rejection from the square; after the attempt budget the disk's center
    /// stands in.
    #[verifier::rlimit(100)]
    pub fn random_in_unit_disk(rng: &mut RandomStream) -> (r: Vec3)
        ensures
            (r, final(rng).state) == disk_sample_spec(old(rng).state, 64),
            ls_spec(r) < FX_ONE,
            vec_within(r, FX_ONE as int),
            r.z.bits == 0,
    {
        let ghost s0: u64 = rng.state;
        let mut attempts: u64 = 64;
        while attempts > 0
            invariant
                attempts <= 64,
                disk_sample_spec(old(rng).state, 64) == disk_sample_spec(rng.state, attempts as nat),
            decreases attempts,
        {
            let ghost s_before: u64 = rng.state;
            let ux: Fixed = rng.next_unit();
            let uy: Fixed = rng.next_unit();
            let p: Vec3 = Vec3 {
                x: Fixed { bits: -FX_ONE + (ux.bits + ux.bits) },
                y: Fixed { bits: -FX_ONE + (uy.bits + uy.bits) },
                z: Fixed { bits: 0 },
            };
            proof {
                reveal_with_fuel(disk_sample_spec, 1);
                assert(disk_sample_spec(s_before, attempts as nat) == if ls_spec(p) < FX_ONE {
                    (p, rng.state)
                } else {
                    disk_sample_spec(rng.state, (attempts - 1) as nat)
                });
            }
            let ls: Fixed = p.length_squared();
            if ls.bits < FX_ONE {
                return p;
            }
            attempts = attempts - 1;
        }
        proof {
            reveal_with_fuel(disk_sample_spec, 1);
            lemma_fmul_nonneg(0, 0);
        }
        Vec3 { x: Fixed { bits: 0 }, y: Fixed { bits: 0 }, z: Fixed { bits: 0 } }
    }
}

/// The cube sample drawn at `s0`: three unit draws mapped onto `[-1, 1)`.
pub open spec fn sample_between_spec(minb: int, maxb: int, s0: u64) -> (Vec3, u64) {
    let s1 = stream_step(s0);
    let ux = unit_fraction(stream_mix(s1));
    let s2 = stream_step(s1);
    let uy = unit_fraction(stream_mix(s2));
    let s3 = stream_step(s2);
    let uz = unit_fraction(stream_mix(s3));
    (
        Vec3 {
            x: Fixed { bits: (minb + fmul(maxb - minb, ux)) as i128 },
            y: Fixed { bits: (minb + fmul(maxb - minb, uy)) as i128 },
            z: Fixed { bits: (minb + fmul(maxb - minb, uz)) as i128 },
        },
        s3,
    )
}

/// The ball sample drawn at `s0` with the given attempt budget.
#[verifier::opaque]
pub open spec fn ball_sample_spec(s0: u64, fuel: nat) -> (Vec3, u64)
    decreases fuel,
{
    if fuel == 0 {
        (Vec3 { x: Fixed { bits: FX_HALF }, y: Fixed { bits: 0 }, z: Fixed { bits: 0 } }, s0)
    } else {
        let (p, s1) = sample_between_spec(-FX_ONE as int, FX_ONE as int, s0);
        if ls_spec(p) < FX_ONE {
            (p, s1)
        } else {
            ball_sample_spec(s1, (fuel - 1) as nat)
        }
    }
}

/// The unit-direction sample drawn at `s0` with the given attempt budget.
#[verifier::opaque]
pub open spec fn unit_sample_spec(s0: u64, fuel: nat) -> (Vec3, u64)
    decreases fuel,
{
    if fuel == 0 {
        (Vec3 { x: Fixed { bits: FX_ONE }, y: Fixed { bits: 0 }, z: Fixed { bits: 0 } }, s0)
    } else {
        let (p, s1) = sample_between_spec(-FX_ONE as int, FX_ONE as int, s0);
        if FX_HALF <= ls_spec(p) && ls_spec(p) < FX_ONE {
            (unit_spec(p), s1)
        } else {
            unit_sample_spec(s1, (fuel - 1) as nat)
        }
    }
}

/// The disk sample drawn at `s0` with the given attempt budget.
#[verifier::opaque]
pub open spec fn disk_sample_spec(s0: u64, fuel: nat) -> (Vec3, u64)
    decreases fuel,
{
    if fuel == 0 {
        (Vec3 { x: Fixed { bits: 0 }, y: Fixed { bits: 0 }, z: Fixed { bits: 0 } }, s0)
    } else {
        let s1 = stream_step(s0);
        let ux = unit_fraction(stream_mix(s1));
        let s2 = stream_step(s1);
        let uy = unit_fraction(stream_mix(s2));
        let p = Vec3 {
            x: Fixed { bits: (-FX_ONE + 2 * ux) as i128 },
            y: Fixed { bits: (-FX_ONE + 2 * uy) as i128 },
            z: Fixed { bits: 0 },
        };
        if ls_spec(p) < FX_ONE {
            (p, s2)
        } else {
            disk_sample_spec(s2, (fuel - 1) as nat)
        }
    }
}

/// A cube sample over `[-1, 1)` stays within one unit componentwise.
proof fn lemma_cube_sample_within(s0: u64)
    ensures
        vec_within(sample_between_spec(-FX_ONE as int, FX_ONE as int, s0).0, FX_ONE as int),
{
    let s1 = stream_step(s0);
    let s2 = stream_step(s1);
    let s3 = stream_step(s2);
    crate::rng::lemma_unit_fraction_range(stream_mix(s1));
    crate::rng::lemma_unit_fraction_range(stream_mix(s2));
    crate::rng::lemma_unit_fraction_range(stream_mix(s3));
    lemma_between_comp_within(unit_fraction(stream_mix(s1)));
    lemma_between_comp_within(unit_fraction(stream_mix(s2)));
    lemma_between_comp_within(unit_fraction(stream_mix(s3)));
}

/// One component of a cube sample over `[-1, 1)` stays within one unit.
proof fn lemma_between_comp_within(u: int)
    requires
        0 <= u < FX_ONE,
    ensures
        mag(-FX_ONE + fmul(2 * FX_ONE, u)) <= FX_ONE,
{
    lemma_fmul_nonneg(2 * FX_ONE, u);
    lemma_fmul_bound(2 * FX_ONE, u, 2 * FX_ONE, FX_ONE - 1);
    vstd::arithmetic::div_mod::lemma_div_multiples_vanish(2 * (FX_ONE - 1), FX_SCALE as int);
    assert((2 * FX_ONE) * (FX_ONE - 1) == FX_SCALE * (2 * (FX_ONE - 1))) by (nonlinear_arith)
        requires
            FX_ONE == 16777216,
            FX_SCALE == 16777216,
    ;
}

} // verus!
