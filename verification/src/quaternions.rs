//! Quaternions of real numbers: what the rotations of space stand for when the
//! arithmetic is exact.
use crate::exact::{lemma_commute, lemma_factor, lemma_zero};
use crate::real_vectors::{
    lemma_minus_right, lemma_one, lemma_right, r3_add, r3_cross, r3_dot, r3_scale, r3_zero,
};
use crate::space::{Quat, V3};
use vstd::prelude::*;

verus! {

pub open spec fn h_mul(a: Quat<real>, b: Quat<real>) -> Quat<real> {
    Quat {
        x: a.w * b.x + a.x * b.w + a.y * b.z - a.z * b.y,
        y: a.w * b.y - a.x * b.z + a.y * b.w + a.z * b.x,
        z: a.w * b.z + a.x * b.y - a.y * b.x + a.z * b.w,
        w: a.w * b.w - a.x * b.x - a.y * b.y - a.z * b.z,
    }
}

pub open spec fn h_add(a: Quat<real>, b: Quat<real>) -> Quat<real> {
    Quat { x: a.x + b.x, y: a.y + b.y, z: a.z + b.z, w: a.w + b.w }
}

pub open spec fn h_conj(a: Quat<real>) -> Quat<real> {
    Quat { x: -a.x, y: -a.y, z: -a.z, w: a.w }
}

/// The quaternion with imaginary part `a` and real part `w`.
pub open spec fn h_of(w: real, a: V3<real>) -> Quat<real> {
    Quat { x: a.x, y: a.y, z: a.z, w: w }
}

/// The imaginary part.
pub open spec fn h_vec(a: Quat<real>) -> V3<real> {
    V3 { x: a.x, y: a.y, z: a.z }
}

/// The square of the length.
pub open spec fn h_norm(a: Quat<real>) -> real {
    a.w * a.w + r3_dot(h_vec(a), h_vec(a))
}

proof fn lemma_left_minus(k: real, a: real, b: real)
    ensures
        k * (a - b) == k * a - k * b,
{
    assert(k * (a - b) == k * a - k * b) by (nonlinear_arith);
}

proof fn lemma_spread_x(p: real, q: real, r: real, s: real, k: real)
    ensures
        (p + q + r - s) * k == p * k + q * k + r * k - s * k,
        k * (p + q + r - s) == k * p + k * q + k * r - k * s,
{
    lemma_right(p, q, k);
    lemma_factor(k, p, q);
    lemma_right(p + q, r, k);
    lemma_factor(k, p + q, r);
    lemma_minus_right(p + q + r, s, k);
    lemma_left_minus(k, p + q + r, s);
}

proof fn lemma_spread_y(p: real, q: real, r: real, s: real, k: real)
    ensures
        (p - q + r + s) * k == p * k - q * k + r * k + s * k,
        k * (p - q + r + s) == k * p - k * q + k * r + k * s,
{
    lemma_minus_right(p, q, k);
    lemma_left_minus(k, p, q);
    lemma_right(p - q, r, k);
    lemma_factor(k, p - q, r);
    lemma_right(p - q + r, s, k);
    lemma_factor(k, p - q + r, s);
}

proof fn lemma_spread_z(p: real, q: real, r: real, s: real, k: real)
    ensures
        (p + q - r + s) * k == p * k + q * k - r * k + s * k,
        k * (p + q - r + s) == k * p + k * q - k * r + k * s,
{
    lemma_right(p, q, k);
    lemma_factor(k, p, q);
    lemma_minus_right(p + q, r, k);
    lemma_left_minus(k, p + q, r);
    lemma_right(p + q - r, s, k);
    lemma_factor(k, p + q - r, s);
}

proof fn lemma_spread_w(p: real, q: real, r: real, s: real, k: real)
    ensures
        (p - q - r - s) * k == p * k - q * k - r * k - s * k,
        k * (p - q - r - s) == k * p - k * q - k * r - k * s,
{
    lemma_minus_right(p, q, k);
    lemma_left_minus(k, p, q);
    lemma_minus_right(p - q, r, k);
    lemma_left_minus(k, p - q, r);
    lemma_minus_right(p - q - r, s, k);
    lemma_left_minus(k, p - q - r, s);
}

proof fn lemma_three(a: real, b: real, c: real)
    ensures
        (a * b) * c == a * (b * c),
{
    assert((a * b) * c == a * (b * c)) by (nonlinear_arith);
}

proof fn lemma_associate_x(a: Quat<real>, b: Quat<real>, c: Quat<real>)
    ensures
        h_mul(h_mul(a, b), c).x == h_mul(a, h_mul(b, c)).x,
{
    lemma_spread_w(a.w * b.w, a.x * b.x, a.y * b.y, a.z * b.z, c.x);
    lemma_three(a.w, b.w, c.x);
    lemma_three(a.x, b.x, c.x);
    lemma_three(a.y, b.y, c.x);
    lemma_three(a.z, b.z, c.x);
    lemma_spread_x(a.w * b.x, a.x * b.w, a.y * b.z, a.z * b.y, c.w);
    lemma_three(a.w, b.x, c.w);
    lemma_three(a.x, b.w, c.w);
    lemma_three(a.y, b.z, c.w);
    lemma_three(a.z, b.y, c.w);
    lemma_spread_y(a.w * b.y, a.x * b.z, a.y * b.w, a.z * b.x, c.z);
    lemma_three(a.w, b.y, c.z);
    lemma_three(a.x, b.z, c.z);
    lemma_three(a.y, b.w, c.z);
    lemma_three(a.z, b.x, c.z);
    lemma_spread_z(a.w * b.z, a.x * b.y, a.y * b.x, a.z * b.w, c.y);
    lemma_three(a.w, b.z, c.y);
    lemma_three(a.x, b.y, c.y);
    lemma_three(a.y, b.x, c.y);
    lemma_three(a.z, b.w, c.y);
    lemma_spread_x(b.w * c.x, b.x * c.w, b.y * c.z, b.z * c.y, a.w);
    lemma_spread_w(b.w * c.w, b.x * c.x, b.y * c.y, b.z * c.z, a.x);
    lemma_spread_z(b.w * c.z, b.x * c.y, b.y * c.x, b.z * c.w, a.y);
    lemma_spread_y(b.w * c.y, b.x * c.z, b.y * c.w, b.z * c.x, a.z);
}

proof fn lemma_associate_y(a: Quat<real>, b: Quat<real>, c: Quat<real>)
    ensures
        h_mul(h_mul(a, b), c).y == h_mul(a, h_mul(b, c)).y,
{
    lemma_spread_w(a.w * b.w, a.x * b.x, a.y * b.y, a.z * b.z, c.y);
    lemma_three(a.w, b.w, c.y);
    lemma_three(a.x, b.x, c.y);
    lemma_three(a.y, b.y, c.y);
    lemma_three(a.z, b.z, c.y);
    lemma_spread_x(a.w * b.x, a.x * b.w, a.y * b.z, a.z * b.y, c.z);
    lemma_three(a.w, b.x, c.z);
    lemma_three(a.x, b.w, c.z);
    lemma_three(a.y, b.z, c.z);
    lemma_three(a.z, b.y, c.z);
    lemma_spread_y(a.w * b.y, a.x * b.z, a.y * b.w, a.z * b.x, c.w);
    lemma_three(a.w, b.y, c.w);
    lemma_three(a.x, b.z, c.w);
    lemma_three(a.y, b.w, c.w);
    lemma_three(a.z, b.x, c.w);
    lemma_spread_z(a.w * b.z, a.x * b.y, a.y * b.x, a.z * b.w, c.x);
    lemma_three(a.w, b.z, c.x);
    lemma_three(a.x, b.y, c.x);
    lemma_three(a.y, b.x, c.x);
    lemma_three(a.z, b.w, c.x);
    lemma_spread_y(b.w * c.y, b.x * c.z, b.y * c.w, b.z * c.x, a.w);
    lemma_spread_z(b.w * c.z, b.x * c.y, b.y * c.x, b.z * c.w, a.x);
    lemma_spread_w(b.w * c.w, b.x * c.x, b.y * c.y, b.z * c.z, a.y);
    lemma_spread_x(b.w * c.x, b.x * c.w, b.y * c.z, b.z * c.y, a.z);
}

proof fn lemma_associate_z(a: Quat<real>, b: Quat<real>, c: Quat<real>)
    ensures
        h_mul(h_mul(a, b), c).z == h_mul(a, h_mul(b, c)).z,
{
    lemma_spread_w(a.w * b.w, a.x * b.x, a.y * b.y, a.z * b.z, c.z);
    lemma_three(a.w, b.w, c.z);
    lemma_three(a.x, b.x, c.z);
    lemma_three(a.y, b.y, c.z);
    lemma_three(a.z, b.z, c.z);
    lemma_spread_x(a.w * b.x, a.x * b.w, a.y * b.z, a.z * b.y, c.y);
    lemma_three(a.w, b.x, c.y);
    lemma_three(a.x, b.w, c.y);
    lemma_three(a.y, b.z, c.y);
    lemma_three(a.z, b.y, c.y);
    lemma_spread_y(a.w * b.y, a.x * b.z, a.y * b.w, a.z * b.x, c.x);
    lemma_three(a.w, b.y, c.x);
    lemma_three(a.x, b.z, c.x);
    lemma_three(a.y, b.w, c.x);
    lemma_three(a.z, b.x, c.x);
    lemma_spread_z(a.w * b.z, a.x * b.y, a.y * b.x, a.z * b.w, c.w);
    lemma_three(a.w, b.z, c.w);
    lemma_three(a.x, b.y, c.w);
    lemma_three(a.y, b.x, c.w);
    lemma_three(a.z, b.w, c.w);
    lemma_spread_z(b.w * c.z, b.x * c.y, b.y * c.x, b.z * c.w, a.w);
    lemma_spread_y(b.w * c.y, b.x * c.z, b.y * c.w, b.z * c.x, a.x);
    lemma_spread_x(b.w * c.x, b.x * c.w, b.y * c.z, b.z * c.y, a.y);
    lemma_spread_w(b.w * c.w, b.x * c.x, b.y * c.y, b.z * c.z, a.z);
}

proof fn lemma_associate_w(a: Quat<real>, b: Quat<real>, c: Quat<real>)
    ensures
        h_mul(h_mul(a, b), c).w == h_mul(a, h_mul(b, c)).w,
{
    lemma_spread_w(a.w * b.w, a.x * b.x, a.y * b.y, a.z * b.z, c.w);
    lemma_three(a.w, b.w, c.w);
    lemma_three(a.x, b.x, c.w);
    lemma_three(a.y, b.y, c.w);
    lemma_three(a.z, b.z, c.w);
    lemma_spread_x(a.w * b.x, a.x * b.w, a.y * b.z, a.z * b.y, c.x);
    lemma_three(a.w, b.x, c.x);
    lemma_three(a.x, b.w, c.x);
    lemma_three(a.y, b.z, c.x);
    lemma_three(a.z, b.y, c.x);
    lemma_spread_y(a.w * b.y, a.x * b.z, a.y * b.w, a.z * b.x, c.y);
    lemma_three(a.w, b.y, c.y);
    lemma_three(a.x, b.z, c.y);
    lemma_three(a.y, b.w, c.y);
    lemma_three(a.z, b.x, c.y);
    lemma_spread_z(a.w * b.z, a.x * b.y, a.y * b.x, a.z * b.w, c.z);
    lemma_three(a.w, b.z, c.z);
    lemma_three(a.x, b.y, c.z);
    lemma_three(a.y, b.x, c.z);
    lemma_three(a.z, b.w, c.z);
    lemma_spread_w(b.w * c.w, b.x * c.x, b.y * c.y, b.z * c.z, a.w);
    lemma_spread_x(b.w * c.x, b.x * c.w, b.y * c.z, b.z * c.y, a.x);
    lemma_spread_y(b.w * c.y, b.x * c.z, b.y * c.w, b.z * c.x, a.y);
    lemma_spread_z(b.w * c.z, b.x * c.y, b.y * c.x, b.z * c.w, a.z);
}

/// Products of quaternions associate.
pub proof fn lemma_associate(a: Quat<real>, b: Quat<real>, c: Quat<real>)
    ensures
        h_mul(h_mul(a, b), c) == h_mul(a, h_mul(b, c)),
{
    lemma_associate_x(a, b, c);
    lemma_associate_y(a, b, c);
    lemma_associate_z(a, b, c);
    lemma_associate_w(a, b, c);
}

/// Products of quaternions distribute over sums.
pub proof fn lemma_distribute_sum(a: Quat<real>, b: Quat<real>, c: Quat<real>)
    ensures
        h_mul(a, h_add(b, c)) == h_add(h_mul(a, b), h_mul(a, c)),
        h_mul(h_add(b, c), a) == h_add(h_mul(b, a), h_mul(c, a)),
{
    lemma_factor(a.x, b.x, c.x);
    lemma_right(b.x, c.x, a.x);
    lemma_factor(a.x, b.y, c.y);
    lemma_right(b.y, c.y, a.x);
    lemma_factor(a.x, b.z, c.z);
    lemma_right(b.z, c.z, a.x);
    lemma_factor(a.x, b.w, c.w);
    lemma_right(b.w, c.w, a.x);
    lemma_factor(a.y, b.x, c.x);
    lemma_right(b.x, c.x, a.y);
    lemma_factor(a.y, b.y, c.y);
    lemma_right(b.y, c.y, a.y);
    lemma_factor(a.y, b.z, c.z);
    lemma_right(b.z, c.z, a.y);
    lemma_factor(a.y, b.w, c.w);
    lemma_right(b.w, c.w, a.y);
    lemma_factor(a.z, b.x, c.x);
    lemma_right(b.x, c.x, a.z);
    lemma_factor(a.z, b.y, c.y);
    lemma_right(b.y, c.y, a.z);
    lemma_factor(a.z, b.z, c.z);
    lemma_right(b.z, c.z, a.z);
    lemma_factor(a.z, b.w, c.w);
    lemma_right(b.w, c.w, a.z);
    lemma_factor(a.w, b.x, c.x);
    lemma_right(b.x, c.x, a.w);
    lemma_factor(a.w, b.y, c.y);
    lemma_right(b.y, c.y, a.w);
    lemma_factor(a.w, b.z, c.z);
    lemma_right(b.z, c.z, a.w);
    lemma_factor(a.w, b.w, c.w);
    lemma_right(b.w, c.w, a.w);
}

/// The conjugate of a product.
pub proof fn lemma_conj_product(a: Quat<real>, b: Quat<real>)
    ensures
        h_conj(h_mul(a, b)) == h_mul(h_conj(b), h_conj(a)),
{
    lemma_signs(a.x, b.x);
    lemma_signs(a.x, b.y);
    lemma_signs(a.x, b.z);
    lemma_signs(a.x, b.w);
    lemma_signs(a.y, b.x);
    lemma_signs(a.y, b.y);
    lemma_signs(a.y, b.z);
    lemma_signs(a.y, b.w);
    lemma_signs(a.z, b.x);
    lemma_signs(a.z, b.y);
    lemma_signs(a.z, b.z);
    lemma_signs(a.z, b.w);
    lemma_signs(a.w, b.x);
    lemma_signs(a.w, b.y);
    lemma_signs(a.w, b.z);
    lemma_signs(a.w, b.w);
}

proof fn lemma_signs(a: real, b: real)
    ensures
        a * b == b * a,
        (-a) * b == -(a * b),
        a * (-b) == -(a * b),
        (-a) * (-b) == a * b,
        (-b) * a == -(a * b),
        b * (-a) == -(a * b),
        (-b) * (-a) == a * b,
{
    assert(a * b == b * a) by (nonlinear_arith);
    assert((-a) * b == -(a * b)) by (nonlinear_arith);
    assert(a * (-b) == -(a * b)) by (nonlinear_arith);
    assert((-a) * (-b) == a * b) by (nonlinear_arith);
    assert((-b) * a == -(a * b)) by (nonlinear_arith);
    assert(b * (-a) == -(a * b)) by (nonlinear_arith);
    assert((-b) * (-a) == a * b) by (nonlinear_arith);
}

/// A product of quaternions by real and imaginary parts.
pub proof fn lemma_by_parts(p: real, a: V3<real>, q: real, b: V3<real>)
    ensures
        h_mul(h_of(p, a), h_of(q, b)) == h_of(
            p * q - r3_dot(a, b),
            r3_add(r3_add(r3_scale(b, p), r3_scale(a, q)), r3_cross(a, b)),
        ),
{
    lemma_commute(p, b.x);
    lemma_commute(p, b.y);
    lemma_commute(p, b.z);
    lemma_commute(b.y, a.z);
    lemma_commute(b.z, a.x);
    lemma_commute(b.x, a.y);
}

pub open spec fn h_one() -> Quat<real> {
    h_of(1real, r3_zero())
}

pub proof fn lemma_times_one(a: Quat<real>)
    ensures
        h_mul(a, h_one()) == a,
        h_mul(h_one(), a) == a,
{
    lemma_one(a.x);
    lemma_one(a.y);
    lemma_one(a.z);
    lemma_one(a.w);
    lemma_zero(a.x);
    lemma_zero(a.y);
    lemma_zero(a.z);
    lemma_zero(a.w);
}

/// A unit quaternion times its conjugate is one.
pub proof fn lemma_unit_conj(a: Quat<real>)
    requires
        h_norm(a) == 1real,
    ensures
        h_mul(a, h_conj(a)) == h_one(),
        h_mul(h_conj(a), a) == h_one(),
{
    lemma_signs(a.x, a.x);
    lemma_signs(a.x, a.y);
    lemma_signs(a.x, a.z);
    lemma_signs(a.x, a.w);
    lemma_signs(a.y, a.x);
    lemma_signs(a.y, a.y);
    lemma_signs(a.y, a.z);
    lemma_signs(a.y, a.w);
    lemma_signs(a.z, a.x);
    lemma_signs(a.z, a.y);
    lemma_signs(a.z, a.z);
    lemma_signs(a.z, a.w);
    lemma_signs(a.w, a.x);
    lemma_signs(a.w, a.y);
    lemma_signs(a.w, a.z);
    lemma_signs(a.w, a.w);
}

} // verus!
