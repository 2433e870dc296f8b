//! What products of rotations do to vectors, when the arithmetic is exact.
use super::jacobian_laws::{angular_value, lemma_rapply, r3_turned, vector_value};
use crate::exact::{exact, lemma_commute, lemma_factor, lemma_zero};
use crate::quaternions::{
    h_add, h_conj, h_mul, h_norm, h_of, h_one, h_vec, lemma_associate, lemma_by_parts,
    lemma_conj_product, lemma_distribute_sum, lemma_times_one, lemma_unit_conj,
};
use crate::real_vectors::{
    lemma_cross_add, lemma_cross_linear, lemma_cross_zero, lemma_dot_sum, lemma_minus_right,
    lemma_right, r3_add, r3_cross, r3_dot, r3_neg, r3_scale, r3_zero,
};
use crate::scalar::{Scalar, two_spec};
use crate::solver::anchor_laws::{lemma_cross_orthogonal, lemma_cross_twice};
use crate::space::{Dim2, Dim3, Quat, Rot2, Space, V2, V3};
use vstd::prelude::*;

verus! {

// ---- quaternions ----

/// A vector turned by a quaternion.
pub open spec fn h_turn(q: Quat<real>, a: V3<real>) -> Quat<real> {
    h_mul(h_mul(q, h_of(0real, a)), h_conj(q))
}

pub(crate) proof fn lemma_cross_signs(a: V3<real>, b: V3<real>)
    ensures
        r3_cross(a, b) == r3_neg(r3_cross(b, a)),
        r3_cross(a, r3_neg(b)) == r3_neg(r3_cross(a, b)),
        r3_cross(r3_neg(a), b) == r3_neg(r3_cross(a, b)),
{
    lemma_signs(a.x, b.y);
    lemma_signs(a.x, b.z);
    lemma_signs(a.y, b.x);
    lemma_signs(a.y, b.z);
    lemma_signs(a.z, b.x);
    lemma_signs(a.z, b.y);
}

pub(crate) proof fn lemma_signs(a: real, b: real)
    ensures
        a * b == b * a,
        (-a) * b == -(a * b),
        a * (-b) == -(a * b),
        (-b) * a == -(a * b),
        b * (-a) == -(a * b),
{
    assert(a * b == b * a) by (nonlinear_arith);
    assert((-a) * b == -(a * b)) by (nonlinear_arith);
    assert(a * (-b) == -(a * b)) by (nonlinear_arith);
    assert((-b) * a == -(a * b)) by (nonlinear_arith);
    assert(b * (-a) == -(a * b)) by (nonlinear_arith);
}

pub(crate) proof fn lemma_cross_scaled(a: V3<real>, k: real, b: V3<real>)
    ensures
        r3_cross(r3_scale(a, k), b) == r3_scale(r3_cross(a, b), k),
{
    lemma_cross_linear(r3_zero(), a, k, b);
    lemma_cross_zero(b);
}

pub(crate) proof fn lemma_dot_commutes(a: V3<real>, b: V3<real>)
    ensures
        r3_dot(a, b) == r3_dot(b, a),
{
    lemma_commute(a.x, b.x);
    lemma_commute(a.y, b.y);
    lemma_commute(a.z, b.z);
}

pub(crate) proof fn lemma_dot_neg(a: V3<real>, b: V3<real>)
    ensures
        r3_dot(a, r3_neg(b)) == -r3_dot(a, b),
        r3_dot(r3_neg(a), b) == -r3_dot(a, b),
{
    lemma_signs(a.x, b.x);
    lemma_signs(a.y, b.y);
    lemma_signs(a.z, b.z);
}

/// The product form of a turn is its vector form.
pub(crate) proof fn lemma_turn(q: Quat<real>, a: V3<real>)
    ensures
        h_turn(q, a) == h_of(0real, r3_turned(q.w, h_vec(q), 2real, a)),
{
    let w = q.w;
    let b = h_vec(q);
    let s = r3_dot(b, a);
    let c = r3_cross(b, a);
    let u = r3_add(r3_scale(a, w), c);
    let m = r3_neg(b);
    assert(q == h_of(w, b));
    assert(h_conj(q) == h_of(w, m));
    lemma_by_parts(w, b, 0real, a);
    lemma_zero(w);
    lemma_zero(b.x);
    lemma_zero(b.y);
    lemma_zero(b.z);
    assert(h_mul(q, h_of(0real, a)) == h_of(-s, u));
    lemma_by_parts(-s, u, w, m);
    // The real part.
    lemma_dot_neg(u, b);
    lemma_dot_sum(b, c, a, w);
    assert(r3_add(c, r3_scale(a, w)) == u);
    lemma_cross_orthogonal(b, a);
    lemma_dot_commutes(a, b);
    lemma_signs(s, w);
    lemma_commute(s, w);
    // The imaginary part.
    lemma_cross_signs(u, b);
    lemma_cross_add(r3_scale(a, w), c, b);
    lemma_cross_scaled(a, w, b);
    lemma_cross_signs(a, b);
    lemma_cross_signs(c, b);
    lemma_cross_twice(b, a);
    lemma_right(a.x * w, c.x, w);
    lemma_right(a.y * w, c.y, w);
    lemma_right(a.z * w, c.z, w);
    lemma_collect(a.x, b.x, c.x, w, s, r3_dot(b, b));
    lemma_collect(a.y, b.y, c.y, w, s, r3_dot(b, b));
    lemma_collect(a.z, b.z, c.z, w, s, r3_dot(b, b));
    lemma_signs(c.x, w);
    lemma_signs(c.y, w);
    lemma_signs(c.z, w);
}

proof fn lemma_collect(a: real, b: real, c: real, w: real, s: real, n: real)
    ensures
        a * (w * w - n) + b * (s * 2real) + c * (w * 2real) == (-b) * (-s) + ((a * w) * w + c * w)
            + c * w + (b * s + a * (-n)),
{
    assert(a * (w * w - n) == (a * w) * w + a * (-n)) by (nonlinear_arith);
    assert(b * (s * 2real) == b * s + b * s) by (nonlinear_arith);
    assert(c * (w * 2real) == c * w + c * w) by (nonlinear_arith);
    assert((-b) * (-s) == b * s) by (nonlinear_arith);
}

/// Turning by a product turns by the second factor, then by the first.
pub(crate) proof fn lemma_compose(a: Quat<real>, b: Quat<real>, x: V3<real>)
    ensures
        r3_turned(h_mul(a, b).w, h_vec(h_mul(a, b)), 2real, x) == r3_turned(
            a.w,
            h_vec(a),
            2real,
            r3_turned(b.w, h_vec(b), 2real, x),
        ),
{
    let p = h_of(0real, x);
    let y = r3_turned(b.w, h_vec(b), 2real, x);
    let bx = h_mul(b, p);
    lemma_turn(h_mul(a, b), x);
    lemma_turn(b, x);
    lemma_turn(a, y);
    lemma_conj_product(a, b);
    lemma_associate(a, b, p);
    lemma_associate(h_mul(a, bx), h_conj(b), h_conj(a));
    lemma_associate(a, bx, h_conj(b));
    assert(h_turn(h_mul(a, b), x) == h_turn(a, y));
    assert(h_vec(h_of(0real, r3_turned(h_mul(a, b).w, h_vec(h_mul(a, b)), 2real, x))) == h_vec(
        h_of(0real, r3_turned(a.w, h_vec(a), 2real, y)),
    ));
}

/// A unit quaternion turns a cross product into that of the turned vectors, and
/// keeps dot products.
pub(crate) proof fn lemma_turn_products(q: Quat<real>, a: V3<real>, b: V3<real>)
    requires
        h_norm(q) == 1real,
    ensures
        ({
            let ta = r3_turned(q.w, h_vec(q), 2real, a);
            let tb = r3_turned(q.w, h_vec(q), 2real, b);
            &&& r3_turned(q.w, h_vec(q), 2real, r3_cross(a, b)) == r3_cross(ta, tb)
            &&& r3_dot(ta, tb) == r3_dot(a, b)
        }),
{
    let ta = r3_turned(q.w, h_vec(q), 2real, a);
    let tb = r3_turned(q.w, h_vec(q), 2real, b);
    let pa = h_of(0real, a);
    let pb = h_of(0real, b);
    let c = h_conj(q);
    let u = r3_cross(a, b);
    let s = -r3_dot(a, b);
    lemma_turn(q, a);
    lemma_turn(q, b);
    lemma_turn(q, u);
    lemma_unit_conj(q);
    // The turn of the product is the product of the turns.
    let qa = h_mul(q, pa);
    let qb = h_mul(q, pb);
    lemma_associate(qa, c, h_mul(qb, c));
    lemma_associate(c, qb, c);
    lemma_associate(c, q, pb);
    lemma_times_one(pb);
    assert(h_mul(c, qb) == pb);
    assert(h_mul(h_of(0real, ta), h_of(0real, tb)) == h_mul(qa, h_mul(pb, c)));
    lemma_associate(qa, pb, c);
    lemma_associate(q, pa, pb);
    let ab = h_mul(pa, pb);
    assert(h_mul(h_of(0real, ta), h_of(0real, tb)) == h_mul(h_mul(q, ab), c));
    // By parts.
    lemma_by_parts(0real, a, 0real, b);
    lemma_by_parts(0real, ta, 0real, tb);
    lemma_zero(a.x);
    lemma_zero(a.y);
    lemma_zero(a.z);
    lemma_zero(b.x);
    lemma_zero(b.y);
    lemma_zero(b.z);
    lemma_zero(ta.x);
    lemma_zero(ta.y);
    lemma_zero(ta.z);
    lemma_zero(tb.x);
    lemma_zero(tb.y);
    lemma_zero(tb.z);
    lemma_zero(0real);
    assert(ab == h_of(s, u));
    assert(h_mul(h_of(0real, ta), h_of(0real, tb)) == h_of(-r3_dot(ta, tb), r3_cross(ta, tb)));
    // The real part of the product commutes with everything.
    let real_part = h_of(s, r3_zero());
    assert(ab == h_add(real_part, h_of(0real, u)));
    lemma_distribute_sum(q, real_part, h_of(0real, u));
    lemma_distribute_sum(c, h_mul(q, real_part), h_mul(q, h_of(0real, u)));
    lemma_real_factor(q, s);
    lemma_real_pulls(q, s, c);
    assert(h_mul(h_mul(q, real_part), c) == h_of(s, r3_zero()));
}

/// Multiplication by a real number, from the right.
proof fn lemma_real_factor(q: Quat<real>, s: real)
    ensures
        h_mul(q, h_of(s, r3_zero())) == (Quat { x: q.x * s, y: q.y * s, z: q.z * s, w: q.w * s }),
{
    lemma_zero(q.x);
    lemma_zero(q.y);
    lemma_zero(q.z);
    lemma_zero(q.w);
}

proof fn lemma_real_pulls(q: Quat<real>, s: real, c: Quat<real>)
    requires
        h_mul(q, c) == h_one(),
    ensures
        h_mul(h_mul(q, h_of(s, r3_zero())), c) == h_of(s, r3_zero()),
{
    let r = h_of(s, r3_zero());
    lemma_associate(q, r, c);
    lemma_real_factor(q, s);
    // A real number commutes.
    assert(h_mul(r, c) == h_mul(c, r)) by {
        lemma_zero(c.x);
        lemma_zero(c.y);
        lemma_zero(c.z);
        lemma_zero(c.w);
        lemma_commute(s, c.x);
        lemma_commute(s, c.y);
        lemma_commute(s, c.z);
        lemma_commute(s, c.w);
    }
    lemma_associate(q, c, r);
    lemma_times_one(r);
}

// ---- rotations ----

/// The value of a quaternion.
pub open spec fn quat_value<S: Scalar>(v: spec_fn(S) -> real, q: Quat<S>) -> Quat<real> {
    Quat { x: v(q.x), y: v(q.y), z: v(q.z), w: v(q.w) }
}

/// Under the reading `v`, a product of rotations turns vectors by its second factor,
/// then by its first.
pub open spec fn composes<S: Scalar, D: Space<S>>(v: spec_fn(S) -> real) -> bool {
    &&& forall|a: D::R, b: D::R, x: D::V|
        vector_value::<S, D>(v, #[trigger] D::rapply_spec(D::rmul_spec(a, b), x))
            == vector_value::<S, D>(v, D::rapply_spec(a, D::rapply_spec(b, x)))
    &&& forall|a: D::R, b: D::R, x: D::A|
        angular_value::<S, D>(v, #[trigger] D::rapply_ang_spec(D::rmul_spec(a, b), x))
            == angular_value::<S, D>(v, D::rapply_ang_spec(a, D::rapply_ang_spec(b, x)))
}

/// In exact arithmetic, a product of rotations of the plane turns by both.
pub proof fn plane_rotations_compose<S: Scalar>(v: spec_fn(S) -> real)
    requires
        exact(v),
    ensures
        composes::<S, Dim2>(v),
{
    assert forall|a: Rot2<S>, b: Rot2<S>, x: V2<S>|
        vector_value::<S, Dim2>(
            v,
            #[trigger] <Dim2 as Space<S>>::rapply_spec(<Dim2 as Space<S>>::rmul_spec(a, b), x),
        ) == vector_value::<S, Dim2>(
            v,
            <Dim2 as Space<S>>::rapply_spec(a, <Dim2 as Space<S>>::rapply_spec(b, x)),
        ) by {
        lemma_compose2(v(a.re), v(a.im), v(b.re), v(b.im), v(x.x), v(x.y));
    }
}

pub(crate) proof fn lemma_compose2(c: real, s: real, d: real, t: real, x: real, y: real)
    ensures
        (c * d - s * t) * x - (s * d + c * t) * y == c * (d * x - t * y) - s * (t * x + d * y),
        (s * d + c * t) * x + (c * d - s * t) * y == s * (d * x - t * y) + c * (t * x + d * y),
{
    lemma_minus_right(c * d, s * t, x);
    lemma_minus_right(c * d, s * t, y);
    lemma_right(s * d, c * t, x);
    lemma_right(s * d, c * t, y);
    lemma_factor(s, t * x, d * y);
    lemma_factor(c, t * x, d * y);
    assert(c * (d * x - t * y) == c * (d * x) - c * (t * y)) by (nonlinear_arith);
    assert(s * (d * x - t * y) == s * (d * x) - s * (t * y)) by (nonlinear_arith);
    assert((c * d) * x == c * (d * x)) by (nonlinear_arith);
    assert((c * d) * y == c * (d * y)) by (nonlinear_arith);
    assert((s * t) * x == s * (t * x)) by (nonlinear_arith);
    assert((s * t) * y == s * (t * y)) by (nonlinear_arith);
    assert((s * d) * x == s * (d * x)) by (nonlinear_arith);
    assert((s * d) * y == s * (d * y)) by (nonlinear_arith);
    assert((c * t) * x == c * (t * x)) by (nonlinear_arith);
    assert((c * t) * y == c * (t * y)) by (nonlinear_arith);
}

/// The value of a product of quaternions.
pub(crate) proof fn lemma_rmul<S: Scalar>(v: spec_fn(S) -> real, a: Quat<S>, b: Quat<S>)
    requires
        exact(v),
    ensures
        quat_value(v, <Dim3 as Space<S>>::rmul_spec(a, b)) == h_mul(
            quat_value(v, a),
            quat_value(v, b),
        ),
{
}

/// In exact arithmetic, a product of rotations of space turns by both.
pub proof fn space_rotations_compose<S: Scalar>(v: spec_fn(S) -> real)
    requires
        exact(v),
        v(two_spec::<S>()) == 2real,
    ensures
        composes::<S, Dim3>(v),
{
    assert forall|a: Quat<S>, b: Quat<S>, x: V3<S>|
        vector_value::<S, Dim3>(
            v,
            #[trigger] <Dim3 as Space<S>>::rapply_spec(<Dim3 as Space<S>>::rmul_spec(a, b), x),
        ) == vector_value::<S, Dim3>(
            v,
            <Dim3 as Space<S>>::rapply_spec(a, <Dim3 as Space<S>>::rapply_spec(b, x)),
        ) by {
        lemma_composed(v, a, b, x);
    }
    assert forall|a: Quat<S>, b: Quat<S>, x: V3<S>|
        angular_value::<S, Dim3>(
            v,
            #[trigger] <Dim3 as Space<S>>::rapply_ang_spec(
                <Dim3 as Space<S>>::rmul_spec(a, b),
                x,
            ),
        ) == angular_value::<S, Dim3>(
            v,
            <Dim3 as Space<S>>::rapply_ang_spec(a, <Dim3 as Space<S>>::rapply_ang_spec(b, x)),
        ) by {
        lemma_composed(v, a, b, x);
    }
}

proof fn lemma_composed<S: Scalar>(v: spec_fn(S) -> real, a: Quat<S>, b: Quat<S>, x: V3<S>)
    requires
        exact(v),
        v(two_spec::<S>()) == 2real,
    ensures
        vector_value::<S, Dim3>(
            v,
            <Dim3 as Space<S>>::rapply_spec(<Dim3 as Space<S>>::rmul_spec(a, b), x),
        ) == vector_value::<S, Dim3>(
            v,
            <Dim3 as Space<S>>::rapply_spec(a, <Dim3 as Space<S>>::rapply_spec(b, x)),
        ),
{
    lemma_rmul(v, a, b);
    lemma_rapply(v, <Dim3 as Space<S>>::rmul_spec(a, b), x);
    lemma_rapply(v, b, x);
    lemma_rapply(v, a, <Dim3 as Space<S>>::rapply_spec(b, x));
    lemma_compose(quat_value(v, a), quat_value(v, b), vector_value::<S, Dim3>(v, x));
}

} // verus!
