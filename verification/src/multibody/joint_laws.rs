//! What the rows of the impulse joints mean when the arithmetic is exact.
use super::contact_laws::{
    columns_angular, columns_linear, lemma_dot_difference, lemma_dot_weighted, lemma_force_at_point,
    plane_wrenches_work, space_wrenches_work, wrenches_work,
};
use super::force_laws::power;
use super::impulse_joint_helper::{
    AxisId, JointConstraintHelper, axis_forces, helper_spec, snapped_center,
};
use super::impulse_joint_jacobians::{body_row, link_row, spatial_row};
use super::jacobian_laws::{
    angular_value, geometric, lemma_column, lemma_cross_second, plane_is_geometric, r3_axis,
    r3_turned, space_is_geometric, unit_length, vector_value,
};
use super::mass_laws::{
    inertial, lemma_weighted_add, lemma_weighted_dot, plane_is_inertial, space_is_inertial,
};
use super::motion_laws::exact_angles;
use super::rate_laws::rates;
use super::space_laws::{plane_is_spatial, space_is_spatial, spatial};
use super::sweeps::dot_fold;
use super::turn_laws::{
    lemma_cross_scaled, lemma_cross_signs, lemma_dot_commutes, lemma_dot_neg, lemma_signs,
    lemma_turn_products, quat_value,
};
use super::types::WorldMassProperties;
use crate::columns::col_of;
use crate::exact::{exact, lemma_commute, lemma_factor, lemma_zero};
use crate::joint::has_axis;
use crate::quaternions::{
    h_add, h_conj, h_mul, h_of, h_vec, lemma_associate, lemma_by_parts, lemma_conj_product,
    lemma_distribute_sum,
};
use crate::real_vectors::{
    lemma_cross_add, lemma_dot_sum, lemma_minus_right, lemma_move_right, lemma_one, lemma_right,
    r3_add, r3_cross, r3_dot, r3_neg, r3_scale, r3_sub, r3_zero,
};
use crate::scalar::{Scalar, half_spec, two_spec};
use crate::space::{
    Dim2, Dim3, Pose, Quat, Rot2, Space, V3, Velocity, quat_sign_spec, rotation_diff_spec,
};
use vstd::prelude::*;

verus! {

// ---- axes ----

/// Under the reading `v`, the axes of the frame with rotation `q` are the images of
/// the axes of the world, at right angles and of unit length.
pub open spec fn has_axes<S: Scalar, D: Space<S>>(v: spec_fn(S) -> real, q: D::R) -> bool {
    let lin = D::dimension_spec().lin_spec();
    &&& forall|i: int|
        0 <= i < lin ==> vector_value::<S, D>(v, #[trigger] D::raxis_spec(q, i)) == vector_value::<
            S,
            D,
        >(v, D::rapply_spec(q, D::vaxis_spec(i, S::one_spec())))
    &&& forall|i: int, j: int|
        0 <= i < lin && 0 <= j < lin ==> r3_dot(
            vector_value::<S, D>(v, #[trigger] D::raxis_spec(q, i)),
            vector_value::<S, D>(v, #[trigger] D::raxis_spec(q, j)),
        ) == (if i == j {
            1real
        } else {
            0real
        })
}

/// In exact arithmetic, a unit complex number has its axes at right angles.
pub proof fn unit_numbers_have_axes<S: Scalar>(v: spec_fn(S) -> real, q: Rot2<S>)
    requires
        exact(v),
        v(q.re) * v(q.re) + v(q.im) * v(q.im) == 1real,
    ensures
        has_axes::<S, Dim2>(v, q),
{
    let c = v(q.re);
    let s = v(q.im);
    lemma_one(c);
    lemma_one(s);
    lemma_zero(c);
    lemma_zero(s);
    lemma_zero(0real);
    lemma_signs(c, s);
    assert((-s) * (-s) == s * s) by (nonlinear_arith);
}

/// In exact arithmetic, a unit quaternion has its axes at right angles.
pub proof fn unit_quaternions_have_axes<S: Scalar>(v: spec_fn(S) -> real, q: Quat<S>)
    requires
        exact(v),
        v(two_spec::<S>()) == 2real,
        unit_length(v, q),
    ensures
        has_axes::<S, Dim3>(v, q),
{
    let qv = quat_value(v, q);
    let b = h_vec(qv);
    assert forall|i: int| 0 <= i < 3 implies vector_value::<S, Dim3>(
        v,
        #[trigger] <Dim3 as Space<S>>::raxis_spec(q, i),
    ) == r3_turned(qv.w, b, 2real, r3_axis(i)) by {
        lemma_column(v, q, i);
    }
    assert forall|i: int| 0 <= i < 3 implies vector_value::<S, Dim3>(
        v,
        #[trigger] <Dim3 as Space<S>>::raxis_spec(q, i),
    ) == vector_value::<S, Dim3>(
        v,
        <Dim3 as Space<S>>::rapply_spec(q, <Dim3 as Space<S>>::vaxis_spec(i, S::one_spec())),
    ) by {
        super::jacobian_laws::lemma_rapply(
            v,
            q,
            <Dim3 as Space<S>>::vaxis_spec(i, S::one_spec()),
        );
    }
    lemma_zero(0real);
    lemma_zero(1real);
    lemma_one(1real);
    assert forall|i: int, j: int| 0 <= i < 3 && 0 <= j < 3 implies r3_dot(
        vector_value::<S, Dim3>(v, #[trigger] <Dim3 as Space<S>>::raxis_spec(q, i)),
        vector_value::<S, Dim3>(v, #[trigger] <Dim3 as Space<S>>::raxis_spec(q, j)),
    ) == (if i == j {
        1real
    } else {
        0real
    }) by {
        lemma_turn_products(qv, r3_axis(i), r3_axis(j));
    }
}

// ---- where forces act ----

proof fn lemma_snapped<S: Scalar, D: Space<S>>(
    v: spec_fn(S) -> real,
    q1: D::R,
    center: D::V,
    lin_err: D::V,
    locked: u32,
    n: int,
    i: int,
)
    requires
        exact(v),
        spatial::<S, D>(v),
        inertial::<S, D>(v),
        has_axes::<S, D>(v, q1),
        0 <= n <= D::dimension_spec().lin_spec(),
        0 <= i < D::dimension_spec().lin_spec(),
    ensures
        ({
            let x = vector_value::<S, D>(v, D::raxis_spec(q1, i));
            let s = vector_value::<S, D>(
                v,
                snapped_center::<S, D>(q1, center, lin_err, locked, n),
            );
            r3_dot(x, s) == r3_dot(x, vector_value::<S, D>(v, center)) - (if i < n && has_axis(
                locked,
                i,
            ) {
                r3_dot(x, vector_value::<S, D>(v, lin_err))
            } else {
                0real
            })
        }),
    decreases n,
{
    if n > 0 {
        lemma_snapped::<S, D>(v, q1, center, lin_err, locked, n - 1, i);
        let p = snapped_center::<S, D>(q1, center, lin_err, locked, n - 1);
        let axis = D::raxis_spec(q1, n - 1);
        if has_axis(locked, n - 1) {
            let x = vector_value::<S, D>(v, D::raxis_spec(q1, i));
            let y = vector_value::<S, D>(v, axis);
            let e = vector_value::<S, D>(v, lin_err);
            let k = v(D::vdot_spec(lin_err, axis));
            lemma_dot_commutes(e, y);
            assert(k == r3_dot(y, e));
            lemma_dot_difference(x, vector_value::<S, D>(v, p), r3_scale(y, k));
            lemma_dot_sum(x, r3_zero(), y, k);
            assert(r3_add(r3_zero(), r3_scale(y, k)) == r3_scale(y, k));
            lemma_zero(x.x);
            lemma_zero(x.y);
            lemma_zero(x.z);
            lemma_zero(k);
            lemma_one(k);
            assert(r3_dot(x, y) == (if i == n - 1 {
                1real
            } else {
                0real
            }));
        }
    }
}

/// The point where the forces of a joint act on side A, less the centre of mass that
/// the joint measures from.
proof fn lemma_arms<S: Scalar, D: Space<S>>(
    v: spec_fn(S) -> real,
    frame1: Pose<S, D>,
    frame2: Pose<S, D>,
    com1: D::V,
    com2: D::V,
    locked: u32,
    i: int,
)
    requires
        exact(v),
        spatial::<S, D>(v),
        inertial::<S, D>(v),
        has_axes::<S, D>(v, frame1.rotation),
        0 <= i < D::dimension_spec().lin_spec(),
    ensures
        ({
            let h = helper_spec(frame1, frame2, com1, com2, locked);
            let x = vector_value::<S, D>(v, D::raxis_spec(frame1.rotation, i));
            let a = vector_value::<S, D>(v, frame1.translation);
            let b = vector_value::<S, D>(v, frame2.translation);
            let on_a = r3_add(
                vector_value::<S, D>(v, h.r1),
                vector_value::<S, D>(v, com1),
            );
            let on_b = r3_add(
                vector_value::<S, D>(v, h.r2),
                vector_value::<S, D>(v, com2),
            );
            &&& on_b == b
            &&& r3_dot(x, on_a) == (if has_axis(locked, i) {
                r3_dot(x, a)
            } else {
                r3_dot(x, b)
            })
        }),
{
    let lin = D::dimension_spec().lin_spec();
    let h = helper_spec(frame1, frame2, com1, com2, locked);
    lemma_snapped::<S, D>(v, frame1.rotation, frame2.translation, h.lin_err, locked, lin, i);
    let x = vector_value::<S, D>(v, D::raxis_spec(frame1.rotation, i));
    let a = vector_value::<S, D>(v, frame1.translation);
    let b = vector_value::<S, D>(v, frame2.translation);
    lemma_dot_difference(x, b, a);
    let s = vector_value::<S, D>(
        v,
        snapped_center::<S, D>(frame1.rotation, frame2.translation, h.lin_err, locked, lin),
    );
    assert(r3_add(vector_value::<S, D>(v, h.r1), vector_value::<S, D>(v, com1)) == s);
}

// ---- rows ----

/// The velocity along a constraint of a joint, of a unit force and torque on each
/// side, compares side B with side A.
proof fn lemma_axis_velocity<S: Scalar, D: Space<S>>(
    v: spec_fn(S) -> real,
    h: JointConstraintHelper<S, D>,
    id: AxisId,
    va: Velocity<S, D>,
    vb: Velocity<S, D>,
)
    requires
        exact(v),
        geometric::<S, D>(v),
        spatial::<S, D>(v),
    ensures
        ({
            let f = axis_forces(h, id);
            let lin = D::dimension_spec().lin_spec();
            let wa = angular_value::<S, D>(v, va.angular);
            let wb = angular_value::<S, D>(v, vb.angular);
            let along_axis = power(v, f.1, vb) - power(v, f.0, va);
            &&& id.axis < lin ==> along_axis == r3_dot(
                vector_value::<S, D>(v, D::raxis_spec(h.q1, id.axis as int)),
                r3_sub(
                    r3_add(
                        vector_value::<S, D>(v, vb.linear),
                        r3_cross(wb, vector_value::<S, D>(v, h.r2)),
                    ),
                    r3_add(
                        vector_value::<S, D>(v, va.linear),
                        r3_cross(wa, vector_value::<S, D>(v, h.r1)),
                    ),
                ),
            )
            &&& lin <= id.axis ==> along_axis == r3_dot(
                angular_value::<S, D>(v, f.0.angular),
                r3_sub(wb, wa),
            )
        }),
{
    let f = axis_forces(h, id);
    let lin = D::dimension_spec().lin_spec();
    let la = vector_value::<S, D>(v, va.linear);
    let lb = vector_value::<S, D>(v, vb.linear);
    let wa = angular_value::<S, D>(v, va.angular);
    let wb = angular_value::<S, D>(v, vb.angular);
    if id.axis < lin {
        let x = vector_value::<S, D>(v, D::raxis_spec(h.q1, id.axis as int));
        let r1 = vector_value::<S, D>(v, h.r1);
        let r2 = vector_value::<S, D>(v, h.r2);
        lemma_force_at_point(la, wa, r1, x);
        lemma_force_at_point(lb, wb, r2, x);
        lemma_dot_difference(x, r3_add(lb, r3_cross(wb, r2)), r3_add(la, r3_cross(wa, r1)));
    } else {
        let g = angular_value::<S, D>(v, f.0.angular);
        crate::real_vectors::lemma_dot_zero(la);
        crate::real_vectors::lemma_dot_zero(lb);
        lemma_dot_commutes(wa, g);
        lemma_dot_commutes(wb, g);
        lemma_dot_difference(g, wb, wa);
    }
}

/// The generalized velocities move along the row of a link as the link does.
proof fn lemma_link_row<S: Scalar, D: Space<S>>(
    v: spec_fn(S) -> real,
    m: Seq<Seq<S>>,
    f: Velocity<S, D>,
    q: Seq<S>,
)
    requires
        exact(v),
        wrenches_work::<S, D>(v),
    ensures
        v(dot_fold(link_row(m, f, q.len() as int), q, q.len() as int)) == r3_dot(
            columns_linear::<S, D>(v, m, q),
            vector_value::<S, D>(v, f.linear),
        ) + r3_dot(columns_angular::<S, D>(v, m, q), angular_value::<S, D>(v, f.angular)),
{
    let n = q.len() as int;
    let row = link_row(m, f, n);
    let fl = vector_value::<S, D>(v, f.linear);
    let fa = angular_value::<S, D>(v, f.angular);
    let l = |c: int| vector_value::<S, D>(v, col_of::<S, D>(m, c).linear);
    let w = |c: int| angular_value::<S, D>(v, col_of::<S, D>(m, c).angular);
    let h = |c: int| v(row[c]);
    let x = |c: int| r3_dot(l(c), fl);
    let y = |c: int| r3_dot(w(c), fa);
    lemma_dot_weighted(v, row, q, n);
    assert forall|c: int| 0 <= c < n implies #[trigger] h(c) == x(c) + y(c) by {
        assert(v(
            super::contact_constraints::wrench_dot::<S, D>(
                m,
                c,
                f,
                D::dimension_spec().spatial_spec(),
            ),
        ) == power(v, f, col_of::<S, D>(m, c)));
    }
    lemma_weighted_add(v, q, x, y, h, n);
    lemma_weighted_dot(v, q, fl, l, x, |c: int| r3_dot(fl, l(c)), n);
    lemma_weighted_dot(v, q, fa, w, y, |c: int| r3_dot(fa, w(c)), n);
}

// ---- angular errors ----

/// `b x (c x a)` by dot products.
pub(crate) proof fn lemma_cross_cross(b: V3<real>, c: V3<real>, a: V3<real>)
    ensures
        r3_cross(b, r3_cross(c, a)) == r3_sub(
            r3_scale(c, r3_dot(b, a)),
            r3_scale(a, r3_dot(b, c)),
        ),
{
    lemma_cross_part(b.y, b.z, b.x, c.x, c.y, c.z, a.x, a.y, a.z);
    lemma_cross_part(b.z, b.x, b.y, c.y, c.z, c.x, a.y, a.z, a.x);
    lemma_cross_part(b.x, b.y, b.z, c.z, c.x, c.y, a.z, a.x, a.y);
}

/// One component of the double product, for `b == (r, p, q)` in turned order.
proof fn lemma_cross_part(
    p: real,
    q: real,
    r: real,
    c0: real,
    c1: real,
    c2: real,
    a0: real,
    a1: real,
    a2: real,
)
    ensures
        p * (c0 * a1 - a0 * c1) - (c2 * a0 - a2 * c0) * q == c0 * (r * a0 + p * a1 + q * a2) - a0
            * (r * c0 + p * c1 + q * c2),
{
    assert(p * (c0 * a1 - a0 * c1) == p * (c0 * a1) - p * (a0 * c1)) by (nonlinear_arith);
    assert((c2 * a0 - a2 * c0) * q == (c2 * a0) * q - (a2 * c0) * q) by (nonlinear_arith);
    lemma_factor(c0, r * a0 + p * a1, q * a2);
    lemma_factor(c0, r * a0, p * a1);
    lemma_factor(a0, r * c0 + p * c1, q * c2);
    lemma_factor(a0, r * c0, p * c1);
    assert(p * (c0 * a1) == c0 * (p * a1)) by (nonlinear_arith);
    assert(p * (a0 * c1) == a0 * (p * c1)) by (nonlinear_arith);
    assert((c2 * a0) * q == a0 * (q * c2)) by (nonlinear_arith);
    assert((a2 * c0) * q == c0 * (q * a2)) by (nonlinear_arith);
    assert(c0 * (r * a0) == a0 * (r * c0)) by (nonlinear_arith);
}

/// Twice what a relative angular velocity `u` does to the imaginary part of the
/// rotation from `(w1, v1)` to `(w2, v2)`.
spec fn turned_error(w1: real, v1: V3<real>, w2: real, v2: V3<real>, u: V3<real>) -> V3<real> {
    r3_add(
        r3_sub(
            r3_add(r3_scale(v1, r3_dot(v2, u)), r3_scale(u, w1 * w2)),
            r3_cross(r3_add(r3_scale(v1, w2), r3_scale(v2, w1)), u),
        ),
        r3_cross(v1, r3_cross(v2, u)),
    )
}

proof fn lemma_turned_error_product(
    w1: real,
    v1: V3<real>,
    w2: real,
    v2: V3<real>,
    u: V3<real>,
)
    ensures
        turned_error(w1, v1, w2, v2, u) == h_vec(
            h_mul(h_mul(h_of(w1, r3_neg(v1)), h_of(0real, u)), h_of(w2, v2)),
        ),
{
    let m = r3_neg(v1);
    lemma_by_parts(w1, m, 0real, u);
    lemma_zero(w1);
    lemma_zero(m.x);
    lemma_zero(m.y);
    lemma_zero(m.z);
    lemma_dot_neg(v1, u);
    lemma_cross_signs(v1, u);
    let s = r3_dot(v1, u);
    let c = r3_cross(v1, u);
    let x = r3_sub(r3_scale(u, w1), c);
    assert(h_mul(h_of(w1, m), h_of(0real, u)) == h_of(s, x));
    lemma_by_parts(s, x, w2, v2);
    // x * w2
    lemma_minus_right(u.x * w1, c.x, w2);
    lemma_minus_right(u.y * w1, c.y, w2);
    lemma_minus_right(u.z * w1, c.z, w2);
    assert((u.x * w1) * w2 == u.x * (w1 * w2)) by (nonlinear_arith);
    assert((u.y * w1) * w2 == u.y * (w1 * w2)) by (nonlinear_arith);
    assert((u.z * w1) * w2 == u.z * (w1 * w2)) by (nonlinear_arith);
    // x cross v2
    let uw = r3_scale(u, w1);
    assert(x == r3_add(uw, r3_neg(c)));
    lemma_cross_add(uw, r3_neg(c), v2);
    lemma_cross_scaled(u, w1, v2);
    lemma_cross_signs(u, v2);
    lemma_cross_signs(c, v2);
    lemma_cross_cross(v2, v1, u);
    lemma_cross_cross(v1, v2, u);
    lemma_dot_commutes(v1, v2);
    // (v1 w2 + v2 w1) cross u
    lemma_cross_add(r3_scale(v1, w2), r3_scale(v2, w1), u);
    lemma_cross_scaled(v1, w2, u);
    lemma_cross_scaled(v2, w1, u);
    let k = r3_cross(v2, u);
    lemma_signs(k.x, w1);
    lemma_signs(k.y, w1);
    lemma_signs(k.z, w1);
}

/// The value of column `j` of the response of a rotation error.
proof fn lemma_diff_col<S: Scalar>(v: spec_fn(S) -> real, q1: Quat<S>, q2: Quat<S>, j: int)
    requires
        exact(v),
        v(half_spec::<S>()) == 1real / 2real,
        0 <= j < 3,
    ensures
        ({
            let m = rotation_diff_spec(q1, q2);
            let c = if j == 0 {
                m.x_axis
            } else if j == 1 {
                m.y_axis
            } else {
                m.z_axis
            };
            vector_value::<S, Dim3>(v, c) == r3_scale(
                turned_error(
                    v(q1.w),
                    h_vec(quat_value(v, q1)),
                    v(q2.w),
                    h_vec(quat_value(v, q2)),
                    r3_axis(j),
                ),
                1real / 2real,
            )
        }),
{
    let a = h_vec(quat_value(v, q1));
    let b = h_vec(quat_value(v, q2));
    let w1 = v(q1.w);
    let w2 = v(q2.w);
    let s = r3_add(r3_scale(a, w2), r3_scale(b, w1));
    lemma_unit_parts(a);
    lemma_unit_parts(b);
    lemma_unit_parts(s);
    lemma_one(w1 * w2);
    lemma_zero(w1 * w2);
    let e = r3_axis(j);
    let k = r3_cross(b, e);
    lemma_commute(k.x, a.y);
    lemma_commute(k.x, a.z);
    lemma_commute(k.y, a.x);
    lemma_commute(k.y, a.z);
    lemma_commute(k.z, a.x);
    lemma_commute(k.z, a.y);
    lemma_zero(k.x);
    lemma_zero(k.y);
    lemma_zero(k.z);
    lemma_signs(a.x, k.y);
    lemma_signs(a.x, k.z);
    lemma_signs(a.y, k.x);
    lemma_signs(a.y, k.z);
    lemma_signs(a.z, k.x);
    lemma_signs(a.z, k.y);
}

proof fn lemma_unit_parts(a: V3<real>)
    ensures
        a.x * 1real == a.x,
        a.y * 1real == a.y,
        a.z * 1real == a.z,
        1real * a.x == a.x,
        1real * a.y == a.y,
        1real * a.z == a.z,
        a.x * 0real == 0real,
        a.y * 0real == 0real,
        a.z * 0real == 0real,
        0real * a.x == 0real,
        0real * a.y == 0real,
        0real * a.z == 0real,
{
    lemma_one(a.x);
    lemma_one(a.y);
    lemma_one(a.z);
    lemma_zero(a.x);
    lemma_zero(a.y);
    lemma_zero(a.z);
}


proof fn lemma_turned_error_linear(
    w1: real,
    v1: V3<real>,
    w2: real,
    v2: V3<real>,
    a: V3<real>,
    e: V3<real>,
    k: real,
)
    ensures
        turned_error(w1, v1, w2, v2, r3_add(a, r3_scale(e, k))) == r3_add(
            turned_error(w1, v1, w2, v2, a),
            r3_scale(turned_error(w1, v1, w2, v2, e), k),
        ),
{
    let u = r3_add(a, r3_scale(e, k));
    let m = w1 * w2;
    let s = r3_add(r3_scale(v1, w2), r3_scale(v2, w1));
    lemma_dot_sum(v2, a, e, k);
    crate::real_vectors::lemma_spread(v1, r3_dot(v2, a), r3_dot(v2, e), k);
    crate::real_vectors::lemma_scale_add(a, r3_scale(e, k), m);
    crate::real_vectors::lemma_scaled_twice(e, k, m);
    lemma_cross_second(s, a, e, k);
    lemma_cross_second(v2, a, e, k);
    lemma_cross_second(v1, r3_cross(v2, a), r3_cross(v2, e), k);
    let p = r3_scale(v1, r3_dot(v2, e));
    let q = r3_scale(e, m);
    let c = r3_cross(s, e);
    let d = r3_cross(v1, r3_cross(v2, e));
    lemma_four(p.x, q.x, c.x, d.x, k);
    lemma_four(p.y, q.y, c.y, d.y, k);
    lemma_four(p.z, q.z, c.z, d.z, k);
}

proof fn lemma_four(p: real, q: real, c: real, d: real, k: real)
    ensures
        (p + q - c + d) * k == p * k + q * k - c * k + d * k,
{
    lemma_right(p, q, k);
    lemma_minus_right(p + q, c, k);
    lemma_right(p + q - c, d, k);
}

proof fn lemma_turned_error_zero(w1: real, v1: V3<real>, w2: real, v2: V3<real>)
    ensures
        turned_error(w1, v1, w2, v2, r3_zero()) == r3_zero(),
{
    crate::real_vectors::lemma_dot_zero(v2);
    crate::real_vectors::lemma_cross_zero(v2);
    crate::real_vectors::lemma_cross_zero(v1);
    crate::real_vectors::lemma_cross_zero(r3_add(r3_scale(v1, w2), r3_scale(v2, w1)));
    lemma_zero(v1.x);
    lemma_zero(v1.y);
    lemma_zero(v1.z);
    lemma_zero(w1 * w2);
}

/// How axis `i` of a rotation error responds to the relative angular velocity `u`.
proof fn lemma_basis<S: Scalar>(
    v: spec_fn(S) -> real,
    q1: Quat<S>,
    q2: Quat<S>,
    i: int,
    u: V3<real>,
)
    requires
        exact(v),
        v(half_spec::<S>()) == 1real / 2real,
        0 <= i < 3,
    ensures
        ({
            let t = r3_scale(
                turned_error(
                    v(q1.w),
                    h_vec(quat_value(v, q1)),
                    v(q2.w),
                    h_vec(quat_value(v, q2)),
                    u,
                ),
                1real / 2real,
            );
            r3_dot(
                angular_value::<S, Dim3>(v, <Dim3 as Space<S>>::ang_basis_spec(q1, q2, i)),
                u,
            ) == (if i == 0 {
                t.x
            } else if i == 1 {
                t.y
            } else {
                t.z
            }) * v(quat_sign_spec(q1, q2))
        }),
{
    let a = h_vec(quat_value(v, q1));
    let b = h_vec(quat_value(v, q2));
    let w1 = v(q1.w);
    let w2 = v(q2.w);
    let sg = v(quat_sign_spec(q1, q2));
    lemma_diff_col(v, q1, q2, 0);
    lemma_diff_col(v, q1, q2, 1);
    lemma_diff_col(v, q1, q2, 2);
    let l0 = turned_error(w1, a, w2, b, r3_axis(0));
    let l1 = turned_error(w1, a, w2, b, r3_axis(1));
    let l2 = turned_error(w1, a, w2, b, r3_axis(2));
    let u1 = r3_add(r3_zero(), r3_scale(r3_axis(0), u.x));
    let u2 = r3_add(u1, r3_scale(r3_axis(1), u.y));
    let u3 = r3_add(u2, r3_scale(r3_axis(2), u.z));
    lemma_unit_parts(u);
    assert(u3 == u);
    lemma_turned_error_zero(w1, a, w2, b);
    lemma_turned_error_linear(w1, a, w2, b, r3_zero(), r3_axis(0), u.x);
    lemma_turned_error_linear(w1, a, w2, b, u1, r3_axis(1), u.y);
    lemma_turned_error_linear(w1, a, w2, b, u2, r3_axis(2), u.z);
    let h = 1real / 2real;
    lemma_row_of(l0.x, l1.x, l2.x, u, h, sg);
    lemma_row_of(l0.y, l1.y, l2.y, u, h, sg);
    lemma_row_of(l0.z, l1.z, l2.z, u, h, sg);
}

proof fn lemma_row_of(a: real, b: real, c: real, u: V3<real>, h: real, s: real)
    ensures
        ((a * h) * s) * u.x + ((b * h) * s) * u.y + ((c * h) * s) * u.z == ((a * u.x + b * u.y + c
            * u.z) * h) * s,
{
    lemma_slide(a, h, s, u.x);
    lemma_slide(b, h, s, u.y);
    lemma_slide(c, h, s, u.z);
    let p = a * u.x;
    let q = b * u.y;
    let r = c * u.z;
    lemma_right(p, q, h);
    lemma_right(p + q, r, h);
    lemma_right(p * h, q * h, s);
    lemma_right(p * h + q * h, r * h, s);
}

proof fn lemma_slide(a: real, h: real, s: real, x: real)
    ensures
        ((a * h) * s) * x == ((a * x) * h) * s,
{
    lemma_move_right(a * h, s, x);
    lemma_move_right(a, h, x);
}

/// A rotation `q` turns at the angular velocity `w`: it changes at half the rate of
/// the product of `w` and itself.
pub open spec fn turns_at<S: Scalar>(
    v: spec_fn(S) -> real,
    d: spec_fn(S) -> real,
    q: Quat<S>,
    w: V3<real>,
) -> bool {
    let r = h_mul(h_of(0real, w), quat_value(v, q));
    &&& d(q.x) == r.x / 2real
    &&& d(q.y) == r.y / 2real
    &&& d(q.z) == r.z / 2real
    &&& d(q.w) == r.w / 2real
}

/// In exact arithmetic, the error of a joint of space about axis `i` grows at the velocity
/// along the constraint of that axis: the angular velocity of side B less that of
/// side A, along the direction that the constraint acts in.
pub proof fn space_angular_errors_grow_along_their_row<S: Scalar>(
    v: spec_fn(S) -> real,
    d: spec_fn(S) -> real,
    q1: Quat<S>,
    q2: Quat<S>,
    w1: V3<real>,
    w2: V3<real>,
    i: int,
)
    requires
        exact(v),
        rates(v, d),
        v(half_spec::<S>()) == 1real / 2real,
        turns_at(v, d, q1, w1),
        turns_at(v, d, q2, w2),
        0 <= i < 3,
    ensures
        d(<Dim3 as Space<S>>::ang_err_spec(q1, q2, i)) == r3_dot(
            angular_value::<S, Dim3>(v, <Dim3 as Space<S>>::ang_basis_spec(q1, q2, i)),
            r3_sub(w2, w1),
        ),
{
    let u = r3_sub(w2, w1);
    let a = quat_value(v, q1);
    let b = quat_value(v, q2);
    let c = h_conj(a);
    let o1 = h_of(0real, w1);
    let o2 = h_of(0real, w2);
    lemma_basis(v, q1, q2, i, u);
    lemma_turned_error_product(a.w, h_vec(a), b.w, h_vec(b), u);
    assert(h_of(a.w, r3_neg(h_vec(a))) == c);
    assert(h_of(b.w, h_vec(b)) == b);
    // The product rule.
    let e = <Dim3 as Space<S>>::rmul_spec(<Dim3 as Space<S>>::rinv_spec(q1), q2);
    let p1 = h_mul(o1, a);
    let p2 = h_mul(o2, b);
    let left = h_mul(h_conj(p1), b);
    let right = h_mul(c, p2);
    lemma_half_products(p1, b, c, p2);
    assert(d(e.x) == left.x / 2real + right.x / 2real);
    assert(d(e.y) == left.y / 2real + right.y / 2real);
    assert(d(e.z) == left.z / 2real + right.z / 2real);
    // The conjugate of the first factor turns backwards.
    lemma_conj_product(o1, a);
    let m1 = h_of(0real, r3_neg(w1));
    assert(h_conj(o1) == m1) by {
        assert(-0real == 0real);
    }
    lemma_associate(c, o2, b);
    lemma_distribute_sum(c, m1, o2);
    lemma_distribute_sum(b, h_mul(c, m1), h_mul(c, o2));
    assert(h_add(m1, o2) == h_of(0real, u));
    assert(h_mul(h_mul(c, h_of(0real, u)), b) == h_add(left, right));
    // The sign does not change.
    let sg = quat_sign_spec(q1, q2);
    assert(d(sg) == 0real);
    lemma_zero(v(e.x));
    lemma_zero(v(e.y));
    lemma_zero(v(e.z));
}

/// Halving a factor halves the product.
proof fn lemma_half_products(p: Quat<real>, b: Quat<real>, c: Quat<real>, r: Quat<real>)
    ensures
        ({
            let hp = Quat {
                x: -(p.x / 2real),
                y: -(p.y / 2real),
                z: -(p.z / 2real),
                w: p.w / 2real,
            };
            let hr = Quat { x: r.x / 2real, y: r.y / 2real, z: r.z / 2real, w: r.w / 2real };
            let l = h_mul(h_conj(p), b);
            let m = h_mul(c, r);
            &&& h_mul(hp, b) == (Quat {
                x: l.x / 2real,
                y: l.y / 2real,
                z: l.z / 2real,
                w: l.w / 2real,
            })
            &&& h_mul(c, hr) == (Quat {
                x: m.x / 2real,
                y: m.y / 2real,
                z: m.z / 2real,
                w: m.w / 2real,
            })
        }),
{
    lemma_half_times(p.x, b.x);
    lemma_half_times(r.x, c.x);
    lemma_half_times(p.x, b.y);
    lemma_half_times(r.x, c.y);
    lemma_half_times(p.x, b.z);
    lemma_half_times(r.x, c.z);
    lemma_half_times(p.x, b.w);
    lemma_half_times(r.x, c.w);
    lemma_half_times(p.y, b.x);
    lemma_half_times(r.y, c.x);
    lemma_half_times(p.y, b.y);
    lemma_half_times(r.y, c.y);
    lemma_half_times(p.y, b.z);
    lemma_half_times(r.y, c.z);
    lemma_half_times(p.y, b.w);
    lemma_half_times(r.y, c.w);
    lemma_half_times(p.z, b.x);
    lemma_half_times(r.z, c.x);
    lemma_half_times(p.z, b.y);
    lemma_half_times(r.z, c.y);
    lemma_half_times(p.z, b.z);
    lemma_half_times(r.z, c.z);
    lemma_half_times(p.z, b.w);
    lemma_half_times(r.z, c.w);
    lemma_half_times(p.w, b.x);
    lemma_half_times(r.w, c.x);
    lemma_half_times(p.w, b.y);
    lemma_half_times(r.w, c.y);
    lemma_half_times(p.w, b.z);
    lemma_half_times(r.w, c.z);
    lemma_half_times(p.w, b.w);
    lemma_half_times(r.w, c.w);
}

proof fn lemma_half_times(a: real, b: real)
    ensures
        (a / 2real) * b == (a * b) / 2real,
        (-(a / 2real)) * b == ((-a) * b) / 2real,
        b * (a / 2real) == (b * a) / 2real,
{
    assert((a / 2real) * b == (a * b) / 2real) by (nonlinear_arith);
    assert((-(a / 2real)) * b == ((-a) * b) / 2real) by (nonlinear_arith);
    assert(b * (a / 2real) == (b * a) / 2real) by (nonlinear_arith);
}

/// In exact arithmetic, the error of a joint of the plane is the sine of half the angle
/// from frame A to frame B: it gives back the cosine and the sine of that angle.
pub proof fn plane_angular_errors_are_half_sines<S: Scalar>(
    v: spec_fn(S) -> real,
    sn: spec_fn(real) -> real,
    cs: spec_fn(real) -> real,
    q1: Rot2<S>,
    q2: Rot2<S>,
    i: int,
)
    requires
        exact(v),
        exact_angles(v, sn, cs),
        v(half_spec::<S>()) == 1real / 2real,
        ({
            let e = <Dim2 as Space<S>>::rmul_spec(<Dim2 as Space<S>>::rinv_spec(q1), q2);
            let angle = v(e.im.atan2_spec(e.re));
            &&& sn(angle) == v(e.im)
            &&& cs(angle) == v(e.re)
        }),
    ensures
        ({
            let e = <Dim2 as Space<S>>::rmul_spec(<Dim2 as Space<S>>::rinv_spec(q1), q2);
            let x = v(<Dim2 as Space<S>>::ang_err_spec(q1, q2, i));
            let half_angle = v(e.im.atan2_spec(e.re)) / 2real;
            &&& x == sn(half_angle)
            &&& v(e.re) == 1real - 2real * (x * x)
            &&& v(e.im) == 2real * (x * cs(half_angle))
        }),
{
    let e = <Dim2 as Space<S>>::rmul_spec(<Dim2 as Space<S>>::rinv_spec(q1), q2);
    let t = v(e.im.atan2_spec(e.re));
    let h = t * (1real / 2real);
    assert(h == t / 2real) by (nonlinear_arith)
        requires
            h == t * (1real / 2real),
    ;
    assert(h + h == t) by (nonlinear_arith)
        requires
            h == t * (1real / 2real),
    ;
    assert(sn(h + h) == 2real * (sn(h) * cs(h)));
    assert(cs(h + h) == cs(h) * cs(h) - sn(h) * sn(h));
    assert(sn(h) * sn(h) + cs(h) * cs(h) == 1real);
}

/// In exact arithmetic, the velocity along a constraint of a joint of the plane is that of side
/// B against side A: along a linear axis, of the points where the joint's forces act
/// on them; about an angular one, of their turning.
pub proof fn plane_joint_rows_compare_their_sides<S: Scalar>(
    v: spec_fn(S) -> real,
    h: JointConstraintHelper<S, Dim2>,
    id: AxisId,
    va: Velocity<S, Dim2>,
    vb: Velocity<S, Dim2>,
)
    requires
        exact(v),
    ensures
        ({
            let f = axis_forces(h, id);
            let lin = <Dim2 as Space<S>>::dimension_spec().lin_spec();
            let wa = angular_value::<S, Dim2>(v, va.angular);
            let wb = angular_value::<S, Dim2>(v, vb.angular);
            let along_axis = power(v, f.1, vb) - power(v, f.0, va);
            &&& id.axis < lin ==> along_axis == r3_dot(
                vector_value::<S, Dim2>(v, <Dim2 as Space<S>>::raxis_spec(h.q1, id.axis as int)),
                r3_sub(
                    r3_add(
                        vector_value::<S, Dim2>(v, vb.linear),
                        r3_cross(wb, vector_value::<S, Dim2>(v, h.r2)),
                    ),
                    r3_add(
                        vector_value::<S, Dim2>(v, va.linear),
                        r3_cross(wa, vector_value::<S, Dim2>(v, h.r1)),
                    ),
                ),
            )
            &&& lin <= id.axis ==> along_axis == r3_dot(
                angular_value::<S, Dim2>(v, f.0.angular),
                r3_sub(wb, wa),
            )
        }),
{
    plane_is_geometric(v);
    plane_is_spatial(v);
    lemma_axis_velocity::<S, Dim2>(v, h, id, va, vb);
}

/// In exact arithmetic, the forces of a joint of the plane act at the origin of frame B, but on
/// side A at the place where the locked axes would have it: along each locked axis of
/// frame A level with the origin of frame A, along each free one with that of frame B.
pub proof fn plane_joint_forces_act_at_the_anchor<S: Scalar>(
    v: spec_fn(S) -> real,
    frame1: Pose<S, Dim2>,
    frame2: Pose<S, Dim2>,
    com1: <Dim2 as Space<S>>::V,
    com2: <Dim2 as Space<S>>::V,
    locked: u32,
    i: int,
)
    requires
        exact(v),
        has_axes::<S, Dim2>(v, frame1.rotation),
        0 <= i < <Dim2 as Space<S>>::dimension_spec().lin_spec(),
    ensures
        ({
            let h = helper_spec(frame1, frame2, com1, com2, locked);
            let x = vector_value::<S, Dim2>(v, <Dim2 as Space<S>>::raxis_spec(frame1.rotation, i));
            let a = vector_value::<S, Dim2>(v, frame1.translation);
            let b = vector_value::<S, Dim2>(v, frame2.translation);
            let on_a = r3_add(
                vector_value::<S, Dim2>(v, h.r1),
                vector_value::<S, Dim2>(v, com1),
            );
            let on_b = r3_add(
                vector_value::<S, Dim2>(v, h.r2),
                vector_value::<S, Dim2>(v, com2),
            );
            &&& on_b == b
            &&& r3_dot(x, on_a) == (if has_axis(locked, i) {
                r3_dot(x, a)
            } else {
                r3_dot(x, b)
            })
        }),
{
    plane_is_spatial(v);
    plane_is_inertial(v);
    lemma_arms::<S, Dim2>(v, frame1, frame2, com1, com2, locked, i);
}

/// In exact arithmetic, the velocity of a multibody of the plane along the row of one of its
/// links is that of the link along the force and the torque that the row was made of.
pub proof fn plane_link_rows_work<S: Scalar>(
    v: spec_fn(S) -> real,
    m: Seq<Seq<S>>,
    f: Velocity<S, Dim2>,
    q: Seq<S>,
)
    requires
        exact(v),
    ensures
        v(dot_fold(link_row(m, f, q.len() as int), q, q.len() as int)) == r3_dot(
            columns_linear::<S, Dim2>(v, m, q),
            vector_value::<S, Dim2>(v, f.linear),
        ) + r3_dot(columns_angular::<S, Dim2>(v, m, q), angular_value::<S, Dim2>(v, f.angular)),
{
    plane_wrenches_work(v);
    lemma_link_row::<S, Dim2>(v, m, f, q);
}

/// In exact arithmetic, the velocity of a free body of the plane along its row is that along
/// the force and the torque that the row was made of.
pub proof fn plane_body_rows_work<S: Scalar>(
    v: spec_fn(S) -> real,
    f: Velocity<S, Dim2>,
    mp: WorldMassProperties<S, Dim2>,
    vel: Velocity<S, Dim2>,
)
    requires
        exact(v),
    ensures
        v(
            dot_fold(
                body_row(f, mp).jac,
                spatial_row(vel),
                <Dim2 as Space<S>>::dimension_spec().spatial_spec(),
            ),
        ) == power(v, f, vel),
{
    reveal_with_fuel(dot_fold, 7);
    lemma_zero(0real);
    lemma_dot_commutes(
        vector_value::<S, Dim2>(v, f.linear),
        vector_value::<S, Dim2>(v, vel.linear),
    );
    lemma_dot_commutes(
        angular_value::<S, Dim2>(v, f.angular),
        angular_value::<S, Dim2>(v, vel.angular),
    );
}

/// In exact arithmetic, the velocity along a constraint of a joint of space is that of side
/// B against side A: along a linear axis, of the points where the joint's forces act
/// on them; about an angular one, of their turning.
pub proof fn space_joint_rows_compare_their_sides<S: Scalar>(
    v: spec_fn(S) -> real,
    h: JointConstraintHelper<S, Dim3>,
    id: AxisId,
    va: Velocity<S, Dim3>,
    vb: Velocity<S, Dim3>,
)
    requires
        exact(v),
    ensures
        ({
            let f = axis_forces(h, id);
            let lin = <Dim3 as Space<S>>::dimension_spec().lin_spec();
            let wa = angular_value::<S, Dim3>(v, va.angular);
            let wb = angular_value::<S, Dim3>(v, vb.angular);
            let along_axis = power(v, f.1, vb) - power(v, f.0, va);
            &&& id.axis < lin ==> along_axis == r3_dot(
                vector_value::<S, Dim3>(v, <Dim3 as Space<S>>::raxis_spec(h.q1, id.axis as int)),
                r3_sub(
                    r3_add(
                        vector_value::<S, Dim3>(v, vb.linear),
                        r3_cross(wb, vector_value::<S, Dim3>(v, h.r2)),
                    ),
                    r3_add(
                        vector_value::<S, Dim3>(v, va.linear),
                        r3_cross(wa, vector_value::<S, Dim3>(v, h.r1)),
                    ),
                ),
            )
            &&& lin <= id.axis ==> along_axis == r3_dot(
                angular_value::<S, Dim3>(v, f.0.angular),
                r3_sub(wb, wa),
            )
        }),
{
    space_is_geometric(v);
    space_is_spatial(v);
    lemma_axis_velocity::<S, Dim3>(v, h, id, va, vb);
}

/// In exact arithmetic, the forces of a joint of space act at the origin of frame B, but on
/// side A at the place where the locked axes would have it: along each locked axis of
/// frame A level with the origin of frame A, along each free one with that of frame B.
pub proof fn space_joint_forces_act_at_the_anchor<S: Scalar>(
    v: spec_fn(S) -> real,
    frame1: Pose<S, Dim3>,
    frame2: Pose<S, Dim3>,
    com1: <Dim3 as Space<S>>::V,
    com2: <Dim3 as Space<S>>::V,
    locked: u32,
    i: int,
)
    requires
        exact(v),
        has_axes::<S, Dim3>(v, frame1.rotation),
        0 <= i < <Dim3 as Space<S>>::dimension_spec().lin_spec(),
    ensures
        ({
            let h = helper_spec(frame1, frame2, com1, com2, locked);
            let x = vector_value::<S, Dim3>(v, <Dim3 as Space<S>>::raxis_spec(frame1.rotation, i));
            let a = vector_value::<S, Dim3>(v, frame1.translation);
            let b = vector_value::<S, Dim3>(v, frame2.translation);
            let on_a = r3_add(
                vector_value::<S, Dim3>(v, h.r1),
                vector_value::<S, Dim3>(v, com1),
            );
            let on_b = r3_add(
                vector_value::<S, Dim3>(v, h.r2),
                vector_value::<S, Dim3>(v, com2),
            );
            &&& on_b == b
            &&& r3_dot(x, on_a) == (if has_axis(locked, i) {
                r3_dot(x, a)
            } else {
                r3_dot(x, b)
            })
        }),
{
    space_is_spatial(v);
    space_is_inertial(v);
    lemma_arms::<S, Dim3>(v, frame1, frame2, com1, com2, locked, i);
}

/// In exact arithmetic, the velocity of a multibody of space along the row of one of its
/// links is that of the link along the force and the torque that the row was made of.
pub proof fn space_link_rows_work<S: Scalar>(
    v: spec_fn(S) -> real,
    m: Seq<Seq<S>>,
    f: Velocity<S, Dim3>,
    q: Seq<S>,
)
    requires
        exact(v),
    ensures
        v(dot_fold(link_row(m, f, q.len() as int), q, q.len() as int)) == r3_dot(
            columns_linear::<S, Dim3>(v, m, q),
            vector_value::<S, Dim3>(v, f.linear),
        ) + r3_dot(columns_angular::<S, Dim3>(v, m, q), angular_value::<S, Dim3>(v, f.angular)),
{
    space_wrenches_work(v);
    lemma_link_row::<S, Dim3>(v, m, f, q);
}

/// In exact arithmetic, the velocity of a free body of space along its row is that along
/// the force and the torque that the row was made of.
pub proof fn space_body_rows_work<S: Scalar>(
    v: spec_fn(S) -> real,
    f: Velocity<S, Dim3>,
    mp: WorldMassProperties<S, Dim3>,
    vel: Velocity<S, Dim3>,
)
    requires
        exact(v),
    ensures
        v(
            dot_fold(
                body_row(f, mp).jac,
                spatial_row(vel),
                <Dim3 as Space<S>>::dimension_spec().spatial_spec(),
            ),
        ) == power(v, f, vel),
{
    reveal_with_fuel(dot_fold, 7);
    lemma_zero(0real);
    lemma_dot_commutes(
        vector_value::<S, Dim3>(v, f.linear),
        vector_value::<S, Dim3>(v, vel.linear),
    );
    lemma_dot_commutes(
        angular_value::<S, Dim3>(v, f.angular),
        angular_value::<S, Dim3>(v, vel.angular),
    );
}

} // verus!
