//! What the impulses of the contacts between two bodies do to their velocities, when
//! the arithmetic is exact.
use super::constraint::{ConstraintRow, TwoBodyConstraintElement, TwoBodyModel};
use super::contact_laws::lemma_over;
use super::step::{
    pushed, pushed2, pushed_normal, pushed_tangent, row_error, tangent_impulse, warmed,
};
use super::utils::{BodyPair, bare_row, tangent0_of};
use crate::exact::{
    exact, exact_roots, lemma_commute, lemma_factor, lemma_square, lemma_zero, linear_space,
    ordered, space_is_linear,
};
use crate::multibody::jacobian_laws::{
    angular_value, geometric, space_is_geometric, vector_value,
};
use crate::multibody::mass_laws::{inertial, space_is_inertial};
use crate::multibody::space_laws::{space_is_spatial, spatial};
use crate::multibody::turn_laws::lemma_dot_commutes;
use crate::multibody::unit_laws::lemma_triple_product;
use crate::real_vectors::{
    lemma_dot_sum, lemma_right, r3_add, r3_cross, r3_dot, r3_scale, r3_zero,
};
use crate::scalar::{Scalar, inv_epsilon_spec, two_spec};
use crate::space::{Dim2, Dim3, Dimension, Space, V2, V3, Velocity};
use vstd::prelude::*;

verus! {

/// The inverse mass `im` is `a` in every direction.
pub open spec fn even_mass<S: Scalar, D: Space<S>>(
    v: spec_fn(S) -> real,
    im: D::V,
    a: real,
) -> bool {
    forall|x: D::V|
        vector_value::<S, D>(v, #[trigger] D::vmul_spec(x, im)) == r3_scale(
            vector_value::<S, D>(v, x),
            a,
        )
}

/// In the plane, an inverse mass with equal components is even.
pub proof fn plane_masses_are_even<S: Scalar>(v: spec_fn(S) -> real, im: V2<S>)
    requires
        exact(v),
        v(im.x) == v(im.y),
    ensures
        even_mass::<S, Dim2>(v, im, v(im.x)),
{
    lemma_zero(v(im.x));
}

/// In space, an inverse mass with equal components is even.
pub proof fn space_masses_are_even<S: Scalar>(v: spec_fn(S) -> real, im: V3<S>)
    requires
        exact(v),
        v(im.x) == v(im.y),
        v(im.x) == v(im.z),
    ensures
        even_mass::<S, Dim3>(v, im, v(im.x)),
{
}

/// What an impulse of one along `u`, with the torques of `other`, adds to the velocity
/// of the first body against the second along `d`, with the torques of `row`.
pub open spec fn coupled<S: Scalar, D: Space<S>>(
    v: spec_fn(S) -> real,
    d: D::V,
    row: ConstraintRow<S, D>,
    u: D::V,
    other: ConstraintRow<S, D>,
    im: real,
) -> real {
    im * r3_dot(vector_value::<S, D>(v, d), vector_value::<S, D>(v, u)) + r3_dot(
        angular_value::<S, D>(v, row.torque_dir_a),
        angular_value::<S, D>(v, other.ii_torque_dir_a),
    ) + r3_dot(
        angular_value::<S, D>(v, row.torque_dir_b),
        angular_value::<S, D>(v, other.ii_torque_dir_b),
    )
}

proof fn lemma_gain(a: real, b: real, x: real, m: real, p: real, q: real)
    ensures
        m * (a * x) - m * (b * (-x)) + p * x + q * x == x * ((a + b) * m + p + q),
{
    assert(m * (a * x) == x * (a * m)) by (nonlinear_arith);
    assert(m * (b * (-x)) == -(x * (b * m))) by (nonlinear_arith);
    lemma_right(a, b, m);
    lemma_factor(x, a * m, b * m);
    lemma_commute(p, x);
    lemma_commute(q, x);
    lemma_factor(x, (a + b) * m, p);
    lemma_factor(x, (a + b) * m + p, q);
}

proof fn lemma_nested(u: real, a: real, k: real)
    ensures
        (u * a) * k == u * (a * k),
{
    assert((u * a) * k == u * (a * k)) by (nonlinear_arith);
}

/// A push of one body along `u`.
proof fn lemma_one_push<S: Scalar, D: Space<S>>(
    v: spec_fn(S) -> real,
    vel: Velocity<S, D>,
    u: D::V,
    im: D::V,
    a: real,
    ii: D::A,
    lin: S,
    x: S,
    d: D::V,
    torque: D::A,
)
    requires
        exact(v),
        geometric::<S, D>(v),
        spatial::<S, D>(v),
        inertial::<S, D>(v),
        even_mass::<S, D>(v, im, a),
    ensures
        ({
            let w = pushed(vel, u, im, ii, lin, x);
            &&& v(D::vdot_spec(d, w.linear)) == v(D::vdot_spec(d, vel.linear)) + r3_dot(
                vector_value::<S, D>(v, d),
                vector_value::<S, D>(v, u),
            ) * (a * v(lin))
            &&& v(D::gdot_spec(torque, w.angular)) == v(D::gdot_spec(torque, vel.angular))
                + r3_dot(angular_value::<S, D>(v, torque), angular_value::<S, D>(v, ii)) * v(x)
        }),
{
    let uv = vector_value::<S, D>(v, u);
    lemma_nested(uv.x, a, v(lin));
    lemma_nested(uv.y, a, v(lin));
    lemma_nested(uv.z, a, v(lin));
    assert(vector_value::<S, D>(v, D::vscale_spec(D::vmul_spec(u, im), lin)) == r3_scale(
        uv,
        a * v(lin),
    ));
    lemma_dot_sum(
        vector_value::<S, D>(v, d),
        vector_value::<S, D>(v, vel.linear),
        uv,
        a * v(lin),
    );
    lemma_dot_sum(
        angular_value::<S, D>(v, torque),
        angular_value::<S, D>(v, vel.angular),
        angular_value::<S, D>(v, ii),
        v(x),
    );
}

/// A push of one body along two tangents.
proof fn lemma_two_pushes<S: Scalar, D: Space<S>>(
    v: spec_fn(S) -> real,
    vel: Velocity<S, D>,
    t0: D::V,
    t1: D::V,
    im: D::V,
    a: real,
    ii0: D::A,
    ii1: D::A,
    lin: (S, S),
    x: (S, S),
    d: D::V,
    torque: D::A,
)
    requires
        exact(v),
        geometric::<S, D>(v),
        spatial::<S, D>(v),
        inertial::<S, D>(v),
        even_mass::<S, D>(v, im, a),
    ensures
        ({
            let w = pushed2(vel, t0, t1, im, ii0, ii1, lin, x);
            let dv = vector_value::<S, D>(v, d);
            let tv = angular_value::<S, D>(v, torque);
            &&& v(D::vdot_spec(d, w.linear)) == v(D::vdot_spec(d, vel.linear)) + r3_dot(
                dv,
                vector_value::<S, D>(v, t0),
            ) * (a * v(lin.0)) + r3_dot(dv, vector_value::<S, D>(v, t1)) * (a * v(lin.1))
            &&& v(D::gdot_spec(torque, w.angular)) == v(D::gdot_spec(torque, vel.angular))
                + r3_dot(tv, angular_value::<S, D>(v, ii0)) * v(x.0) + r3_dot(
                tv,
                angular_value::<S, D>(v, ii1),
            ) * v(x.1)
        }),
{
    let dv = vector_value::<S, D>(v, d);
    let tv = angular_value::<S, D>(v, torque);
    let a0 = vector_value::<S, D>(v, t0);
    let a1 = vector_value::<S, D>(v, t1);
    let l0 = v(lin.0);
    let l1 = v(lin.1);
    let sum = r3_add(r3_scale(a0, l0), r3_scale(a1, l1));
    lemma_dot_sum(dv, vector_value::<S, D>(v, vel.linear), sum, a);
    lemma_dot_sum(dv, r3_scale(a0, l0), a1, l1);
    lemma_scaled_dot(dv, a0, l0);
    let m0 = r3_dot(dv, a0);
    let m1 = r3_dot(dv, a1);
    lemma_right(m0 * l0, m1 * l1, a);
    assert((m0 * l0) * a == m0 * (a * l0)) by (nonlinear_arith);
    assert((m1 * l1) * a == m1 * (a * l1)) by (nonlinear_arith);
    let i0 = angular_value::<S, D>(v, ii0);
    let i1 = angular_value::<S, D>(v, ii1);
    let w = angular_value::<S, D>(v, vel.angular);
    let turn = r3_add(r3_scale(i0, v(x.0)), r3_scale(i1, v(x.1)));
    lemma_dot_sum(tv, r3_scale(i0, v(x.0)), i1, v(x.1));
    lemma_scaled_dot(tv, i0, v(x.0));
    lemma_dot_parts(tv, w, turn);
}

proof fn lemma_scaled_dot(d: V3<real>, a: V3<real>, k: real)
    ensures
        r3_dot(d, r3_scale(a, k)) == r3_dot(d, a) * k,
{
    lemma_dot_sum(d, r3_zero(), a, k);
    assert(r3_add(r3_zero(), r3_scale(a, k)) == r3_scale(a, k));
    lemma_zero(d.x);
    lemma_zero(d.y);
    lemma_zero(d.z);
}

proof fn lemma_dot_parts(d: V3<real>, a: V3<real>, b: V3<real>)
    ensures
        r3_dot(d, r3_add(a, b)) == r3_dot(d, a) + r3_dot(d, b),
{
    lemma_factor(d.x, a.x, b.x);
    lemma_factor(d.y, a.y, b.y);
    lemma_factor(d.z, a.z, b.z);
}

/// The velocity along a row after a push along the normal.
proof fn lemma_normal_gain<S: Scalar, D: Space<S>>(
    v: spec_fn(S) -> real,
    c: TwoBodyModel<S, D>,
    a: real,
    b: real,
    e: ConstraintRow<S, D>,
    v1: Velocity<S, D>,
    v2: Velocity<S, D>,
    x: S,
    d: D::V,
    row: ConstraintRow<S, D>,
)
    requires
        exact(v),
        geometric::<S, D>(v),
        spatial::<S, D>(v),
        inertial::<S, D>(v),
        even_mass::<S, D>(v, c.im_a, a),
        even_mass::<S, D>(v, c.im_b, b),
    ensures
        v(
            row_error(
                row,
                d,
                pushed_normal(c, e, true, v1, x),
                pushed_normal(c, e, false, v2, x),
            ),
        ) == v(row_error(row, d, v1, v2)) + v(x) * coupled(v, d, row, c.dir_a, e, a + b),
{
    lemma_one_push(v, v1, c.dir_a, c.im_a, a, e.ii_torque_dir_a, x, x, d, row.torque_dir_a);
    lemma_one_push(
        v,
        v2,
        c.dir_a,
        c.im_b,
        b,
        e.ii_torque_dir_b,
        x.neg_spec(),
        x,
        d,
        row.torque_dir_b,
    );
    lemma_gain(
        a,
        b,
        v(x),
        r3_dot(vector_value::<S, D>(v, d), vector_value::<S, D>(v, c.dir_a)),
        r3_dot(
            angular_value::<S, D>(v, row.torque_dir_a),
            angular_value::<S, D>(v, e.ii_torque_dir_a),
        ),
        r3_dot(
            angular_value::<S, D>(v, row.torque_dir_b),
            angular_value::<S, D>(v, e.ii_torque_dir_b),
        ),
    );
}

/// What pushes along the tangents add to the velocity along a row.
pub open spec fn tangent_gain<S: Scalar, D: Space<S>>(
    v: spec_fn(S) -> real,
    c: TwoBodyModel<S, D>,
    e: TwoBodyConstraintElement<S, D>,
    x: (S, S),
    d: D::V,
    row: ConstraintRow<S, D>,
    im: real,
) -> real {
    let t0 = tangent0_of::<S, D>(c.dir_a, c.tangent_a);
    let t1 = D::bitangent_spec(c.dir_a, t0);
    v(x.0) * coupled(v, d, row, t0, e.tangent0, im) + if D::dimension_spec() == Dimension::Three {
        v(x.1) * coupled(v, d, row, t1, e.tangent1, im)
    } else {
        0real
    }
}

proof fn lemma_tangent_gain<S: Scalar, D: Space<S>>(
    v: spec_fn(S) -> real,
    c: TwoBodyModel<S, D>,
    a: real,
    b: real,
    e: TwoBodyConstraintElement<S, D>,
    v1: Velocity<S, D>,
    v2: Velocity<S, D>,
    x: (S, S),
    d: D::V,
    row: ConstraintRow<S, D>,
)
    requires
        exact(v),
        geometric::<S, D>(v),
        spatial::<S, D>(v),
        inertial::<S, D>(v),
        even_mass::<S, D>(v, c.im_a, a),
        even_mass::<S, D>(v, c.im_b, b),
    ensures
        v(
            row_error(
                row,
                d,
                pushed_tangent(c, e, true, v1, x),
                pushed_tangent(c, e, false, v2, x),
            ),
        ) == v(row_error(row, d, v1, v2)) + tangent_gain(v, c, e, x, d, row, a + b),
{
    let t0 = tangent0_of::<S, D>(c.dir_a, c.tangent_a);
    let t1 = D::bitangent_spec(c.dir_a, t0);
    let dv = vector_value::<S, D>(v, d);
    let ta = angular_value::<S, D>(v, row.torque_dir_a);
    let tb = angular_value::<S, D>(v, row.torque_dir_b);
    let m0 = r3_dot(dv, vector_value::<S, D>(v, t0));
    let p0 = r3_dot(ta, angular_value::<S, D>(v, e.tangent0.ii_torque_dir_a));
    let q0 = r3_dot(tb, angular_value::<S, D>(v, e.tangent0.ii_torque_dir_b));
    lemma_gain(a, b, v(x.0), m0, p0, q0);
    match D::dimension_spec() {
        Dimension::Two => {
            let ii_a = e.tangent0.ii_torque_dir_a;
            let ii_b = e.tangent0.ii_torque_dir_b;
            let back = x.0.neg_spec();
            lemma_one_push(v, v1, t0, c.im_a, a, ii_a, x.0, x.0, d, row.torque_dir_a);
            lemma_one_push(v, v2, t0, c.im_b, b, ii_b, back, x.0, d, row.torque_dir_b);
        },
        Dimension::Three => {
            let m1 = r3_dot(dv, vector_value::<S, D>(v, t1));
            let p1 = r3_dot(ta, angular_value::<S, D>(v, e.tangent1.ii_torque_dir_a));
            let q1 = r3_dot(tb, angular_value::<S, D>(v, e.tangent1.ii_torque_dir_b));
            lemma_gain(a, b, v(x.1), m1, p1, q1);
            lemma_two_pushes(
                v,
                v1,
                t0,
                t1,
                c.im_a,
                a,
                e.tangent0.ii_torque_dir_a,
                e.tangent1.ii_torque_dir_a,
                x,
                x,
                d,
                row.torque_dir_a,
            );
            lemma_two_pushes(
                v,
                v2,
                t0,
                t1,
                c.im_b,
                b,
                e.tangent0.ii_torque_dir_b,
                e.tangent1.ii_torque_dir_b,
                (x.0.neg_spec(), x.1.neg_spec()),
                x,
                d,
                row.torque_dir_b,
            );
        },
    }
}

/// In exact arithmetic, warm starting a contact point pushes the two bodies apart
/// along the normal and along the tangents by the impulses kept there: along any row,
/// the velocity of the first body against the second grows by each impulse times what
/// an impulse of one adds.
pub proof fn warm_starts_apply_their_impulses<S: Scalar, D: Space<S>>(
    v: spec_fn(S) -> real,
    c: TwoBodyModel<S, D>,
    a: real,
    b: real,
    v1: Velocity<S, D>,
    v2: Velocity<S, D>,
    k: int,
    d: D::V,
    row: ConstraintRow<S, D>,
)
    requires
        exact(v),
        geometric::<S, D>(v),
        spatial::<S, D>(v),
        inertial::<S, D>(v),
        even_mass::<S, D>(v, c.im_a, a),
        even_mass::<S, D>(v, c.im_b, b),
        0 <= k < c.elements.len(),
    ensures
        ({
            let e = c.elements[k];
            v(row_error(row, d, warmed(c, true, v1, k + 1), warmed(c, false, v2, k + 1))) == v(
                row_error(row, d, warmed(c, true, v1, k), warmed(c, false, v2, k)),
            ) + v(e.normal_part.impulse) * coupled(v, d, row, c.dir_a, e.normal_part, a + b)
                + tangent_gain(
                v,
                c,
                e,
                (e.tangent0.impulse, e.tangent1.impulse),
                d,
                row,
                a + b,
            )
        }),
{
    let e = c.elements[k];
    let x = (e.tangent0.impulse, e.tangent1.impulse);
    let n = e.normal_part.impulse;
    let w1 = warmed(c, true, v1, k);
    let w2 = warmed(c, false, v2, k);
    lemma_normal_gain(v, c, a, b, e.normal_part, w1, w2, n, d, row);
    let u1 = pushed_normal(c, e.normal_part, true, w1, n);
    let u2 = pushed_normal(c, e.normal_part, false, w2, n);
    lemma_tangent_gain(v, c, a, b, e, u1, u2, x, d, row);
}

// ---- friction ----

/// A tangent row of a contact in space, whatever its impulse.
pub open spec fn is_tangent_row<S: Scalar, D: Space<S>>(
    p: BodyPair<S, D>,
    dir: D::V,
    dp1: D::V,
    dp2: D::V,
    row: ConstraintRow<S, D>,
) -> bool {
    let bare = bare_row(p, dir, dp1, dp2);
    row == (ConstraintRow {
        rhs: row.rhs,
        rhs_wo_bias: row.rhs_wo_bias,
        impulse: row.impulse,
        ..bare
    })
}

/// The inverse inertia `m` is symmetric.
pub open spec fn even_inertia<S: Scalar, D: Space<S>>(v: spec_fn(S) -> real, m: D::I) -> bool {
    forall|x: D::A, y: D::A|
        v(#[trigger] D::gdot_spec(x, D::imul_spec(m, y))) == v(
            D::gdot_spec(y, D::imul_spec(m, x)),
        )
}

proof fn lemma_across_itself(n: V3<real>, t: V3<real>)
    ensures
        r3_dot(t, r3_cross(n, t)) == 0real,
        r3_dot(r3_cross(n, t), t) == 0real,
{
    lemma_triple_product(t, n, t);
    lemma_dot_commutes(t, r3_cross(n, t));
}

proof fn lemma_against(p: real, k: real, q: real, r: real)
    ensures
        p * (-(k * q) * r) == -(k * ((p * q) * r)),
{
    lemma_nested(p, q, r);
    assert(k * (p * (q * r)) == p * (k * (q * r))) by (nonlinear_arith);
    lemma_nested(k, q, r);
    let z = k * q;
    assert(-z * r == -(z * r)) by (nonlinear_arith);
    let y = z * r;
    assert(p * -y == -(p * y)) by (nonlinear_arith);
}

/// Steps against `(p, q)`, in proportion, that leave nothing along it.
proof fn lemma_balance(p: real, q: real, r: real, s: real, h: real, k: real)
    requires
        k * (((p * p) * r + (q * q) * s) + (p * q) * (h + h)) == p * p + q * q,
    ensures
        ({
            let x = -(k * p);
            let y = -(k * q);
            p * (p + (x * r + y * h)) + q * (q + (x * h + y * s)) == 0real
        }),
{
    let x = -(k * p);
    let y = -(k * q);
    assert(p * (p + (x * r + y * h)) == p * p - k * ((p * p) * r) - k * ((p * q) * h)) by {
        lemma_factor(p, p, x * r + y * h);
        lemma_factor(p, x * r, y * h);
        lemma_against(p, k, p, r);
        lemma_against(p, k, q, h);
    }
    assert(q * (q + (x * h + y * s)) == q * q - k * ((p * q) * h) - k * ((q * q) * s)) by {
        lemma_factor(q, q, x * h + y * s);
        lemma_factor(q, x * h, y * s);
        lemma_against(q, k, p, h);
        lemma_commute(p, q);
        lemma_against(q, k, q, s);
    }
    let pp = (p * p) * r;
    let qq = (q * q) * s;
    lemma_factor(p * q, h, h);
    lemma_factor(k, pp + qq, (p * q) * (h + h));
    lemma_factor(k, pp, qq);
    lemma_factor(k, (p * q) * h, (p * q) * h);
}

/// In exact arithmetic, a friction step in space that the cone does not bound stops
/// the sliding: what velocity is left along the tangents lies across the way the
/// bodies slid.
pub proof fn space_free_friction_step_stops_sliding<S: Scalar>(
    v: spec_fn(S) -> real,
    p: BodyPair<S, Dim3>,
    dp1: V3<S>,
    dp2: V3<S>,
    c: TwoBodyModel<S, Dim3>,
    e: TwoBodyConstraintElement<S, Dim3>,
    v1: Velocity<S, Dim3>,
    v2: Velocity<S, Dim3>,
    limit: S,
    a: real,
    b: real,
)
    requires
        exact(v),
        ordered(v),
        exact_roots(v),
        v(two_spec::<S>()) == 2real,
        0real <= v(inv_epsilon_spec::<S>()),
        c.im_a == p.mprops1.inv_mass,
        c.im_b == p.mprops2.inv_mass,
        even_mass::<S, Dim3>(v, c.im_a, a),
        even_mass::<S, Dim3>(v, c.im_b, b),
        even_inertia::<S, Dim3>(v, p.mprops1.inv_inertia),
        even_inertia::<S, Dim3>(v, p.mprops2.inv_inertia),
        is_tangent_row(p, c.tangent_a, dp1, dp2, e.tangent0),
        is_tangent_row(
            p,
            <Dim3 as Space<S>>::bitangent_spec(c.dir_a, c.tangent_a),
            dp1,
            dp2,
            e.tangent1,
        ),
        v(e.tangent_coupling) == 2real * (v(
            <Dim3 as Space<S>>::gdot_spec(e.tangent0.torque_dir_a, e.tangent1.ii_torque_dir_a),
        ) + v(
            <Dim3 as Space<S>>::gdot_spec(e.tangent0.torque_dir_b, e.tangent1.ii_torque_dir_b),
        )),
        ({
            let t1 = <Dim3 as Space<S>>::bitangent_spec(c.dir_a, c.tangent_a);
            let d0 = v(row_error(e.tangent0, c.tangent_a, v1, v2));
            let d1 = v(row_error(e.tangent1, t1, v1, v2));
            let den = ((d0 * d0) * v(e.tangent0.r) + (d1 * d1) * v(e.tangent1.r)) + (d0 * d1) * v(
                e.tangent_coupling,
            );
            let k = (d0 * d0 + d1 * d1) / den;
            let x = v(e.tangent0.impulse) - k * d0;
            let y = v(e.tangent1.impulse) - k * d1;
            &&& v(inv_epsilon_spec::<S>()) < den
            &&& 0real <= v(limit)
            &&& x * x + y * y <= v(limit) * v(limit)
        }),
    ensures
        ({
            let t1 = <Dim3 as Space<S>>::bitangent_spec(c.dir_a, c.tangent_a);
            let t = tangent_impulse(c, e, v1, v2, limit);
            let x = (t.0.minus_spec(e.tangent0.impulse), t.1.minus_spec(e.tangent1.impulse));
            let w1 = pushed_tangent(c, e, true, v1, x);
            let w2 = pushed_tangent(c, e, false, v2, x);
            v(row_error(e.tangent0, c.tangent_a, v1, v2)) * v(
                row_error(e.tangent0, c.tangent_a, w1, w2),
            ) + v(row_error(e.tangent1, t1, v1, v2)) * v(row_error(e.tangent1, t1, w1, w2))
                == 0real
        }),
{
    let t0 = c.tangent_a;
    let t1 = <Dim3 as Space<S>>::bitangent_spec(c.dir_a, t0);
    let e0 = row_error(e.tangent0, t0, v1, v2);
    let e1 = row_error(e.tangent1, t1, v1, v2);
    let d0 = v(e0);
    let d1 = v(e1);
    let r0 = v(e.tangent0.r);
    let r1 = v(e.tangent1.r);
    let h = v(
        <Dim3 as Space<S>>::gdot_spec(e.tangent0.torque_dir_a, e.tangent1.ii_torque_dir_a),
    ) + v(<Dim3 as Space<S>>::gdot_spec(e.tangent0.torque_dir_b, e.tangent1.ii_torque_dir_b));
    let den = ((d0 * d0) * r0 + (d1 * d1) * r1) + (d0 * d1) * v(e.tangent_coupling);
    let top = d0 * d0 + d1 * d1;
    let k = top / den;
    assert(k * den == top) by (nonlinear_arith)
        requires
            k == top / den,
            0real < den,
    ;
    let t = tangent_impulse(c, e, v1, v2, limit);
    let x = (t.0.minus_spec(e.tangent0.impulse), t.1.minus_spec(e.tangent1.impulse));
    assert(v(x.0) == -(k * d0) && v(x.1) == -(k * d1)) by {
        lemma_uncapped(v, c, e, v1, v2, limit, k);
    }
    lemma_rows(v, p, dp1, dp2, c, e, a, b);
    let w1 = pushed_tangent(c, e, true, v1, x);
    let w2 = pushed_tangent(c, e, false, v2, x);
    assert(v(row_error(e.tangent0, t0, w1, w2)) == d0 + (v(x.0) * r0 + v(x.1) * h)) by {
        space_is_geometric(v);
        space_is_spatial(v);
        space_is_inertial(v);
        lemma_tangent_gain(v, c, a, b, e, v1, v2, x, t0, e.tangent0);
    }
    assert(v(row_error(e.tangent1, t1, w1, w2)) == d1 + (v(x.0) * h + v(x.1) * r1)) by {
        space_is_geometric(v);
        space_is_spatial(v);
        space_is_inertial(v);
        lemma_tangent_gain(v, c, a, b, e, v1, v2, x, t1, e.tangent1);
    }
    lemma_balance(d0, d1, r0, r1, h, k);
}

/// What impulses of one along the tangents add along the tangents.
proof fn lemma_rows<S: Scalar>(
    v: spec_fn(S) -> real,
    p: BodyPair<S, Dim3>,
    dp1: V3<S>,
    dp2: V3<S>,
    c: TwoBodyModel<S, Dim3>,
    e: TwoBodyConstraintElement<S, Dim3>,
    a: real,
    b: real,
)
    requires
        exact(v),
        even_mass::<S, Dim3>(v, p.mprops1.inv_mass, a),
        even_mass::<S, Dim3>(v, p.mprops2.inv_mass, b),
        even_inertia::<S, Dim3>(v, p.mprops1.inv_inertia),
        even_inertia::<S, Dim3>(v, p.mprops2.inv_inertia),
        is_tangent_row(p, c.tangent_a, dp1, dp2, e.tangent0),
        is_tangent_row(
            p,
            <Dim3 as Space<S>>::bitangent_spec(c.dir_a, c.tangent_a),
            dp1,
            dp2,
            e.tangent1,
        ),
    ensures
        ({
            let t0 = c.tangent_a;
            let t1 = <Dim3 as Space<S>>::bitangent_spec(c.dir_a, t0);
            let h = v(
                <Dim3 as Space<S>>::gdot_spec(
                    e.tangent0.torque_dir_a,
                    e.tangent1.ii_torque_dir_a,
                ),
            ) + v(
                <Dim3 as Space<S>>::gdot_spec(
                    e.tangent0.torque_dir_b,
                    e.tangent1.ii_torque_dir_b,
                ),
            );
            &&& coupled(v, t0, e.tangent0, t0, e.tangent0, a + b) == v(e.tangent0.r)
            &&& coupled(v, t1, e.tangent1, t1, e.tangent1, a + b) == v(e.tangent1.r)
            &&& coupled(v, t0, e.tangent0, t1, e.tangent1, a + b) == h
            &&& coupled(v, t1, e.tangent1, t0, e.tangent0, a + b) == h
        }),
{
    let t0 = c.tangent_a;
    let t1 = <Dim3 as Space<S>>::bitangent_spec(c.dir_a, t0);
    let r0 = e.tangent0;
    let r1 = e.tangent1;
    let m1 = p.mprops1.inv_inertia;
    let m2 = p.mprops2.inv_inertia;
    let ha = v(
        <Dim3 as Space<S>>::gdot_spec(
            r0.torque_dir_a,
            <Dim3 as Space<S>>::imul_spec(m1, r1.torque_dir_a),
        ),
    );
    let hb = v(
        <Dim3 as Space<S>>::gdot_spec(
            r0.torque_dir_b,
            <Dim3 as Space<S>>::imul_spec(m2, r1.torque_dir_b),
        ),
    );
    let ga = v(
        <Dim3 as Space<S>>::gdot_spec(
            r1.torque_dir_a,
            <Dim3 as Space<S>>::imul_spec(m1, r0.torque_dir_a),
        ),
    );
    let gb = v(
        <Dim3 as Space<S>>::gdot_spec(
            r1.torque_dir_b,
            <Dim3 as Space<S>>::imul_spec(m2, r0.torque_dir_b),
        ),
    );
    assert(ha == ga && hb == gb);
    assert(coupled(v, t0, r0, t0, r0, a + b) == v(r0.r)) by {
        space_is_linear(v);
        space_is_inertial(v);
        lemma_own_mobility(v, p, dp1, dp2, t0, r0, a, b);
    }
    assert(coupled(v, t1, r1, t1, r1, a + b) == v(r1.r)) by {
        space_is_linear(v);
        space_is_inertial(v);
        lemma_own_mobility(v, p, dp1, dp2, t1, r1, a, b);
    }
    let n = vector_value::<S, Dim3>(v, c.dir_a);
    let tv = vector_value::<S, Dim3>(v, t0);
    assert(vector_value::<S, Dim3>(v, t1) == r3_cross(n, tv));
    lemma_across_itself(n, tv);
    lemma_zero(a + b);
    assert(coupled(v, t0, r0, t1, r1, a + b) == ha + hb);
    assert(coupled(v, t1, r1, t0, r0, a + b) == ga + gb);
}

/// What an impulse of one adds along its own row.
proof fn lemma_own_mobility<S: Scalar>(
    v: spec_fn(S) -> real,
    p: BodyPair<S, Dim3>,
    dp1: V3<S>,
    dp2: V3<S>,
    t: V3<S>,
    row: ConstraintRow<S, Dim3>,
    a: real,
    b: real,
)
    requires
        exact(v),
        linear_space::<S, Dim3>(v),
        inertial::<S, Dim3>(v),
        even_mass::<S, Dim3>(v, p.mprops1.inv_mass, a),
        even_mass::<S, Dim3>(v, p.mprops2.inv_mass, b),
        is_tangent_row(p, t, dp1, dp2, row),
    ensures
        coupled(v, t, row, t, row, a + b) == v(row.r),
{
    let tv = vector_value::<S, Dim3>(v, t);
    let ima = p.mprops1.inv_mass;
    let imb = p.mprops2.inv_mass;
    assert(v(
        <Dim3 as Space<S>>::vdot_spec(
            t,
            <Dim3 as Space<S>>::vmul_spec(<Dim3 as Space<S>>::vadd_spec(ima, imb), t),
        ),
    ) == v(<Dim3 as Space<S>>::vdot_spec(t, <Dim3 as Space<S>>::vmul_spec(t, ima))) + v(
        <Dim3 as Space<S>>::vdot_spec(t, <Dim3 as Space<S>>::vmul_spec(t, imb)),
    ));
    lemma_scaled_dot(tv, tv, a);
    lemma_scaled_dot(tv, tv, b);
    lemma_right(a, b, r3_dot(tv, tv));
    lemma_commute(a, r3_dot(tv, tv));
    lemma_commute(b, r3_dot(tv, tv));
    lemma_dot_commutes(
        angular_value::<S, Dim3>(v, row.torque_dir_a),
        angular_value::<S, Dim3>(v, row.ii_torque_dir_a),
    );
    lemma_dot_commutes(
        angular_value::<S, Dim3>(v, row.torque_dir_b),
        angular_value::<S, Dim3>(v, row.ii_torque_dir_b),
    );
}

/// The change of the tangent impulses where the cone does not bound them.
proof fn lemma_uncapped<S: Scalar>(
    v: spec_fn(S) -> real,
    c: TwoBodyModel<S, Dim3>,
    e: TwoBodyConstraintElement<S, Dim3>,
    v1: Velocity<S, Dim3>,
    v2: Velocity<S, Dim3>,
    limit: S,
    k: real,
)
    requires
        exact(v),
        ordered(v),
        exact_roots(v),
        0real <= v(inv_epsilon_spec::<S>()),
        ({
            let t1 = <Dim3 as Space<S>>::bitangent_spec(c.dir_a, c.tangent_a);
            let d0 = v(row_error(e.tangent0, c.tangent_a, v1, v2));
            let d1 = v(row_error(e.tangent1, t1, v1, v2));
            let den = ((d0 * d0) * v(e.tangent0.r) + (d1 * d1) * v(e.tangent1.r)) + (d0 * d1) * v(
                e.tangent_coupling,
            );
            let x = v(e.tangent0.impulse) - k * d0;
            let y = v(e.tangent1.impulse) - k * d1;
            &&& k == (d0 * d0 + d1 * d1) / den
            &&& v(inv_epsilon_spec::<S>()) < den
            &&& 0real <= v(limit)
            &&& x * x + y * y <= v(limit) * v(limit)
        }),
    ensures
        ({
            let t1 = <Dim3 as Space<S>>::bitangent_spec(c.dir_a, c.tangent_a);
            let d0 = v(row_error(e.tangent0, c.tangent_a, v1, v2));
            let d1 = v(row_error(e.tangent1, t1, v1, v2));
            let t = tangent_impulse(c, e, v1, v2, limit);
            &&& v(t.0) - v(e.tangent0.impulse) == -(k * d0)
            &&& v(t.1) - v(e.tangent1.impulse) == -(k * d1)
        }),
{
    let t1 = <Dim3 as Space<S>>::bitangent_spec(c.dir_a, c.tangent_a);
    let s0 = row_error(e.tangent0, c.tangent_a, v1, v2);
    let s1 = row_error(e.tangent1, t1, v1, v2);
    let d0 = v(s0);
    let d1 = v(s1);
    let d00 = s0.times_spec(s0);
    let d11 = s1.times_spec(s1);
    let d01 = s0.times_spec(s1);
    let low = d00.times_spec(e.tangent0.r).plus_spec(d11.times_spec(e.tangent1.r)).plus_spec(
        d01.times_spec(e.tangent_coupling),
    );
    let den = v(low);
    let inv = S::one_spec().over_spec(low);
    let kk = d00.plus_spec(d11).times_spec(inv);
    let top = d0 * d0 + d1 * d1;
    let i = 1real / den;
    assert(i * den == 1real) by (nonlinear_arith)
        requires
            i == 1real / den,
            0real < den,
    ;
    lemma_over(top, den, i);
    assert(v(kk) == k);
    let raw = V2 {
        x: e.tangent0.impulse.minus_spec(kk.times_spec(s0)),
        y: e.tangent1.impulse.minus_spec(kk.times_spec(s1)),
    };
    let x = v(raw.x);
    let y = v(raw.y);
    lemma_square(x);
    lemma_square(y);
    let norm = raw.x.times_spec(raw.x).plus_spec(raw.y.times_spec(raw.y)).sqrt_spec();
    let n = v(norm);
    let l = v(limit);
    assert(n * n == x * x + y * y);
    if l < n {
        assert(l * l < n * n) by (nonlinear_arith)
            requires
                0real <= l < n,
        ;
    }
}

} // verus!
