//! What motors, damping and the velocity-dependent terms do, when the arithmetic is
//! exact.
use super::dynamics::{cor_inherited, cor_joint, cor_settled};
use super::gravity::damped;
use super::gravity_and_lu::pd_torque;
use super::jacobian_laws::{
    angular_value, geometric, lemma_cross_second, plane_is_geometric, r3_axis, space_is_geometric,
    vector_value,
};
use super::kinematics::joint_column_spec;
use super::mass_laws::{inertia_value, space_is_inertial, weighted};
use super::space_laws::{plane_is_spatial, space_is_spatial, spatial};
use super::turn_laws::lemma_cross_signs;
use super::types::{MultibodyLinkStatic, MultibodyLinkWorkspace};
use crate::exact::{exact, lemma_square, lemma_zero, ordered};
use crate::real_vectors::{
    lemma_cross_add, lemma_cross_zero, lemma_one, lemma_scale_add, lemma_scaled_twice, r3_add,
    r3_cross, r3_image, r3_neg, r3_scale, r3_zero,
};
use crate::scalar::{Scalar, two_spec};
use crate::space::{Dim2, Dim3, Mat3, Space, V3, Velocity};
use vstd::prelude::*;

verus! {

// ---- motors ----

/// In exact arithmetic, the torque of a force-based motor stays within its maximum
/// force; where that does not bind, it is the force of a spring to the target and a
/// damper. At rest it drives towards the target, and at the target it brakes.
pub proof fn pd_torques_drive_to_the_target<S: Scalar>(
    v: spec_fn(S) -> real,
    stiffness: S,
    damping: S,
    max_force: S,
    target: S,
    q: S,
    vel: S,
)
    requires
        exact(v),
        ordered(v),
        0real < v(max_force),
        0real <= v(stiffness),
        0real <= v(damping),
    ensures
        ({
            let t = v(pd_torque(stiffness, damping, max_force, target, q, vel));
            let e = v(q) - v(target);
            let wish = v(stiffness) * e + v(damping) * v(vel);
            &&& -v(max_force) <= t <= v(max_force)
            &&& -v(max_force) <= wish <= v(max_force) ==> t + wish == 0real
            &&& v(vel) == 0real && 0real < v(stiffness) && e != 0real ==> t * e < 0real
            &&& e == 0real && 0real < v(damping) && v(vel) != 0real ==> t * v(vel) < 0real
        }),
{
    let k = v(stiffness);
    let c = v(damping);
    let e = v(q) - v(target);
    let u = v(vel);
    let t = v(pd_torque(stiffness, damping, max_force, target, q, vel));
    assert(k * (v(target) - v(q)) == -(k * e)) by (nonlinear_arith)
        requires
            e == v(q) - v(target),
    ;
    lemma_zero(c);
    lemma_zero(k);
    if u == 0real && 0real < k && e != 0real {
        lemma_opposes(k, e, t, v(max_force));
    }
    if e == 0real && 0real < c && u != 0real {
        lemma_opposes(c, u, t, v(max_force));
    }
}

proof fn lemma_opposes(k: real, e: real, t: real, m: real)
    requires
        0real < k,
        e != 0real,
        0real < m,
        t == (if -(k * e) < -m {
            -m
        } else if m < -(k * e) {
            m
        } else {
            -(k * e)
        }),
    ensures
        t * e < 0real,
{
    if 0real < e {
        assert(0real < k * e) by (nonlinear_arith)
            requires
                0real < k,
                0real < e,
        ;
        assert(t * e < 0real) by (nonlinear_arith)
            requires
                t < 0real,
                0real < e,
        ;
    } else {
        assert(k * e < 0real) by (nonlinear_arith)
            requires
                0real < k,
                e < 0real,
        ;
        assert(t * e < 0real) by (nonlinear_arith)
            requires
                0real < t,
                e < 0real,
        ;
    }
}

// ---- damping ----

/// The power that damping takes: the damping of each degree of freedom times the
/// square of its velocity.
pub open spec fn damping_power<S: Scalar>(
    v: spec_fn(S) -> real,
    damping: Seq<S>,
    vel: Seq<S>,
    n: int,
) -> real
    decreases n,
{
    if n <= 0 {
        0real
    } else {
        damping_power(v, damping, vel, n - 1) + v(damping[n - 1]) * (v(vel[n - 1]) * v(vel[n - 1]))
    }
}

/// In exact arithmetic, damping takes power out of a multibody: the generalized forces
/// do less work by the damping times the square of each velocity.
pub proof fn damping_takes_power<S: Scalar>(
    v: spec_fn(S) -> real,
    tau: Seq<S>,
    damping: Seq<S>,
    vel: Seq<S>,
    n: int,
)
    requires
        exact(v),
        0 <= n <= tau.len(),
    ensures
        weighted(v, vel, |c: int| v(damped(tau, damping, vel)[c]), n) == weighted(
            v,
            vel,
            |c: int| v(tau[c]),
            n,
        ) - damping_power(v, damping, vel, n),
        (forall|i: int| 0 <= i < n ==> 0real <= v(#[trigger] damping[i])) ==> 0real
            <= damping_power(v, damping, vel, n),
    decreases n,
{
    if n > 0 {
        damping_takes_power(v, tau, damping, vel, n - 1);
        let c = n - 1;
        let x = v(vel[c]);
        let k = v(damping[c]);
        let t = v(tau[c]);
        assert((t - k * x) * x == t * x - k * (x * x)) by (nonlinear_arith);
        lemma_square(x);
        if forall|i: int| 0 <= i < n ==> 0real <= v(#[trigger] damping[i]) {
            assert(0real <= v(damping[c]));
            let xx = x * x;
            assert(0real <= k * xx) by (nonlinear_arith)
                requires
                    0real <= k,
                    0real <= xx,
            ;
        }
    }
}

// ---- gyroscopic terms ----

proof fn lemma_image_sum(a: Mat3<real>, b: Mat3<real>, x: V3<real>)
    ensures
        r3_image(
            Mat3 {
                x_axis: r3_add(a.x_axis, b.x_axis),
                y_axis: r3_add(a.y_axis, b.y_axis),
                z_axis: r3_add(a.z_axis, b.z_axis),
            },
            x,
        ) == r3_add(r3_image(a, x), r3_image(b, x)),
{
    lemma_scale_add(a.x_axis, b.x_axis, x.x);
    lemma_scale_add(a.y_axis, b.y_axis, x.y);
    lemma_scale_add(a.z_axis, b.z_axis, x.z);
}

proof fn lemma_image_scale(a: Mat3<real>, k: real, x: V3<real>)
    ensures
        r3_image(
            Mat3 {
                x_axis: r3_scale(a.x_axis, k),
                y_axis: r3_scale(a.y_axis, k),
                z_axis: r3_scale(a.z_axis, k),
            },
            x,
        ) == r3_scale(r3_image(a, x), k),
{
    lemma_scaled_twice(a.x_axis, k, x.x);
    lemma_scaled_twice(a.y_axis, k, x.y);
    lemma_scaled_twice(a.z_axis, k, x.z);
    let p = r3_scale(a.x_axis, x.x);
    let q = r3_scale(a.y_axis, x.y);
    let r = r3_scale(a.z_axis, x.z);
    lemma_scale_add(p, q, k);
    lemma_scale_add(r3_add(p, q), r, k);
}

proof fn lemma_image_cross(w: V3<real>, a: Mat3<real>, x: V3<real>)
    ensures
        r3_image(
            Mat3 {
                x_axis: r3_cross(w, a.x_axis),
                y_axis: r3_cross(w, a.y_axis),
                z_axis: r3_cross(w, a.z_axis),
            },
            x,
        ) == r3_cross(w, r3_image(a, x)),
{
    let p = r3_scale(a.x_axis, x.x);
    lemma_cross_second(w, r3_zero(), a.x_axis, x.x);
    lemma_cross_zero(w);
    assert(r3_add(r3_zero(), p) == p);
    lemma_cross_second(w, p, a.y_axis, x.y);
    lemma_cross_second(w, r3_add(p, r3_scale(a.y_axis, x.y)), a.z_axis, x.z);
}

/// In exact arithmetic, the inertia of space with the gyroscopic term of a step of length
/// `dt` takes a change `x` of the angular velocity `w` to the change of the angular
/// momentum and, over the step, of the gyroscopic torque `w x (I w)`, to first order.
pub proof fn space_gyroscopic_inertia<S: Scalar>(
    v: spec_fn(S) -> real,
    m: Mat3<S>,
    w: V3<S>,
    dt: S,
    x: V3<S>,
)
    requires
        exact(v),
    ensures
        ({
            let im = inertia_value::<S, Dim3>(v, m);
            let wv = angular_value::<S, Dim3>(v, w);
            let xv = angular_value::<S, Dim3>(v, x);
            angular_value::<S, Dim3>(
                v,
                <Dim3 as Space<S>>::imul_spec(<Dim3 as Space<S>>::igyro_spec(m, w, dt), x),
            ) == r3_add(
                r3_image(im, xv),
                r3_scale(
                    r3_add(
                        r3_cross(wv, r3_image(im, xv)),
                        r3_cross(xv, r3_image(im, wv)),
                    ),
                    v(dt),
                ),
            )
        }),
{
    space_is_inertial(v);
    let im = inertia_value::<S, Dim3>(v, m);
    let wv = angular_value::<S, Dim3>(v, w);
    let xv = angular_value::<S, Dim3>(v, x);
    let t = v(dt);
    let full = <Dim3 as Space<S>>::igyro_spec(m, w, dt);
    lemma_columns(v, m);
    lemma_columns(v, full);
    let l = r3_image(im, wv);
    let lw = <Dim3 as Space<S>>::imul_spec(m, w);
    assert(angular_value::<S, Dim3>(v, lw) == l);
    // Column by column.
    let unit = Mat3 { x_axis: r3_axis(0), y_axis: r3_axis(1), z_axis: r3_axis(2) };
    let a = Mat3 {
        x_axis: r3_cross(wv, im.x_axis),
        y_axis: r3_cross(wv, im.y_axis),
        z_axis: r3_cross(wv, im.z_axis),
    };
    let k = r3_neg(l);
    let b = Mat3 {
        x_axis: r3_cross(k, r3_axis(0)),
        y_axis: r3_cross(k, r3_axis(1)),
        z_axis: r3_cross(k, r3_axis(2)),
    };
    let ab = Mat3 {
        x_axis: r3_add(a.x_axis, b.x_axis),
        y_axis: r3_add(a.y_axis, b.y_axis),
        z_axis: r3_add(a.z_axis, b.z_axis),
    };
    let s = Mat3 {
        x_axis: r3_scale(ab.x_axis, t),
        y_axis: r3_scale(ab.y_axis, t),
        z_axis: r3_scale(ab.z_axis, t),
    };
    lemma_one(k.x);
    lemma_one(k.y);
    lemma_one(k.z);
    lemma_zero(k.x);
    lemma_zero(k.y);
    lemma_zero(k.z);
    let fv = inertia_value::<S, Dim3>(v, full);
    assert(fv.x_axis == r3_add(im.x_axis, s.x_axis));
    assert(fv.y_axis == r3_add(im.y_axis, s.y_axis));
    assert(fv.z_axis == r3_add(im.z_axis, s.z_axis));
    lemma_image_sum(im, s, xv);
    lemma_image_scale(ab, t, xv);
    lemma_image_sum(a, b, xv);
    lemma_image_cross(wv, im, xv);
    lemma_image_cross(k, unit, xv);
    assert(r3_image(unit, xv) == xv) by {
        lemma_one(xv.x);
        lemma_one(xv.y);
        lemma_one(xv.z);
        lemma_zero(xv.x);
        lemma_zero(xv.y);
        lemma_zero(xv.z);
    }
    lemma_cross_signs(l, xv);
    lemma_cross_signs(xv, l);
    assert(r3_cross(k, xv) == r3_cross(xv, l));
}

/// The columns of an inertia are the images of the axes.
proof fn lemma_columns<S: Scalar>(v: spec_fn(S) -> real, m: Mat3<S>)
    requires
        exact(v),
    ensures
        inertia_value::<S, Dim3>(v, m) == (Mat3 {
            x_axis: vector_value::<S, Dim3>(v, m.x_axis),
            y_axis: vector_value::<S, Dim3>(v, m.y_axis),
            z_axis: vector_value::<S, Dim3>(v, m.z_axis),
        }),
{
    let a = vector_value::<S, Dim3>(v, m.x_axis);
    let b = vector_value::<S, Dim3>(v, m.y_axis);
    let c = vector_value::<S, Dim3>(v, m.z_axis);
    lemma_one(a.x);
    lemma_one(a.y);
    lemma_one(a.z);
    lemma_one(b.x);
    lemma_one(b.y);
    lemma_one(b.z);
    lemma_one(c.x);
    lemma_one(c.y);
    lemma_one(c.z);
    lemma_zero(a.x);
    lemma_zero(a.y);
    lemma_zero(a.z);
    lemma_zero(b.x);
    lemma_zero(b.y);
    lemma_zero(b.z);
    lemma_zero(c.x);
    lemma_zero(c.y);
    lemma_zero(c.z);
}

// ---- Coriolis columns ----

/// The acceleration at the offset `s` of a body that turns steadily at `w`.
pub open spec fn centripetal(w: V3<real>, s: V3<real>) -> V3<real> {
    r3_cross(w, r3_cross(w, s))
}

/// The centripetal acceleration at the sum of two angular velocities.
proof fn lemma_centripetal_sum(w: V3<real>, j: V3<real>, s: V3<real>)
    ensures
        centripetal(r3_add(w, j), s) == r3_add(
            r3_add(centripetal(w, s), centripetal(j, s)),
            r3_add(r3_cross(j, r3_cross(w, s)), r3_cross(w, r3_cross(j, s))),
        ),
{
    lemma_cross_add(w, j, s);
    let a = r3_cross(w, s);
    let b = r3_cross(j, s);
    lemma_cross_add(a, b, r3_add(w, j));
    lemma_cross_add(w, j, a);
    lemma_cross_add(w, j, b);
}

proof fn lemma_cor_settled<S: Scalar, D: Space<S>>(
    v: spec_fn(S) -> real,
    col: Velocity<S, D>,
    jac_ang: D::A,
    ws: MultibodyLinkWorkspace<S, D>,
)
    requires
        geometric::<S, D>(v),
    ensures
        ({
            let w = angular_value::<S, D>(v, ws.rb_vels.angular);
            let j = angular_value::<S, D>(v, jac_ang);
            let s = vector_value::<S, D>(v, ws.shift23);
            let r = cor_settled(col, jac_ang, ws);
            &&& r3_add(
                r3_add(vector_value::<S, D>(v, r.linear), centripetal(w, s)),
                centripetal(j, s),
            ) == r3_add(
                r3_add(
                    vector_value::<S, D>(v, col.linear),
                    r3_cross(angular_value::<S, D>(v, col.angular), s),
                ),
                centripetal(r3_add(w, j), s),
            )
            &&& r.angular == col.angular
        }),
{
    let w = angular_value::<S, D>(v, ws.rb_vels.angular);
    let j = angular_value::<S, D>(v, jac_ang);
    let s = vector_value::<S, D>(v, ws.shift23);
    lemma_centripetal_sum(w, j, s);
}

proof fn lemma_cor_inherited<S: Scalar, D: Space<S>>(
    v: spec_fn(S) -> real,
    parent: Velocity<S, D>,
    parent_jac_ang: D::A,
    ws: MultibodyLinkWorkspace<S, D>,
    parent_w: D::A,
)
    requires
        geometric::<S, D>(v),
        spatial::<S, D>(v),
    ensures
        ({
            let w = angular_value::<S, D>(v, parent_w);
            let j = angular_value::<S, D>(v, parent_jac_ang);
            let s = vector_value::<S, D>(v, ws.shift02);
            let ja = angular_value::<S, D>(v, ws.joint_velocity.angular);
            let r = cor_inherited(parent, parent_jac_ang, ws, parent_w);
            let at_rest = vector_value::<S, D>(v, ws.joint_velocity.linear) == r3_zero()
                && angular_value::<S, D>(v, ws.rb_vels.angular) == w;
            &&& at_rest ==> r3_add(
                r3_add(vector_value::<S, D>(v, r.linear), centripetal(w, s)),
                centripetal(j, s),
            ) == r3_add(
                r3_add(
                    vector_value::<S, D>(v, parent.linear),
                    r3_cross(angular_value::<S, D>(v, parent.angular), s),
                ),
                centripetal(r3_add(w, j), s),
            )
            &&& angular_value::<S, D>(v, r.angular) == r3_add(
                angular_value::<S, D>(v, parent.angular),
                r3_cross(j, ja),
            )
        }),
{
    let w = angular_value::<S, D>(v, parent_w);
    let j = angular_value::<S, D>(v, parent_jac_ang);
    let s = vector_value::<S, D>(v, ws.shift02);
    let ja = angular_value::<S, D>(v, ws.joint_velocity.angular);
    lemma_centripetal_sum(w, j, s);
    lemma_cross_zero(j);
    lemma_cross_signs(j, ja);
    let two = v(two_spec::<S>());
    lemma_zero(two);
}

proof fn lemma_cor_joint<S: Scalar, D: Space<S>>(
    v: spec_fn(S) -> real,
    col: Velocity<S, D>,
    st: MultibodyLinkStatic<S, D>,
    parent_w: D::A,
    rot: D::R,
    c: int,
)
    requires
        geometric::<S, D>(v),
        spatial::<S, D>(v),
        v(two_spec::<S>()) == 2real,
        st.kinematic == 0,
        0 <= c < st.ndofs,
    ensures
        ({
            let w = angular_value::<S, D>(v, parent_w);
            let j = joint_column_spec::<S, D>(st.data.locked_axes, rot, c);
            let turned = r3_cross(w, vector_value::<S, D>(v, j.linear));
            let r = cor_joint(col, st, parent_w, rot, c);
            &&& vector_value::<S, D>(v, r.linear) == r3_add(
                vector_value::<S, D>(v, col.linear),
                r3_add(turned, turned),
            )
            &&& angular_value::<S, D>(v, r.angular) == r3_add(
                angular_value::<S, D>(v, col.angular),
                r3_cross(w, angular_value::<S, D>(v, j.angular)),
            )
        }),
{
    let w = angular_value::<S, D>(v, parent_w);
    let j = joint_column_spec::<S, D>(st.data.locked_axes, rot, c);
    let turned = r3_cross(w, vector_value::<S, D>(v, j.linear));
    lemma_double(turned.x);
    lemma_double(turned.y);
    lemma_double(turned.z);
}

proof fn lemma_double(a: real)
    ensures
        a * 2real == a + a,
{
    assert(a * 2real == a + a) by (nonlinear_arith);
}

/// In exact arithmetic, the Coriolis columns of the plane hold what the centripetal acceleration
/// gains per unit of a generalized velocity: from the joint to the centre of mass, and
/// from the parent to a joint at rest, a column grows by the centripetal acceleration
/// at the sum of the angular velocity and the jacobian's, less those at each of them.
/// Its angular part takes over the turning of the joint's axis.
pub proof fn plane_coriolis_columns_are_gains<S: Scalar>(
    v: spec_fn(S) -> real,
    col: Velocity<S, Dim2>,
    jac_ang: <Dim2 as Space<S>>::A,
    ws: MultibodyLinkWorkspace<S, Dim2>,
    parent_w: <Dim2 as Space<S>>::A,
)
    requires
        exact(v),
    ensures
        ({
            let w = angular_value::<S, Dim2>(v, ws.rb_vels.angular);
            let wp = angular_value::<S, Dim2>(v, parent_w);
            let j = angular_value::<S, Dim2>(v, jac_ang);
            let ja = angular_value::<S, Dim2>(v, ws.joint_velocity.angular);
            let s = vector_value::<S, Dim2>(v, ws.shift23);
            let s0 = vector_value::<S, Dim2>(v, ws.shift02);
            let cl = vector_value::<S, Dim2>(v, col.linear);
            let ca = angular_value::<S, Dim2>(v, col.angular);
            let settled = cor_settled(col, jac_ang, ws);
            let inherited = cor_inherited(col, jac_ang, ws, parent_w);
            let at_rest = vector_value::<S, Dim2>(v, ws.joint_velocity.linear) == r3_zero() && w
                == wp;
            &&& r3_add(
                r3_add(vector_value::<S, Dim2>(v, settled.linear), centripetal(w, s)),
                centripetal(j, s),
            ) == r3_add(r3_add(cl, r3_cross(ca, s)), centripetal(r3_add(w, j), s))
            &&& settled.angular == col.angular
            &&& at_rest ==> r3_add(
                r3_add(vector_value::<S, Dim2>(v, inherited.linear), centripetal(wp, s0)),
                centripetal(j, s0),
            ) == r3_add(r3_add(cl, r3_cross(ca, s0)), centripetal(r3_add(wp, j), s0))
            &&& angular_value::<S, Dim2>(v, inherited.angular) == r3_add(ca, r3_cross(j, ja))
        }),
{
    plane_is_geometric(v);
    plane_is_spatial(v);
    lemma_cor_settled::<S, Dim2>(v, col, jac_ang, ws);
    lemma_cor_inherited::<S, Dim2>(v, col, jac_ang, ws, parent_w);
}

/// In exact arithmetic, the Coriolis column of a degree of freedom of the plane holds twice the
/// rate at which the parent turns its linear axis, and once that of its angular axis.
pub proof fn plane_coriolis_columns_turn_the_axes<S: Scalar>(
    v: spec_fn(S) -> real,
    col: Velocity<S, Dim2>,
    st: MultibodyLinkStatic<S, Dim2>,
    parent_w: <Dim2 as Space<S>>::A,
    rot: <Dim2 as Space<S>>::R,
    c: int,
)
    requires
        exact(v),
        v(two_spec::<S>()) == 2real,
        st.kinematic == 0,
        0 <= c < st.ndofs,
    ensures
        ({
            let w = angular_value::<S, Dim2>(v, parent_w);
            let j = joint_column_spec::<S, Dim2>(st.data.locked_axes, rot, c);
            let turned = r3_cross(w, vector_value::<S, Dim2>(v, j.linear));
            let r = cor_joint(col, st, parent_w, rot, c);
            &&& vector_value::<S, Dim2>(v, r.linear) == r3_add(
                vector_value::<S, Dim2>(v, col.linear),
                r3_add(turned, turned),
            )
            &&& angular_value::<S, Dim2>(v, r.angular) == r3_add(
                angular_value::<S, Dim2>(v, col.angular),
                r3_cross(w, angular_value::<S, Dim2>(v, j.angular)),
            )
        }),
{
    plane_is_geometric(v);
    plane_is_spatial(v);
    lemma_cor_joint::<S, Dim2>(v, col, st, parent_w, rot, c);
}

/// In exact arithmetic, the Coriolis columns of space hold what the centripetal acceleration
/// gains per unit of a generalized velocity: from the joint to the centre of mass, and
/// from the parent to a joint at rest, a column grows by the centripetal acceleration
/// at the sum of the angular velocity and the jacobian's, less those at each of them.
/// Its angular part takes over the turning of the joint's axis.
pub proof fn space_coriolis_columns_are_gains<S: Scalar>(
    v: spec_fn(S) -> real,
    col: Velocity<S, Dim3>,
    jac_ang: <Dim3 as Space<S>>::A,
    ws: MultibodyLinkWorkspace<S, Dim3>,
    parent_w: <Dim3 as Space<S>>::A,
)
    requires
        exact(v),
    ensures
        ({
            let w = angular_value::<S, Dim3>(v, ws.rb_vels.angular);
            let wp = angular_value::<S, Dim3>(v, parent_w);
            let j = angular_value::<S, Dim3>(v, jac_ang);
            let ja = angular_value::<S, Dim3>(v, ws.joint_velocity.angular);
            let s = vector_value::<S, Dim3>(v, ws.shift23);
            let s0 = vector_value::<S, Dim3>(v, ws.shift02);
            let cl = vector_value::<S, Dim3>(v, col.linear);
            let ca = angular_value::<S, Dim3>(v, col.angular);
            let settled = cor_settled(col, jac_ang, ws);
            let inherited = cor_inherited(col, jac_ang, ws, parent_w);
            let at_rest = vector_value::<S, Dim3>(v, ws.joint_velocity.linear) == r3_zero() && w
                == wp;
            &&& r3_add(
                r3_add(vector_value::<S, Dim3>(v, settled.linear), centripetal(w, s)),
                centripetal(j, s),
            ) == r3_add(r3_add(cl, r3_cross(ca, s)), centripetal(r3_add(w, j), s))
            &&& settled.angular == col.angular
            &&& at_rest ==> r3_add(
                r3_add(vector_value::<S, Dim3>(v, inherited.linear), centripetal(wp, s0)),
                centripetal(j, s0),
            ) == r3_add(r3_add(cl, r3_cross(ca, s0)), centripetal(r3_add(wp, j), s0))
            &&& angular_value::<S, Dim3>(v, inherited.angular) == r3_add(ca, r3_cross(j, ja))
        }),
{
    space_is_geometric(v);
    space_is_spatial(v);
    lemma_cor_settled::<S, Dim3>(v, col, jac_ang, ws);
    lemma_cor_inherited::<S, Dim3>(v, col, jac_ang, ws, parent_w);
}

/// In exact arithmetic, the Coriolis column of a degree of freedom of space holds twice the
/// rate at which the parent turns its linear axis, and once that of its angular axis.
pub proof fn space_coriolis_columns_turn_the_axes<S: Scalar>(
    v: spec_fn(S) -> real,
    col: Velocity<S, Dim3>,
    st: MultibodyLinkStatic<S, Dim3>,
    parent_w: <Dim3 as Space<S>>::A,
    rot: <Dim3 as Space<S>>::R,
    c: int,
)
    requires
        exact(v),
        v(two_spec::<S>()) == 2real,
        st.kinematic == 0,
        0 <= c < st.ndofs,
    ensures
        ({
            let w = angular_value::<S, Dim3>(v, parent_w);
            let j = joint_column_spec::<S, Dim3>(st.data.locked_axes, rot, c);
            let turned = r3_cross(w, vector_value::<S, Dim3>(v, j.linear));
            let r = cor_joint(col, st, parent_w, rot, c);
            &&& vector_value::<S, Dim3>(v, r.linear) == r3_add(
                vector_value::<S, Dim3>(v, col.linear),
                r3_add(turned, turned),
            )
            &&& angular_value::<S, Dim3>(v, r.angular) == r3_add(
                angular_value::<S, Dim3>(v, col.angular),
                r3_cross(w, angular_value::<S, Dim3>(v, j.angular)),
            )
        }),
{
    space_is_geometric(v);
    space_is_spatial(v);
    lemma_cor_joint::<S, Dim3>(v, col, st, parent_w, rot, c);
}

} // verus!
