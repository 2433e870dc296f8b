//! What the constraints of joints ask for, when the arithmetic is exact: velocities
//! that take errors away.
//!
//! A constraint with right-hand side `rhs` asks for the velocity `-rhs` along its
//! axis: of side B against side A, or of a degree of freedom.
use super::impulse_joint_helper::{
    AxisId, JointConstraintHelper, WRITEBACK_LIMIT, WRITEBACK_LOCK, WRITEBACK_MOTOR, axis_dist,
    axis_position, axis_target, helper_spec, limit_target, lock_error, lock_target, motor_target,
};
use super::jacobian_laws::vector_value;
use super::joint_constraints::{limit_constraint, motor_constraint};
use super::mass_laws::{inertial, plane_is_inertial, space_is_inertial};
use super::space_laws::{plane_is_spatial, space_is_spatial, spatial};
use super::sweeps::{column, joint_active, joint_impulse, joint_sweep};
use super::types::{MB_JOINT_KIND_LIMIT, MB_JOINT_KIND_LIMIT_INACTIVE, MultibodyJointConstraint};
use crate::exact::{exact, lemma_commute, lemma_factor, lemma_square, lemma_zero, ordered};
use crate::joint::{FORCE_BASED, GenericJoint, JointLimits, JointMotor, motor_params_spec};
use crate::real_vectors::{
    lemma_dot_sum, lemma_minus_right, lemma_move_right, lemma_one, lemma_right, r3_add, r3_dot,
    r3_scale, r3_sub,
};
use crate::scalar::{Scalar, half_spec, inv_spec, max_flt_spec};
use crate::sim_params::ConstraintSoftness;
use crate::space::{Dim2, Dim3, Pose, Space, V3};
use vstd::prelude::*;

verus! {

// ---- errors that shrink ----

/// The velocity `-e r` takes the error `e` to `(1 - t r) e` in the time `t`, and
/// points against it.
proof fn lemma_correction(e: real, r: real, t: real)
    ensures
        e + t * -(e * r) == (1real - t * r) * e,
        0real < r && e != 0real ==> e * -(e * r) < 0real,
{
    assert(t * -(e * r) == -((t * r) * e)) by (nonlinear_arith);
    lemma_minus_right(1real, t * r, e);
    lemma_one(e);
    if 0real < r && e != 0real {
        lemma_square(e);
        let s = e * e;
        assert(e * -(e * r) == -(s * r)) by (nonlinear_arith)
            requires
                s == e * e,
        ;
        assert(0real < s * r) by (nonlinear_arith)
            requires
                0real < s,
                0real < r,
        ;
    }
}

/// In exact arithmetic, a velocity that satisfies a lock takes the error of the axis
/// away at the joints' correction rate: it points against the error, and in the time
/// `t` it leaves `1 - t * rate` of it.
pub proof fn locks_reduce_their_error<S: Scalar>(
    v: spec_fn(S) -> real,
    soft: ConstraintSoftness<S>,
    err: S,
    t: real,
)
    requires
        exact(v),
    ensures
        ({
            let e = v(err);
            let rate = v(soft.joint_erp_inv_dt);
            let u = -v(lock_target(soft, err).rhs);
            &&& e + t * u == (1real - t * rate) * e
            &&& 0real < rate && e != 0real ==> e * u < 0real
        }),
{
    lemma_correction(v(err), v(soft.joint_erp_inv_dt), t);
}

/// Frame B of a joint has moved against frame A by the velocity `u` for the time
/// `t`, and frame A has not turned.
pub open spec fn drifted<S: Scalar, D: Space<S>>(
    v: spec_fn(S) -> real,
    a0: Pose<S, D>,
    b0: Pose<S, D>,
    a1: Pose<S, D>,
    b1: Pose<S, D>,
    u: V3<real>,
    t: real,
) -> bool {
    &&& a1.rotation == a0.rotation
    &&& r3_sub(vector_value::<S, D>(v, b1.translation), vector_value::<S, D>(v, a1.translation))
        == r3_add(
        r3_sub(
            vector_value::<S, D>(v, b0.translation),
            vector_value::<S, D>(v, a0.translation),
        ),
        r3_scale(u, t),
    )
}

proof fn lemma_dot_commutes(a: V3<real>, b: V3<real>)
    ensures
        r3_dot(a, b) == r3_dot(b, a),
{
    lemma_commute(a.x, b.x);
    lemma_commute(a.y, b.y);
    lemma_commute(a.z, b.z);
}

proof fn lemma_lock_drift<S: Scalar, D: Space<S>>(
    v: spec_fn(S) -> real,
    h0: JointConstraintHelper<S, D>,
    h1: JointConstraintHelper<S, D>,
    u: V3<real>,
    t: real,
    axis: u32,
)
    requires
        inertial::<S, D>(v),
        h1.q1 == h0.q1,
        vector_value::<S, D>(v, h1.lin_err) == r3_add(
            vector_value::<S, D>(v, h0.lin_err),
            r3_scale(u, t),
        ),
        axis < D::dimension_spec().lin_spec(),
    ensures
        ({
            let x = vector_value::<S, D>(v, D::raxis_spec(h0.q1, axis as int));
            &&& v(lock_error(h1, axis)) == v(lock_error(h0, axis)) + t * r3_dot(x, u)
            &&& v(axis_dist(h1, axis)) == v(axis_dist(h0, axis)) + t * r3_dot(x, u)
            &&& v(axis_dist(h0, axis)) == v(lock_error(h0, axis))
        }),
{
    let x = vector_value::<S, D>(v, D::raxis_spec(h0.q1, axis as int));
    let e = vector_value::<S, D>(v, h0.lin_err);
    lemma_dot_sum(x, e, u, t);
    lemma_dot_commutes(x, u);
    lemma_dot_commutes(x, e);
    lemma_commute(r3_dot(x, u), t);
}

/// In exact arithmetic, a joint of the plane loses its error along a locked axis: if frame B
/// moves against frame A, along the axis, at the velocity that the lock asks for,
/// the error is `1 - t * rate` of what it was after the time `t`.
pub proof fn plane_locks_pull_together<S: Scalar>(
    v: spec_fn(S) -> real,
    a0: Pose<S, Dim2>,
    b0: Pose<S, Dim2>,
    a1: Pose<S, Dim2>,
    b1: Pose<S, Dim2>,
    com1: <Dim2 as Space<S>>::V,
    com2: <Dim2 as Space<S>>::V,
    joint: GenericJoint<S, Dim2>,
    soft: ConstraintSoftness<S>,
    axis: u32,
    u: V3<real>,
    t: real,
)
    requires
        exact(v),
        axis < <Dim2 as Space<S>>::dimension_spec().lin_spec(),
        drifted(v, a0, b0, a1, b1, u, t),
        ({
            let h = helper_spec(a0, b0, com1, com2, joint.locked_axes);
            let id = AxisId { kind: WRITEBACK_LOCK, axis: axis };
            r3_dot(
                vector_value::<S, Dim2>(
                    v,
                    <Dim2 as Space<S>>::raxis_spec(a0.rotation, axis as int),
                ),
                u,
            ) == -v(axis_target(h, id, joint, soft).rhs)
        }),
    ensures
        ({
            let e0 = lock_error(helper_spec(a0, b0, com1, com2, joint.locked_axes), axis);
            let e1 = lock_error(helper_spec(a1, b1, com1, com2, joint.locked_axes), axis);
            v(e1) == (1real - t * v(soft.joint_erp_inv_dt)) * v(e0)
        }),
{
    plane_is_spatial(v);
    plane_is_inertial(v);
    let h0 = helper_spec(a0, b0, com1, com2, joint.locked_axes);
    let h1 = helper_spec(a1, b1, com1, com2, joint.locked_axes);
    lemma_lock_drift(v, h0, h1, u, t, axis);
    locks_reduce_their_error(v, soft, lock_error(h0, axis), t);
}

/// In exact arithmetic, a joint of space loses its error along a locked axis: if frame B
/// moves against frame A, along the axis, at the velocity that the lock asks for,
/// the error is `1 - t * rate` of what it was after the time `t`.
pub proof fn space_locks_pull_together<S: Scalar>(
    v: spec_fn(S) -> real,
    a0: Pose<S, Dim3>,
    b0: Pose<S, Dim3>,
    a1: Pose<S, Dim3>,
    b1: Pose<S, Dim3>,
    com1: <Dim3 as Space<S>>::V,
    com2: <Dim3 as Space<S>>::V,
    joint: GenericJoint<S, Dim3>,
    soft: ConstraintSoftness<S>,
    axis: u32,
    u: V3<real>,
    t: real,
)
    requires
        exact(v),
        axis < <Dim3 as Space<S>>::dimension_spec().lin_spec(),
        drifted(v, a0, b0, a1, b1, u, t),
        ({
            let h = helper_spec(a0, b0, com1, com2, joint.locked_axes);
            let id = AxisId { kind: WRITEBACK_LOCK, axis: axis };
            r3_dot(
                vector_value::<S, Dim3>(
                    v,
                    <Dim3 as Space<S>>::raxis_spec(a0.rotation, axis as int),
                ),
                u,
            ) == -v(axis_target(h, id, joint, soft).rhs)
        }),
    ensures
        ({
            let e0 = lock_error(helper_spec(a0, b0, com1, com2, joint.locked_axes), axis);
            let e1 = lock_error(helper_spec(a1, b1, com1, com2, joint.locked_axes), axis);
            v(e1) == (1real - t * v(soft.joint_erp_inv_dt)) * v(e0)
        }),
{
    space_is_spatial(v);
    space_is_inertial(v);
    let h0 = helper_spec(a0, b0, com1, com2, joint.locked_axes);
    let h1 = helper_spec(a1, b1, com1, com2, joint.locked_axes);
    lemma_lock_drift(v, h0, h1, u, t, axis);
    locks_reduce_their_error(v, soft, lock_error(h0, axis), t);
}

// ---- limits ----

/// In exact arithmetic, the velocity that a limit asks for brings a joint back into
/// its range at the joints' correction rate, from either side, and inside the range
/// asks for nothing. Above the range the limit may only push down (with a positive
/// impulse), below it only up, strictly inside not at all.
pub proof fn limits_pull_back<S: Scalar>(
    v: spec_fn(S) -> real,
    soft: ConstraintSoftness<S>,
    dist: S,
    lo: S,
    hi: S,
    t: real,
)
    requires
        exact(v),
        ordered(v),
        v(lo) <= v(hi),
        0real <= v(max_flt_spec::<S>()),
    ensures
        ({
            let x = v(dist);
            let rate = v(soft.joint_erp_inv_dt);
            let c = limit_target(soft, dist, lo, hi);
            let u = -v(c.rhs);
            &&& v(hi) <= x ==> x + t * u - v(hi) == (1real - t * rate) * (x - v(hi))
            &&& x <= v(lo) ==> x + t * u - v(lo) == (1real - t * rate) * (x - v(lo))
            &&& v(lo) <= x <= v(hi) ==> u == 0real
            &&& 0real < rate && v(hi) < x ==> u < 0real
            &&& 0real < rate && x < v(lo) ==> 0real < u
            &&& v(hi) < x ==> v(c.impulse_hi) == v(max_flt_spec::<S>()) && (v(lo) < x ==> v(
                c.impulse_lo,
            ) == 0real)
            &&& x < v(lo) ==> v(c.impulse_lo) == -v(max_flt_spec::<S>()) && v(c.impulse_hi)
                == 0real
            &&& v(lo) < x < v(hi) ==> v(c.impulse_lo) == 0real && v(c.impulse_hi) == 0real
        }),
{
    let x = v(dist);
    let rate = v(soft.joint_erp_inv_dt);
    lemma_correction(x - v(hi), rate, t);
    lemma_correction(x - v(lo), rate, t);
    lemma_zero(rate);
    if v(hi) < x && 0real < rate {
        let e = x - v(hi);
        assert(0real < e * rate) by (nonlinear_arith)
            requires
                0real < e,
                0real < rate,
        ;
    }
    if x < v(lo) {
        let e = x - v(lo);
        assert((0real - (v(lo) - x)) * rate == e * rate);
        if 0real < rate {
            assert(e * rate < 0real) by (nonlinear_arith)
                requires
                    e < 0real,
                    0real < rate,
            ;
        }
    }
}

/// In exact arithmetic, the limit of a degree of freedom brings its position back
/// into its range at the joints' correction rate; it is switched on outside the
/// range only, and may push only back.
pub proof fn coordinate_limits_pull_back<S: Scalar>(
    v: spec_fn(S) -> real,
    dof: u32,
    link: u32,
    axis: u32,
    pos: S,
    limits: JointLimits<S>,
    erp_inv_dt: S,
    cfm_coeff: S,
    t: real,
)
    requires
        exact(v),
        ordered(v),
        v(limits.min) <= v(limits.max),
        0real <= v(max_flt_spec::<S>()),
    ensures
        ({
            let x = v(pos);
            let lo = v(limits.min);
            let hi = v(limits.max);
            let rate = v(erp_inv_dt);
            let c = limit_constraint(dof, link, axis, pos, limits, erp_inv_dt, cfm_coeff);
            let u = -v(c.rhs);
            &&& hi <= x ==> x + t * u - hi == (1real - t * rate) * (x - hi)
            &&& x <= lo ==> x + t * u - lo == (1real - t * rate) * (x - lo)
            &&& lo <= x <= hi ==> c.kind == MB_JOINT_KIND_LIMIT_INACTIVE && u == 0real
            &&& x < lo || hi < x ==> c.kind == MB_JOINT_KIND_LIMIT
            &&& 0real < rate && hi < x ==> u < 0real
            &&& 0real < rate && x < lo ==> 0real < u
            &&& hi < x ==> v(c.impulse_hi) == v(max_flt_spec::<S>()) && v(c.impulse_lo) == 0real
            &&& x < lo ==> v(c.impulse_lo) == -v(max_flt_spec::<S>()) && v(c.impulse_hi)
                == 0real
        }),
{
    let x = v(pos);
    let lo = v(limits.min);
    let hi = v(limits.max);
    let rate = v(erp_inv_dt);
    lemma_correction(x - hi, rate, t);
    lemma_correction(x - lo, rate, t);
    lemma_zero(rate);
    if hi < x && 0real < rate {
        let e = x - hi;
        assert(0real < e * rate) by (nonlinear_arith)
            requires
                0real < e,
                0real < rate,
        ;
    }
    if x < lo {
        let e = x - lo;
        assert((0real - (lo - x)) * rate == e * rate);
        if 0real < rate {
            assert(e * rate < 0real) by (nonlinear_arith)
                requires
                    e < 0real,
                    0real < rate,
            ;
        }
    }
}

// ---- motors ----

/// In exact arithmetic, a velocity that satisfies a motor is its target velocity,
/// corrected towards its target position at the motor's own rate.
pub proof fn motors_drive_to_their_target<S: Scalar>(
    v: spec_fn(S) -> real,
    motor: JointMotor<S>,
    dt: S,
    dist: S,
    target: S,
    t: real,
)
    requires
        exact(v),
    ensures
        ({
            let c = motor_target(motor, dt, dist, target);
            let rate = v(motor_params_spec(motor, dt).erp_inv_dt);
            let e = v(dist) - v(target);
            let u = -v(c.rhs);
            &&& e + t * (u - v(motor.target_vel)) == (1real - t * rate) * e
            &&& 0real < rate && e != 0real ==> e * (u - v(motor.target_vel)) < 0real
            &&& c.rhs_wo_bias == c.rhs
        }),
{
    let rate = v(motor_params_spec(motor, dt).erp_inv_dt);
    let e = v(dist) - v(target);
    lemma_correction(e, rate, t);
    lemma_zero(e);
}

/// In exact arithmetic, a velocity that satisfies the motor of a degree of freedom
/// without limits is its target velocity, corrected towards its target position at
/// the motor's own rate.
pub proof fn coordinate_motors_drive_to_their_target<S: Scalar>(
    v: spec_fn(S) -> real,
    dof: u32,
    link: u32,
    axis: u32,
    pos: S,
    dt: S,
    motor: JointMotor<S>,
    t: real,
)
    requires
        exact(v),
        motor.model != FORCE_BASED,
    ensures
        ({
            let c = motor_constraint(dof, link, axis, pos, dt, motor, None);
            let rate = v(motor_params_spec(motor, dt).erp_inv_dt);
            let e = v(pos) - v(motor.target_pos);
            let u = -v(c.rhs);
            &&& e + t * (u - v(motor.target_vel)) == (1real - t * rate) * e
            &&& 0real < rate && e != 0real ==> e * (u - v(motor.target_vel)) < 0real
            &&& c.rhs_wo_bias == c.rhs
        }),
{
    let rate = v(motor_params_spec(motor, dt).erp_inv_dt);
    let e = v(pos) - v(motor.target_pos);
    lemma_correction(e, rate, t);
    lemma_zero(e);
}

/// In exact arithmetic, a motor without stiffness on a limited degree of freedom
/// asks for no velocity that would leave the range within the step: it asks for its
/// target velocity where that stays inside, and otherwise goes to the bound.
pub proof fn coordinate_motors_respect_limits<S: Scalar>(
    v: spec_fn(S) -> real,
    dof: u32,
    link: u32,
    axis: u32,
    pos: S,
    dt: S,
    motor: JointMotor<S>,
    limits: JointLimits<S>,
)
    requires
        exact(v),
        ordered(v),
        motor.model != FORCE_BASED,
        0real < v(dt),
        v(limits.min) <= v(limits.max),
        v(motor_params_spec(motor, dt).erp_inv_dt) == 0real,
    ensures
        ({
            let c = motor_constraint(dof, link, axis, pos, dt, motor, Some(limits));
            let u = -v(c.rhs);
            let wish = v(pos) + v(motor.target_vel) * v(dt);
            &&& v(limits.min) <= v(pos) + u * v(dt) <= v(limits.max)
            &&& v(limits.min) <= wish <= v(limits.max) ==> u == v(motor.target_vel)
            &&& v(limits.max) < wish ==> v(pos) + u * v(dt) == v(limits.max)
            &&& wish < v(limits.min) ==> v(pos) + u * v(dt) == v(limits.min)
        }),
{
    let h = v(dt);
    let lo = v(limits.min) - v(pos);
    let hi = v(limits.max) - v(pos);
    let w = v(motor.target_vel);
    let i = v(inv_spec(dt));
    assert(i == 1real / h);
    assert(i * h == 1real) by (nonlinear_arith)
        requires
            i == 1real / h,
            0real < h,
    ;
    assert((lo * i) * h == lo && (hi * i) * h == hi) by {
        lemma_move_right(lo, i, h);
        assert((lo * i) * h == lo * (i * h)) by (nonlinear_arith);
        assert((hi * i) * h == hi * (i * h)) by (nonlinear_arith);
        lemma_one(lo);
        lemma_one(hi);
    }
    lemma_in_order(lo * i, hi * i, h);
    lemma_in_order(w, lo * i, h);
    lemma_in_order(hi * i, w, h);
}

proof fn lemma_in_order(a: real, b: real, h: real)
    requires
        0real < h,
    ensures
        a < b <==> a * h < b * h,
{
    if a < b {
        assert(a * h < b * h) by (nonlinear_arith)
            requires
                a < b,
                0real < h,
        ;
    } else {
        assert(b * h <= a * h) by (nonlinear_arith)
            requires
                b <= a,
                0real < h,
        ;
    }
}

/// In exact arithmetic, the motor of stiffness `k` and damping `c` is an implicit
/// spring: the force that it gives at the end of the step balances `k` times the
/// error plus `c` times the velocity error there. For the position error `e` before the
/// step and the velocity error `u` after it, an impulse `p` that meets the constraint,
/// `gain * p == u + rate * e`, is `(k * (e + dt * u) + c * u) * dt`.
pub proof fn motors_are_implicit_springs<S: Scalar>(
    v: spec_fn(S) -> real,
    motor: JointMotor<S>,
    dt: S,
    e: real,
    u: real,
    p: real,
)
    requires
        exact(v),
        motor.model == FORCE_BASED,
        0real < v(dt),
        0real <= v(motor.stiffness),
        0real <= v(motor.damping),
        0real < v(motor.stiffness) || 0real < v(motor.damping),
        v(motor_params_spec(motor, dt).cfm_gain) * p == u + v(
            motor_params_spec(motor, dt).erp_inv_dt,
        ) * e,
    ensures
        p == (v(motor.stiffness) * (e + v(dt) * u) + v(motor.damping) * u) * v(dt),
{
    let h = v(dt);
    let k = v(motor.stiffness);
    let c = v(motor.damping);
    let b = h * k + c;
    let a = (h * h) * k + h * c;
    assert(0real < b) by (nonlinear_arith)
        requires
            0real < h,
            0real <= k,
            0real <= c,
            0real < k || 0real < c,
            b == h * k + c,
    ;
    assert(a == h * b) by {
        lemma_factor(h, h * k, c);
        assert((h * h) * k == h * (h * k)) by (nonlinear_arith);
    }
    assert(0real < a) by (nonlinear_arith)
        requires
            a == h * b,
            0real < h,
            0real < b,
    ;
    let g = v(motor_params_spec(motor, dt).cfm_gain);
    let r = v(motor_params_spec(motor, dt).erp_inv_dt);
    assert(g == 1real / a);
    assert(g * a == 1real) by (nonlinear_arith)
        requires
            g == 1real / a,
            0real < a,
    ;
    let ib = 1real / b;
    assert(ib * b == 1real) by (nonlinear_arith)
        requires
            ib == 1real / b,
            0real < b,
    ;
    assert(r == k * ib);
    assert(r * b == k) by {
        assert((k * ib) * b == k * (ib * b)) by (nonlinear_arith);
        lemma_one(k);
    }
    // Multiply the balance by `a`.
    let s = u + r * e;
    assert(p == s * a) by {
        assert((g * p) * a == (g * a) * p) by (nonlinear_arith);
        lemma_one(p);
    }
    assert(s * a == (s * b) * h) by (nonlinear_arith)
        requires
            a == h * b,
    ;
    lemma_right(u, r * e, b);
    assert((r * e) * b == (r * b) * e) by (nonlinear_arith);
    lemma_factor(u, h * k, c);
    lemma_factor(k, e, h * u);
    assert(u * (h * k) == k * (h * u)) by (nonlinear_arith);
    lemma_commute(u, c);
}

// ---- steps ----

/// In exact arithmetic, a step on the joint constraint in slot `k` takes away its
/// velocity error: where its impulse is not clamped, the velocity of its degree of
/// freedom afterwards plus its right-hand side is what its softness leaves, the
/// impulse times the compliance. A rigid constraint ends at the velocity `-rhs`.
pub proof fn joint_steps_meet_their_target<S: Scalar>(
    v: spec_fn(S) -> real,
    cons: Seq<MultibodyJointConstraint<S>>,
    cols: Seq<Seq<S>>,
    dofv: Seq<S>,
    use_bias: bool,
    k: int,
)
    requires
        exact(v),
        0 < k <= cons.len(),
        ({
            let st = joint_sweep(cons, cols, dofv, use_bias, k - 1);
            let c = st.cons[k - 1];
            let x = st.dofv[c.dof_id as int];
            let rhs = if use_bias {
                c.rhs
            } else {
                c.rhs_wo_bias
            };
            &&& st.cons.len() == cons.len()
            &&& joint_active(c)
            &&& c.dof_id < st.dofv.len()
            &&& cols.len() == st.dofv.len()
            &&& v(joint_impulse(c, x, use_bias)) == v(c.impulse) + v(c.inv_lhs) * (v(x) + v(rhs)
                - v(c.cfm_gain) * v(c.impulse))
            &&& v(c.inv_lhs) * (v(cols[c.dof_id as int][k - 1]) + v(c.cfm_gain)) == 1real
        }),
    ensures
        ({
            let c = joint_sweep(cons, cols, dofv, use_bias, k - 1).cons[k - 1];
            let st = joint_sweep(cons, cols, dofv, use_bias, k);
            let rhs = if use_bias {
                c.rhs
            } else {
                c.rhs_wo_bias
            };
            v(st.dofv[c.dof_id as int]) + v(rhs) == v(c.cfm_gain) * v(st.cons[k - 1].impulse)
        }),
{
    let st = joint_sweep(cons, cols, dofv, use_bias, k - 1);
    let c = st.cons[k - 1];
    let d = c.dof_id as int;
    let x = v(st.dofv[d]);
    let rhs = v(
        if use_bias {
            c.rhs
        } else {
            c.rhs_wo_bias
        },
    );
    let i = v(c.inv_lhs);
    let g = v(c.cfm_gain);
    let p = v(c.impulse);
    let a = v(cols[d][k - 1]);
    let e = x + rhs - g * p;
    assert(column(cols, k - 1)[d] == cols[d][k - 1]);
    assert((i * e) * a + g * (i * e) == e) by {
        assert((i * e) * a == (i * a) * e) by (nonlinear_arith);
        assert(g * (i * e) == (i * g) * e) by (nonlinear_arith);
        lemma_right(i * a, i * g, e);
        lemma_factor(i, a, g);
        lemma_one(e);
    }
    lemma_factor(g, p, i * e);
}

// ---- joints between frames ----

/// Where frame B of a joint stands along an axis of frame A: along a linear axis, the
/// way from the origin of A to that of B; along an angular one, the turning of B
/// against A.
pub open spec fn joint_position<S: Scalar, D: Space<S>>(
    v: spec_fn(S) -> real,
    a: Pose<S, D>,
    b: Pose<S, D>,
    axis: u32,
) -> real {
    let lin = D::dimension_spec().lin_spec();
    if axis < lin {
        r3_dot(
            r3_sub(
                vector_value::<S, D>(v, b.translation),
                vector_value::<S, D>(v, a.translation),
            ),
            vector_value::<S, D>(v, D::raxis_spec(a.rotation, axis as int)),
        )
    } else {
        v(D::ang_err_spec(a.rotation, b.rotation, axis - lin))
    }
}

/// The position that a coordinate `x` of a joint stands for: along an angular axis, the
/// sine `sn` of half the angle.
pub open spec fn marked<S: Scalar, D: Space<S>>(
    v: spec_fn(S) -> real,
    sn: spec_fn(real) -> real,
    x: S,
    axis: u32,
) -> real {
    if axis < D::dimension_spec().lin_spec() {
        v(x)
    } else {
        sn(v(x) * v(half_spec::<S>()))
    }
}

proof fn lemma_joint_position<S: Scalar, D: Space<S>>(
    v: spec_fn(S) -> real,
    a: Pose<S, D>,
    b: Pose<S, D>,
    com1: D::V,
    com2: D::V,
    locked: u32,
    axis: u32,
)
    requires
        exact(v),
        spatial::<S, D>(v),
        inertial::<S, D>(v),
    ensures
        v(axis_dist(helper_spec(a, b, com1, com2, locked), axis)) == joint_position(
            v,
            a,
            b,
            axis,
        ),
{
}

/// In exact arithmetic, the limits of a joint between two frames of the plane pull it back:
/// beyond a limit the constraint asks for a velocity that takes the excess away at the
/// rate of the correction, and pushes that way alone; within the limits it asks for
/// nothing and does not push.
pub proof fn plane_joint_limits_pull_back<S: Scalar>(
    v: spec_fn(S) -> real,
    sn: spec_fn(real) -> real,
    a: Pose<S, Dim2>,
    b: Pose<S, Dim2>,
    com1: <Dim2 as Space<S>>::V,
    com2: <Dim2 as Space<S>>::V,
    joint: GenericJoint<S, Dim2>,
    soft: ConstraintSoftness<S>,
    axis: u32,
    t: real,
)
    requires
        exact(v),
        ordered(v),
        forall|x: S| v(#[trigger] x.sin_spec()) == sn(v(x)),
        0real <= v(max_flt_spec::<S>()),
        marked::<S, Dim2>(v, sn, joint.limits[axis as int].min, axis) <= marked::<S, Dim2>(
            v,
            sn,
            joint.limits[axis as int].max,
            axis,
        ),
    ensures
        ({
            let x = joint_position(v, a, b, axis);
            let lo = marked::<S, Dim2>(v, sn, joint.limits[axis as int].min, axis);
            let hi = marked::<S, Dim2>(v, sn, joint.limits[axis as int].max, axis);
            let rate = v(soft.joint_erp_inv_dt);
            let id = AxisId { kind: WRITEBACK_LIMIT, axis: axis };
            let c = axis_target(
                helper_spec(a, b, com1, com2, joint.locked_axes),
                id,
                joint,
                soft,
            );
            let u = -v(c.rhs);
            &&& hi <= x ==> x + t * u - hi == (1real - t * rate) * (x - hi)
            &&& x <= lo ==> x + t * u - lo == (1real - t * rate) * (x - lo)
            &&& lo <= x <= hi ==> u == 0real
            &&& hi < x && lo < x ==> v(c.impulse_lo) == 0real && v(c.impulse_hi) == v(
                max_flt_spec::<S>(),
            )
            &&& x < lo ==> v(c.impulse_hi) == 0real && v(c.impulse_lo) == -v(max_flt_spec::<S>())
            &&& lo < x < hi ==> v(c.impulse_lo) == 0real && v(c.impulse_hi) == 0real
        }),
{
    assert(v(axis_dist(helper_spec(a, b, com1, com2, joint.locked_axes), axis)) == joint_position(
        v,
        a,
        b,
        axis,
    )) by {
        plane_is_spatial(v);
        plane_is_inertial(v);
        lemma_joint_position(v, a, b, com1, com2, joint.locked_axes, axis);
    }
    let h = helper_spec(a, b, com1, com2, joint.locked_axes);
    let lo = axis_position::<S, Dim2>(joint.limits[axis as int].min, axis);
    let hi = axis_position::<S, Dim2>(joint.limits[axis as int].max, axis);
    limits_pull_back(v, soft, axis_dist(h, axis), lo, hi, t);
}

/// In exact arithmetic, the motor of a joint between two frames of the plane drives to its
/// target: it asks for the target velocity and one that takes the distance to the
/// target position away at the rate of its spring, and stays within its strength.
pub proof fn plane_joint_motors_drive_to_their_target<S: Scalar>(
    v: spec_fn(S) -> real,
    sn: spec_fn(real) -> real,
    a: Pose<S, Dim2>,
    b: Pose<S, Dim2>,
    com1: <Dim2 as Space<S>>::V,
    com2: <Dim2 as Space<S>>::V,
    joint: GenericJoint<S, Dim2>,
    soft: ConstraintSoftness<S>,
    axis: u32,
    t: real,
)
    requires
        exact(v),
        ordered(v),
        forall|x: S| v(#[trigger] x.sin_spec()) == sn(v(x)),
    ensures
        ({
            let motor = joint.motors[axis as int];
            let id = AxisId { kind: WRITEBACK_MOTOR, axis: axis };
            let c = axis_target(
                helper_spec(a, b, com1, com2, joint.locked_axes),
                id,
                joint,
                soft,
            );
            let mp = motor_params_spec(motor, soft.dt);
            let e = joint_position(v, a, b, axis) - marked::<S, Dim2>(
                v,
                sn,
                motor.target_pos,
                axis,
            );
            let u = -v(c.rhs) - v(motor.target_vel);
            &&& e + t * u == (1real - t * v(mp.erp_inv_dt)) * e
            &&& 0real < v(mp.erp_inv_dt) && e != 0real ==> e * u < 0real
            &&& v(c.impulse_hi) == v(mp.max_impulse)
            &&& v(c.impulse_lo) == -v(mp.max_impulse)
        }),
{
    assert(v(axis_dist(helper_spec(a, b, com1, com2, joint.locked_axes), axis)) == joint_position(
        v,
        a,
        b,
        axis,
    )) by {
        plane_is_spatial(v);
        plane_is_inertial(v);
        lemma_joint_position(v, a, b, com1, com2, joint.locked_axes, axis);
    }
    let h = helper_spec(a, b, com1, com2, joint.locked_axes);
    let motor = joint.motors[axis as int];
    let target = axis_position::<S, Dim2>(motor.target_pos, axis);
    motors_drive_to_their_target(v, motor, soft.dt, axis_dist(h, axis), target, t);
}

/// In exact arithmetic, the limits of a joint between two frames of space pull it back:
/// beyond a limit the constraint asks for a velocity that takes the excess away at the
/// rate of the correction, and pushes that way alone; within the limits it asks for
/// nothing and does not push.
pub proof fn space_joint_limits_pull_back<S: Scalar>(
    v: spec_fn(S) -> real,
    sn: spec_fn(real) -> real,
    a: Pose<S, Dim3>,
    b: Pose<S, Dim3>,
    com1: <Dim3 as Space<S>>::V,
    com2: <Dim3 as Space<S>>::V,
    joint: GenericJoint<S, Dim3>,
    soft: ConstraintSoftness<S>,
    axis: u32,
    t: real,
)
    requires
        exact(v),
        ordered(v),
        forall|x: S| v(#[trigger] x.sin_spec()) == sn(v(x)),
        0real <= v(max_flt_spec::<S>()),
        marked::<S, Dim3>(v, sn, joint.limits[axis as int].min, axis) <= marked::<S, Dim3>(
            v,
            sn,
            joint.limits[axis as int].max,
            axis,
        ),
    ensures
        ({
            let x = joint_position(v, a, b, axis);
            let lo = marked::<S, Dim3>(v, sn, joint.limits[axis as int].min, axis);
            let hi = marked::<S, Dim3>(v, sn, joint.limits[axis as int].max, axis);
            let rate = v(soft.joint_erp_inv_dt);
            let id = AxisId { kind: WRITEBACK_LIMIT, axis: axis };
            let c = axis_target(
                helper_spec(a, b, com1, com2, joint.locked_axes),
                id,
                joint,
                soft,
            );
            let u = -v(c.rhs);
            &&& hi <= x ==> x + t * u - hi == (1real - t * rate) * (x - hi)
            &&& x <= lo ==> x + t * u - lo == (1real - t * rate) * (x - lo)
            &&& lo <= x <= hi ==> u == 0real
            &&& hi < x && lo < x ==> v(c.impulse_lo) == 0real && v(c.impulse_hi) == v(
                max_flt_spec::<S>(),
            )
            &&& x < lo ==> v(c.impulse_hi) == 0real && v(c.impulse_lo) == -v(max_flt_spec::<S>())
            &&& lo < x < hi ==> v(c.impulse_lo) == 0real && v(c.impulse_hi) == 0real
        }),
{
    assert(v(axis_dist(helper_spec(a, b, com1, com2, joint.locked_axes), axis)) == joint_position(
        v,
        a,
        b,
        axis,
    )) by {
        space_is_spatial(v);
        space_is_inertial(v);
        lemma_joint_position(v, a, b, com1, com2, joint.locked_axes, axis);
    }
    let h = helper_spec(a, b, com1, com2, joint.locked_axes);
    let lo = axis_position::<S, Dim3>(joint.limits[axis as int].min, axis);
    let hi = axis_position::<S, Dim3>(joint.limits[axis as int].max, axis);
    limits_pull_back(v, soft, axis_dist(h, axis), lo, hi, t);
}

/// In exact arithmetic, the motor of a joint between two frames of space drives to its
/// target: it asks for the target velocity and one that takes the distance to the
/// target position away at the rate of its spring, and stays within its strength.
pub proof fn space_joint_motors_drive_to_their_target<S: Scalar>(
    v: spec_fn(S) -> real,
    sn: spec_fn(real) -> real,
    a: Pose<S, Dim3>,
    b: Pose<S, Dim3>,
    com1: <Dim3 as Space<S>>::V,
    com2: <Dim3 as Space<S>>::V,
    joint: GenericJoint<S, Dim3>,
    soft: ConstraintSoftness<S>,
    axis: u32,
    t: real,
)
    requires
        exact(v),
        ordered(v),
        forall|x: S| v(#[trigger] x.sin_spec()) == sn(v(x)),
    ensures
        ({
            let motor = joint.motors[axis as int];
            let id = AxisId { kind: WRITEBACK_MOTOR, axis: axis };
            let c = axis_target(
                helper_spec(a, b, com1, com2, joint.locked_axes),
                id,
                joint,
                soft,
            );
            let mp = motor_params_spec(motor, soft.dt);
            let e = joint_position(v, a, b, axis) - marked::<S, Dim3>(
                v,
                sn,
                motor.target_pos,
                axis,
            );
            let u = -v(c.rhs) - v(motor.target_vel);
            &&& e + t * u == (1real - t * v(mp.erp_inv_dt)) * e
            &&& 0real < v(mp.erp_inv_dt) && e != 0real ==> e * u < 0real
            &&& v(c.impulse_hi) == v(mp.max_impulse)
            &&& v(c.impulse_lo) == -v(mp.max_impulse)
        }),
{
    assert(v(axis_dist(helper_spec(a, b, com1, com2, joint.locked_axes), axis)) == joint_position(
        v,
        a,
        b,
        axis,
    )) by {
        space_is_spatial(v);
        space_is_inertial(v);
        lemma_joint_position(v, a, b, com1, com2, joint.locked_axes, axis);
    }
    let h = helper_spec(a, b, com1, com2, joint.locked_axes);
    let motor = joint.motors[axis as int];
    let target = axis_position::<S, Dim3>(motor.target_pos, axis);
    motors_drive_to_their_target(v, motor, soft.dt, axis_dist(h, axis), target, t);
}

} // verus!
