//! Axis constraints of the impulse joints: locks, limits and motors.
use crate::joint::{GenericJoint, JointMotor, has_axis, motor_params, motor_params_spec, test_axis};
use crate::scalar::{Scalar, half, half_spec, max_flt, max_flt_spec};
use crate::sim_params::ConstraintSoftness;
use crate::space::{Pose, Space, Velocity};
use vstd::prelude::*;

verus! {

/// `writeback_kind` of a lock.
pub const WRITEBACK_LOCK: u32 = 0;

/// `writeback_kind` of a limit.
pub const WRITEBACK_LIMIT: u32 = 1;

/// `writeback_kind` of a motor.
pub const WRITEBACK_MOTOR: u32 = 2;

/// The two frames of a joint in world space.
#[derive(Clone, Copy)]
pub struct JointConstraintHelper<S: Scalar, D: Space<S>> {
    /// Rotation of the frame of side A.
    pub q1: D::R,
    /// Rotation of the frame of side B.
    pub q2: D::R,
    /// From the centre of mass of side A to the point where forces act.
    pub r1: D::V,
    /// From the centre of mass of side B to the point where forces act.
    pub r2: D::V,
    /// From the origin of frame A to the origin of frame B.
    pub lin_err: D::V,
}

/// The origin of frame B, moved back along the locked axes among the first `n`
/// axes of frame A.
pub open spec fn snapped_center<S: Scalar, D: Space<S>>(
    q1: D::R,
    center: D::V,
    lin_err: D::V,
    locked: u32,
    n: int,
) -> D::V
    decreases n,
{
    if n <= 0 {
        center
    } else {
        let p = snapped_center::<S, D>(q1, center, lin_err, locked, n - 1);
        let axis = D::raxis_spec(q1, n - 1);
        if has_axis(locked, n - 1) {
            D::vsub_spec(p, D::vscale_spec(axis, D::vdot_spec(lin_err, axis)))
        } else {
            p
        }
    }
}

/// The helper of a joint with these frames.
pub open spec fn helper_spec<S: Scalar, D: Space<S>>(
    frame1: Pose<S, D>,
    frame2: Pose<S, D>,
    com1: D::V,
    com2: D::V,
    locked: u32,
) -> JointConstraintHelper<S, D> {
    let lin_err = D::vsub_spec(frame2.translation, frame1.translation);
    JointConstraintHelper {
        q1: frame1.rotation,
        q2: frame2.rotation,
        r1: D::vsub_spec(
            snapped_center::<S, D>(
                frame1.rotation,
                frame2.translation,
                lin_err,
                locked,
                D::dimension_spec().lin_spec(),
            ),
            com1,
        ),
        r2: D::vsub_spec(frame2.translation, com2),
        lin_err: lin_err,
    }
}

/// The helper of a joint: forces act at the origin of frame B on both sides,
/// up to the error along the locked axes.
pub fn new_helper<S: Scalar, D: Space<S>>(
    frame1: Pose<S, D>,
    frame2: Pose<S, D>,
    com1: D::V,
    com2: D::V,
    locked: u32,
) -> (r: JointConstraintHelper<S, D>)
    ensures
        r == helper_spec(frame1, frame2, com1, com2, locked),
{
    let lin_err = D::vsub(frame2.translation, frame1.translation);
    let lin: u32 = D::dimension().lin();
    let mut center = frame2.translation;
    let mut i: u32 = 0;
    while i < lin
        invariant
            lin == D::dimension_spec().lin_spec(),
            i <= lin,
            lin <= 3,
            center == snapped_center::<S, D>(
                frame1.rotation,
                frame2.translation,
                lin_err,
                locked,
                i as int,
            ),
        decreases lin - i,
    {
        if test_axis(locked, i) {
            let axis = D::raxis(frame1.rotation, i as usize);
            center = D::vsub(center, D::vscale(axis, D::vdot(lin_err, axis)));
        }
        i = i + 1;
    }
    JointConstraintHelper {
        q1: frame1.rotation,
        q2: frame2.rotation,
        r1: D::vsub(center, com1),
        r2: D::vsub(frame2.translation, com2),
        lin_err: lin_err,
    }
}

/// One constraint of a joint: what it is and which axis it is about.
#[derive(Clone, Copy, Debug, PartialEq, Eq, Structural)]
pub struct AxisId {
    /// `WRITEBACK_*`.
    pub kind: u32,
    /// Linear axes first.
    pub axis: u32,
}

/// The unit force and torque of a constraint on side A and on side B.
pub open spec fn axis_forces<S: Scalar, D: Space<S>>(
    h: JointConstraintHelper<S, D>,
    id: AxisId,
) -> (Velocity<S, D>, Velocity<S, D>) {
    let lin = D::dimension_spec().lin_spec();
    if id.axis < lin {
        let dir = D::raxis_spec(h.q1, id.axis as int);
        (
            Velocity { linear: dir, angular: D::lever_spec(h.r1, dir) },
            Velocity { linear: dir, angular: D::lever_spec(h.r2, dir) },
        )
    } else {
        let i = id.axis - lin;
        let ang = if id.kind == WRITEBACK_MOTOR {
            D::rcol_spec(h.q1, i)
        } else {
            D::ang_basis_spec(h.q1, h.q2, i)
        };
        let f: Velocity<S, D> = Velocity { linear: D::vzero_spec(), angular: ang };
        (f, f)
    }
}

pub fn compute_axis_forces<S: Scalar, D: Space<S>>(
    h: &JointConstraintHelper<S, D>,
    id: AxisId,
) -> (r: (Velocity<S, D>, Velocity<S, D>))
    requires
        id.axis < D::dimension_spec().spatial_spec(),
    ensures
        r == axis_forces(*h, id),
{
    let lin: u32 = D::dimension().lin();
    if id.axis < lin {
        let dir = D::raxis(h.q1, id.axis as usize);
        (
            Velocity { linear: dir, angular: D::lever(h.r1, dir) },
            Velocity { linear: dir, angular: D::lever(h.r2, dir) },
        )
    } else {
        let i: usize = (id.axis - lin) as usize;
        let ang = if id.kind == WRITEBACK_MOTOR {
            D::rcol(h.q1, i)
        } else {
            D::ang_basis(h.q1, h.q2, i)
        };
        let f: Velocity<S, D> = Velocity { linear: D::vzero(), angular: ang };
        (f, f)
    }
}

/// The numbers of a constraint that do not depend on the masses.
#[derive(Clone, Copy)]
pub struct AxisTarget<S: Scalar> {
    pub impulse_lo: S,
    pub impulse_hi: S,
    pub rhs: S,
    pub rhs_wo_bias: S,
    pub cfm_coeff: S,
    pub cfm_gain: S,
}

/// A lock that corrects the error `err`.
pub open spec fn lock_target<S: Scalar>(soft: ConstraintSoftness<S>, err: S) -> AxisTarget<S> {
    AxisTarget {
        impulse_lo: max_flt_spec::<S>().neg_spec(),
        impulse_hi: max_flt_spec::<S>(),
        rhs: err.times_spec(soft.joint_erp_inv_dt),
        rhs_wo_bias: S::zero_spec(),
        cfm_coeff: soft.joint_cfm_coeff,
        cfm_gain: S::zero_spec(),
    }
}

/// A limit that keeps `dist` within `[lo, hi]`: it pushes only at a bound.
pub open spec fn limit_target<S: Scalar>(
    soft: ConstraintSoftness<S>,
    dist: S,
    lo: S,
    hi: S,
) -> AxisTarget<S> {
    let zero = S::zero_spec();
    AxisTarget {
        impulse_lo: if dist.le_spec(lo) {
            max_flt_spec::<S>().neg_spec()
        } else {
            zero
        },
        impulse_hi: if hi.le_spec(dist) {
            max_flt_spec::<S>()
        } else {
            zero
        },
        rhs: dist.minus_spec(hi).maximum_spec(zero).minus_spec(
            lo.minus_spec(dist).maximum_spec(zero),
        ).times_spec(soft.joint_erp_inv_dt),
        rhs_wo_bias: zero,
        cfm_coeff: soft.joint_cfm_coeff,
        cfm_gain: zero,
    }
}

/// A motor at `dist` that drives towards `target`.
pub open spec fn motor_target<S: Scalar>(
    motor: JointMotor<S>,
    dt: S,
    dist: S,
    target: S,
) -> AxisTarget<S> {
    let mp = motor_params_spec(motor, dt);
    let pull = if mp.erp_inv_dt.same_spec(S::zero_spec()) {
        S::zero_spec()
    } else {
        S::zero_spec().plus_spec(dist.minus_spec(target).times_spec(mp.erp_inv_dt))
    };
    let rhs = pull.plus_spec(motor.target_vel.neg_spec());
    AxisTarget {
        impulse_lo: mp.max_impulse.neg_spec(),
        impulse_hi: mp.max_impulse,
        rhs: rhs,
        rhs_wo_bias: rhs,
        cfm_coeff: mp.cfm_coeff,
        cfm_gain: mp.cfm_gain,
    }
}

/// The error of a joint along an axis: a distance, or the sine of half an angle.
pub open spec fn axis_dist<S: Scalar, D: Space<S>>(
    h: JointConstraintHelper<S, D>,
    axis: u32,
) -> S {
    let lin = D::dimension_spec().lin_spec();
    if axis < lin {
        D::vdot_spec(h.lin_err, D::raxis_spec(h.q1, axis as int))
    } else {
        D::ang_err_spec(h.q1, h.q2, axis - lin)
    }
}

/// The error that a lock of an axis corrects.
pub open spec fn lock_error<S: Scalar, D: Space<S>>(
    h: JointConstraintHelper<S, D>,
    axis: u32,
) -> S {
    if axis < D::dimension_spec().lin_spec() {
        D::vdot_spec(D::raxis_spec(h.q1, axis as int), h.lin_err)
    } else {
        axis_dist(h, axis)
    }
}

/// A position of a joint coordinate, in the terms of [`axis_dist`].
pub open spec fn axis_position<S: Scalar, D: Space<S>>(x: S, axis: u32) -> S {
    if axis < D::dimension_spec().lin_spec() {
        x
    } else {
        x.times_spec(half_spec()).sin_spec()
    }
}

/// The numbers of a constraint of a joint.
pub open spec fn axis_target<S: Scalar, D: Space<S>>(
    h: JointConstraintHelper<S, D>,
    id: AxisId,
    joint: GenericJoint<S, D>,
    soft: ConstraintSoftness<S>,
) -> AxisTarget<S> {
    let dist = axis_dist(h, id.axis);
    let a = id.axis as int;
    if id.kind == WRITEBACK_MOTOR {
        motor_target(
            joint.motors[a],
            soft.dt,
            dist,
            axis_position::<S, D>(joint.motors[a].target_pos, id.axis),
        )
    } else if id.kind == WRITEBACK_LIMIT {
        limit_target(
            soft,
            dist,
            axis_position::<S, D>(joint.limits[a].min, id.axis),
            axis_position::<S, D>(joint.limits[a].max, id.axis),
        )
    } else {
        lock_target(soft, lock_error(h, id.axis))
    }
}

fn distance<S: Scalar, D: Space<S>>(h: &JointConstraintHelper<S, D>, axis: u32) -> (r: S)
    ensures
        r == axis_dist(*h, axis),
{
    let lin: u32 = D::dimension().lin();
    if axis < lin {
        D::vdot(h.lin_err, D::raxis(h.q1, axis as usize))
    } else {
        D::ang_err(h.q1, h.q2, (axis - lin) as usize)
    }
}

fn position<S: Scalar, D: Space<S>>(x: S, axis: u32) -> (r: S)
    ensures
        r == axis_position::<S, D>(x, axis),
{
    if axis < D::dimension().lin() {
        x
    } else {
        x.times(half()).sin()
    }
}

/// Locks axis `axis` of a joint.
pub fn lock_axis<S: Scalar, D: Space<S>>(
    h: &JointConstraintHelper<S, D>,
    axis: u32,
    soft: ConstraintSoftness<S>,
) -> (r: AxisTarget<S>)
    ensures
        r == lock_target(soft, lock_error(*h, axis)),
{
    let err = if axis < D::dimension().lin() {
        D::vdot(D::raxis(h.q1, axis as usize), h.lin_err)
    } else {
        distance(h, axis)
    };
    AxisTarget {
        impulse_lo: max_flt::<S>().negate(),
        impulse_hi: max_flt(),
        rhs: err.times(soft.joint_erp_inv_dt),
        rhs_wo_bias: S::zero(),
        cfm_coeff: soft.joint_cfm_coeff,
        cfm_gain: S::zero(),
    }
}

/// Limits axis `axis` of a joint.
pub fn limit_axis<S: Scalar, D: Space<S>>(
    h: &JointConstraintHelper<S, D>,
    axis: u32,
    joint: &GenericJoint<S, D>,
    soft: ConstraintSoftness<S>,
) -> (r: AxisTarget<S>)
    requires
        axis < 6,
    ensures
        r == axis_target(*h, (AxisId { kind: WRITEBACK_LIMIT, axis }), *joint, soft),
{
    let limits = joint.limits[axis as usize];
    let lo = position::<S, D>(limits.min, axis);
    let hi = position::<S, D>(limits.max, axis);
    let dist = distance(h, axis);
    let zero = S::zero();
    AxisTarget {
        impulse_lo: if dist.le(lo) {
            max_flt::<S>().negate()
        } else {
            zero
        },
        impulse_hi: if hi.le(dist) {
            max_flt()
        } else {
            zero
        },
        rhs: dist.minus(hi).maximum(zero).minus(lo.minus(dist).maximum(zero)).times(
            soft.joint_erp_inv_dt,
        ),
        rhs_wo_bias: zero,
        cfm_coeff: soft.joint_cfm_coeff,
        cfm_gain: zero,
    }
}

/// Drives axis `axis` of a joint.
pub fn motor_axis<S: Scalar, D: Space<S>>(
    h: &JointConstraintHelper<S, D>,
    axis: u32,
    joint: &GenericJoint<S, D>,
    soft: ConstraintSoftness<S>,
) -> (r: AxisTarget<S>)
    requires
        axis < 6,
    ensures
        r == axis_target(*h, (AxisId { kind: WRITEBACK_MOTOR, axis }), *joint, soft),
{
    let motor = joint.motors[axis as usize];
    let mp = motor_params(&motor, soft.dt);
    let pull = if mp.erp_inv_dt.same(S::zero()) {
        S::zero()
    } else {
        let target = position::<S, D>(motor.target_pos, axis);
        S::zero().plus(distance(h, axis).minus(target).times(mp.erp_inv_dt))
    };
    let rhs = pull.plus(motor.target_vel.negate());
    AxisTarget {
        impulse_lo: mp.max_impulse.negate(),
        impulse_hi: mp.max_impulse,
        rhs: rhs,
        rhs_wo_bias: rhs,
        cfm_coeff: mp.cfm_coeff,
        cfm_gain: mp.cfm_gain,
    }
}

pub fn compute_axis_target<S: Scalar, D: Space<S>>(
    h: &JointConstraintHelper<S, D>,
    id: AxisId,
    joint: &GenericJoint<S, D>,
    soft: ConstraintSoftness<S>,
) -> (r: AxisTarget<S>)
    requires
        id.axis < 6,
        id.kind <= WRITEBACK_MOTOR,
    ensures
        r == axis_target(*h, id, *joint, soft),
{
    if id.kind == WRITEBACK_MOTOR {
        motor_axis(h, id.axis, joint, soft)
    } else if id.kind == WRITEBACK_LIMIT {
        limit_axis(h, id.axis, joint, soft)
    } else {
        lock_axis(h, id.axis, soft)
    }
}

// ---- which constraints a joint has ----

/// Whether a joint has a constraint of this kind about an axis.
pub open spec fn constrains<S: Scalar, D: Space<S>>(
    joint: GenericJoint<S, D>,
    kind: u32,
    axis: int,
) -> bool {
    let locked = has_axis(joint.locked_axes, axis);
    if kind == WRITEBACK_MOTOR {
        has_axis(joint.motor_axes, axis) && !locked
    } else if kind == WRITEBACK_LIMIT {
        has_axis(joint.limit_axes, axis) && !locked
    } else {
        locked
    }
}

fn is_constrained<S: Scalar, D: Space<S>>(
    joint: &GenericJoint<S, D>,
    kind: u32,
    axis: u32,
) -> (r: bool)
    requires
        axis < 32,
    ensures
        r == constrains(*joint, kind, axis as int),
{
    let locked = test_axis(joint.locked_axes, axis);
    if kind == WRITEBACK_MOTOR {
        test_axis(joint.motor_axes, axis) && !locked
    } else if kind == WRITEBACK_LIMIT {
        test_axis(joint.limit_axes, axis) && !locked
    } else {
        locked
    }
}

/// The constraints of one kind about the axes `lo..hi`, in axis order.
pub open spec fn kind_axes<S: Scalar, D: Space<S>>(
    joint: GenericJoint<S, D>,
    kind: u32,
    lo: int,
    hi: int,
) -> Seq<AxisId>
    decreases hi - lo,
{
    if hi <= lo {
        Seq::empty()
    } else {
        let p = kind_axes(joint, kind, lo, hi - 1);
        if constrains(joint, kind, hi - 1) {
            p.push(AxisId { kind: kind, axis: (hi - 1) as u32 })
        } else {
            p
        }
    }
}

/// The constraints of one kind: angular axes first.
pub open spec fn kind_list<S: Scalar, D: Space<S>>(
    joint: GenericJoint<S, D>,
    kind: u32,
) -> Seq<AxisId> {
    let dim = D::dimension_spec();
    kind_axes(joint, kind, dim.lin_spec(), dim.spatial_spec()) + kind_axes(
        joint,
        kind,
        0,
        dim.lin_spec(),
    )
}

/// All constraints of a joint: motors, then locks, then limits.
pub open spec fn axis_list<S: Scalar, D: Space<S>>(joint: GenericJoint<S, D>) -> Seq<AxisId> {
    kind_list(joint, WRITEBACK_MOTOR) + kind_list(joint, WRITEBACK_LOCK) + kind_list(
        joint,
        WRITEBACK_LIMIT,
    )
}

/// The axes in `lo..hi` that a joint leaves free.
spec fn unlocked<S: Scalar, D: Space<S>>(joint: GenericJoint<S, D>, lo: int, hi: int) -> int
    decreases hi - lo,
{
    if hi <= lo {
        0
    } else {
        unlocked(joint, lo, hi - 1) + if has_axis(joint.locked_axes, hi - 1) {
            0int
        } else {
            1
        }
    }
}

proof fn lemma_kind_axes<S: Scalar, D: Space<S>>(
    joint: GenericJoint<S, D>,
    kind: u32,
    lo: int,
    hi: int,
)
    requires
        0 <= lo <= hi <= 6,
    ensures
        kind_axes(joint, kind, lo, hi).len() <= (if kind == WRITEBACK_MOTOR || kind
            == WRITEBACK_LIMIT {
            unlocked(joint, lo, hi)
        } else {
            hi - lo - unlocked(joint, lo, hi)
        }),
        0 <= unlocked(joint, lo, hi) <= hi - lo,
        forall|i: int|
            0 <= i < kind_axes(joint, kind, lo, hi).len() ==> (#[trigger] kind_axes(
                joint,
                kind,
                lo,
                hi,
            )[i]).kind == kind && lo <= kind_axes(joint, kind, lo, hi)[i].axis < hi,
    decreases hi - lo,
{
    if lo < hi {
        lemma_kind_axes(joint, kind, lo, hi - 1);
    }
}

/// A joint has at most two constraints per axis, and each is about one of the
/// axes of space.
pub proof fn axis_list_fits_slots<S: Scalar, D: Space<S>>(joint: GenericJoint<S, D>)
    ensures
        axis_list(joint).len() <= 2 * D::dimension_spec().spatial_spec(),
        forall|i: int|
            0 <= i < axis_list(joint).len() ==> (#[trigger] axis_list(joint)[i]).kind
                <= WRITEBACK_MOTOR && axis_list(joint)[i].axis
                < D::dimension_spec().spatial_spec(),
{
    let dim = D::dimension_spec();
    let lin = dim.lin_spec();
    let sd = dim.spatial_spec();
    lemma_kind_axes(joint, WRITEBACK_MOTOR, lin, sd);
    lemma_kind_axes(joint, WRITEBACK_MOTOR, 0, lin);
    lemma_kind_axes(joint, WRITEBACK_LOCK, lin, sd);
    lemma_kind_axes(joint, WRITEBACK_LOCK, 0, lin);
    lemma_kind_axes(joint, WRITEBACK_LIMIT, lin, sd);
    lemma_kind_axes(joint, WRITEBACK_LIMIT, 0, lin);
    let m = kind_list(joint, WRITEBACK_MOTOR);
    let k = kind_list(joint, WRITEBACK_LOCK);
    let l = kind_list(joint, WRITEBACK_LIMIT);
    assert forall|i: int| 0 <= i < axis_list(joint).len() implies (#[trigger] axis_list(
        joint,
    )[i]).kind <= WRITEBACK_MOTOR && axis_list(joint)[i].axis < sd by {
        if i < m.len() {
            assert(axis_list(joint)[i] == m[i]);
            lemma_kind_member(joint, WRITEBACK_MOTOR, i);
        } else if i < m.len() + k.len() {
            assert(axis_list(joint)[i] == k[i - m.len()]);
            lemma_kind_member(joint, WRITEBACK_LOCK, i - m.len());
        } else {
            assert(axis_list(joint)[i] == l[i - m.len() - k.len()]);
            lemma_kind_member(joint, WRITEBACK_LIMIT, i - m.len() - k.len());
        }
    }
}

proof fn lemma_kind_member<S: Scalar, D: Space<S>>(joint: GenericJoint<S, D>, kind: u32, i: int)
    requires
        0 <= i < kind_list(joint, kind).len(),
    ensures
        kind_list(joint, kind)[i].kind == kind,
        kind_list(joint, kind)[i].axis < D::dimension_spec().spatial_spec(),
{
    let dim = D::dimension_spec();
    let lin = dim.lin_spec();
    let a = kind_axes(joint, kind, lin, dim.spatial_spec());
    let b = kind_axes(joint, kind, 0, lin);
    lemma_kind_axes(joint, kind, lin, dim.spatial_spec());
    lemma_kind_axes(joint, kind, 0, lin);
    if i < a.len() {
        assert(kind_list(joint, kind)[i] == a[i]);
    } else {
        assert(kind_list(joint, kind)[i] == b[i - a.len()]);
    }
}

fn push_kind<S: Scalar, D: Space<S>>(
    joint: &GenericJoint<S, D>,
    kind: u32,
    lo: u32,
    hi: u32,
    out: &mut Vec<AxisId>,
)
    requires
        lo <= hi <= 6,
    ensures
        final(out)@ == old(out)@ + kind_axes(*joint, kind, lo as int, hi as int),
{
    let ghost o0 = out@;
    let mut i: u32 = lo;
    assert(out@ =~= o0 + kind_axes(*joint, kind, lo as int, lo as int));
    while i < hi
        invariant
            lo <= i <= hi <= 6,
            out@ == o0 + kind_axes(*joint, kind, lo as int, i as int),
        decreases hi - i,
    {
        if is_constrained(joint, kind, i) {
            out.push(AxisId { kind: kind, axis: i });
        }
        assert(out@ =~= o0 + kind_axes(*joint, kind, lo as int, i + 1));
        i = i + 1;
    }
}

/// Lists the constraints of a joint.
pub fn list_axes<S: Scalar, D: Space<S>>(joint: &GenericJoint<S, D>) -> (out: Vec<AxisId>)
    ensures
        out@ == axis_list(*joint),
{
    let lin: u32 = D::dimension().lin();
    let sd: u32 = D::dimension().spatial();
    let mut out: Vec<AxisId> = Vec::new();
    push_kind(joint, WRITEBACK_MOTOR, lin, sd, &mut out);
    push_kind(joint, WRITEBACK_MOTOR, 0, lin, &mut out);
    assert(out@ =~= kind_list(*joint, WRITEBACK_MOTOR));
    push_kind(joint, WRITEBACK_LOCK, lin, sd, &mut out);
    push_kind(joint, WRITEBACK_LOCK, 0, lin, &mut out);
    assert(out@ =~= kind_list(*joint, WRITEBACK_MOTOR) + kind_list(*joint, WRITEBACK_LOCK));
    push_kind(joint, WRITEBACK_LIMIT, lin, sd, &mut out);
    push_kind(joint, WRITEBACK_LIMIT, 0, lin, &mut out);
    assert(out@ =~= axis_list(*joint));
    out
}

} // verus!
