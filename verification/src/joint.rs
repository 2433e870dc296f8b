//! Joint descriptions: frames, axis masks, limits and motors.
use crate::scalar::{Scalar, inv, inv_spec};
use crate::space::{Dimension, Pose, Space};
use vstd::prelude::*;

verus! {

/// The range of a limited axis.
#[derive(Clone, Copy)]
pub struct JointLimits<S: Scalar> {
    pub min: S,
    pub max: S,
}

/// Motor model: gains are forces per unit of error.
pub const FORCE_BASED: u32 = 1;

/// Motor model: gains are accelerations per unit of error.
pub const ACCELERATION_BASED: u32 = 0;

/// The motor of one axis.
#[derive(Clone, Copy)]
pub struct JointMotor<S: Scalar> {
    pub target_pos: S,
    pub target_vel: S,
    pub stiffness: S,
    pub damping: S,
    pub max_force: S,
    pub model: u32,
}

/// A joint between two frames. Bit `i` of a mask speaks of axis `i`; the
/// linear axes come first.
#[derive(Clone, Copy)]
pub struct GenericJoint<S: Scalar, D: Space<S>> {
    pub local_frame_a: Pose<S, D>,
    pub local_frame_b: Pose<S, D>,
    pub locked_axes: u32,
    pub limit_axes: u32,
    pub motor_axes: u32,
    pub limits: [JointLimits<S>; 6],
    pub motors: [JointMotor<S>; 6],
}

/// Whether `mask` holds axis `i`.
pub open spec fn has_axis(mask: u32, i: int) -> bool {
    (mask >> (i as u32)) & 1 == 1
}

pub fn test_axis(mask: u32, i: u32) -> (r: bool)
    requires
        i < 32,
    ensures
        r == has_axis(mask, i as int),
{
    (mask >> i) & 1 == 1
}

/// Number of axes in `lo..hi` outside `mask`.
pub open spec fn free_axes(mask: u32, lo: int, hi: int) -> int
    decreases hi - lo,
{
    if hi <= lo {
        0
    } else {
        free_axes(mask, lo, hi - 1) + if has_axis(mask, hi - 1) {
            0int
        } else {
            1
        }
    }
}

pub proof fn lemma_free_axes_bound(mask: u32, lo: int, hi: int)
    requires
        lo <= hi,
    ensures
        0 <= free_axes(mask, lo, hi) <= hi - lo,
    decreases hi - lo,
{
    if lo < hi {
        lemma_free_axes_bound(mask, lo, hi - 1);
    }
}

pub proof fn lemma_free_axes_split(mask: u32, lo: int, mid: int, hi: int)
    requires
        lo <= mid <= hi,
    ensures
        free_axes(mask, lo, hi) == free_axes(mask, lo, mid) + free_axes(mask, mid, hi),
    decreases hi - mid,
{
    if mid < hi {
        lemma_free_axes_split(mask, lo, mid, hi - 1);
    }
}

fn count_free(mask: u32, lo: u32, hi: u32) -> (r: u32)
    requires
        lo <= hi <= 6,
    ensures
        r == free_axes(mask, lo as int, hi as int),
        r <= hi - lo,
{
    let mut n: u32 = 0;
    let mut i: u32 = lo;
    while i < hi
        invariant
            lo <= i <= hi <= 6,
            n == free_axes(mask, lo as int, i as int),
            n <= i - lo,
        decreases hi - i,
    {
        if !test_axis(mask, i) {
            n = n + 1;
        }
        i = i + 1;
    }
    n
}

/// Number of free DOFs implied by a `locked` mask.
pub fn count_free_dofs(dim: Dimension, locked: u32) -> (r: u32)
    ensures
        r == free_axes(locked, 0, dim.spatial_spec()),
{
    count_free(locked, 0, dim.spatial())
}

/// Number of free linear DOFs.
pub fn count_free_lin_dofs(dim: Dimension, locked: u32) -> (r: u32)
    ensures
        r == free_axes(locked, 0, dim.lin_spec()),
{
    count_free(locked, 0, dim.lin())
}

/// Number of free angular DOFs.
pub fn count_free_ang_dofs(dim: Dimension, locked: u32) -> (r: u32)
    ensures
        r == free_axes(locked, dim.lin_spec(), dim.spatial_spec()),
{
    count_free(locked, dim.lin(), dim.spatial())
}

/// The free DOFs of a joint are its free linear and its free angular ones.
pub proof fn free_dofs_split(dim: Dimension, locked: u32)
    ensures
        free_axes(locked, 0, dim.spatial_spec()) == free_axes(locked, 0, dim.lin_spec())
            + free_axes(locked, dim.lin_spec(), dim.spatial_spec()),
{
    lemma_free_axes_split(locked, 0, dim.lin_spec(), dim.spatial_spec());
}

/// What a motor asks of a constraint over one time step.
#[derive(Clone, Copy)]
pub struct MotorParameters<S: Scalar> {
    pub erp_inv_dt: S,
    pub cfm_coeff: S,
    pub cfm_gain: S,
    pub max_impulse: S,
}

/// Stiffness and damping as an implicit spring over the time step `dt`. The
/// compliance of an acceleration-based motor scales with the constraint's
/// inverse inertia, that of a force-based motor does not.
pub open spec fn motor_params_spec<S: Scalar>(motor: JointMotor<S>, dt: S) -> MotorParameters<S> {
    let compliance = inv_spec(
        dt.times_spec(dt).times_spec(motor.stiffness).plus_spec(dt.times_spec(motor.damping)),
    );
    let force = motor.model == FORCE_BASED;
    MotorParameters {
        erp_inv_dt: motor.stiffness.times_spec(
            inv_spec(dt.times_spec(motor.stiffness).plus_spec(motor.damping)),
        ),
        cfm_coeff: if force {
            S::zero_spec()
        } else {
            compliance
        },
        cfm_gain: if force {
            compliance
        } else {
            S::zero_spec()
        },
        max_impulse: motor.max_force.times_spec(dt),
    }
}

pub fn motor_params<S: Scalar>(motor: &JointMotor<S>, dt: S) -> (r: MotorParameters<S>)
    ensures
        r == motor_params_spec(*motor, dt),
{
    let compliance = inv(dt.times(dt).times(motor.stiffness).plus(dt.times(motor.damping)));
    let force = motor.model == FORCE_BASED;
    MotorParameters {
        erp_inv_dt: motor.stiffness.times(inv(dt.times(motor.stiffness).plus(motor.damping))),
        cfm_coeff: if force {
            S::zero()
        } else {
            compliance
        },
        cfm_gain: if force {
            compliance
        } else {
            S::zero()
        },
        max_impulse: motor.max_force.times(dt),
    }
}

} // verus!
