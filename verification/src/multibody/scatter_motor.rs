//! Motor targets, written per joint and environment.
use super::types::MultibodyLinkStatic;
use crate::batch::mbi_spec;
use crate::joint::{GenericJoint, JointMotor, has_axis};
use crate::scalar::Scalar;
use crate::space::Space;
use vstd::prelude::*;

verus! {

/// `l1` is the link `l0` with the motor of `axis` switched on and driven to
/// `target`.
pub open spec fn retargeted<S: Scalar, D: Space<S>>(
    l0: MultibodyLinkStatic<S, D>,
    axis: u32,
    target: S,
    l1: MultibodyLinkStatic<S, D>,
) -> bool {
    &&& l1.data.motors@ == l0.data.motors@.update(
        axis as int,
        JointMotor { target_pos: target, ..l0.data.motors@[axis as int] },
    )
    &&& l1 == (MultibodyLinkStatic {
        data: GenericJoint {
            motors: l1.data.motors,
            motor_axes: l0.data.motor_axes | (1u32 << axis),
            ..l0.data
        },
        ..l0
    })
}

/// Retargeting switches the motor of its axis on, and no other, and gives it the
/// target; the other motors keep theirs, and every motor its strength.
pub proof fn retargeting_enables_one_motor<S: Scalar, D: Space<S>>(
    l0: MultibodyLinkStatic<S, D>,
    axis: u32,
    target: S,
    l1: MultibodyLinkStatic<S, D>,
    i: u32,
)
    requires
        axis < 6,
        i < 6,
        retargeted(l0, axis, target, l1),
    ensures
        has_axis(l1.data.motor_axes, axis as int),
        i != axis ==> has_axis(l1.data.motor_axes, i as int) == has_axis(
            l0.data.motor_axes,
            i as int,
        ),
        l1.data.motors@[i as int].target_pos == if i == axis {
            target
        } else {
            l0.data.motors@[i as int].target_pos
        },
        l1.data.motors@[i as int].target_vel == l0.data.motors@[i as int].target_vel,
        l1.data.motors@[i as int].stiffness == l0.data.motors@[i as int].stiffness,
        l1.data.motors@[i as int].damping == l0.data.motors@[i as int].damping,
        l1.data.motors@[i as int].max_force == l0.data.motors@[i as int].max_force,
        l1.data.locked_axes == l0.data.locked_axes,
{
    let m = l0.data.motor_axes;
    assert((((m | (1u32 << axis)) >> axis) & 1) == 1) by (bit_vector)
        requires
            axis < 6,
    ;
    assert(i != axis ==> (((m | (1u32 << axis)) >> i) & 1) == ((m >> i) & 1)) by (bit_vector)
        requires
            axis < 6,
            i < 6,
    ;
}

fn flat_at(i: u32, n: u32, env: u32, len: usize) -> (r: usize)
    requires
        mbi_spec(n as int, env as int, i as int) < len,
    ensures
        r == mbi_spec(n as int, env as int, i as int),
{
    assert(0 <= i * n) by (nonlinear_arith)
        requires
            i >= 0,
            n >= 0,
    ;
    i as usize * n as usize + env as usize
}

/// Drives the motor of actuated joint `j` of environment `env` to its target.
pub fn gpu_scatter_motor_targets<S: Scalar, D: Space<S>>(
    j: u32,
    env: u32,
    motor_targets: &[S],
    links_static: &mut [MultibodyLinkStatic<S, D>],
    actuated_link_ids: &[u32],
    num_actuated: u32,
    num_envs: u32,
    axis_id: u32,
)
    requires
        j < num_actuated && env < num_envs ==> {
            &&& axis_id < 6
            &&& j < actuated_link_ids@.len()
            &&& mbi_spec(num_envs as int, env as int, j as int) < motor_targets@.len()
            &&& mbi_spec(num_envs as int, env as int, actuated_link_ids@[j as int] as int) < old(
                links_static,
            )@.len()
        },
    ensures
        ({
            let g = mbi_spec(num_envs as int, env as int, actuated_link_ids@[j as int] as int);
            if j < num_actuated && env < num_envs {
                &&& final(links_static)@ == old(links_static)@.update(g, final(links_static)@[g])
                &&& retargeted(
                    old(links_static)@[g],
                    axis_id,
                    motor_targets@[mbi_spec(num_envs as int, env as int, j as int)],
                    final(links_static)@[g],
                )
            } else {
                final(links_static)@ == old(links_static)@
            }
        }),
{
    if j >= num_actuated || env >= num_envs {
        return ;
    }
    let n: usize = links_static.len();
    let m: usize = motor_targets.len();
    let g: usize = flat_at(actuated_link_ids[j as usize], num_envs, env, n);
    let target = motor_targets[flat_at(j, num_envs, env, m)];
    let mut link = links_static[g];
    let ghost l0 = link;
    let mut motor = link.data.motors[axis_id as usize];
    motor.target_pos = target;
    link.data.motors[axis_id as usize] = motor;
    link.data.motor_axes = link.data.motor_axes | (1u32 << axis_id);
    assert(retargeted(l0, axis_id, target, link));
    links_static[g] = link;
    assert(links_static@ =~= old(links_static)@.update(g as int, links_static@[g as int]));
}

/// Starts a step of the actuator delay for actuated joint `j` of environment
/// `env`. An environment's state is its tick, its delay, then the previous target
/// of each link.
pub fn gpu_mb_delay_state_update<S: Scalar>(
    j: u32,
    env: u32,
    prev_targets: &[S],
    k_eff: &[S],
    actuated_link_ids: &[u32],
    delay_state: &mut [S],
    num_actuated: u32,
    num_envs: u32,
    stride: u32,
)
    requires
        j < num_actuated && env < num_envs ==> {
            &&& j < actuated_link_ids@.len()
            &&& env < k_eff@.len()
            &&& mbi_spec(num_envs as int, env as int, j as int) < prev_targets@.len()
            &&& env * stride + 2 + actuated_link_ids@[j as int] < old(delay_state)@.len()
        },
    ensures
        final(delay_state)@ == (if j < num_actuated && env < num_envs {
            let base = env * stride;
            let s = if j == 0 {
                old(delay_state)@.update(base, S::zero_spec()).update(base + 1, k_eff@[env as int])
            } else {
                old(delay_state)@
            };
            s.update(
                base + 2 + actuated_link_ids@[j as int],
                prev_targets@[mbi_spec(num_envs as int, env as int, j as int)],
            )
        } else {
            old(delay_state)@
        }),
{
    if j >= num_actuated || env >= num_envs {
        return ;
    }
    let n: usize = delay_state.len();
    let m: usize = prev_targets.len();
    assert(0 <= env * stride) by (nonlinear_arith)
        requires
            env >= 0,
            stride >= 0,
    ;
    let base: usize = env as usize * stride as usize;
    if j == 0 {
        delay_state[base] = S::zero();
        delay_state[base + 1] = k_eff[env as usize];
    }
    let link: usize = actuated_link_ids[j as usize] as usize;
    delay_state[base + 2 + link] = prev_targets[flat_at(j, num_envs, env, m)];
}

} // verus!
