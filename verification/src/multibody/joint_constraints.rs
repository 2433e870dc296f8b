//! Constraints from joint limits and motors, one per degree of freedom and
//! kind.
use super::gravity_and_lu::{mb_at, mb_at_spec, mb_listed};
use super::kinematics::dofs_in_range;
use super::lu::{lu_solve, lu_solve_in_place, pivots_in_range};
use super::solve_constraints::{
    joint_cols_view, joint_cons_view, joint_room, joint_views,
};
use super::sweeps::{column, column_view, lemma_column_change};
use super::types::{
    MB_JOINT_KIND_INACTIVE, MB_JOINT_KIND_LIMIT, MB_JOINT_KIND_LIMIT_INACTIVE, MB_JOINT_KIND_MOTOR,
    MultibodyInfo, MultibodyJointConstraint, MultibodyLinkStatic, MultibodyLinkWorkspace,
};
use crate::batch::{BatchIndices, imat_spec, ivec_spec, room};
use crate::exact::{clamp_stays_in_range, exact, ordered};
use crate::joint::{
    FORCE_BASED, JointLimits, JointMotor, free_axes, has_axis, lemma_free_axes_bound,
    lemma_free_axes_split, motor_params, motor_params_spec, test_axis,
};
use crate::sim_params::ConstraintSoftness;
use crate::scalar::{Scalar, clamp, clamp_spec, inv, inv_spec, max_flt, max_flt_spec};
use crate::space::Space;
use crate::views::{
    MatView, VecView, mat_of, same_outside_mat, same_outside_vec, vec_get, vec_of, vec_set,
};
use vstd::prelude::*;

verus! {

// ---- single constraints ----

/// Link and axis in one word: the link in the low half.
pub open spec fn pack_link_axis(link: u32, axis: u32) -> u32 {
    link | (axis << 16u32)
}

pub open spec fn packed_link(e: u32) -> u32 {
    e & 0xffff
}

pub open spec fn packed_axis(e: u32) -> u32 {
    e >> 16u32
}

/// A packed link and axis come back, for links below `2^16`.
pub proof fn link_axis_round_trip(link: u32, axis: u32)
    requires
        link <= 0xffff,
        axis <= 0xffff,
    ensures
        packed_link(pack_link_axis(link, axis)) == link,
        packed_axis(pack_link_axis(link, axis)) == axis,
{
    assert((link | (axis << 16u32)) & 0xffff == link && (link | (axis << 16u32)) >> 16u32 == axis)
        by (bit_vector)
        requires
            link <= 0xffff,
            axis <= 0xffff,
    ;
}

/// The unused constraint.
pub open spec fn unused_joint_constraint<S: Scalar>() -> MultibodyJointConstraint<S> {
    MultibodyJointConstraint {
        dof_id: 0,
        kind: MB_JOINT_KIND_INACTIVE,
        kind_extra: 0,
        rhs: S::zero_spec(),
        rhs_wo_bias: S::zero_spec(),
        inv_lhs: S::zero_spec(),
        impulse: S::zero_spec(),
        impulse_lo: S::zero_spec(),
        impulse_hi: S::zero_spec(),
        cfm_coeff: S::zero_spec(),
        cfm_gain: S::zero_spec(),
    }
}

/// The constraint of a limited axis at position `pos`. Below the range it may
/// push up only, above it down only, inside it is inactive.
pub open spec fn limit_constraint<S: Scalar>(
    dof: u32,
    link: u32,
    axis: u32,
    pos: S,
    limits: JointLimits<S>,
    erp_inv_dt: S,
    cfm_coeff: S,
) -> MultibodyJointConstraint<S> {
    let below = pos.lt_spec(limits.min);
    let above = limits.max.lt_spec(pos);
    let lo_excess = limits.min.minus_spec(pos).maximum_spec(S::zero_spec());
    let hi_excess = pos.minus_spec(limits.max).maximum_spec(S::zero_spec());
    MultibodyJointConstraint {
        dof_id: dof,
        kind: if below || above {
            MB_JOINT_KIND_LIMIT
        } else {
            MB_JOINT_KIND_LIMIT_INACTIVE
        },
        kind_extra: pack_link_axis(link, axis),
        rhs: S::zero_spec().plus_spec(hi_excess.minus_spec(lo_excess).times_spec(erp_inv_dt)),
        rhs_wo_bias: S::zero_spec(),
        inv_lhs: S::zero_spec(),
        impulse: S::zero_spec(),
        impulse_lo: if below {
            max_flt_spec::<S>().neg_spec()
        } else {
            S::zero_spec()
        },
        impulse_hi: if above {
            max_flt_spec::<S>()
        } else {
            S::zero_spec()
        },
        cfm_coeff: cfm_coeff,
        cfm_gain: S::zero_spec(),
    }
}

pub fn build_limit_constraint<S: Scalar>(
    dof_id: u32,
    link_id: u32,
    axis: u32,
    curr_pos: S,
    limits: JointLimits<S>,
    erp_inv_dt: S,
    cfm_coeff: S,
) -> (r: MultibodyJointConstraint<S>)
    requires
        axis < 16,
    ensures
        r == limit_constraint(dof_id, link_id, axis, curr_pos, limits, erp_inv_dt, cfm_coeff),
{
    let below = curr_pos.lt(limits.min);
    let above = limits.max.lt(curr_pos);
    let lo_excess = limits.min.minus(curr_pos).maximum(S::zero());
    let hi_excess = curr_pos.minus(limits.max).maximum(S::zero());
    MultibodyJointConstraint {
        dof_id: dof_id,
        kind: if below || above {
            MB_JOINT_KIND_LIMIT
        } else {
            MB_JOINT_KIND_LIMIT_INACTIVE
        },
        kind_extra: link_id | (axis << 16u32),
        rhs: S::zero().plus(hi_excess.minus(lo_excess).times(erp_inv_dt)),
        rhs_wo_bias: S::zero(),
        inv_lhs: S::zero(),
        impulse: S::zero(),
        impulse_lo: if below {
            max_flt::<S>().negate()
        } else {
            S::zero()
        },
        impulse_hi: if above {
            max_flt()
        } else {
            S::zero()
        },
        cfm_coeff: cfm_coeff,
        cfm_gain: S::zero(),
    }
}

/// The constraint of a motorized axis at position `pos`: towards the target,
/// at a velocity that stays inside the limits over one time step. A
/// force-based motor is applied as a force instead and has no constraint.
pub open spec fn motor_constraint<S: Scalar>(
    dof: u32,
    link: u32,
    axis: u32,
    pos: S,
    dt: S,
    motor: JointMotor<S>,
    limits: Option<JointLimits<S>>,
) -> MultibodyJointConstraint<S> {
    if motor.model == FORCE_BASED {
        unused_joint_constraint()
    } else {
        let mp = motor_params_spec(motor, dt);
        let spring = if mp.erp_inv_dt.same_spec(S::zero_spec()) {
            S::zero_spec()
        } else {
            S::zero_spec().plus_spec(pos.minus_spec(motor.target_pos).times_spec(mp.erp_inv_dt))
        };
        let target_vel = match limits {
            Some(l) => clamp_spec(
                motor.target_vel,
                l.min.minus_spec(pos).times_spec(inv_spec(dt)),
                l.max.minus_spec(pos).times_spec(inv_spec(dt)),
            ),
            None => motor.target_vel,
        };
        let rhs = spring.plus_spec(target_vel.neg_spec());
        MultibodyJointConstraint {
            dof_id: dof,
            kind: MB_JOINT_KIND_MOTOR,
            kind_extra: pack_link_axis(link, axis),
            rhs: rhs,
            rhs_wo_bias: rhs,
            inv_lhs: S::zero_spec(),
            impulse: S::zero_spec(),
            impulse_lo: mp.max_impulse.neg_spec(),
            impulse_hi: mp.max_impulse,
            cfm_coeff: mp.cfm_coeff,
            cfm_gain: mp.cfm_gain,
        }
    }
}

fn unused_constraint<S: Scalar>() -> (r: MultibodyJointConstraint<S>)
    ensures
        r == unused_joint_constraint::<S>(),
{
    MultibodyJointConstraint {
        dof_id: 0,
        kind: MB_JOINT_KIND_INACTIVE,
        kind_extra: 0,
        rhs: S::zero(),
        rhs_wo_bias: S::zero(),
        inv_lhs: S::zero(),
        impulse: S::zero(),
        impulse_lo: S::zero(),
        impulse_hi: S::zero(),
        cfm_coeff: S::zero(),
        cfm_gain: S::zero(),
    }
}

pub fn build_motor_constraint<S: Scalar>(
    dof_id: u32,
    link_id: u32,
    axis: u32,
    curr_pos: S,
    dt: S,
    motor: &JointMotor<S>,
    limits: Option<JointLimits<S>>,
) -> (r: MultibodyJointConstraint<S>)
    requires
        axis < 16,
    ensures
        r == motor_constraint(dof_id, link_id, axis, curr_pos, dt, *motor, limits),
{
    if motor.model == FORCE_BASED {
        return unused_constraint();
    }
    let mp = motor_params(motor, dt);
    let spring = if mp.erp_inv_dt.same(S::zero()) {
        S::zero()
    } else {
        S::zero().plus(curr_pos.minus(motor.target_pos).times(mp.erp_inv_dt))
    };
    let target_vel = match limits {
        Some(l) => {
            let inv_dt = inv(dt);
            clamp(
                motor.target_vel,
                l.min.minus(curr_pos).times(inv_dt),
                l.max.minus(curr_pos).times(inv_dt),
            )
        },
        None => motor.target_vel,
    };
    let rhs = spring.plus(target_vel.negate());
    MultibodyJointConstraint {
        dof_id: dof_id,
        kind: MB_JOINT_KIND_MOTOR,
        kind_extra: link_id | (axis << 16u32),
        rhs: rhs,
        rhs_wo_bias: rhs,
        inv_lhs: S::zero(),
        impulse: S::zero(),
        impulse_lo: mp.max_impulse.negate(),
        impulse_hi: mp.max_impulse,
        cfm_coeff: mp.cfm_coeff,
        cfm_gain: mp.cfm_gain,
    }
}

// ---- emission ----

/// The constraints of axis `axis` of link `k`. A linear axis lists its motor
/// first, an angular axis its limit.
pub open spec fn axis_constraints<S: Scalar, D: Space<S>>(
    st: MultibodyLinkStatic<S, D>,
    coords: Seq<S>,
    soft: ConstraintSoftness<S>,
    k: u32,
    axis: int,
) -> Seq<MultibodyJointConstraint<S>> {
    let j = st.data;
    if has_axis(j.locked_axes, axis) {
        Seq::empty()
    } else {
        let dof = (st.assembly_id + free_axes(j.locked_axes, 0, axis)) as u32;
        let limited = has_axis(j.limit_axes, axis);
        let limit = if limited {
            seq![
                limit_constraint(
                    dof,
                    k,
                    axis as u32,
                    coords[axis],
                    j.limits[axis],
                    soft.joint_erp_inv_dt,
                    soft.joint_cfm_coeff,
                ),
            ]
        } else {
            Seq::empty()
        };
        let motor = if has_axis(j.motor_axes, axis) {
            seq![
                motor_constraint(
                    dof,
                    k,
                    axis as u32,
                    coords[axis],
                    soft.dt,
                    j.motors[axis],
                    if limited {
                        Some(j.limits[axis])
                    } else {
                        None
                    },
                ),
            ]
        } else {
            Seq::empty()
        };
        if axis < D::dimension_spec().lin_spec() {
            motor + limit
        } else {
            limit + motor
        }
    }
}

/// The constraints of axes `0..n` of link `k`.
pub open spec fn link_constraints<S: Scalar, D: Space<S>>(
    st: MultibodyLinkStatic<S, D>,
    coords: Seq<S>,
    soft: ConstraintSoftness<S>,
    k: u32,
    n: int,
) -> Seq<MultibodyJointConstraint<S>>
    decreases n,
{
    if n <= 0 {
        Seq::empty()
    } else {
        link_constraints(st, coords, soft, k, n - 1) + axis_constraints(
            st,
            coords,
            soft,
            k,
            n - 1,
        )
    }
}

/// The constraints of the first `k` links. A kinematic joint has none.
pub open spec fn emitted<S: Scalar, D: Space<S>>(
    st: Seq<MultibodyLinkStatic<S, D>>,
    ws: Seq<MultibodyLinkWorkspace<S, D>>,
    soft: ConstraintSoftness<S>,
    k: int,
) -> Seq<MultibodyJointConstraint<S>>
    decreases k,
{
    if k <= 0 {
        Seq::empty()
    } else {
        let prev = emitted(st, ws, soft, k - 1);
        if st[k - 1].kinematic != 0 {
            prev
        } else {
            prev + link_constraints(
                st[k - 1],
                ws[k - 1].coords@,
                soft,
                (k - 1) as u32,
                D::dimension_spec().spatial_spec(),
            )
        }
    }
}

/// Two slots per free axis of the first `k` links.
pub open spec fn slots_reserved<S: Scalar, D: Space<S>>(
    st: Seq<MultibodyLinkStatic<S, D>>,
    k: int,
) -> int
    decreases k,
{
    if k <= 0 {
        0
    } else {
        slots_reserved(st, k - 1) + 2 * free_axes(
            st[k - 1].data.locked_axes,
            0,
            D::dimension_spec().spatial_spec(),
        )
    }
}

proof fn lemma_link_slots<S: Scalar, D: Space<S>>(
    st: MultibodyLinkStatic<S, D>,
    coords: Seq<S>,
    soft: ConstraintSoftness<S>,
    k: u32,
    n: int,
)
    requires
        0 <= n,
    ensures
        link_constraints(st, coords, soft, k, n).len() <= 2 * free_axes(
            st.data.locked_axes,
            0,
            n,
        ),
    decreases n,
{
    if n > 0 {
        lemma_link_slots(st, coords, soft, k, n - 1);
    }
}

/// A multibody never emits more constraints than two per free axis: with as many
/// slots its constraints fit.
pub proof fn emission_fits_reserved_slots<S: Scalar, D: Space<S>>(
    st: Seq<MultibodyLinkStatic<S, D>>,
    ws: Seq<MultibodyLinkWorkspace<S, D>>,
    soft: ConstraintSoftness<S>,
    k: int,
)
    requires
        0 <= k,
    ensures
        emitted(st, ws, soft, k).len() <= slots_reserved(st, k),
    decreases k,
{
    if k > 0 {
        emission_fits_reserved_slots(st, ws, soft, k - 1);
        let n = D::dimension_spec().spatial_spec();
        lemma_free_axes_bound(st[k - 1].data.locked_axes, 0, n);
        lemma_link_slots(st[k - 1], ws[k - 1].coords@, soft, (k - 1) as u32, n);
    }
}

fn emit_link<S: Scalar, D: Space<S>>(
    st: &MultibodyLinkStatic<S, D>,
    coords: &[S; 6],
    soft: ConstraintSoftness<S>,
    k: u32,
    out: &mut Vec<MultibodyJointConstraint<S>>,
)
    requires
        st.assembly_id + free_axes(
            st.data.locked_axes,
            0,
            D::dimension_spec().spatial_spec(),
        ) <= u32::MAX,
    ensures
        final(out)@ == old(out)@ + link_constraints(
            *st,
            coords@,
            soft,
            k,
            D::dimension_spec().spatial_spec(),
        ),
{
    let ghost out0 = out@;
    let d = D::dimension();
    let dim: u32 = d.lin();
    let sd: u32 = d.spatial();
    let locked: u32 = st.data.locked_axes;
    let mut free: u32 = 0;
    let mut axis: u32 = 0;
    assert(out0 + Seq::<MultibodyJointConstraint<S>>::empty() =~= out0);
    while axis < sd
        invariant
            dim == D::dimension_spec().lin_spec(),
            sd == D::dimension_spec().spatial_spec(),
            locked == st.data.locked_axes,
            st.assembly_id + free_axes(locked, 0, sd as int) <= u32::MAX,
            axis <= sd <= 6,
            free == free_axes(locked, 0, axis as int),
            free <= axis,
            out@ == out0 + link_constraints(*st, coords@, soft, k, axis as int),
        decreases sd - axis,
    {
        proof {
            lemma_free_axes_split(locked, 0, axis + 1, sd as int);
            lemma_free_axes_bound(locked, axis + 1, sd as int);
        }
        let ghost before = out@;
        let ghost step = axis_constraints(*st, coords@, soft, k, axis as int);
        if !test_axis(locked, axis) {
            let dof: u32 = st.assembly_id + free;
            let pos = coords[axis as usize];
            let limited = test_axis(st.data.limit_axes, axis);
            let driven = test_axis(st.data.motor_axes, axis);
            let limits = st.data.limits[axis as usize];
            if limited && axis >= dim {
                out.push(
                    build_limit_constraint(
                        dof,
                        k,
                        axis,
                        pos,
                        limits,
                        soft.joint_erp_inv_dt,
                        soft.joint_cfm_coeff,
                    ),
                );
            }
            if driven {
                let motor = st.data.motors[axis as usize];
                let l = if limited {
                    Some(limits)
                } else {
                    None
                };
                out.push(build_motor_constraint(dof, k, axis, pos, soft.dt, &motor, l));
            }
            if limited && axis < dim {
                out.push(
                    build_limit_constraint(
                        dof,
                        k,
                        axis,
                        pos,
                        limits,
                        soft.joint_erp_inv_dt,
                        soft.joint_cfm_coeff,
                    ),
                );
            }
            free = free + 1;
        }
        assert(out@ =~= before + step);
        assert((out0 + link_constraints(*st, coords@, soft, k, axis as int)) + step =~= out0 + (
        link_constraints(*st, coords@, soft, k, axis as int) + step));
        axis = axis + 1;
    }
}

/// Lists the constraints of a multibody in link and axis order.
pub fn emit_joint_constraints<S: Scalar, D: Space<S>>(
    stat: &[MultibodyLinkStatic<S, D>],
    ws: &[MultibodyLinkWorkspace<S, D>],
    lv: VecView,
    soft: ConstraintSoftness<S>,
) -> (out: Vec<MultibodyJointConstraint<S>>)
    requires
        lv.fits(stat@.len() as int),
        lv.fits(ws@.len() as int),
        lv.len <= u32::MAX,
        dofs_in_range(vec_of(stat@, lv), u32::MAX as int),
    ensures
        out@ == emitted(vec_of(stat@, lv), vec_of(ws@, lv), soft, lv.len as int),
{
    let ghost st = vec_of(stat@, lv);
    let ghost wk = vec_of(ws@, lv);
    let mut out: Vec<MultibodyJointConstraint<S>> = Vec::new();
    let mut k: usize = 0;
    while k < lv.len
        invariant
            lv.fits(stat@.len() as int),
            lv.fits(ws@.len() as int),
            lv.len <= u32::MAX,
            st == vec_of(stat@, lv),
            wk == vec_of(ws@, lv),
            dofs_in_range(st, u32::MAX as int),
            k <= lv.len,
            out@ == emitted(st, wk, soft, k as int),
        decreases lv.len - k,
    {
        let s = vec_get(stat, lv, k);
        assert(st[k as int] == s);
        if s.kinematic == 0 {
            let w = vec_get(ws, lv, k);
            emit_link(&s, &w.coords, soft, k as u32, &mut out);
        }
        k = k + 1;
    }
    out
}

// ---- finalization ----

/// The unit vector along entry `d`.
pub open spec fn unit_vector<S: Scalar>(n: int, d: int) -> Seq<S> {
    Seq::new(
        n as nat,
        |i: int|
            if i == d {
                S::one_spec()
            } else {
                S::zero_spec()
            },
    )
}

/// Solves for the response to a unit impulse on degree of freedom `dof_id`.
pub fn lu_solve_unit<S: Scalar>(
    mass: &[S],
    m: MatView,
    pivots: &[u32],
    piv: VecView,
    dst: &mut [S],
    dv: VecView,
    dof_id: u32,
)
    requires
        m.fits(mass@.len() as int),
        m.nrows == m.ncols,
        piv.fits(pivots@.len() as int),
        piv.len == m.nrows,
        pivots_in_range(vec_of(pivots@, piv)),
        dv.fits(old(dst)@.len() as int),
        dv.len == m.nrows,
    ensures
        vec_of(final(dst)@, dv) == lu_solve(
            mat_of(mass@, m),
            vec_of(pivots@, piv),
            unit_vector(m.nrows as int, dof_id as int),
        ),
        same_outside_vec(old(dst)@, final(dst)@, dv),
{
    let n: usize = m.nrows;
    let mut i: usize = 0;
    while i < n
        invariant
            dv.fits(old(dst)@.len() as int),
            dv.len == n,
            i <= n,
            same_outside_vec(old(dst)@, dst@, dv),
            forall|j: int|
                0 <= j < i ==> #[trigger] vec_of(dst@, dv)[j] == unit_vector::<S>(
                    n as int,
                    dof_id as int,
                )[j],
        decreases n - i,
    {
        let x = if i == dof_id as usize {
            S::one()
        } else {
            S::zero()
        };
        vec_set(dst, dv, i, x);
        i = i + 1;
    }
    assert(vec_of(dst@, dv) =~= unit_vector::<S>(n as int, dof_id as int));
    lu_solve_in_place(mass, m, pivots, piv, dst, dv);
}

/// A constraint with the effective mass of its degree of freedom: the
/// compliance is folded into the gain.
pub open spec fn finalized<S: Scalar>(
    c: MultibodyJointConstraint<S>,
    lhs: S,
) -> MultibodyJointConstraint<S> {
    if c.kind == MB_JOINT_KIND_INACTIVE {
        c
    } else {
        let gain = lhs.times_spec(c.cfm_coeff).plus_spec(c.cfm_gain);
        MultibodyJointConstraint { cfm_gain: gain, inv_lhs: inv_spec(lhs.plus_spec(gain)), ..c }
    }
}

/// The slots of a multibody before finalization: the emitted constraints,
/// then unused slots.
pub open spec fn initial_slots<S: Scalar>(
    old_slots: Seq<MultibodyJointConstraint<S>>,
    list: Seq<MultibodyJointConstraint<S>>,
) -> Seq<MultibodyJointConstraint<S>> {
    Seq::new(
        old_slots.len(),
        |s: int|
            if s < list.len() {
                list[s]
            } else {
                MultibodyJointConstraint {
                    kind: MB_JOINT_KIND_INACTIVE,
                    impulse: S::zero_spec(),
                    ..old_slots[s]
                }
            },
    )
}

/// Every emitted constraint is on a degree of freedom of the multibody.
proof fn lemma_emitted_dofs<S: Scalar, D: Space<S>>(
    st: Seq<MultibodyLinkStatic<S, D>>,
    ws: Seq<MultibodyLinkWorkspace<S, D>>,
    soft: ConstraintSoftness<S>,
    ndofs: int,
    k: int,
)
    requires
        0 <= k <= st.len(),
        ndofs <= u32::MAX,
        dofs_in_range(st, ndofs),
    ensures
        forall|s: int|
            0 <= s < emitted(st, ws, soft, k).len() && (#[trigger] emitted(
                st,
                ws,
                soft,
                k,
            )[s]).kind != MB_JOINT_KIND_INACTIVE ==> emitted(st, ws, soft, k)[s].dof_id < ndofs,
    decreases k,
{
    if k > 0 {
        lemma_emitted_dofs(st, ws, soft, ndofs, k - 1);
        assert(st[k - 1].assembly_id + free_axes(
            st[k - 1].data.locked_axes,
            0,
            D::dimension_spec().spatial_spec(),
        ) <= ndofs);
        lemma_link_dofs(
            st[k - 1],
            ws[k - 1].coords@,
            soft,
            (k - 1) as u32,
            ndofs,
            D::dimension_spec().spatial_spec(),
        );
        let prev = emitted(st, ws, soft, k - 1);
        let all = emitted(st, ws, soft, k);
        assert forall|s: int|
            0 <= s < all.len() && (#[trigger] all[s]).kind
                != MB_JOINT_KIND_INACTIVE implies all[s].dof_id < ndofs by {
            if s < prev.len() {
                assert(all[s] == prev[s]);
            } else {
                let own = link_constraints(
                    st[k - 1],
                    ws[k - 1].coords@,
                    soft,
                    (k - 1) as u32,
                    D::dimension_spec().spatial_spec(),
                );
                assert(all[s] == own[s - prev.len()]);
            }
        }
    }
}

proof fn lemma_link_dofs<S: Scalar, D: Space<S>>(
    st: MultibodyLinkStatic<S, D>,
    coords: Seq<S>,
    soft: ConstraintSoftness<S>,
    k: u32,
    ndofs: int,
    n: int,
)
    requires
        0 <= n <= D::dimension_spec().spatial_spec(),
        st.assembly_id + free_axes(
            st.data.locked_axes,
            0,
            D::dimension_spec().spatial_spec(),
        ) <= ndofs <= u32::MAX,
    ensures
        forall|s: int|
            0 <= s < link_constraints(st, coords, soft, k, n).len() && (
            #[trigger] link_constraints(st, coords, soft, k, n)[s]).kind
                != MB_JOINT_KIND_INACTIVE ==> link_constraints(st, coords, soft, k, n)[s].dof_id
                < ndofs,
    decreases n,
{
    if n > 0 {
        lemma_link_dofs(st, coords, soft, k, ndofs, n - 1);
        let locked = st.data.locked_axes;
        let sd = D::dimension_spec().spatial_spec();
        lemma_free_axes_split(locked, 0, n, sd);
        lemma_free_axes_bound(locked, n, sd);
        lemma_free_axes_bound(locked, 0, n - 1);
        let prev = link_constraints(st, coords, soft, k, n - 1);
        let own = axis_constraints(st, coords, soft, k, n - 1);
        let all = link_constraints(st, coords, soft, k, n);
        assert forall|s: int|
            0 <= s < all.len() && (#[trigger] all[s]).kind
                != MB_JOINT_KIND_INACTIVE implies all[s].dof_id < ndofs by {
            if s < prev.len() {
                assert(all[s] == prev[s]);
            } else {
                assert(all[s] == own[s - prev.len()]);
                assert(own[0].kind != MB_JOINT_KIND_INACTIVE ==> own[0].dof_id < ndofs);
                assert(own.len() > 1 && own[1].kind != MB_JOINT_KIND_INACTIVE ==> own[1].dof_id
                    < ndofs);
                assert(own.len() <= 2);
            }
        }
    }
}

/// Where the links, degrees of freedom and mass matrix of `mb` live.
pub open spec fn init_room<S: Scalar, D: Space<S>>(
    ids: BatchIndices,
    b: int,
    mb: MultibodyInfo,
    stat: Seq<MultibodyLinkStatic<S, D>>,
    ws: Seq<MultibodyLinkWorkspace<S, D>>,
    mass: Seq<S>,
    pivots: Seq<u32>,
) -> bool {
    let nb = ids.num_batches as int;
    let lv = ivec_spec(nb, b, mb.first_link as int, mb.num_links as int);
    let piv = ivec_spec(nb, b, mb.first_dof as int, mb.ndofs as int);
    &&& room(nb, b, mb.first_link as int, mb.num_links as int, stat.len() as int)
    &&& room(nb, b, mb.first_link as int, mb.num_links as int, ws.len() as int)
    &&& room(nb, b, mb.first_dof as int, mb.ndofs as int, pivots.len() as int)
    &&& room(nb, b, mb.mass_matrix_offset as int, mb.ndofs * mb.ndofs, mass.len() as int)
    &&& dofs_in_range(vec_of(stat, lv), mb.ndofs as int)
    &&& pivots_in_range(vec_of(pivots, piv))
}

/// Rebuilds the joint constraints of a multibody from scratch. Runs after the
/// mass matrix was factored.
pub fn gpu_mb_init_joint_constraints<S: Scalar, D: Space<S>>(
    mb_idx: u32,
    b: u32,
    multibody_info: &[MultibodyInfo],
    links_static: &[MultibodyLinkStatic<S, D>],
    links_workspace: &[MultibodyLinkWorkspace<S, D>],
    mass_matrices: &[S],
    lu_pivots: &[u32],
    joint_constraints: &mut [MultibodyJointConstraint<S>],
    joint_constraint_columns: &mut [S],
    soft: ConstraintSoftness<S>,
    ids: &BatchIndices,
)
    requires
        mb_idx < ids.multibodies_len ==> {
            let mb = mb_at_spec(*ids, b as int, mb_idx as int, multibody_info@);
            let lv = ivec_spec(
                ids.num_batches as int,
                b as int,
                mb.first_link as int,
                mb.num_links as int,
            );
            &&& mb_listed(*ids, b as int, mb_idx as int, multibody_info@)
            &&& mb.ndofs != 0 ==> {
                &&& joint_room(
                    *ids,
                    b as int,
                    mb,
                    old(joint_constraints)@,
                    old(joint_constraint_columns)@,
                )
                &&& init_room(
                    *ids,
                    b as int,
                    mb,
                    links_static@,
                    links_workspace@,
                    mass_matrices@,
                    lu_pivots@,
                )
                &&& emitted(
                    vec_of(links_static@, lv),
                    vec_of(links_workspace@, lv),
                    soft,
                    mb.num_links as int,
                ).len() <= mb.max_constraints
            }
        },
    ensures
        ({
            let mb = mb_at_spec(*ids, b as int, mb_idx as int, multibody_info@);
            let nb = ids.num_batches as int;
            let n = mb.ndofs as int;
            let lv = ivec_spec(nb, b as int, mb.first_link as int, mb.num_links as int);
            let piv = ivec_spec(nb, b as int, mb.first_dof as int, n);
            let mv = imat_spec(nb, b as int, mb.mass_matrix_offset as int, n, n);
            let cv = joint_cons_view(*ids, b as int, mb);
            let colv = joint_cols_view(*ids, b as int, mb);
            if mb_idx < ids.multibodies_len && mb.ndofs != 0 {
                let slots = initial_slots(
                    vec_of(old(joint_constraints)@, cv),
                    emitted(
                        vec_of(links_static@, lv),
                        vec_of(links_workspace@, lv),
                        soft,
                        mb.num_links as int,
                    ),
                );
                &&& forall|s: int|
                    0 <= s < mb.max_constraints ==> #[trigger] column(
                        mat_of(final(joint_constraint_columns)@, colv),
                        s,
                    ) == (if slots[s].kind == MB_JOINT_KIND_INACTIVE {
                        column(mat_of(old(joint_constraint_columns)@, colv), s)
                    } else {
                        lu_solve(
                            mat_of(mass_matrices@, mv),
                            vec_of(lu_pivots@, piv),
                            unit_vector(n, slots[s].dof_id as int),
                        )
                    })
                &&& forall|s: int|
                    0 <= s < mb.max_constraints ==> #[trigger] vec_of(
                        final(joint_constraints)@,
                        cv,
                    )[s] == finalized(
                        slots[s],
                        column(
                            mat_of(final(joint_constraint_columns)@, colv),
                            s,
                        )[slots[s].dof_id as int],
                    )
                &&& same_outside_vec(old(joint_constraints)@, final(joint_constraints)@, cv)
                &&& same_outside_mat(
                    old(joint_constraint_columns)@,
                    final(joint_constraint_columns)@,
                    colv,
                )
            } else {
                &&& final(joint_constraints)@ == old(joint_constraints)@
                &&& final(joint_constraint_columns)@ == old(joint_constraint_columns)@
            }
        }),
{
    if mb_idx >= ids.multibodies_len {
        return ;
    }
    let mb = mb_at(ids, b, mb_idx, multibody_info);
    if mb.ndofs == 0 {
        return ;
    }
    let n: usize = mb.ndofs as usize;
    let lv = ids.ivec(b, mb.first_link as usize, mb.num_links as usize, links_static.len());
    proof {
        crate::batch::lemma_ivec_fits(
            ids.num_batches as int,
            b as int,
            mb.first_link as int,
            mb.num_links as int,
            links_workspace@.len() as int,
        );
    }
    let piv = ids.ivec(b, mb.first_dof as usize, n, lu_pivots.len());
    let mv = ids.imat(b, mb.mass_matrix_offset as usize, n, n, mass_matrices.len());
    let (cv, colv) = joint_views(ids, b, &mb, joint_constraints, joint_constraint_columns);
    let ghost st = vec_of(links_static@, lv);
    let ghost wk = vec_of(links_workspace@, lv);
    let ghost list = emitted(st, wk, soft, mb.num_links as int);
    let ghost slots0 = vec_of(joint_constraints@, cv);
    let ghost slots = initial_slots(slots0, list);
    proof {
        lemma_emitted_dofs(st, wk, soft, n as int, mb.num_links as int);
    }
    let out = emit_joint_constraints(links_static, links_workspace, lv, soft);
    let total: usize = cv.len;
    let mut s: usize = 0;
    while s < total
        invariant
            cv.fits(old(joint_constraints)@.len() as int),
            total == cv.len,
            out@ == list,
            list.len() <= total,
            slots0 == vec_of(old(joint_constraints)@, cv),
            slots == initial_slots(slots0, list),
            s <= total,
            same_outside_vec(old(joint_constraints)@, joint_constraints@, cv),
            forall|j: int|
                0 <= j < total ==> #[trigger] vec_of(joint_constraints@, cv)[j] == (if j < s {
                    slots[j]
                } else {
                    slots0[j]
                }),
        decreases total - s,
    {
        let c = if s < out.len() {
            out[s]
        } else {
            let mut cz = vec_get(joint_constraints, cv, s);
            cz.kind = MB_JOINT_KIND_INACTIVE;
            cz.impulse = S::zero();
            cz
        };
        vec_set(joint_constraints, cv, s, c);
        s = s + 1;
    }
    let ghost m = mat_of(mass_matrices@, mv);
    let ghost pv = vec_of(lu_pivots@, piv);
    let ghost cols0 = mat_of(joint_constraint_columns@, colv);
    let mut s: usize = 0;
    while s < total
        invariant
            cv.fits(old(joint_constraints)@.len() as int),
            colv.fits(old(joint_constraint_columns)@.len() as int),
            mv.fits(mass_matrices@.len() as int),
            mv.nrows == n,
            mv.ncols == n,
            n > 0,
            piv.fits(lu_pivots@.len() as int),
            piv.len == n,
            pivots_in_range(pv),
            m == mat_of(mass_matrices@, mv),
            pv == vec_of(lu_pivots@, piv),
            cols0 == mat_of(old(joint_constraint_columns)@, colv),
            total == cv.len,
            colv.ncols == total,
            colv.nrows == n,
            slots.len() == total,
            s <= total,
            forall|j: int|
                0 <= j < total && (#[trigger] slots[j]).kind != MB_JOINT_KIND_INACTIVE
                    ==> slots[j].dof_id < n,
            same_outside_vec(old(joint_constraints)@, joint_constraints@, cv),
            same_outside_mat(old(joint_constraint_columns)@, joint_constraint_columns@, colv),
            forall|j: int|
                0 <= j < total ==> #[trigger] column(mat_of(joint_constraint_columns@, colv), j)
                    == (if j >= s || slots[j].kind == MB_JOINT_KIND_INACTIVE {
                    column(cols0, j)
                } else {
                    lu_solve(m, pv, unit_vector(n as int, slots[j].dof_id as int))
                }),
            forall|j: int|
                0 <= j < total ==> #[trigger] vec_of(joint_constraints@, cv)[j] == (if j < s {
                    finalized(
                        slots[j],
                        column(
                            mat_of(joint_constraint_columns@, colv),
                            j,
                        )[slots[j].dof_id as int],
                    )
                } else {
                    slots[j]
                }),
        decreases total - s,
    {
        let mut c = vec_get(joint_constraints, cv, s);
        assert(c == slots[s as int]);
        if c.kind != MB_JOINT_KIND_INACTIVE {
            let ghost before = joint_constraint_columns@;
            proof {
                lemma_column_change(before, before, colv, s as int);
            }
            let dv = VecView {
                base: colv.base + s * colv.col_stride,
                stride: colv.row_stride,
                len: n,
            };
            assert(dv == column_view(colv, s as int));
            lu_solve_unit(
                mass_matrices,
                mv,
                lu_pivots,
                piv,
                joint_constraint_columns,
                dv,
                c.dof_id,
            );
            proof {
                lemma_column_change(before, joint_constraint_columns@, colv, s as int);
            }
            let lhs = vec_get(joint_constraint_columns, dv, c.dof_id as usize);
            let gain = lhs.times(c.cfm_coeff).plus(c.cfm_gain);
            c.cfm_gain = gain;
            c.inv_lhs = inv(lhs.plus(gain));
            vec_set(joint_constraints, cv, s, c);
            assert forall|j: int| 0 <= j < total implies #[trigger] vec_of(
                joint_constraints@,
                cv,
            )[j] == (if j < s + 1 {
                finalized(
                    slots[j],
                    column(
                        mat_of(joint_constraint_columns@, colv),
                        j,
                    )[slots[j].dof_id as int],
                )
            } else {
                slots[j]
            }) by {
                if j != s {
                    assert(column(mat_of(joint_constraint_columns@, colv), j) == column(
                        mat_of(before, colv),
                        j,
                    ));
                }
            }
        }
        s = s + 1;
    }
}

// ---- refresh ----

/// The limits of one axis.
pub fn limits_at<S: Scalar, D: Space<S>>(stat: &MultibodyLinkStatic<S, D>, axis: u32) -> (r:
    JointLimits<S>)
    ensures
        r == stat.data.limits[if axis < 5 {
            axis as int
        } else {
            5
        }],
{
    if axis < 5 {
        stat.data.limits[axis as usize]
    } else {
        stat.data.limits[5]
    }
}

/// The motor of one axis.
pub fn motor_at<S: Scalar, D: Space<S>>(stat: &MultibodyLinkStatic<S, D>, axis: u32) -> (r:
    JointMotor<S>)
    ensures
        r == stat.data.motors[if axis < 5 {
            axis as int
        } else {
            5
        }],
{
    if axis < 5 {
        stat.data.motors[axis as usize]
    } else {
        stat.data.motors[5]
    }
}

/// A slot after the joint moved: rebuilt at the current position, with the
/// effective mass that it had.
pub open spec fn refreshed<S: Scalar, D: Space<S>>(
    c: MultibodyJointConstraint<S>,
    st: Seq<MultibodyLinkStatic<S, D>>,
    ws: Seq<MultibodyLinkWorkspace<S, D>>,
    soft: ConstraintSoftness<S>,
) -> MultibodyJointConstraint<S> {
    if c.kind == MB_JOINT_KIND_INACTIVE {
        c
    } else {
        let link = packed_link(c.kind_extra);
        let axis = packed_axis(c.kind_extra);
        let j = st[link as int].data;
        let pos = ws[link as int].coords[axis as int];
        let limits = j.limits[axis as int];
        let fresh = if c.kind == MB_JOINT_KIND_MOTOR {
            motor_constraint(
                c.dof_id,
                link,
                axis,
                pos,
                soft.dt,
                j.motors[axis as int],
                if has_axis(j.limit_axes, axis as int) && !has_axis(j.locked_axes, axis as int) {
                    Some(limits)
                } else {
                    None
                },
            )
        } else {
            limit_constraint(
                c.dof_id,
                link,
                axis,
                pos,
                limits,
                soft.joint_erp_inv_dt,
                soft.joint_cfm_coeff,
            )
        };
        MultibodyJointConstraint { inv_lhs: c.inv_lhs, cfm_gain: c.cfm_gain, ..fresh }
    }
}

/// The links and axes that the slots name exist.
pub open spec fn sources_ok<S: Scalar>(
    cons: Seq<MultibodyJointConstraint<S>>,
    links: int,
) -> bool {
    forall|s: int|
        0 <= s < cons.len() && (#[trigger] cons[s]).kind != MB_JOINT_KIND_INACTIVE ==> packed_link(
            cons[s].kind_extra,
        ) < links && packed_axis(cons[s].kind_extra) < 6
}

/// Updates the joint constraints of a multibody to its current coordinates.
pub fn gpu_mb_refresh_joint_constraints<S: Scalar, D: Space<S>>(
    mb_idx: u32,
    b: u32,
    multibody_info: &[MultibodyInfo],
    links_static: &[MultibodyLinkStatic<S, D>],
    links_workspace: &[MultibodyLinkWorkspace<S, D>],
    joint_constraints: &mut [MultibodyJointConstraint<S>],
    soft: ConstraintSoftness<S>,
    ids: &BatchIndices,
)
    requires
        mb_idx < ids.multibodies_len ==> {
            let mb = mb_at_spec(*ids, b as int, mb_idx as int, multibody_info@);
            let nb = ids.num_batches as int;
            &&& mb_listed(*ids, b as int, mb_idx as int, multibody_info@)
            &&& mb.ndofs != 0 ==> {
                &&& b * ids.joint_constraints_batch_capacity + mb.first_constraint + mb.max_constraints
                    <= old(joint_constraints)@.len() <= usize::MAX
                &&& room(
                    nb,
                    b as int,
                    mb.first_link as int,
                    mb.num_links as int,
                    links_static@.len() as int,
                )
                &&& room(
                    nb,
                    b as int,
                    mb.first_link as int,
                    mb.num_links as int,
                    links_workspace@.len() as int,
                )
                &&& sources_ok(
                    vec_of(old(joint_constraints)@, joint_cons_view(*ids, b as int, mb)),
                    mb.num_links as int,
                )
            }
        },
    ensures
        ({
            let mb = mb_at_spec(*ids, b as int, mb_idx as int, multibody_info@);
            let nb = ids.num_batches as int;
            let lv = ivec_spec(nb, b as int, mb.first_link as int, mb.num_links as int);
            let cv = joint_cons_view(*ids, b as int, mb);
            if mb_idx < ids.multibodies_len && mb.ndofs != 0 {
                &&& forall|s: int|
                    0 <= s < mb.max_constraints ==> #[trigger] vec_of(
                        final(joint_constraints)@,
                        cv,
                    )[s] == refreshed(
                        vec_of(old(joint_constraints)@, cv)[s],
                        vec_of(links_static@, lv),
                        vec_of(links_workspace@, lv),
                        soft,
                    )
                &&& same_outside_vec(old(joint_constraints)@, final(joint_constraints)@, cv)
            } else {
                final(joint_constraints)@ == old(joint_constraints)@
            }
        }),
{
    if mb_idx >= ids.multibodies_len {
        return ;
    }
    let mb = mb_at(ids, b, mb_idx, multibody_info);
    if mb.ndofs == 0 {
        return ;
    }
    let len: usize = joint_constraints.len();
    assert(0 <= b * ids.joint_constraints_batch_capacity) by (nonlinear_arith)
        requires
            b >= 0,
            ids.joint_constraints_batch_capacity >= 0,
    ;
    let cv = VecView {
        base: b as usize * ids.joint_constraints_batch_capacity as usize
            + mb.first_constraint as usize,
        stride: 1,
        len: mb.max_constraints as usize,
    };
    let lv = ids.ivec(b, mb.first_link as usize, mb.num_links as usize, links_static.len());
    proof {
        crate::batch::lemma_ivec_fits(
            ids.num_batches as int,
            b as int,
            mb.first_link as int,
            mb.num_links as int,
            links_workspace@.len() as int,
        );
    }
    let ghost st = vec_of(links_static@, lv);
    let ghost wk = vec_of(links_workspace@, lv);
    let ghost slots = vec_of(joint_constraints@, cv);
    let mut s: usize = 0;
    while s < cv.len
        invariant
            cv.fits(old(joint_constraints)@.len() as int),
            lv.fits(links_static@.len() as int),
            lv.fits(links_workspace@.len() as int),
            lv.len == mb.num_links,
            st == vec_of(links_static@, lv),
            wk == vec_of(links_workspace@, lv),
            slots == vec_of(old(joint_constraints)@, cv),
            sources_ok(slots, mb.num_links as int),
            s <= cv.len,
            same_outside_vec(old(joint_constraints)@, joint_constraints@, cv),
            forall|j: int|
                0 <= j < cv.len ==> #[trigger] vec_of(joint_constraints@, cv)[j] == (if j < s {
                    refreshed(slots[j], st, wk, soft)
                } else {
                    slots[j]
                }),
        decreases cv.len - s,
    {
        let c = vec_get(joint_constraints, cv, s);
        assert(c == slots[s as int]);
        if c.kind != MB_JOINT_KIND_INACTIVE {
            let link: u32 = c.kind_extra & 0xffff;
            let axis: u32 = c.kind_extra >> 16u32;
            let stat = vec_get(links_static, lv, link as usize);
            let w = vec_get(links_workspace, lv, link as usize);
            let pos = w.coords[axis as usize];
            let limits = limits_at(&stat, axis);
            let mut fresh = if c.kind == MB_JOINT_KIND_MOTOR {
                let motor = motor_at(&stat, axis);
                let l = if test_axis(stat.data.limit_axes, axis) && !test_axis(
                    stat.data.locked_axes,
                    axis,
                ) {
                    Some(limits)
                } else {
                    None
                };
                build_motor_constraint(c.dof_id, link, axis, pos, soft.dt, &motor, l)
            } else {
                build_limit_constraint(
                    c.dof_id,
                    link,
                    axis,
                    pos,
                    limits,
                    soft.joint_erp_inv_dt,
                    soft.joint_cfm_coeff,
                )
            };
            fresh.inv_lhs = c.inv_lhs;
            fresh.cfm_gain = c.cfm_gain;
            vec_set(joint_constraints, cv, s, fresh);
        }
        s = s + 1;
    }
}

// ---- what refreshing means ----

/// The slot `c0` names a link and an axis that exist, and refreshing it at the
/// coordinates of `ws` gives the slot `c1`, whatever the inverse inertia `lhs` with
/// which both were finalized.
pub open spec fn follows<S: Scalar, D: Space<S>>(
    c0: MultibodyJointConstraint<S>,
    c1: MultibodyJointConstraint<S>,
    st: Seq<MultibodyLinkStatic<S, D>>,
    ws: Seq<MultibodyLinkWorkspace<S, D>>,
    soft: ConstraintSoftness<S>,
) -> bool {
    &&& c0.kind != MB_JOINT_KIND_INACTIVE ==> packed_link(c0.kind_extra) < st.len()
        && packed_axis(c0.kind_extra) < 6
    &&& forall|lhs: S|
        refreshed(#[trigger] finalized(c0, lhs), st, ws, soft) == finalized(c1, lhs)
}

proof fn lemma_axis_follows<S: Scalar, D: Space<S>>(
    st: Seq<MultibodyLinkStatic<S, D>>,
    ws0: Seq<MultibodyLinkWorkspace<S, D>>,
    ws1: Seq<MultibodyLinkWorkspace<S, D>>,
    soft: ConstraintSoftness<S>,
    k: int,
    axis: int,
)
    requires
        0 <= k < st.len() <= 0x10000,
        0 <= axis < D::dimension_spec().spatial_spec(),
    ensures
        ({
            let a = axis_constraints(st[k], ws0[k].coords@, soft, k as u32, axis);
            let b = axis_constraints(st[k], ws1[k].coords@, soft, k as u32, axis);
            &&& a.len() == b.len()
            &&& forall|s: int| 0 <= s < a.len() ==> follows(#[trigger] a[s], b[s], st, ws1, soft)
        }),
{
    link_axis_round_trip(k as u32, axis as u32);
}

proof fn lemma_link_follows<S: Scalar, D: Space<S>>(
    st: Seq<MultibodyLinkStatic<S, D>>,
    ws0: Seq<MultibodyLinkWorkspace<S, D>>,
    ws1: Seq<MultibodyLinkWorkspace<S, D>>,
    soft: ConstraintSoftness<S>,
    k: int,
    n: int,
)
    requires
        0 <= k < st.len() <= 0x10000,
        0 <= n <= D::dimension_spec().spatial_spec(),
    ensures
        ({
            let a = link_constraints(st[k], ws0[k].coords@, soft, k as u32, n);
            let b = link_constraints(st[k], ws1[k].coords@, soft, k as u32, n);
            &&& a.len() == b.len()
            &&& forall|s: int| 0 <= s < a.len() ==> follows(#[trigger] a[s], b[s], st, ws1, soft)
        }),
    decreases n,
{
    if n > 0 {
        lemma_link_follows(st, ws0, ws1, soft, k, n - 1);
        lemma_axis_follows(st, ws0, ws1, soft, k, n - 1);
        let p = link_constraints(st[k], ws0[k].coords@, soft, k as u32, n - 1);
        let q = link_constraints(st[k], ws1[k].coords@, soft, k as u32, n - 1);
        let x = axis_constraints(st[k], ws0[k].coords@, soft, k as u32, n - 1);
        let y = axis_constraints(st[k], ws1[k].coords@, soft, k as u32, n - 1);
        assert forall|s: int| 0 <= s < (p + x).len() implies follows(
            #[trigger] (p + x)[s],
            (q + y)[s],
            st,
            ws1,
            soft,
        ) by {
            if s < p.len() {
                assert(follows(p[s], q[s], st, ws1, soft));
            } else {
                assert(follows(x[s - p.len()], y[s - p.len()], st, ws1, soft));
            }
        }
    }
}

/// Refreshing the constraints of the first `k` links after the joints moved gives the
/// constraints that building them anew would give, with the effective masses of the
/// first build.
pub proof fn refreshing_follows_the_joints<S: Scalar, D: Space<S>>(
    st: Seq<MultibodyLinkStatic<S, D>>,
    ws0: Seq<MultibodyLinkWorkspace<S, D>>,
    ws1: Seq<MultibodyLinkWorkspace<S, D>>,
    soft: ConstraintSoftness<S>,
    k: int,
)
    requires
        0 <= k <= st.len() <= 0x10000,
    ensures
        emitted(st, ws0, soft, k).len() == emitted(st, ws1, soft, k).len(),
        forall|s: int|
            0 <= s < emitted(st, ws0, soft, k).len() ==> follows(
                #[trigger] emitted(st, ws0, soft, k)[s],
                emitted(st, ws1, soft, k)[s],
                st,
                ws1,
                soft,
            ),
    decreases k,
{
    if k > 0 {
        refreshing_follows_the_joints(st, ws0, ws1, soft, k - 1);
        if st[k - 1].kinematic == 0 {
            let n = D::dimension_spec().spatial_spec();
            lemma_link_follows(st, ws0, ws1, soft, k - 1, n);
            let p = emitted(st, ws0, soft, k - 1);
            let q = emitted(st, ws1, soft, k - 1);
            let x = link_constraints(st[k - 1], ws0[k - 1].coords@, soft, (k - 1) as u32, n);
            let y = link_constraints(st[k - 1], ws1[k - 1].coords@, soft, (k - 1) as u32, n);
            assert forall|s: int| 0 <= s < (p + x).len() implies follows(
                #[trigger] (p + x)[s],
                (q + y)[s],
                st,
                ws1,
                soft,
            ) by {
                if s < p.len() {
                    assert(follows(p[s], q[s], st, ws1, soft));
                } else {
                    assert(follows(x[s - p.len()], y[s - p.len()], st, ws1, soft));
                }
            }
        }
    }
}

/// In exact arithmetic, the velocity that a motor without a spring asks for does not
/// carry the joint past its limits within the time step.
pub proof fn motors_stay_in_limits<S: Scalar>(
    v: spec_fn(S) -> real,
    dof: u32,
    link: u32,
    axis: u32,
    pos: S,
    dt: S,
    motor: JointMotor<S>,
    limits: JointLimits<S>,
)
    requires
        exact(v),
        ordered(v),
        0real < v(dt),
        v(limits.min) <= v(limits.max),
        motor.model != FORCE_BASED,
        motor_params_spec(motor, dt).erp_inv_dt.same_spec(S::zero_spec()),
    ensures
        ({
            let c = motor_constraint(dof, link, axis, pos, dt, motor, Some(limits));
            v(limits.min) <= v(pos) - v(c.rhs) * v(dt) <= v(limits.max)
        }),
{
    let d = v(dt);
    let r = v(inv_spec(dt));
    let lo = v(limits.min) - v(pos);
    let hi = v(limits.max) - v(pos);
    assert(v(dt) != v(S::zero_spec()));
    assert(r == 1real / d);
    assert(r * d == 1real) by (nonlinear_arith)
        requires
            r == 1real / d,
            0real < d,
    ;
    assert(0real < r) by (nonlinear_arith)
        requires
            r * d == 1real,
            0real < d,
    ;
    assert(lo * r <= hi * r) by (nonlinear_arith)
        requires
            lo <= hi,
            0real < r,
    ;
    let lo_s = limits.min.minus_spec(pos).times_spec(inv_spec(dt));
    let hi_s = limits.max.minus_spec(pos).times_spec(inv_spec(dt));
    clamp_stays_in_range(v, motor.target_vel, lo_s, hi_s);
    let x = v(clamp_spec(motor.target_vel, lo_s, hi_s));
    assert(lo * r <= x <= hi * r);
    assert((lo * r) * d == lo * (r * d) && (hi * r) * d == hi * (r * d)) by (nonlinear_arith);
    assert((lo * r) * d <= x * d <= (hi * r) * d) by (nonlinear_arith)
        requires
            lo * r <= x <= hi * r,
            0real < d,
    ;
    assert(lo * 1real == lo && hi * 1real == hi) by (nonlinear_arith);
    assert((-x) * d == -(x * d)) by (nonlinear_arith);
}

} // verus!
