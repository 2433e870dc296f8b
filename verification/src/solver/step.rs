//! Refreshing, warm starting and solving one contact between two bodies.
use super::constraint::{
    ConstraintRow, TwoBodyConstraint, TwoBodyConstraintBuilder, TwoBodyConstraintElement,
    TwoBodyConstraintInfo, TwoBodyModel,
};
use super::utils::{tangent0_of, tangents_of};
use crate::scalar::{Scalar, clamp, clamp_spec, threshold_inv, threshold_inv_spec};
use crate::sim_params::RbdSimParams;
use crate::space::{
    Dimension, Pose, Space, V2, Velocity, cap_magnitude_vec2, cap_magnitude_vec2_spec,
};
use vstd::prelude::*;

verus! {

// ---- refreshing ----

/// A tangent row in a new substep, where the contact has slid by `slide`.
pub open spec fn refreshed_tangent<S: Scalar, D: Space<S>>(
    row: ConstraintRow<S, D>,
    slide: S,
    params: RbdSimParams<S>,
) -> ConstraintRow<S, D> {
    ConstraintRow {
        rhs: row.rhs_wo_bias.plus_spec(slide.times_spec(params.inv_dt_spec())),
        impulse: row.impulse.times_spec(params.warmstart_coefficient),
        ..row
    }
}

/// An element in a new substep, with the two bodies at `pose1` and `pose2`.
pub open spec fn refreshed_element<S: Scalar, D: Space<S>>(
    e: TwoBodyConstraintElement<S, D>,
    info: TwoBodyConstraintInfo<S, D>,
    pose1: Pose<S, D>,
    pose2: Pose<S, D>,
    dir: D::V,
    tangent0: D::V,
    params: RbdSimParams<S>,
) -> TwoBodyConstraintElement<S, D> {
    let gap = D::vsub_spec(pose1.point_spec(info.local_pt_a), pose2.point_spec(info.local_pt_b));
    let dist = info.dist.plus_spec(D::vdot_spec(gap, dir));
    let wo = info.normal_vel.plus_spec(
        dist.maximum_spec(S::zero_spec()).times_spec(params.inv_dt_spec()),
    );
    let bias = clamp_spec(
        dist.plus_spec(params.allowed_linear_error_spec()).times_spec(
            params.contact_erp_inv_dt_spec(),
        ),
        params.max_corrective_velocity_spec().neg_spec(),
        S::zero_spec(),
    );
    TwoBodyConstraintElement {
        normal_part: ConstraintRow {
            rhs: wo.plus_spec(bias),
            rhs_wo_bias: wo,
            impulse: e.normal_part.impulse.times_spec(params.warmstart_coefficient),
            ..e.normal_part
        },
        tangent0: refreshed_tangent(e.tangent0, D::vdot_spec(gap, tangent0), params),
        tangent1: match D::dimension_spec() {
            Dimension::Two => e.tangent1,
            Dimension::Three => refreshed_tangent(
                e.tangent1,
                D::vdot_spec(gap, D::bitangent_spec(dir, tangent0)),
                params,
            ),
        },
        ..e
    }
}

fn refresh_tangent<S: Scalar, D: Space<S>>(
    row: ConstraintRow<S, D>,
    slide: S,
    params: &RbdSimParams<S>,
) -> (r: ConstraintRow<S, D>)
    ensures
        r == refreshed_tangent(row, slide, *params),
{
    ConstraintRow {
        rhs: row.rhs_wo_bias.plus(slide.times(params.inv_dt())),
        impulse: row.impulse.times(params.warmstart_coefficient),
        ..row
    }
}

fn refresh_element<S: Scalar, D: Space<S>>(
    e: TwoBodyConstraintElement<S, D>,
    info: &TwoBodyConstraintInfo<S, D>,
    pose1: &Pose<S, D>,
    pose2: &Pose<S, D>,
    dir: D::V,
    tangents: (D::V, D::V),
    params: &RbdSimParams<S>,
) -> (r: TwoBodyConstraintElement<S, D>)
    requires
        tangents.1 == D::bitangent_spec(dir, tangents.0),
    ensures
        r == refreshed_element(e, *info, *pose1, *pose2, dir, tangents.0, *params),
{
    let gap = D::vsub(pose1.point(info.local_pt_a), pose2.point(info.local_pt_b));
    let dist = info.dist.plus(D::vdot(gap, dir));
    let wo = info.normal_vel.plus(dist.maximum(S::zero()).times(params.inv_dt()));
    let bias = clamp(
        dist.plus(params.allowed_linear_error()).times(params.contact_erp_inv_dt()),
        params.max_corrective_velocity().negate(),
        S::zero(),
    );
    let tangent1 = match D::dimension() {
        Dimension::Two => e.tangent1,
        Dimension::Three => refresh_tangent(e.tangent1, D::vdot(gap, tangents.1), params),
    };
    TwoBodyConstraintElement {
        normal_part: ConstraintRow {
            rhs: wo.plus(bias),
            rhs_wo_bias: wo,
            impulse: e.normal_part.impulse.times(params.warmstart_coefficient),
            ..e.normal_part
        },
        tangent0: refresh_tangent(e.tangent0, D::vdot(gap, tangents.0), params),
        tangent1: tangent1,
        tangent_coupling: e.tangent_coupling,
    }
}

/// A contact in a new substep.
pub open spec fn refreshed<S: Scalar, D: Space<S>>(
    c: TwoBodyModel<S, D>,
    infos: Seq<TwoBodyConstraintInfo<S, D>>,
    poses: Seq<Pose<S, D>>,
    params: RbdSimParams<S>,
) -> TwoBodyModel<S, D> {
    TwoBodyModel {
        cfm_factor: params.contact_cfm_factor_spec(),
        elements: Seq::new(
            c.elements.len(),
            |k: int|
                if k < c.len {
                    refreshed_element(
                        c.elements[k],
                        infos[k],
                        poses[c.solver_body_a as int],
                        poses[c.solver_body_b as int],
                        c.dir_a,
                        tangent0_of::<S, D>(c.dir_a, c.tangent_a),
                        params,
                    )
                } else {
                    c.elements[k]
                },
        ),
        ..c
    }
}

/// Updates a contact for a new substep. `poses` starts at the first body of the
/// batch.
pub fn update_constraint<S: Scalar, D: Space<S>>(
    constraint: &mut TwoBodyConstraint<S, D>,
    builder: &TwoBodyConstraintBuilder<S, D>,
    poses: &[Pose<S, D>],
    params: &RbdSimParams<S>,
)
    requires
        old(constraint).len <= 4,
        old(constraint).solver_body_a < poses@.len(),
        old(constraint).solver_body_b < poses@.len(),
    ensures
        final(constraint)@ == refreshed(old(constraint)@, builder.infos@, poses@, *params),
{
    let ghost c0 = constraint@;
    let ghost goal = refreshed(c0, builder.infos@, poses@, *params);
    let pose1 = poses[constraint.solver_body_a as usize];
    let pose2 = poses[constraint.solver_body_b as usize];
    let dir = constraint.dir_a;
    let tangents = tangents_of::<S, D>(dir, constraint.tangent_a);
    let len: usize = constraint.len as usize;
    let mut k: usize = 0;
    while k < len
        invariant
            len == c0.len,
            len <= 4,
            k <= len,
            pose1 == poses@[c0.solver_body_a as int],
            pose2 == poses@[c0.solver_body_b as int],
            dir == c0.dir_a,
            tangents.0 == tangent0_of::<S, D>(c0.dir_a, c0.tangent_a),
            tangents.1 == D::bitangent_spec(dir, tangents.0),
            goal == refreshed(c0, builder.infos@, poses@, *params),
            c0.elements.len() == 4,
            constraint.elements@.len() == 4,
            constraint@ == (TwoBodyModel { elements: constraint.elements@, ..c0 }),
            forall|i: int|
                0 <= i < 4 ==> #[trigger] constraint.elements@[i] == (if i < k {
                    goal.elements[i]
                } else {
                    c0.elements[i]
                }),
        decreases len - k,
    {
        let before = constraint.elements[k];
        assert(before == c0.elements[k as int]);
        let e = refresh_element(before, &builder.infos[k], &pose1, &pose2, dir, tangents, params);
        constraint.elements[k] = e;
        k = k + 1;
    }
    constraint.cfm_factor = params.contact_cfm_factor();
    assert(constraint.elements@ =~= goal.elements);
}

// ---- impulses on velocities ----

/// The velocity after an impulse `x` along `dir`, of which `lin` reaches the
/// linear part.
pub open spec fn pushed<S: Scalar, D: Space<S>>(
    v: Velocity<S, D>,
    dir: D::V,
    im: D::V,
    ii: D::A,
    lin: S,
    x: S,
) -> Velocity<S, D> {
    Velocity {
        linear: D::vadd_spec(v.linear, D::vscale_spec(D::vmul_spec(dir, im), lin)),
        angular: D::aadd_spec(v.angular, D::ascale_spec(ii, x)),
    }
}

fn push<S: Scalar, D: Space<S>>(
    v: &mut Velocity<S, D>,
    dir: D::V,
    im: D::V,
    ii: D::A,
    lin: S,
    x: S,
)
    ensures
        *final(v) == pushed(*old(v), dir, im, ii, lin, x),
{
    v.linear = D::vadd(v.linear, D::vscale(D::vmul(dir, im), lin));
    v.angular = D::aadd(v.angular, D::ascale(ii, x));
}

/// The velocity after the impulses `x`, `y` along two tangents.
pub open spec fn pushed2<S: Scalar, D: Space<S>>(
    v: Velocity<S, D>,
    t0: D::V,
    t1: D::V,
    im: D::V,
    ii0: D::A,
    ii1: D::A,
    lin: (S, S),
    x: (S, S),
) -> Velocity<S, D> {
    Velocity {
        linear: D::vadd_spec(
            v.linear,
            D::vmul_spec(D::vadd_spec(D::vscale_spec(t0, lin.0), D::vscale_spec(t1, lin.1)), im),
        ),
        angular: D::aadd_spec(
            v.angular,
            D::aadd_spec(D::ascale_spec(ii0, x.0), D::ascale_spec(ii1, x.1)),
        ),
    }
}

fn push2<S: Scalar, D: Space<S>>(
    v: &mut Velocity<S, D>,
    t0: D::V,
    t1: D::V,
    im: D::V,
    ii0: D::A,
    ii1: D::A,
    lin: (S, S),
    x: (S, S),
)
    ensures
        *final(v) == pushed2(*old(v), t0, t1, im, ii0, ii1, lin, x),
{
    v.linear = D::vadd(v.linear, D::vmul(D::vadd(D::vscale(t0, lin.0), D::vscale(t1, lin.1)), im));
    v.angular = D::aadd(v.angular, D::aadd(D::ascale(ii0, x.0), D::ascale(ii1, x.1)));
}

/// The velocity of body A (or B) after the impulse `x` along the normal.
pub open spec fn pushed_normal<S: Scalar, D: Space<S>>(
    c: TwoBodyModel<S, D>,
    row: ConstraintRow<S, D>,
    is_a: bool,
    v: Velocity<S, D>,
    x: S,
) -> Velocity<S, D> {
    if is_a {
        pushed(v, c.dir_a, c.im_a, row.ii_torque_dir_a, x, x)
    } else {
        pushed(v, c.dir_a, c.im_b, row.ii_torque_dir_b, x.neg_spec(), x)
    }
}

/// The velocity of body A (or B) after the impulses `x` along the tangents.
pub open spec fn pushed_tangent<S: Scalar, D: Space<S>>(
    c: TwoBodyModel<S, D>,
    e: TwoBodyConstraintElement<S, D>,
    is_a: bool,
    v: Velocity<S, D>,
    x: (S, S),
) -> Velocity<S, D> {
    let t0 = tangent0_of::<S, D>(c.dir_a, c.tangent_a);
    let t1 = D::bitangent_spec(c.dir_a, t0);
    match D::dimension_spec() {
        Dimension::Two => if is_a {
            pushed(v, t0, c.im_a, e.tangent0.ii_torque_dir_a, x.0, x.0)
        } else {
            pushed(v, t0, c.im_b, e.tangent0.ii_torque_dir_b, x.0.neg_spec(), x.0)
        },
        Dimension::Three => if is_a {
            pushed2(
                v,
                t0,
                t1,
                c.im_a,
                e.tangent0.ii_torque_dir_a,
                e.tangent1.ii_torque_dir_a,
                x,
                x,
            )
        } else {
            pushed2(
                v,
                t0,
                t1,
                c.im_b,
                e.tangent0.ii_torque_dir_b,
                e.tangent1.ii_torque_dir_b,
                (x.0.neg_spec(), x.1.neg_spec()),
                x,
            )
        },
    }
}

fn push_normal<S: Scalar, D: Space<S>>(
    c: &TwoBodyConstraint<S, D>,
    row: &ConstraintRow<S, D>,
    is_a: bool,
    v: &mut Velocity<S, D>,
    x: S,
)
    ensures
        *final(v) == pushed_normal(c@, *row, is_a, *old(v), x),
{
    if is_a {
        push(v, c.dir_a, c.im_a, row.ii_torque_dir_a, x, x);
    } else {
        push(v, c.dir_a, c.im_b, row.ii_torque_dir_b, x.negate(), x);
    }
}

fn push_tangent<S: Scalar, D: Space<S>>(
    c: &TwoBodyConstraint<S, D>,
    e: &TwoBodyConstraintElement<S, D>,
    is_a: bool,
    v: &mut Velocity<S, D>,
    x: (S, S),
)
    ensures
        *final(v) == pushed_tangent(c@, *e, is_a, *old(v), x),
{
    let (t0, t1) = tangents_of::<S, D>(c.dir_a, c.tangent_a);
    match D::dimension() {
        Dimension::Two => {
            if is_a {
                push(v, t0, c.im_a, e.tangent0.ii_torque_dir_a, x.0, x.0);
            } else {
                push(v, t0, c.im_b, e.tangent0.ii_torque_dir_b, x.0.negate(), x.0);
            }
        },
        Dimension::Three => {
            if is_a {
                push2(
                    v,
                    t0,
                    t1,
                    c.im_a,
                    e.tangent0.ii_torque_dir_a,
                    e.tangent1.ii_torque_dir_a,
                    x,
                    x,
                );
            } else {
                push2(
                    v,
                    t0,
                    t1,
                    c.im_b,
                    e.tangent0.ii_torque_dir_b,
                    e.tangent1.ii_torque_dir_b,
                    (x.0.negate(), x.1.negate()),
                    x,
                );
            }
        },
    }
}

// ---- warm starting ----

/// The velocity of body A (or B) of a contact after the impulses of its first
/// `n` elements.
pub open spec fn warmed<S: Scalar, D: Space<S>>(
    c: TwoBodyModel<S, D>,
    is_a: bool,
    v: Velocity<S, D>,
    n: int,
) -> Velocity<S, D>
    decreases n,
{
    if n <= 0 {
        v
    } else {
        let e = c.elements[n - 1];
        let w = warmed(c, is_a, v, n - 1);
        pushed_tangent(
            c,
            e,
            is_a,
            pushed_normal(c, e.normal_part, is_a, w, e.normal_part.impulse),
            (e.tangent0.impulse, e.tangent1.impulse),
        )
    }
}

fn warm<S: Scalar, D: Space<S>>(c: &TwoBodyConstraint<S, D>, is_a: bool, v: &mut Velocity<S, D>)
    requires
        c.len <= 4,
    ensures
        *final(v) == warmed(c@, is_a, *old(v), c.len as int),
{
    let ghost v0 = *v;
    let len: usize = c.len as usize;
    let mut k: usize = 0;
    while k < len
        invariant
            len == c.len,
            len <= 4,
            k <= len,
            *v == warmed(c@, is_a, v0, k as int),
        decreases len - k,
    {
        let e = c.elements[k];
        push_normal(c, &e.normal_part, is_a, v, e.normal_part.impulse);
        push_tangent(c, &e, is_a, v, (e.tangent0.impulse, e.tangent1.impulse));
        k = k + 1;
    }
}

/// Where the contacts of body `body_id` start in the list of all bodies.
pub open spec fn first_contact(counts: Seq<u32>, body_id: int) -> int {
    if body_id == 0 {
        0
    } else {
        counts[body_id - 1] as int
    }
}

/// The velocity of body `body_id` after the impulses of contacts `from..to` of
/// the list `ids`.
pub open spec fn gathered<S: Scalar, D: Space<S>>(
    body_id: u32,
    ids: Seq<u32>,
    cs: Seq<TwoBodyConstraint<S, D>>,
    v: Velocity<S, D>,
    from: int,
    to: int,
) -> Velocity<S, D>
    decreases to - from,
{
    if to <= from {
        v
    } else {
        let c = cs[ids[to - 1] as int]@;
        warmed(
            c,
            c.solver_body_a == body_id,
            gathered(body_id, ids, cs, v, from, to - 1),
            c.len as int,
        )
    }
}

/// The contacts `from..to` of the list `ids` exist.
pub open spec fn contacts_ok<S: Scalar, D: Space<S>>(
    ids: Seq<u32>,
    cs: Seq<TwoBodyConstraint<S, D>>,
    from: int,
    to: int,
) -> bool {
    &&& to <= ids.len()
    &&& forall|i: int|
        from <= i < to ==> (#[trigger] ids[i]) < cs.len() && cs[ids[i] as int].len <= 4
}

/// Applies the impulses of all contacts of one body. The slices start at the
/// first entry of the batch; `body_constraint_counts` holds, for each body, the
/// end of its range in `body_constraint_ids`.
pub fn warmstart_body<S: Scalar, D: Space<S>>(
    body_id: u32,
    body_constraint_counts: &[u32],
    body_constraint_ids: &[u32],
    constraints: &[TwoBodyConstraint<S, D>],
    solver_vel: &mut Velocity<S, D>,
)
    requires
        body_id < body_constraint_counts@.len(),
        contacts_ok(
            body_constraint_ids@,
            constraints@,
            first_contact(body_constraint_counts@, body_id as int),
            body_constraint_counts@[body_id as int] as int,
        ),
    ensures
        *final(solver_vel) == gathered(
            body_id,
            body_constraint_ids@,
            constraints@,
            *old(solver_vel),
            first_contact(body_constraint_counts@, body_id as int),
            body_constraint_counts@[body_id as int] as int,
        ),
{
    let ghost v0 = *solver_vel;
    let first: usize = if body_id != 0 {
        body_constraint_counts[body_id as usize - 1] as usize
    } else {
        0
    };
    let last: usize = body_constraint_counts[body_id as usize] as usize;
    let mut i: usize = first;
    while i < last
        invariant
            first <= i,
            i <= last || i == first,
            contacts_ok(body_constraint_ids@, constraints@, first as int, last as int),
            *solver_vel == gathered(
                body_id,
                body_constraint_ids@,
                constraints@,
                v0,
                first as int,
                i as int,
            ),
        decreases last - i,
    {
        let cid: usize = body_constraint_ids[i] as usize;
        let c = constraints[cid];
        warm(&c, c.solver_body_a == body_id, solver_vel);
        i = i + 1;
    }
}

/// Applies the impulses of one contact to its two bodies.
pub fn warmstart_constraint<S: Scalar, D: Space<S>>(
    constraint: &TwoBodyConstraint<S, D>,
    solver_vel1: &mut Velocity<S, D>,
    solver_vel2: &mut Velocity<S, D>,
)
    requires
        constraint.len <= 4,
    ensures
        *final(solver_vel1) == warmed(constraint@, true, *old(solver_vel1), constraint.len as int),
        *final(solver_vel2) == warmed(
            constraint@,
            false,
            *old(solver_vel2),
            constraint.len as int,
        ),
{
    warm(constraint, true, solver_vel1);
    warm(constraint, false, solver_vel2);
}

// ---- solving ----

/// The velocity error of a row along `dir`.
pub open spec fn row_error<S: Scalar, D: Space<S>>(
    row: ConstraintRow<S, D>,
    dir: D::V,
    v1: Velocity<S, D>,
    v2: Velocity<S, D>,
) -> S {
    D::vdot_spec(dir, v1.linear).plus_spec(
        D::gdot_spec(row.torque_dir_a, v1.angular),
    ).minus_spec(D::vdot_spec(dir, v2.linear)).plus_spec(
        D::gdot_spec(row.torque_dir_b, v2.angular),
    ).plus_spec(row.rhs)
}

fn error_of<S: Scalar, D: Space<S>>(
    row: &ConstraintRow<S, D>,
    dir: D::V,
    v1: &Velocity<S, D>,
    v2: &Velocity<S, D>,
) -> (r: S)
    ensures
        r == row_error(*row, dir, *v1, *v2),
{
    D::vdot(dir, v1.linear).plus(D::gdot(row.torque_dir_a, v1.angular)).minus(
        D::vdot(dir, v2.linear),
    ).plus(D::gdot(row.torque_dir_b, v2.angular)).plus(row.rhs)
}

/// The elements of a contact and the velocities of its two bodies.
#[verifier::ext_equal]
pub struct SolveState<S: Scalar, D: Space<S>> {
    pub elements: Seq<TwoBodyConstraintElement<S, D>>,
    pub v1: Velocity<S, D>,
    pub v2: Velocity<S, D>,
}

/// The new normal impulse of an element: never negative before compliance.
pub open spec fn normal_impulse<S: Scalar, D: Space<S>>(
    c: TwoBodyModel<S, D>,
    row: ConstraintRow<S, D>,
    v1: Velocity<S, D>,
    v2: Velocity<S, D>,
) -> S {
    c.cfm_factor.times_spec(
        row.impulse.minus_spec(row.r.times_spec(row_error(row, c.dir_a, v1, v2))).maximum_spec(
            S::zero_spec(),
        ),
    )
}

/// The new tangent impulses of an element, of a length of at most `limit`
/// before compliance.
pub open spec fn tangent_impulse<S: Scalar, D: Space<S>>(
    c: TwoBodyModel<S, D>,
    e: TwoBodyConstraintElement<S, D>,
    v1: Velocity<S, D>,
    v2: Velocity<S, D>,
    limit: S,
) -> (S, S) {
    let t0 = tangent0_of::<S, D>(c.dir_a, c.tangent_a);
    let d0 = row_error(e.tangent0, t0, v1, v2);
    match D::dimension_spec() {
        Dimension::Two => (
            c.cfm_factor.times_spec(
                clamp_spec(
                    e.tangent0.impulse.minus_spec(e.tangent0.r.times_spec(d0)),
                    limit.neg_spec(),
                    limit,
                ),
            ),
            e.tangent1.impulse,
        ),
        Dimension::Three => {
            let d1 = row_error(e.tangent1, D::bitangent_spec(c.dir_a, t0), v1, v2);
            let d00 = d0.times_spec(d0);
            let d11 = d1.times_spec(d1);
            let d01 = d0.times_spec(d1);
            let inv_lhs = d00.plus_spec(d11).times_spec(
                threshold_inv_spec(
                    d00.times_spec(e.tangent0.r).plus_spec(d11.times_spec(e.tangent1.r)).plus_spec(
                        d01.times_spec(e.tangent_coupling),
                    ),
                ),
            );
            let t = cap_magnitude_vec2_spec(
                V2 {
                    x: e.tangent0.impulse.minus_spec(inv_lhs.times_spec(d0)),
                    y: e.tangent1.impulse.minus_spec(inv_lhs.times_spec(d1)),
                },
                limit,
            );
            (t.x, t.y)
        },
    }
}

/// An element with new impulses.
pub open spec fn with_impulses<S: Scalar, D: Space<S>>(
    e: TwoBodyConstraintElement<S, D>,
    n: S,
    t: (S, S),
) -> TwoBodyConstraintElement<S, D> {
    TwoBodyConstraintElement {
        normal_part: ConstraintRow { impulse: n, ..e.normal_part },
        tangent0: ConstraintRow { impulse: t.0, ..e.tangent0 },
        tangent1: ConstraintRow { impulse: t.1, ..e.tangent1 },
        ..e
    }
}

/// The new impulses of an element, and the velocities after it.
pub open spec fn element_solved<S: Scalar, D: Space<S>>(
    c: TwoBodyModel<S, D>,
    e: TwoBodyConstraintElement<S, D>,
    v1: Velocity<S, D>,
    v2: Velocity<S, D>,
) -> (TwoBodyConstraintElement<S, D>, Velocity<S, D>, Velocity<S, D>) {
    let n = normal_impulse(c, e.normal_part, v1, v2);
    let dn = n.minus_spec(e.normal_part.impulse);
    let w1 = pushed_normal(c, e.normal_part, true, v1, dn);
    let w2 = pushed_normal(c, e.normal_part, false, v2, dn);
    let t = tangent_impulse(c, e, w1, w2, n.times_spec(c.limit));
    let dt = (t.0.minus_spec(e.tangent0.impulse), t.1.minus_spec(e.tangent1.impulse));
    (
        with_impulses(e, n, t),
        pushed_tangent(c, e, true, w1, dt),
        pushed_tangent(c, e, false, w2, dt),
    )
}

/// The contact and its two bodies after one pass over the first `n` elements.
pub open spec fn solved<S: Scalar, D: Space<S>>(
    c: TwoBodyModel<S, D>,
    v1: Velocity<S, D>,
    v2: Velocity<S, D>,
    n: int,
) -> SolveState<S, D>
    decreases n,
{
    if n <= 0 {
        SolveState { elements: c.elements, v1: v1, v2: v2 }
    } else {
        let p = solved(c, v1, v2, n - 1);
        let r = element_solved(c, c.elements[n - 1], p.v1, p.v2);
        SolveState { elements: p.elements.update(n - 1, r.0), v1: r.1, v2: r.2 }
    }
}

pub proof fn lemma_solved_elements<S: Scalar, D: Space<S>>(
    c: TwoBodyModel<S, D>,
    v1: Velocity<S, D>,
    v2: Velocity<S, D>,
    n: int,
)
    requires
        n <= c.elements.len(),
    ensures
        solved(c, v1, v2, n).elements.len() == c.elements.len(),
        forall|k: int|
            0 <= k < c.elements.len() && n <= k ==> #[trigger] solved(c, v1, v2, n).elements[k]
                == c.elements[k],
        forall|k: int|
            0 <= k < n ==> #[trigger] solved(c, v1, v2, n).elements[k] == element_solved(
                c,
                c.elements[k],
                solved(c, v1, v2, k).v1,
                solved(c, v1, v2, k).v2,
            ).0,
    decreases n,
{
    if n > 0 {
        lemma_solved_elements(c, v1, v2, n - 1);
    }
}

/// The contact after one pass.
pub open spec fn solved_constraint<S: Scalar, D: Space<S>>(
    c: TwoBodyModel<S, D>,
    v1: Velocity<S, D>,
    v2: Velocity<S, D>,
) -> TwoBodyModel<S, D> {
    TwoBodyModel { elements: solved(c, v1, v2, c.len as int).elements, ..c }
}

fn solve_element<S: Scalar, D: Space<S>>(
    c: &TwoBodyConstraint<S, D>,
    e: &TwoBodyConstraintElement<S, D>,
    v1: &mut Velocity<S, D>,
    v2: &mut Velocity<S, D>,
) -> (r: TwoBodyConstraintElement<S, D>)
    ensures
        (r, *final(v1), *final(v2)) == element_solved(c@, *e, *old(v1), *old(v2)),
{
    let row = e.normal_part;
    let n = c.cfm_factor.times(
        row.impulse.minus(row.r.times(error_of(&row, c.dir_a, v1, v2))).maximum(S::zero()),
    );
    let dn = n.minus(row.impulse);
    push_normal(c, &row, true, v1, dn);
    push_normal(c, &row, false, v2, dn);
    let limit = n.times(c.limit);
    let tangents = tangents_of::<S, D>(c.dir_a, c.tangent_a);
    let d0 = error_of(&e.tangent0, tangents.0, v1, v2);
    let t: (S, S) = match D::dimension() {
        Dimension::Two => (
            c.cfm_factor.times(
                clamp(
                    e.tangent0.impulse.minus(e.tangent0.r.times(d0)),
                    limit.negate(),
                    limit,
                ),
            ),
            e.tangent1.impulse,
        ),
        Dimension::Three => {
            let d1 = error_of(&e.tangent1, tangents.1, v1, v2);
            let d00 = d0.times(d0);
            let d11 = d1.times(d1);
            let d01 = d0.times(d1);
            let inv_lhs = d00.plus(d11).times(
                threshold_inv(
                    d00.times(e.tangent0.r).plus(d11.times(e.tangent1.r)).plus(
                        d01.times(e.tangent_coupling),
                    ),
                ),
            );
            let t = cap_magnitude_vec2(
                V2 {
                    x: e.tangent0.impulse.minus(inv_lhs.times(d0)),
                    y: e.tangent1.impulse.minus(inv_lhs.times(d1)),
                },
                limit,
            );
            (t.x, t.y)
        },
    };
    let dt = (t.0.minus(e.tangent0.impulse), t.1.minus(e.tangent1.impulse));
    push_tangent(c, e, true, v1, dt);
    push_tangent(c, e, false, v2, dt);
    TwoBodyConstraintElement {
        normal_part: ConstraintRow { impulse: n, ..e.normal_part },
        tangent0: ConstraintRow { impulse: t.0, ..e.tangent0 },
        tangent1: ConstraintRow { impulse: t.1, ..e.tangent1 },
        tangent_coupling: e.tangent_coupling,
    }
}

/// One pass over a contact: each element corrects the velocity error along its
/// normal, then along its tangents.
pub fn solve_constraint_gauss_seidel<S: Scalar, D: Space<S>>(
    constraint: &mut TwoBodyConstraint<S, D>,
    solver_vel1: &mut Velocity<S, D>,
    solver_vel2: &mut Velocity<S, D>,
)
    requires
        old(constraint).len <= 4,
    ensures
        final(constraint)@ == solved_constraint(
            old(constraint)@,
            *old(solver_vel1),
            *old(solver_vel2),
        ),
        ({
            let s = solved(
                old(constraint)@,
                *old(solver_vel1),
                *old(solver_vel2),
                old(constraint).len as int,
            );
            *final(solver_vel1) == s.v1 && *final(solver_vel2) == s.v2
        }),
{
    let ghost c0 = constraint@;
    let ghost v1 = *solver_vel1;
    let ghost v2 = *solver_vel2;
    let before = *constraint;
    let len: usize = constraint.len as usize;
    let mut k: usize = 0;
    while k < len
        invariant
            len == c0.len,
            len <= 4,
            k <= len,
            before@ == c0,
            c0.elements.len() == 4,
            constraint.elements@.len() == 4,
            constraint@ == (TwoBodyModel { elements: constraint.elements@, ..c0 }),
            ({
                let s = solved(c0, v1, v2, k as int);
                &&& constraint.elements@ == s.elements
                &&& *solver_vel1 == s.v1
                &&& *solver_vel2 == s.v2
            }),
        decreases len - k,
    {
        let e = solve_element(&before, &before.elements[k], solver_vel1, solver_vel2);
        constraint.elements[k] = e;
        k = k + 1;
        assert(constraint.elements@ =~= solved(c0, v1, v2, k as int).elements);
    }
}

/// Points that a manifold of the dimension can hold.
pub open spec fn max_manifold_points_spec(dim: Dimension) -> int {
    match dim {
        Dimension::Two => 2,
        Dimension::Three => 4,
    }
}

/// A contact without compliance and without bias.
pub open spec fn unbiased<S: Scalar, D: Space<S>>(c: TwoBodyModel<S, D>) -> TwoBodyModel<S, D> {
    TwoBodyModel {
        cfm_factor: S::one_spec(),
        elements: Seq::new(
            c.elements.len(),
            |k: int|
                if k < max_manifold_points_spec(D::dimension_spec()) {
                    let e = c.elements[k];
                    TwoBodyConstraintElement {
                        normal_part: ConstraintRow {
                            rhs: e.normal_part.rhs_wo_bias,
                            ..e.normal_part
                        },
                        ..e
                    }
                } else {
                    c.elements[k]
                },
        ),
        ..c
    }
}

/// Removes compliance and bias from a contact, for the last pass of a substep.
pub fn remove_cfm_and_bias<S: Scalar, D: Space<S>>(constraint: &mut TwoBodyConstraint<S, D>)
    ensures
        final(constraint)@ == unbiased(old(constraint)@),
{
    let ghost c0 = constraint@;
    let ghost goal = unbiased(c0);
    let n: usize = match D::dimension() {
        Dimension::Two => 2,
        Dimension::Three => 4,
    };
    let mut k: usize = 0;
    while k < n
        invariant
            n == max_manifold_points_spec(D::dimension_spec()),
            n <= 4,
            k <= n,
            goal == unbiased(c0),
            c0.elements.len() == 4,
            constraint.elements@.len() == 4,
            constraint@ == (TwoBodyModel { elements: constraint.elements@, ..c0 }),
            forall|i: int|
                0 <= i < 4 ==> #[trigger] constraint.elements@[i] == (if i < k {
                    goal.elements[i]
                } else {
                    c0.elements[i]
                }),
        decreases n - k,
    {
        let mut e = constraint.elements[k];
        assert(e == c0.elements[k as int]);
        e.normal_part.rhs = e.normal_part.rhs_wo_bias;
        constraint.elements[k] = e;
        k = k + 1;
    }
    constraint.cfm_factor = S::one();
    assert(constraint.elements@ =~= goal.elements);
}

} // verus!
