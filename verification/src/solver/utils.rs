//! Building and solving one contact between two bodies.
use super::constraint::{
    ConstraintRow, TwoBodyConstraint, TwoBodyConstraintBuilder, TwoBodyConstraintElement,
    TwoBodyConstraintInfo, TwoBodyModel,
};
use crate::contact::IndexedManifold;
use crate::multibody::types::WorldMassProperties;
use crate::scalar::{Scalar, clamp, clamp_spec, half, half_spec, inv, inv_spec, two, two_spec};
use crate::sim_params::RbdSimParams;
use crate::space::{Dimension, Pose, Space, Velocity};
use vstd::prelude::*;

verus! {

// ---- tangents ----

/// The first tangent of a contact whose normal force has direction `dir`: along
/// the relative velocity in space, unless that is too small.
pub open spec fn first_tangent<S: Scalar, D: Space<S>>(dir: D::V, v1: D::V, v2: D::V) -> D::V {
    match D::dimension_spec() {
        Dimension::Two => D::ortho_spec(dir),
        Dimension::Three => {
            let rel = D::vsub_spec(v1, v2);
            let t = D::vsub_spec(rel, D::vscale_spec(dir, D::vdot_spec(dir, rel)));
            let norm = D::vdot_spec(t, t).sqrt_spec();
            if norm.lt_spec(S::dec_spec(1, (-4) as i32)) {
                D::ortho_spec(dir)
            } else {
                D::vover_spec(t, norm)
            }
        },
    }
}

/// The tangents of a contact; the second is unused in the plane.
pub fn compute_tangent_contact_directions<S: Scalar, D: Space<S>>(
    dir: D::V,
    v1: D::V,
    v2: D::V,
) -> (r: (D::V, D::V))
    ensures
        r.0 == first_tangent::<S, D>(dir, v1, v2),
        r.1 == D::bitangent_spec(dir, r.0),
{
    let t = match D::dimension() {
        Dimension::Two => D::ortho(dir),
        Dimension::Three => {
            let rel = D::vsub(v1, v2);
            let t = D::vsub(rel, D::vscale(dir, D::vdot(dir, rel)));
            let norm = D::vdot(t, t).sqrt();
            if norm.lt(S::dec(1, -4)) {
                D::ortho(dir)
            } else {
                D::vover(t, norm)
            }
        },
    };
    (t, D::bitangent(dir, t))
}

/// The first tangent of a contact that has been built.
pub open spec fn tangent0_of<S: Scalar, D: Space<S>>(dir: D::V, tangent: D::V) -> D::V {
    match D::dimension_spec() {
        Dimension::Two => D::ortho_spec(dir),
        Dimension::Three => tangent,
    }
}

pub(crate) fn tangents_of<S: Scalar, D: Space<S>>(dir: D::V, tangent: D::V) -> (r: (D::V, D::V))
    ensures
        r.0 == tangent0_of::<S, D>(dir, tangent),
        r.1 == D::bitangent_spec(dir, r.0),
{
    let t = match D::dimension() {
        Dimension::Two => D::ortho(dir),
        Dimension::Three => tangent,
    };
    (t, D::bitangent(dir, t))
}

// ---- building ----

/// The two bodies of a contact.
#[derive(Clone, Copy)]
pub struct BodyPair<S: Scalar, D: Space<S>> {
    pub mprops1: WorldMassProperties<S, D>,
    pub mprops2: WorldMassProperties<S, D>,
    /// Centre of mass of body A.
    pub com1: D::V,
    /// Centre of mass of body B.
    pub com2: D::V,
    pub vel1: Velocity<S, D>,
    pub vel2: Velocity<S, D>,
}

/// The row of a force along `dir` at `dp1`, `dp2` from the centres of mass, up
/// to its right-hand side, with the reciprocal of its effective mass.
pub open spec fn bare_row<S: Scalar, D: Space<S>>(
    p: BodyPair<S, D>,
    dir: D::V,
    dp1: D::V,
    dp2: D::V,
) -> ConstraintRow<S, D> {
    let t1 = D::gcross_spec(dp1, dir);
    let t2 = D::gcross_spec(dp2, D::vneg_spec(dir));
    let ii1 = D::imul_spec(p.mprops1.inv_inertia, t1);
    let ii2 = D::imul_spec(p.mprops2.inv_inertia, t2);
    let imsum = D::vadd_spec(p.mprops1.inv_mass, p.mprops2.inv_mass);
    ConstraintRow {
        torque_dir_a: t1,
        ii_torque_dir_a: ii1,
        torque_dir_b: t2,
        ii_torque_dir_b: ii2,
        rhs: S::zero_spec(),
        rhs_wo_bias: S::zero_spec(),
        impulse: S::zero_spec(),
        r: D::vdot_spec(dir, D::vmul_spec(imsum, dir)).plus_spec(
            D::gdot_spec(ii1, t1),
        ).plus_spec(D::gdot_spec(ii2, t2)),
    }
}

fn build_bare_row<S: Scalar, D: Space<S>>(
    p: &BodyPair<S, D>,
    dir: D::V,
    dp1: D::V,
    dp2: D::V,
) -> (r: ConstraintRow<S, D>)
    ensures
        r == bare_row(*p, dir, dp1, dp2),
{
    let t1 = D::gcross(dp1, dir);
    let t2 = D::gcross(dp2, D::vneg(dir));
    let ii1 = D::imul(p.mprops1.inv_inertia, t1);
    let ii2 = D::imul(p.mprops2.inv_inertia, t2);
    let imsum = D::vadd(p.mprops1.inv_mass, p.mprops2.inv_mass);
    ConstraintRow {
        torque_dir_a: t1,
        ii_torque_dir_a: ii1,
        torque_dir_b: t2,
        ii_torque_dir_b: ii2,
        rhs: S::zero(),
        rhs_wo_bias: S::zero(),
        impulse: S::zero(),
        r: D::vdot(dir, D::vmul(imsum, dir)).plus(D::gdot(ii1, t1)).plus(D::gdot(ii2, t2)),
    }
}

/// The normal velocity that a contact at distance `dist` asks for, without
/// bias. Contacts do not bounce.
pub open spec fn normal_rhs<S: Scalar, D: Space<S>>(
    p: BodyPair<S, D>,
    params: RbdSimParams<S>,
    dir: D::V,
    dp1: D::V,
    dp2: D::V,
    dist: S,
) -> S {
    let v1 = D::vadd_spec(p.vel1.linear, D::gcross_av_spec(p.vel1.angular, dp1));
    let v2 = D::vadd_spec(p.vel2.linear, D::gcross_av_spec(p.vel2.angular, dp2));
    S::zero_spec().times_spec(D::vdot_spec(D::vsub_spec(v1, v2), dir)).plus_spec(
        dist.maximum_spec(S::zero_spec()).times_spec(params.inv_dt_spec()),
    )
}

/// The corrective velocity of a contact at distance `dist`.
pub open spec fn contact_bias<S: Scalar>(params: RbdSimParams<S>, dist: S) -> S {
    clamp_spec(
        params.contact_erp_inv_dt_spec().times_spec(
            dist.plus_spec(params.allowed_linear_error_spec()),
        ),
        params.max_corrective_velocity_spec().neg_spec(),
        S::zero_spec(),
    )
}

/// The element of a contact point at `pt`.
pub open spec fn built_element<S: Scalar, D: Space<S>>(
    p: BodyPair<S, D>,
    params: RbdSimParams<S>,
    dir: D::V,
    tangent0: D::V,
    pt: D::V,
    dist: S,
    before: TwoBodyConstraintElement<S, D>,
) -> TwoBodyConstraintElement<S, D> {
    let dp1 = D::vsub_spec(pt, p.com1);
    let dp2 = D::vsub_spec(pt, p.com2);
    let n = bare_row(p, dir, dp1, dp2);
    let t0 = bare_row(p, tangent0, dp1, dp2);
    let t1 = bare_row(p, D::bitangent_spec(dir, tangent0), dp1, dp2);
    let wo = normal_rhs(p, params, dir, dp1, dp2, dist);
    let normal = ConstraintRow {
        rhs: wo.plus_spec(contact_bias(params, dist)),
        rhs_wo_bias: wo,
        r: inv_spec(n.r),
        ..n
    };
    match D::dimension_spec() {
        Dimension::Two => TwoBodyConstraintElement {
            normal_part: normal,
            tangent0: ConstraintRow { r: inv_spec(t0.r), ..t0 },
            ..before
        },
        Dimension::Three => TwoBodyConstraintElement {
            normal_part: normal,
            tangent0: t0,
            tangent1: t1,
            tangent_coupling: two_spec::<S>().times_spec(
                D::gdot_spec(t0.torque_dir_a, t1.ii_torque_dir_a).plus_spec(
                    D::gdot_spec(t0.torque_dir_b, t1.ii_torque_dir_b),
                ),
            ),
        },
    }
}

fn build_element<S: Scalar, D: Space<S>>(
    p: &BodyPair<S, D>,
    params: &RbdSimParams<S>,
    dir: D::V,
    tangents: (D::V, D::V),
    pt: D::V,
    dist: S,
    before: TwoBodyConstraintElement<S, D>,
) -> (r: TwoBodyConstraintElement<S, D>)
    requires
        tangents.1 == D::bitangent_spec(dir, tangents.0),
    ensures
        r == built_element(*p, *params, dir, tangents.0, pt, dist, before),
{
    let dp1 = D::vsub(pt, p.com1);
    let dp2 = D::vsub(pt, p.com2);
    let v1 = D::vadd(p.vel1.linear, D::gcross_av(p.vel1.angular, dp1));
    let v2 = D::vadd(p.vel2.linear, D::gcross_av(p.vel2.angular, dp2));
    let wo = S::zero().times(D::vdot(D::vsub(v1, v2), dir)).plus(
        dist.maximum(S::zero()).times(params.inv_dt()),
    );
    let bias = clamp(
        params.contact_erp_inv_dt().times(dist.plus(params.allowed_linear_error())),
        params.max_corrective_velocity().negate(),
        S::zero(),
    );
    let mut n = build_bare_row(p, dir, dp1, dp2);
    n.rhs = wo.plus(bias);
    n.rhs_wo_bias = wo;
    n.r = inv(n.r);
    let mut t0 = build_bare_row(p, tangents.0, dp1, dp2);
    match D::dimension() {
        Dimension::Two => {
            t0.r = inv(t0.r);
            TwoBodyConstraintElement { normal_part: n, tangent0: t0, ..before }
        },
        Dimension::Three => {
            let t1 = build_bare_row(p, tangents.1, dp1, dp2);
            TwoBodyConstraintElement {
                normal_part: n,
                tangent0: t0,
                tangent1: t1,
                tangent_coupling: two::<S>().times(
                    D::gdot(t0.torque_dir_a, t1.ii_torque_dir_a).plus(
                        D::gdot(t0.torque_dir_b, t1.ii_torque_dir_b),
                    ),
                ),
            }
        },
    }
}

/// Point `k` of a manifold in world space: midway between the two surfaces.
pub open spec fn manifold_point<S: Scalar, D: Space<S>>(
    im: IndexedManifold<S, D>,
    cpose1: Pose<S, D>,
    k: int,
) -> D::V {
    let p = im.contact.points_a[k];
    cpose1.point_spec(
        D::vadd_spec(
            p.pt,
            D::vover_spec(D::vscale_spec(im.contact.normal_a, p.dist), two_spec()),
        ),
    )
}

/// The poses, velocities and masses that a contact is built from.
pub struct BodyScene<S: Scalar, D: Space<S>> {
    pub mprops: Seq<WorldMassProperties<S, D>>,
    pub collider_poses: Seq<Pose<S, D>>,
    pub solver_poses: Seq<Pose<S, D>>,
    pub vels: Seq<Velocity<S, D>>,
}

pub open spec fn pair_of<S: Scalar, D: Space<S>>(
    sc: BodyScene<S, D>,
    id1: int,
    id2: int,
) -> BodyPair<S, D> {
    BodyPair {
        mprops1: sc.mprops[id1],
        mprops2: sc.mprops[id2],
        com1: sc.solver_poses[id1].translation,
        com2: sc.solver_poses[id2].translation,
        vel1: sc.vels[id1],
        vel2: sc.vels[id2],
    }
}

/// The constraint of a contact manifold.
pub open spec fn built_constraint<S: Scalar, D: Space<S>>(
    im: IndexedManifold<S, D>,
    sc: BodyScene<S, D>,
    params: RbdSimParams<S>,
    before: TwoBodyModel<S, D>,
) -> TwoBodyModel<S, D> {
    let id1 = im.colliders[0] as int;
    let id2 = im.colliders[1] as int;
    let p = pair_of(sc, id1, id2);
    let cpose1 = sc.collider_poses[id1];
    let dir = D::vneg_spec(D::rapply_spec(cpose1.rotation, im.contact.normal_a));
    let t0 = first_tangent::<S, D>(dir, p.vel1.linear, p.vel2.linear);
    TwoBodyModel {
        dir_a: dir,
        tangent_a: match D::dimension_spec() {
            Dimension::Two => before.tangent_a,
            Dimension::Three => t0,
        },
        im_a: p.mprops1.inv_mass,
        im_b: p.mprops2.inv_mass,
        cfm_factor: params.contact_cfm_factor_spec(),
        limit: half_spec(),
        solver_body_a: im.colliders[0],
        solver_body_b: im.colliders[1],
        elements: Seq::new(
            4,
            |k: int|
                if k < im.contact.len {
                    built_element(
                        p,
                        params,
                        dir,
                        t0,
                        manifold_point(im, cpose1, k),
                        im.contact.points_a[k].dist,
                        before.elements[k],
                    )
                } else {
                    before.elements[k]
                },
        ),
        len: im.contact.len,
    }
}

/// What a contact manifold is rebuilt from: its points in the frames of the two
/// bodies.
pub open spec fn built_infos<S: Scalar, D: Space<S>>(
    im: IndexedManifold<S, D>,
    sc: BodyScene<S, D>,
    params: RbdSimParams<S>,
    before: Seq<TwoBodyConstraintInfo<S, D>>,
) -> Seq<TwoBodyConstraintInfo<S, D>> {
    let id1 = im.colliders[0] as int;
    let id2 = im.colliders[1] as int;
    let p = pair_of(sc, id1, id2);
    let cpose1 = sc.collider_poses[id1];
    let dir = D::vneg_spec(D::rapply_spec(cpose1.rotation, im.contact.normal_a));
    Seq::new(
        4,
        |k: int|
            if k < im.contact.len {
                let pt = manifold_point(im, cpose1, k);
                let dist = im.contact.points_a[k].dist;
                TwoBodyConstraintInfo {
                    local_pt_a: sc.solver_poses[id1].inv_point_spec(pt),
                    local_pt_b: sc.solver_poses[id2].inv_point_spec(pt),
                    dist: dist,
                    normal_vel: normal_rhs(
                        p,
                        params,
                        dir,
                        D::vsub_spec(pt, p.com1),
                        D::vsub_spec(pt, p.com2),
                        dist,
                    ),
                }
            } else {
                before[k]
            },
    )
}

/// The colliders of a manifold exist.
pub open spec fn manifold_ok<S: Scalar, D: Space<S>>(
    im: IndexedManifold<S, D>,
    sc: BodyScene<S, D>,
) -> bool {
    &&& im.contact.len <= 4
    &&& im.colliders[0] < sc.mprops.len()
    &&& im.colliders[1] < sc.mprops.len()
    &&& im.colliders[0] < sc.collider_poses.len()
    &&& im.colliders[0] < sc.solver_poses.len()
    &&& im.colliders[1] < sc.solver_poses.len()
    &&& im.colliders[0] < sc.vels.len()
    &&& im.colliders[1] < sc.vels.len()
}

/// Builds the constraint of a contact manifold. The slices start at the first
/// body of the batch.
pub fn contact_to_constraint<S: Scalar, D: Space<S>>(
    im: &IndexedManifold<S, D>,
    mprops: &[WorldMassProperties<S, D>],
    collider_world_poses: &[Pose<S, D>],
    solver_body_poses: &[Pose<S, D>],
    vels: &[Velocity<S, D>],
    params: &RbdSimParams<S>,
    constraint: &mut TwoBodyConstraint<S, D>,
    builder: &mut TwoBodyConstraintBuilder<S, D>,
)
    requires
        manifold_ok(
            *im,
            BodyScene {
                mprops: mprops@,
                collider_poses: collider_world_poses@,
                solver_poses: solver_body_poses@,
                vels: vels@,
            },
        ),
    ensures
        ({
            let sc = BodyScene {
                mprops: mprops@,
                collider_poses: collider_world_poses@,
                solver_poses: solver_body_poses@,
                vels: vels@,
            };
            &&& final(constraint)@ == built_constraint(*im, sc, *params, old(constraint)@)
            &&& final(builder).infos@ == built_infos(*im, sc, *params, old(builder).infos@)
        }),
{
    let ghost sc = BodyScene {
        mprops: mprops@,
        collider_poses: collider_world_poses@,
        solver_poses: solver_body_poses@,
        vels: vels@,
    };
    let ghost m0 = constraint@;
    let ghost i0 = builder.infos@;
    let id1: usize = im.colliders[0] as usize;
    let id2: usize = im.colliders[1] as usize;
    let spose1 = solver_body_poses[id1];
    let spose2 = solver_body_poses[id2];
    let p = BodyPair {
        mprops1: mprops[id1],
        mprops2: mprops[id2],
        com1: spose1.translation,
        com2: spose2.translation,
        vel1: vels[id1],
        vel2: vels[id2],
    };
    let cpose1 = collider_world_poses[id1];
    let dir = D::vneg(D::rapply(cpose1.rotation, im.contact.normal_a));
    let tangents = compute_tangent_contact_directions::<S, D>(
        dir,
        p.vel1.linear,
        p.vel2.linear,
    );
    constraint.dir_a = dir;
    constraint.im_a = p.mprops1.inv_mass;
    constraint.im_b = p.mprops2.inv_mass;
    constraint.cfm_factor = params.contact_cfm_factor();
    constraint.limit = half();
    constraint.solver_body_a = im.colliders[0];
    constraint.solver_body_b = im.colliders[1];
    match D::dimension() {
        Dimension::Two => {},
        Dimension::Three => {
            constraint.tangent_a = tangents.0;
        },
    }
    let ghost goal = built_constraint(*im, sc, *params, m0);
    let ghost goal_infos = built_infos(*im, sc, *params, i0);
    let ghost head = constraint@;
    let len: usize = im.contact.len as usize;
    let mut k: usize = 0;
    while k < len
        invariant
            len == im.contact.len,
            len <= 4,
            k <= len,
            p == pair_of(sc, im.colliders[0] as int, im.colliders[1] as int),
            cpose1 == sc.collider_poses[im.colliders[0] as int],
            spose1 == sc.solver_poses[im.colliders[0] as int],
            spose2 == sc.solver_poses[im.colliders[1] as int],
            dir == D::vneg_spec(D::rapply_spec(cpose1.rotation, im.contact.normal_a)),
            tangents.0 == first_tangent::<S, D>(dir, p.vel1.linear, p.vel2.linear),
            tangents.1 == D::bitangent_spec(dir, tangents.0),
            goal == built_constraint(*im, sc, *params, m0),
            goal_infos == built_infos(*im, sc, *params, i0),
            head.elements == m0.elements,
            m0.elements.len() == 4,
            i0.len() == 4,
            constraint@ == (TwoBodyModel { elements: constraint.elements@, ..head }),
            constraint.elements@.len() == 4,
            builder.infos@.len() == 4,
            forall|i: int|
                0 <= i < 4 ==> #[trigger] constraint.elements@[i] == (if i < k {
                    goal.elements[i]
                } else {
                    m0.elements[i]
                }),
            forall|i: int|
                0 <= i < 4 ==> #[trigger] builder.infos@[i] == (if i < k {
                    goal_infos[i]
                } else {
                    i0[i]
                }),
        decreases len - k,
    {
        let point = im.contact.points_a[k];
        let pt = cpose1.point(
            D::vadd(point.pt, D::vover(D::vscale(im.contact.normal_a, point.dist), two())),
        );
        let before = constraint.elements[k];
        assert(before == m0.elements[k as int]);
        let e = build_element(&p, params, dir, tangents, pt, point.dist, before);
        constraint.elements[k] = e;
        let info = TwoBodyConstraintInfo {
            local_pt_a: spose1.inv_point(pt),
            local_pt_b: spose2.inv_point(pt),
            dist: point.dist,
            normal_vel: e.normal_part.rhs_wo_bias,
        };
        builder.infos[k] = info;
        k = k + 1;
    }
    constraint.len = im.contact.len;
    assert(constraint.elements@ =~= goal.elements);
    assert(builder.infos@ =~= goal_infos);
}

} // verus!
