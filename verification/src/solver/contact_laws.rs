//! What the contacts between two bodies mean when the arithmetic is exact.
use super::constraint::{
    ConstraintRow, TwoBodyConstraintElement, TwoBodyConstraintInfo, TwoBodyModel,
};
use super::kernels::{is_fixed_spec, velocity_increment};
use super::laws::{is_normal_row, lemma_pushed_error};
use super::step::{pushed_tangent, refreshed_element, row_error, tangent_impulse};
use super::utils::{
    BodyPair, BodyScene, bare_row, built_constraint, built_element, first_tangent, manifold_point,
    pair_of,
};
use crate::contact::IndexedManifold;
use crate::exact::{
    exact, exact_roots, lemma_commute, lemma_square, lemma_zero, ordered, plane_is_linear,
};
use crate::multibody::contact_laws::{
    lemma_dot_difference, lemma_force_at_point, point_velocity, space_ortho_is_across,
};
use crate::multibody::jacobian_laws::{
    angular_value, geometric, plane_is_geometric, space_is_geometric, vector_value,
};
use crate::multibody::mass_laws::{inertial, plane_is_inertial, space_is_inertial};
use crate::multibody::space_laws::{along, plane_is_spatial, space_is_spatial, spatial};
use crate::multibody::turn_laws::{lemma_dot_commutes, lemma_dot_neg};
use crate::multibody::types::WorldMassProperties;
use crate::real_vectors::{
    lemma_dot_sum, lemma_minus_right, lemma_one, r3_add, r3_cross, r3_dot, r3_neg, r3_scale, r3_sub,
    r3_zero,
};
use crate::scalar::{Scalar, two_spec};
use crate::sim_params::RbdSimParams;
use crate::space::{Dim2, Dim3, Pose, Space, V3, Velocity};
use vstd::prelude::*;

verus! {

// ---- velocities along rows ----

/// The velocity error along a row compares the velocities of the two bodies at the
/// contact point.
proof fn lemma_row_error<S: Scalar, D: Space<S>>(
    v: spec_fn(S) -> real,
    p: BodyPair<S, D>,
    dir: D::V,
    pt: D::V,
    row: ConstraintRow<S, D>,
    v1: Velocity<S, D>,
    v2: Velocity<S, D>,
)
    requires
        exact(v),
        spatial::<S, D>(v),
        inertial::<S, D>(v),
        ({
            let bare = bare_row(p, dir, D::vsub_spec(pt, p.com1), D::vsub_spec(pt, p.com2));
            &&& row.torque_dir_a == bare.torque_dir_a
            &&& row.torque_dir_b == bare.torque_dir_b
        }),
    ensures
        v(row_error(row, dir, v1, v2)) - v(row.rhs) == r3_dot(
            vector_value::<S, D>(v, dir),
            r3_sub(
                point_velocity(
                    vector_value::<S, D>(v, v1.linear),
                    angular_value::<S, D>(v, v1.angular),
                    vector_value::<S, D>(v, p.com1),
                    vector_value::<S, D>(v, pt),
                ),
                point_velocity(
                    vector_value::<S, D>(v, v2.linear),
                    angular_value::<S, D>(v, v2.angular),
                    vector_value::<S, D>(v, p.com2),
                    vector_value::<S, D>(v, pt),
                ),
            ),
        ),
{
    let d = vector_value::<S, D>(v, dir);
    let m = r3_neg(d);
    let a1 = r3_sub(vector_value::<S, D>(v, pt), vector_value::<S, D>(v, p.com1));
    let a2 = r3_sub(vector_value::<S, D>(v, pt), vector_value::<S, D>(v, p.com2));
    let l1 = vector_value::<S, D>(v, v1.linear);
    let l2 = vector_value::<S, D>(v, v2.linear);
    let w1 = angular_value::<S, D>(v, v1.angular);
    let w2 = angular_value::<S, D>(v, v2.angular);
    lemma_force_at_point(l1, w1, a1, d);
    lemma_force_at_point(l2, w2, a2, m);
    lemma_dot_commutes(l1, d);
    lemma_dot_commutes(l2, d);
    lemma_dot_commutes(w1, r3_cross(a1, d));
    lemma_dot_commutes(w2, r3_cross(a2, m));
    lemma_dot_neg(l2, d);
    lemma_dot_commutes(l2, m);
    let p1 = r3_add(l1, r3_cross(w1, a1));
    let p2 = r3_add(l2, r3_cross(w2, a2));
    lemma_dot_neg(d, p2);
    lemma_dot_difference(d, p1, p2);
}

proof fn lemma_built<S: Scalar, D: Space<S>>(
    v: spec_fn(S) -> real,
    im: IndexedManifold<S, D>,
    sc: BodyScene<S, D>,
    params: RbdSimParams<S>,
    before: TwoBodyModel<S, D>,
    k: int,
    v1: Velocity<S, D>,
    v2: Velocity<S, D>,
)
    requires
        exact(v),
        spatial::<S, D>(v),
        inertial::<S, D>(v),
        0 <= k < im.contact.len <= 4,
    ensures
        ({
            let c = built_constraint(im, sc, params, before);
            let row = c.elements[k].normal_part;
            let i1 = im.colliders[0] as int;
            let i2 = im.colliders[1] as int;
            let n = vector_value::<S, D>(
                v,
                D::rapply_spec(sc.collider_poses[i1].rotation, im.contact.normal_a),
            );
            let pt = vector_value::<S, D>(v, manifold_point(im, sc.collider_poses[i1], k));
            let s1 = point_velocity(
                vector_value::<S, D>(v, v1.linear),
                angular_value::<S, D>(v, v1.angular),
                vector_value::<S, D>(v, sc.solver_poses[i1].translation),
                pt,
            );
            let s2 = point_velocity(
                vector_value::<S, D>(v, v2.linear),
                angular_value::<S, D>(v, v2.angular),
                vector_value::<S, D>(v, sc.solver_poses[i2].translation),
                pt,
            );
            &&& v(row_error(row, c.dir_a, v1, v2)) - v(row.rhs) == r3_dot(n, r3_sub(s2, s1))
            &&& vector_value::<S, D>(v, c.dir_a) == r3_neg(n)
            &&& c.solver_body_a == im.colliders[0]
            &&& c.solver_body_b == im.colliders[1]
        }),
{
    let c = built_constraint(im, sc, params, before);
    let row = c.elements[k].normal_part;
    let i1 = im.colliders[0] as int;
    let i2 = im.colliders[1] as int;
    let p = pair_of(sc, i1, i2);
    let pt = manifold_point(im, sc.collider_poses[i1], k);
    lemma_row_error(v, p, c.dir_a, pt, row, v1, v2);
    let n = vector_value::<S, D>(
        v,
        D::rapply_spec(sc.collider_poses[i1].rotation, im.contact.normal_a),
    );
    let s1 = point_velocity(
        vector_value::<S, D>(v, v1.linear),
        angular_value::<S, D>(v, v1.angular),
        vector_value::<S, D>(v, p.com1),
        vector_value::<S, D>(v, pt),
    );
    let s2 = point_velocity(
        vector_value::<S, D>(v, v2.linear),
        angular_value::<S, D>(v, v2.angular),
        vector_value::<S, D>(v, p.com2),
        vector_value::<S, D>(v, pt),
    );
    lemma_dot_neg(n, r3_sub(s1, s2));
    lemma_dot_difference(n, s1, s2);
    lemma_dot_difference(n, s2, s1);
}

// ---- targets ----

/// What the right-hand sides `wo` and `rhs` of a contact at distance `dist` ask for:
/// across a gap the sides may close the gap within the step and no more; the
/// penetration beyond what is allowed is corrected at the rate of the contacts, up to
/// the bound on the corrective velocity; and nothing pulls.
pub open spec fn asks_to_part(
    dist: real,
    allowed: real,
    rate: real,
    bound: real,
    t: real,
    wo: real,
    rhs: real,
) -> bool {
    let push = wo - rhs;
    let depth = dist + allowed;
    &&& 0real <= dist ==> dist + t * -wo == 0real
    &&& dist <= 0real ==> wo == 0real
    &&& 0real <= push <= bound
    &&& 0real <= depth && 0real <= rate ==> push == 0real
    &&& depth <= 0real && 0real <= rate && -(rate * depth) <= bound ==> depth + t * push == (1real
        - t * rate) * depth
}

proof fn lemma_asks<S: Scalar>(
    v: spec_fn(S) -> real,
    params: RbdSimParams<S>,
    dist: S,
    wo: real,
    bias: real,
    t: real,
)
    requires
        0real <= v(params.max_corrective_velocity_spec()),
        v(params.inv_dt_spec()) * t == 1real,
        ({
            let x = v(dist);
            wo == (if 0real < x {
                x
            } else {
                0real
            }) * v(params.inv_dt_spec())
        }),
        ({
            let raw = v(params.contact_erp_inv_dt_spec()) * (v(dist) + v(
                params.allowed_linear_error_spec(),
            ));
            let bound = v(params.max_corrective_velocity_spec());
            bias == (if raw < -bound {
                -bound
            } else if 0real < raw {
                0real
            } else {
                raw
            })
        }),
    ensures
        asks_to_part(
            v(dist),
            v(params.allowed_linear_error_spec()),
            v(params.contact_erp_inv_dt_spec()),
            v(params.max_corrective_velocity_spec()),
            t,
            wo,
            wo + bias,
        ),
{
    let x = v(dist);
    let k = v(params.inv_dt_spec());
    assert(t * -(x * k) == -((k * t) * x)) by (nonlinear_arith);
    lemma_one(x);
    lemma_zero(k);
    lemma_zero(t);
    let rate = v(params.contact_erp_inv_dt_spec());
    let depth = x + v(params.allowed_linear_error_spec());
    if 0real <= depth && 0real <= rate {
        assert(0real <= rate * depth) by (nonlinear_arith)
            requires
                0real <= depth,
                0real <= rate,
        ;
    }
    if depth <= 0real && 0real <= rate {
        assert(rate * depth <= 0real) by (nonlinear_arith)
            requires
                depth <= 0real,
                0real <= rate,
        ;
        assert(t * -(rate * depth) == -((t * rate) * depth)) by (nonlinear_arith);
        lemma_minus_right(1real, t * rate, depth);
        lemma_one(depth);
    }
}

/// In exact arithmetic, a fresh contact asks its bodies to part as far as it must.
pub proof fn built_contacts_ask_to_part<S: Scalar, D: Space<S>>(
    v: spec_fn(S) -> real,
    p: BodyPair<S, D>,
    params: RbdSimParams<S>,
    dir: D::V,
    tangent0: D::V,
    pt: D::V,
    dist: S,
    before: TwoBodyConstraintElement<S, D>,
    t: real,
)
    requires
        exact(v),
        ordered(v),
        0real <= v(params.max_corrective_velocity_spec()),
        v(params.inv_dt_spec()) * t == 1real,
    ensures
        ({
            let row = built_element(p, params, dir, tangent0, pt, dist, before).normal_part;
            asks_to_part(
                v(dist),
                v(params.allowed_linear_error_spec()),
                v(params.contact_erp_inv_dt_spec()),
                v(params.max_corrective_velocity_spec()),
                t,
                v(row.rhs_wo_bias),
                v(row.rhs),
            )
        }),
{
    let row = built_element(p, params, dir, tangent0, pt, dist, before).normal_part;
    let dp1 = D::vsub_spec(pt, p.com1);
    let dp2 = D::vsub_spec(pt, p.com2);
    let u1 = D::vadd_spec(p.vel1.linear, D::gcross_av_spec(p.vel1.angular, dp1));
    let u2 = D::vadd_spec(p.vel2.linear, D::gcross_av_spec(p.vel2.angular, dp2));
    lemma_zero(v(D::vdot_spec(D::vsub_spec(u1, u2), dir)));
    lemma_asks(v, params, dist, v(row.rhs_wo_bias), v(row.rhs) - v(row.rhs_wo_bias), t);
}

/// How far the two sides of a contact have moved apart: the way from its point on
/// body A to that on body B.
pub open spec fn spread<S: Scalar, D: Space<S>>(
    v: spec_fn(S) -> real,
    info: TwoBodyConstraintInfo<S, D>,
    pose1: Pose<S, D>,
    pose2: Pose<S, D>,
) -> V3<real> {
    r3_sub(
        vector_value::<S, D>(v, pose2.point_spec(info.local_pt_b)),
        vector_value::<S, D>(v, pose1.point_spec(info.local_pt_a)),
    )
}

/// In exact arithmetic, a contact in a new substep asks its bodies to part as its
/// distance demands, which has grown by how far its sides have moved apart along the
/// normal; and its friction asks to undo within the step how far they have slid.
proof fn lemma_refreshed<S: Scalar, D: Space<S>>(
    v: spec_fn(S) -> real,
    e: TwoBodyConstraintElement<S, D>,
    info: TwoBodyConstraintInfo<S, D>,
    pose1: Pose<S, D>,
    pose2: Pose<S, D>,
    dir: D::V,
    tangent0: D::V,
    params: RbdSimParams<S>,
    n: V3<real>,
    t: real,
)
    requires
        exact(v),
        ordered(v),
        spatial::<S, D>(v),
        inertial::<S, D>(v),
        vector_value::<S, D>(v, dir) == r3_neg(n),
        v(info.normal_vel) == 0real,
        0real <= v(params.max_corrective_velocity_spec()),
        v(params.inv_dt_spec()) * t == 1real,
    ensures
        ({
            let r = refreshed_element(e, info, pose1, pose2, dir, tangent0, params);
            let apart = spread(v, info, pose1, pose2);
            let slid = -r3_dot(vector_value::<S, D>(v, tangent0), apart);
            &&& asks_to_part(
                v(info.dist) + r3_dot(n, apart),
                v(params.allowed_linear_error_spec()),
                v(params.contact_erp_inv_dt_spec()),
                v(params.max_corrective_velocity_spec()),
                t,
                v(r.normal_part.rhs_wo_bias),
                v(r.normal_part.rhs),
            )
            &&& v(r.normal_part.impulse) == v(e.normal_part.impulse) * v(
                params.warmstart_coefficient,
            )
            &&& slid + t * -(v(r.tangent0.rhs) - v(r.tangent0.rhs_wo_bias)) == 0real
            &&& v(r.tangent0.impulse) == v(e.tangent0.impulse) * v(params.warmstart_coefficient)
        }),
{
    let gap = D::vsub_spec(pose1.point_spec(info.local_pt_a), pose2.point_spec(info.local_pt_b));
    let g = vector_value::<S, D>(v, gap);
    let apart = spread(v, info, pose1, pose2);
    assert(g == r3_neg(apart));
    let dist = info.dist.plus_spec(D::vdot_spec(gap, dir));
    assert(r3_dot(g, r3_neg(n)) == r3_dot(n, apart)) by {
        lemma_dot_neg(g, n);
        lemma_dot_neg(apart, n);
        lemma_dot_commutes(apart, n);
    }
    let r = refreshed_element(e, info, pose1, pose2, dir, tangent0, params);
    let raw = dist.plus_spec(params.allowed_linear_error_spec());
    lemma_commute(v(raw), v(params.contact_erp_inv_dt_spec()));
    lemma_asks(
        v,
        params,
        dist,
        v(r.normal_part.rhs_wo_bias),
        v(r.normal_part.rhs) - v(r.normal_part.rhs_wo_bias),
        t,
    );
    let u = vector_value::<S, D>(v, tangent0);
    let slide = v(D::vdot_spec(gap, tangent0));
    assert(slide == -r3_dot(u, apart)) by {
        lemma_dot_neg(apart, u);
        lemma_dot_commutes(apart, u);
    }
    let k = v(params.inv_dt_spec());
    assert(t * -(slide * k) == -((k * t) * slide)) by (nonlinear_arith);
    lemma_one(slide);
}

// ---- where contacts act ----

proof fn lemma_midway<S: Scalar, D: Space<S>>(
    v: spec_fn(S) -> real,
    im: IndexedManifold<S, D>,
    pose1: Pose<S, D>,
    k: int,
)
    requires
        exact(v),
        geometric::<S, D>(v),
        spatial::<S, D>(v),
        v(two_spec::<S>()) == 2real,
        forall|a: D::V|
            r3_scale(vector_value::<S, D>(v, #[trigger] D::vover_spec(a, two_spec())), 2real)
                == vector_value::<S, D>(v, a),
    ensures
        ({
            let p = im.contact.points_a[k];
            let near = vector_value::<S, D>(v, pose1.point_spec(p.pt));
            let n = vector_value::<S, D>(
                v,
                D::rapply_spec(pose1.rotation, im.contact.normal_a),
            );
            let far = r3_add(near, r3_scale(n, v(p.dist)));
            let mid = vector_value::<S, D>(v, manifold_point(im, pose1, k));
            r3_add(mid, mid) == r3_add(near, far)
        }),
{
    let p = im.contact.points_a[k];
    let whole = D::vscale_spec(im.contact.normal_a, p.dist);
    let half = D::vover_spec(whole, two_spec());
    let twice = D::vscale_spec(half, two_spec());
    assert(vector_value::<S, D>(v, twice) == vector_value::<S, D>(v, whole));
    assert(vector_value::<S, D>(v, D::rapply_spec(pose1.rotation, twice)) == vector_value::<S, D>(
        v,
        D::rapply_spec(pose1.rotation, whole),
    ));
    let h = vector_value::<S, D>(v, D::rapply_spec(pose1.rotation, half));
    lemma_double(h.x);
    lemma_double(h.y);
    lemma_double(h.z);
}

proof fn lemma_double(a: real)
    ensures
        a * 2real == a + a,
{
    assert(a * 2real == a + a) by (nonlinear_arith);
}

proof fn lemma_half_double(a: real)
    ensures
        (a / 2real) * 2real == a,
{
    assert((a / 2real) * 2real == a) by (nonlinear_arith);
}

// ---- tangents ----

/// A vector less its part along a unit vector lies across that unit vector.
proof fn lemma_across(d: V3<real>, r: V3<real>)
    requires
        r3_dot(d, d) == 1real,
    ensures
        ({
            let t = r3_sub(r, r3_scale(d, r3_dot(d, r)));
            &&& r3_dot(d, t) == 0real
            &&& r3_dot(r, t) == r3_dot(t, t)
        }),
{
    let k = r3_dot(d, r);
    let s = r3_scale(d, k);
    let t = r3_sub(r, s);
    lemma_dot_difference(d, r, s);
    lemma_dot_sum(d, r3_zero(), d, k);
    lemma_zero(d.x);
    lemma_zero(d.y);
    lemma_zero(d.z);
    assert(r3_add(r3_zero(), s) == s);
    lemma_one(k);
    // r . t == (t + s) . t, and s . t == 0.
    lemma_dot_sum(t, t, d, k);
    assert(r3_add(t, s) == r);
    lemma_dot_commutes(t, r);
    lemma_dot_commutes(d, t);
    lemma_zero(k);
}

/// In exact arithmetic, the first tangent of a contact of space is a unit vector across
/// the unit normal, and where the bodies slide fast enough it points the way body A
/// slides against body B.
pub proof fn space_tangents_follow_the_sliding<S: Scalar>(
    v: spec_fn(S) -> real,
    dir: V3<S>,
    v1: V3<S>,
    v2: V3<S>,
)
    requires
        exact(v),
        ordered(v),
        exact_roots(v),
        0real < v(S::dec_spec(1, (-4) as i32)),
        r3_dot(vector_value::<S, Dim3>(v, dir), vector_value::<S, Dim3>(v, dir)) == 1real,
    ensures
        ({
            let d = vector_value::<S, Dim3>(v, dir);
            let t = vector_value::<S, Dim3>(v, first_tangent::<S, Dim3>(dir, v1, v2));
            let slide = r3_sub(
                vector_value::<S, Dim3>(v, v1),
                vector_value::<S, Dim3>(v, v2),
            );
            let flat = r3_sub(slide, r3_scale(d, r3_dot(d, slide)));
            let slow = v(S::dec_spec(1, (-4) as i32));
            &&& r3_dot(d, t) == 0real
            &&& r3_dot(t, t) == 1real
            &&& slow * slow <= r3_dot(flat, flat) ==> 0real < r3_dot(slide, t)
        }),
{
    space_is_spatial(v);
    space_is_inertial(v);
    space_ortho_is_across(v, dir);
    let d = vector_value::<S, Dim3>(v, dir);
    let rel = <Dim3 as Space<S>>::vsub_spec(v1, v2);
    let slide = vector_value::<S, Dim3>(v, rel);
    let k = <Dim3 as Space<S>>::vdot_spec(dir, rel);
    let flat_vec = <Dim3 as Space<S>>::vsub_spec(rel, <Dim3 as Space<S>>::vscale_spec(dir, k));
    let flat = vector_value::<S, Dim3>(v, flat_vec);
    let sq = <Dim3 as Space<S>>::vdot_spec(flat_vec, flat_vec);
    let norm = sq.sqrt_spec();
    assert(flat == r3_sub(slide, r3_scale(d, r3_dot(d, slide))));
    lemma_across(d, slide);
    lemma_square(flat.x);
    lemma_square(flat.y);
    lemma_square(flat.z);
    let n = v(norm);
    let slow = v(S::dec_spec(1, (-4) as i32));
    if n < slow {
        assert(n * n < slow * slow) by (nonlinear_arith)
            requires
                0real <= n,
                n < slow,
        ;
    } else {
        let i = 1real / n;
        assert(i * n == 1real && 0real < i) by (nonlinear_arith)
            requires
                i == 1real / n,
                0real < n,
        ;
        let t = vector_value::<S, Dim3>(v, first_tangent::<S, Dim3>(dir, v1, v2));
        lemma_over(flat.x, n, i);
        lemma_over(flat.y, n, i);
        lemma_over(flat.z, n, i);
        assert(t == r3_scale(flat, i));
        lemma_dot_sum(d, r3_zero(), flat, i);
        lemma_dot_sum(slide, r3_zero(), flat, i);
        lemma_dot_sum(t, r3_zero(), flat, i);
        lemma_dot_sum(flat, r3_zero(), flat, i);
        assert(r3_add(r3_zero(), t) == t);
        assert(r3_dot(d, r3_zero()) == 0real) by {
            lemma_zero(d.x);
            lemma_zero(d.y);
            lemma_zero(d.z);
        }
        assert(r3_dot(slide, r3_zero()) == 0real) by {
            lemma_zero(slide.x);
            lemma_zero(slide.y);
            lemma_zero(slide.z);
        }
        assert(r3_dot(t, r3_zero()) == 0real) by {
            lemma_zero(t.x);
            lemma_zero(t.y);
            lemma_zero(t.z);
        }
        assert(r3_dot(flat, r3_zero()) == 0real) by {
            lemma_zero(flat.x);
            lemma_zero(flat.y);
            lemma_zero(flat.z);
        }
        lemma_zero(i);
        lemma_dot_commutes(t, flat);
        assert(r3_dot(flat, flat) == n * n);
        assert(((n * n) * i) * i == 1real) by {
            assert((n * n) * i == n * (i * n)) by (nonlinear_arith);
            lemma_one(n);
            lemma_commute(n, i);
        }
        assert(0real < (n * n) * i) by {
            assert((n * n) * i == n * (i * n)) by (nonlinear_arith);
            lemma_one(n);
        }
    }
}

pub(crate) proof fn lemma_over(a: real, n: real, i: real)
    requires
        n != 0real,
        i == 1real / n,
    ensures
        a / n == a * i,
{
    assert(a / n == a * i) by (nonlinear_arith)
        requires
            n != 0real,
            i == 1real / n,
    ;
}

// ---- friction ----

/// In exact arithmetic, a friction step of the plane that neither its bound nor
/// compliance changes stops the sliding: it removes the whole velocity error along
/// the tangent.
pub proof fn plane_free_friction_step_stops_sliding<S: Scalar>(
    v: spec_fn(S) -> real,
    p: BodyPair<S, Dim2>,
    dp1: <Dim2 as Space<S>>::V,
    dp2: <Dim2 as Space<S>>::V,
    c: TwoBodyModel<S, Dim2>,
    e: TwoBodyConstraintElement<S, Dim2>,
    v1: Velocity<S, Dim2>,
    v2: Velocity<S, Dim2>,
    limit: S,
)
    requires
        exact(v),
        ordered(v),
        c.im_a == p.mprops1.inv_mass,
        c.im_b == p.mprops2.inv_mass,
        is_normal_row(p, <Dim2 as Space<S>>::ortho_spec(c.dir_a), dp1, dp2, e.tangent0),
        v(bare_row(p, <Dim2 as Space<S>>::ortho_spec(c.dir_a), dp1, dp2).r) != 0real,
        v(c.cfm_factor) == 1real,
        0real <= v(limit),
        ({
            let raw = v(
                e.tangent0.impulse.minus_spec(
                    e.tangent0.r.times_spec(
                        row_error(
                            e.tangent0,
                            <Dim2 as Space<S>>::ortho_spec(c.dir_a),
                            v1,
                            v2,
                        ),
                    ),
                ),
            );
            -v(limit) <= raw <= v(limit)
        }),
    ensures
        ({
            let t = tangent_impulse(c, e, v1, v2, limit);
            let x = (t.0.minus_spec(e.tangent0.impulse), t.1.minus_spec(e.tangent1.impulse));
            v(
                row_error(
                    e.tangent0,
                    <Dim2 as Space<S>>::ortho_spec(c.dir_a),
                    pushed_tangent(c, e, true, v1, x),
                    pushed_tangent(c, e, false, v2, x),
                ),
            ) == 0real
        }),
{
    plane_is_linear(v);
    let dir = <Dim2 as Space<S>>::ortho_spec(c.dir_a);
    let t = tangent_impulse(c, e, v1, v2, limit);
    let x = (t.0.minus_spec(e.tangent0.impulse), t.1.minus_spec(e.tangent1.impulse));
    let along_tangent = TwoBodyModel { dir_a: dir, ..c };
    let row = e.tangent0;
    lemma_pushed_error(v, p, dp1, dp2, along_tangent, row, v1, v2, x.0);
    let k = v(bare_row(p, dir, dp1, dp2).r);
    let err = v(row_error(row, dir, v1, v2));
    let r = v(row.r);
    assert(r == 1real / k);
    assert(r * k == 1real) by (nonlinear_arith)
        requires
            r == 1real / k,
            k != 0real,
    ;
    let raw = row.impulse.minus_spec(row.r.times_spec(row_error(row, dir, v1, v2)));
    lemma_one(v(raw));
    let d = v(x.0);
    assert(d == -(r * err));
    assert(d * k == -err) by (nonlinear_arith)
        requires
            d == -(r * err),
            r * k == 1real,
    ;
}

// ---- motion ----

/// In exact arithmetic, gravity adds in a step `dt` times 9.81 downwards, along the
/// second axis, to the velocity of a body that can move, and turns nothing. A body
/// that cannot move gets nothing.
proof fn lemma_gravity<S: Scalar, D: Space<S>>(
    v: spec_fn(S) -> real,
    mprops: WorldMassProperties<S, D>,
    params: RbdSimParams<S>,
)
    requires
        exact(v),
        geometric::<S, D>(v),
        spatial::<S, D>(v),
        D::dimension_spec().lin_spec() > 1,
    ensures
        ({
            let inc = velocity_increment(mprops, params);
            let g = v(S::dec_spec((-981) as i32, (-2) as i32));
            &&& vector_value::<S, D>(v, inc.linear) == (if is_fixed_spec::<S, D>(mprops.inv_mass) {
                r3_zero()
            } else {
                along(1, g * v(params.dt))
            })
            &&& angular_value::<S, D>(v, inc.angular) == r3_zero()
        }),
{
    let g = v(S::dec_spec((-981) as i32, (-2) as i32));
    lemma_zero(g);
    lemma_zero(v(params.dt));
    lemma_one(g);
}

/// In exact arithmetic, the velocity error of the normal of a contact between two bodies
/// of the plane, less what it asks for, is the rate at which the bodies part: with `n` the
/// normal from collider 1 to collider 2, the velocity of body B less that of body A
/// at the contact point, along `n`. Body A is pushed against `n`, body B along it.
pub proof fn plane_contacts_part_their_bodies<S: Scalar>(
    v: spec_fn(S) -> real,
    im: IndexedManifold<S, Dim2>,
    sc: BodyScene<S, Dim2>,
    params: RbdSimParams<S>,
    before: TwoBodyModel<S, Dim2>,
    k: int,
    v1: Velocity<S, Dim2>,
    v2: Velocity<S, Dim2>,
)
    requires
        exact(v),
        0 <= k < im.contact.len <= 4,
    ensures
        ({
            let c = built_constraint(im, sc, params, before);
            let row = c.elements[k].normal_part;
            let i1 = im.colliders[0] as int;
            let i2 = im.colliders[1] as int;
            let n = vector_value::<S, Dim2>(
                v,
                <Dim2 as Space<S>>::rapply_spec(sc.collider_poses[i1].rotation, im.contact.normal_a),
            );
            let pt = vector_value::<S, Dim2>(v, manifold_point(im, sc.collider_poses[i1], k));
            let s1 = point_velocity(
                vector_value::<S, Dim2>(v, v1.linear),
                angular_value::<S, Dim2>(v, v1.angular),
                vector_value::<S, Dim2>(v, sc.solver_poses[i1].translation),
                pt,
            );
            let s2 = point_velocity(
                vector_value::<S, Dim2>(v, v2.linear),
                angular_value::<S, Dim2>(v, v2.angular),
                vector_value::<S, Dim2>(v, sc.solver_poses[i2].translation),
                pt,
            );
            &&& v(row_error(row, c.dir_a, v1, v2)) - v(row.rhs) == r3_dot(n, r3_sub(s2, s1))
            &&& vector_value::<S, Dim2>(v, c.dir_a) == r3_neg(n)
            &&& c.solver_body_a == im.colliders[0]
            &&& c.solver_body_b == im.colliders[1]
        }),
{
    plane_is_spatial(v);
    plane_is_inertial(v);
    lemma_built::<S, Dim2>(v, im, sc, params, before, k, v1, v2);
}

/// In exact arithmetic, a contact of the plane in a new substep asks its bodies to part as its
/// distance demands, which has grown by how far its sides have moved apart along the
/// normal `n`; and its friction asks to undo within the step how far they have slid.
pub proof fn plane_refreshed_contacts_ask_to_part<S: Scalar>(
    v: spec_fn(S) -> real,
    e: TwoBodyConstraintElement<S, Dim2>,
    info: TwoBodyConstraintInfo<S, Dim2>,
    pose1: Pose<S, Dim2>,
    pose2: Pose<S, Dim2>,
    dir: <Dim2 as Space<S>>::V,
    tangent0: <Dim2 as Space<S>>::V,
    params: RbdSimParams<S>,
    n: V3<real>,
    t: real,
)
    requires
        exact(v),
        ordered(v),
        vector_value::<S, Dim2>(v, dir) == r3_neg(n),
        v(info.normal_vel) == 0real,
        0real <= v(params.max_corrective_velocity_spec()),
        v(params.inv_dt_spec()) * t == 1real,
    ensures
        ({
            let r = refreshed_element(e, info, pose1, pose2, dir, tangent0, params);
            let apart = spread(v, info, pose1, pose2);
            let slid = -r3_dot(vector_value::<S, Dim2>(v, tangent0), apart);
            &&& asks_to_part(
                v(info.dist) + r3_dot(n, apart),
                v(params.allowed_linear_error_spec()),
                v(params.contact_erp_inv_dt_spec()),
                v(params.max_corrective_velocity_spec()),
                t,
                v(r.normal_part.rhs_wo_bias),
                v(r.normal_part.rhs),
            )
            &&& v(r.normal_part.impulse) == v(e.normal_part.impulse) * v(
                params.warmstart_coefficient,
            )
            &&& slid + t * -(v(r.tangent0.rhs) - v(r.tangent0.rhs_wo_bias)) == 0real
            &&& v(r.tangent0.impulse) == v(e.tangent0.impulse) * v(params.warmstart_coefficient)
        }),
{
    plane_is_spatial(v);
    plane_is_inertial(v);
    lemma_refreshed::<S, Dim2>(v, e, info, pose1, pose2, dir, tangent0, params, n, t);
}

/// In exact arithmetic, a contact between two bodies of the plane acts midway between their
/// surfaces: between its point on the first one and the point `dist` further along the
/// normal.
pub proof fn plane_manifolds_act_midway<S: Scalar>(
    v: spec_fn(S) -> real,
    im: IndexedManifold<S, Dim2>,
    pose1: Pose<S, Dim2>,
    k: int,
)
    requires
        exact(v),
        v(two_spec::<S>()) == 2real,
    ensures
        ({
            let p = im.contact.points_a[k];
            let near = vector_value::<S, Dim2>(v, pose1.point_spec(p.pt));
            let n = vector_value::<S, Dim2>(
                v,
                <Dim2 as Space<S>>::rapply_spec(pose1.rotation, im.contact.normal_a),
            );
            let far = r3_add(near, r3_scale(n, v(p.dist)));
            let mid = vector_value::<S, Dim2>(v, manifold_point(im, pose1, k));
            r3_add(mid, mid) == r3_add(near, far)
        }),
{
    plane_is_geometric(v);
    plane_is_spatial(v);
    assert forall|a: <Dim2 as Space<S>>::V|
        r3_scale(
            vector_value::<S, Dim2>(v, #[trigger] <Dim2 as Space<S>>::vover_spec(a, two_spec())),
            2real,
        ) == vector_value::<S, Dim2>(v, a) by {
        lemma_half_double(v(a.x));
        lemma_half_double(v(a.y));
        lemma_zero(2real);
    }
    lemma_midway::<S, Dim2>(v, im, pose1, k);
}

/// In exact arithmetic, gravity adds in a step `dt` times its acceleration, along the
/// second axis, to the velocity of a body of the plane that can move, and turns nothing. A
/// body that cannot move gets nothing.
pub proof fn plane_gravity_pulls_down<S: Scalar>(
    v: spec_fn(S) -> real,
    mprops: WorldMassProperties<S, Dim2>,
    params: RbdSimParams<S>,
)
    requires
        exact(v),
        v(S::dec_spec((-981) as i32, (-2) as i32)) == -981real / 100real,
    ensures
        ({
            let inc = velocity_increment(mprops, params);
            &&& vector_value::<S, Dim2>(v, inc.linear) == (if is_fixed_spec::<S, Dim2>(
                mprops.inv_mass,
            ) {
                r3_zero()
            } else {
                along(1, (-981real / 100real) * v(params.dt))
            })
            &&& angular_value::<S, Dim2>(v, inc.angular) == r3_zero()
        }),
{
    plane_is_geometric(v);
    plane_is_spatial(v);
    lemma_gravity::<S, Dim2>(v, mprops, params);
}

/// In exact arithmetic, a body of the plane moves in a short time `dt` by `dt` times its
/// velocity.
pub proof fn plane_bodies_move_with_their_velocity<S: Scalar>(
    v: spec_fn(S) -> real,
    vel: Velocity<S, Dim2>,
    dt: S,
    pose: Pose<S, Dim2>,
)
    requires
        exact(v),
    ensures
        r3_sub(
            vector_value::<S, Dim2>(v, vel.integrate_linearized_spec(dt, pose).translation),
            vector_value::<S, Dim2>(v, pose.translation),
        ) == r3_scale(vector_value::<S, Dim2>(v, vel.linear), v(dt)),
        vel.integrate_linearized_spec(dt, pose).rotation == <Dim2 as Space<S>>::radvance_spec(
            pose.rotation,
            vel.angular,
            dt,
        ),
{
    plane_is_geometric(v);
    plane_is_spatial(v);
}

/// In exact arithmetic, the velocity error of the normal of a contact between two bodies
/// of space, less what it asks for, is the rate at which the bodies part: with `n` the
/// normal from collider 1 to collider 2, the velocity of body B less that of body A
/// at the contact point, along `n`. Body A is pushed against `n`, body B along it.
pub proof fn space_contacts_part_their_bodies<S: Scalar>(
    v: spec_fn(S) -> real,
    im: IndexedManifold<S, Dim3>,
    sc: BodyScene<S, Dim3>,
    params: RbdSimParams<S>,
    before: TwoBodyModel<S, Dim3>,
    k: int,
    v1: Velocity<S, Dim3>,
    v2: Velocity<S, Dim3>,
)
    requires
        exact(v),
        0 <= k < im.contact.len <= 4,
    ensures
        ({
            let c = built_constraint(im, sc, params, before);
            let row = c.elements[k].normal_part;
            let i1 = im.colliders[0] as int;
            let i2 = im.colliders[1] as int;
            let n = vector_value::<S, Dim3>(
                v,
                <Dim3 as Space<S>>::rapply_spec(sc.collider_poses[i1].rotation, im.contact.normal_a),
            );
            let pt = vector_value::<S, Dim3>(v, manifold_point(im, sc.collider_poses[i1], k));
            let s1 = point_velocity(
                vector_value::<S, Dim3>(v, v1.linear),
                angular_value::<S, Dim3>(v, v1.angular),
                vector_value::<S, Dim3>(v, sc.solver_poses[i1].translation),
                pt,
            );
            let s2 = point_velocity(
                vector_value::<S, Dim3>(v, v2.linear),
                angular_value::<S, Dim3>(v, v2.angular),
                vector_value::<S, Dim3>(v, sc.solver_poses[i2].translation),
                pt,
            );
            &&& v(row_error(row, c.dir_a, v1, v2)) - v(row.rhs) == r3_dot(n, r3_sub(s2, s1))
            &&& vector_value::<S, Dim3>(v, c.dir_a) == r3_neg(n)
            &&& c.solver_body_a == im.colliders[0]
            &&& c.solver_body_b == im.colliders[1]
        }),
{
    space_is_spatial(v);
    space_is_inertial(v);
    lemma_built::<S, Dim3>(v, im, sc, params, before, k, v1, v2);
}

/// In exact arithmetic, a contact of space in a new substep asks its bodies to part as its
/// distance demands, which has grown by how far its sides have moved apart along the
/// normal `n`; and its friction asks to undo within the step how far they have slid.
pub proof fn space_refreshed_contacts_ask_to_part<S: Scalar>(
    v: spec_fn(S) -> real,
    e: TwoBodyConstraintElement<S, Dim3>,
    info: TwoBodyConstraintInfo<S, Dim3>,
    pose1: Pose<S, Dim3>,
    pose2: Pose<S, Dim3>,
    dir: <Dim3 as Space<S>>::V,
    tangent0: <Dim3 as Space<S>>::V,
    params: RbdSimParams<S>,
    n: V3<real>,
    t: real,
)
    requires
        exact(v),
        ordered(v),
        vector_value::<S, Dim3>(v, dir) == r3_neg(n),
        v(info.normal_vel) == 0real,
        0real <= v(params.max_corrective_velocity_spec()),
        v(params.inv_dt_spec()) * t == 1real,
    ensures
        ({
            let r = refreshed_element(e, info, pose1, pose2, dir, tangent0, params);
            let apart = spread(v, info, pose1, pose2);
            let slid = -r3_dot(vector_value::<S, Dim3>(v, tangent0), apart);
            &&& asks_to_part(
                v(info.dist) + r3_dot(n, apart),
                v(params.allowed_linear_error_spec()),
                v(params.contact_erp_inv_dt_spec()),
                v(params.max_corrective_velocity_spec()),
                t,
                v(r.normal_part.rhs_wo_bias),
                v(r.normal_part.rhs),
            )
            &&& v(r.normal_part.impulse) == v(e.normal_part.impulse) * v(
                params.warmstart_coefficient,
            )
            &&& slid + t * -(v(r.tangent0.rhs) - v(r.tangent0.rhs_wo_bias)) == 0real
            &&& v(r.tangent0.impulse) == v(e.tangent0.impulse) * v(params.warmstart_coefficient)
        }),
{
    space_is_spatial(v);
    space_is_inertial(v);
    lemma_refreshed::<S, Dim3>(v, e, info, pose1, pose2, dir, tangent0, params, n, t);
}

/// In exact arithmetic, a contact between two bodies of space acts midway between their
/// surfaces: between its point on the first one and the point `dist` further along the
/// normal.
pub proof fn space_manifolds_act_midway<S: Scalar>(
    v: spec_fn(S) -> real,
    im: IndexedManifold<S, Dim3>,
    pose1: Pose<S, Dim3>,
    k: int,
)
    requires
        exact(v),
        v(two_spec::<S>()) == 2real,
    ensures
        ({
            let p = im.contact.points_a[k];
            let near = vector_value::<S, Dim3>(v, pose1.point_spec(p.pt));
            let n = vector_value::<S, Dim3>(
                v,
                <Dim3 as Space<S>>::rapply_spec(pose1.rotation, im.contact.normal_a),
            );
            let far = r3_add(near, r3_scale(n, v(p.dist)));
            let mid = vector_value::<S, Dim3>(v, manifold_point(im, pose1, k));
            r3_add(mid, mid) == r3_add(near, far)
        }),
{
    space_is_geometric(v);
    space_is_spatial(v);
    assert forall|a: <Dim3 as Space<S>>::V|
        r3_scale(
            vector_value::<S, Dim3>(v, #[trigger] <Dim3 as Space<S>>::vover_spec(a, two_spec())),
            2real,
        ) == vector_value::<S, Dim3>(v, a) by {
        lemma_half_double(v(a.x));
        lemma_half_double(v(a.y));
        lemma_half_double(v(a.z));
    }
    lemma_midway::<S, Dim3>(v, im, pose1, k);
}

/// In exact arithmetic, gravity adds in a step `dt` times its acceleration, along the
/// second axis, to the velocity of a body of space that can move, and turns nothing. A
/// body that cannot move gets nothing.
pub proof fn space_gravity_pulls_down<S: Scalar>(
    v: spec_fn(S) -> real,
    mprops: WorldMassProperties<S, Dim3>,
    params: RbdSimParams<S>,
)
    requires
        exact(v),
        v(S::dec_spec((-981) as i32, (-2) as i32)) == -981real / 100real,
    ensures
        ({
            let inc = velocity_increment(mprops, params);
            &&& vector_value::<S, Dim3>(v, inc.linear) == (if is_fixed_spec::<S, Dim3>(
                mprops.inv_mass,
            ) {
                r3_zero()
            } else {
                along(1, (-981real / 100real) * v(params.dt))
            })
            &&& angular_value::<S, Dim3>(v, inc.angular) == r3_zero()
        }),
{
    space_is_geometric(v);
    space_is_spatial(v);
    lemma_gravity::<S, Dim3>(v, mprops, params);
}

/// In exact arithmetic, a body of space moves in a short time `dt` by `dt` times its
/// velocity.
pub proof fn space_bodies_move_with_their_velocity<S: Scalar>(
    v: spec_fn(S) -> real,
    vel: Velocity<S, Dim3>,
    dt: S,
    pose: Pose<S, Dim3>,
)
    requires
        exact(v),
    ensures
        r3_sub(
            vector_value::<S, Dim3>(v, vel.integrate_linearized_spec(dt, pose).translation),
            vector_value::<S, Dim3>(v, pose.translation),
        ) == r3_scale(vector_value::<S, Dim3>(v, vel.linear), v(dt)),
        vel.integrate_linearized_spec(dt, pose).rotation == <Dim3 as Space<S>>::radvance_spec(
            pose.rotation,
            vel.angular,
            dt,
        ),
{
    space_is_geometric(v);
    space_is_spatial(v);
}

} // verus!
