//! Rotations made of unit quaternions are unit quaternions.
use super::gravity::parents_first;
use super::jacobian_laws::{
    angular_value, frames_are_unit, jacobian_angular, jacobian_linear, root_upright,
    space_jacobians_give_velocities, unit_length, vector_value,
};
use super::kinematics::{
    body_to_parent_spec, dofs_in_range, joint_frame_rot, joint_transform, link_pose, moving, placed,
};
use super::types::{MultibodyLinkStatic, MultibodyLinkWorkspace};
use crate::exact::{exact, lemma_commute, lemma_zero};
use crate::joint::{GenericJoint, free_axes};
use crate::real_vectors::{
    lemma_dot_sum, lemma_minus_right, lemma_one, r3_add, r3_cross, r3_dot, r3_scale,
};
use crate::scalar::{Scalar, two_spec};
use crate::solver::anchor_laws::{lemma_cross_orthogonal, lemma_cross_twice};
use crate::space::{Dim3, Pose, Quat, Space, V3};
use vstd::prelude::*;

verus! {

// ---- products ----

proof fn lemma_dot_commutes(a: V3<real>, b: V3<real>)
    ensures
        r3_dot(a, b) == r3_dot(b, a),
{
    lemma_commute(a.x, b.x);
    lemma_commute(a.y, b.y);
    lemma_commute(a.z, b.z);
}

proof fn lemma_minus_left(k: real, a: real, b: real)
    ensures
        k * (a - b) == k * a - k * b,
{
    assert(k * (a - b) == k * a - k * b) by (nonlinear_arith);
}

pub(crate) proof fn lemma_triple_product(c: V3<real>, a: V3<real>, b: V3<real>)
    ensures
        r3_dot(c, r3_cross(a, b)) == -r3_dot(r3_cross(a, c), b),
{
    lemma_minus_left(c.x, a.y * b.z, b.y * a.z);
    lemma_minus_left(c.y, a.z * b.x, b.z * a.x);
    lemma_minus_left(c.z, a.x * b.y, b.x * a.y);
    lemma_minus_right(a.y * c.z, c.y * a.z, b.x);
    lemma_minus_right(a.z * c.x, c.z * a.x, b.y);
    lemma_minus_right(a.x * c.y, c.x * a.y, b.z);
    assert(c.x * (a.y * b.z) == (c.x * a.y) * b.z) by (nonlinear_arith);
    assert(c.x * (b.y * a.z) == (a.z * c.x) * b.y) by (nonlinear_arith);
    assert(c.y * (a.z * b.x) == (c.y * a.z) * b.x) by (nonlinear_arith);
    assert(c.y * (b.z * a.x) == (a.x * c.y) * b.z) by (nonlinear_arith);
    assert(c.z * (a.x * b.y) == (c.z * a.x) * b.y) by (nonlinear_arith);
    assert(c.z * (b.x * a.y) == (a.y * c.z) * b.x) by (nonlinear_arith);
}

proof fn lemma_scaled_dot(x: V3<real>, a: V3<real>, k: real)
    ensures
        r3_dot(x, r3_scale(a, k)) == r3_dot(x, a) * k,
        r3_dot(r3_scale(a, k), x) == r3_dot(a, x) * k,
{
    let zero = V3 { x: 0real, y: 0real, z: 0real };
    lemma_dot_sum(x, zero, a, k);
    lemma_zero(x.x);
    lemma_zero(x.y);
    lemma_zero(x.z);
}

/// The square of a vector product.
pub(crate) proof fn lemma_cross_square(a: V3<real>, b: V3<real>)
    ensures
        ({
            let c = r3_cross(a, b);
            let d = r3_dot(a, b);
            r3_dot(c, c) == r3_dot(a, a) * r3_dot(b, b) - d * d
        }),
{
    let c = r3_cross(a, b);
    let d = r3_dot(a, b);
    let n = r3_dot(a, a);
    lemma_triple_product(c, a, b);
    lemma_cross_twice(a, b);
    lemma_dot_commutes(a, b);
    lemma_dot_sum(b, r3_scale(a, d), b, -n);
    lemma_scaled_dot(b, a, d);
    let m = r3_dot(b, b);
    assert(m * -n == -(n * m)) by (nonlinear_arith);
}

/// The square of `b w1 + a w2 + a x b`.
proof fn lemma_product_square(w1: real, a: V3<real>, w2: real, b: V3<real>)
    ensures
        ({
            let c = r3_cross(a, b);
            let d = r3_dot(a, b);
            let t = r3_add(r3_add(r3_scale(b, w1), r3_scale(a, w2)), c);
            r3_dot(t, t) == (r3_dot(b, b) * w1) * w1 + 2real * ((d * w1) * w2) + (r3_dot(a, a) * w2)
                * w2 + (r3_dot(a, a) * r3_dot(b, b) - d * d)
        }),
{
    let c = r3_cross(a, b);
    let d = r3_dot(a, b);
    let bw = r3_scale(b, w1);
    let p = r3_add(bw, r3_scale(a, w2));
    let t = r3_add(p, c);
    lemma_one(c.x);
    lemma_one(c.y);
    lemma_one(c.z);
    assert(r3_scale(c, 1real) == c);
    lemma_dot_sum(t, p, c, 1real);
    lemma_dot_sum(p, p, c, 1real);
    lemma_dot_sum(c, p, c, 1real);
    lemma_one(r3_dot(t, c));
    lemma_one(r3_dot(c, p));
    lemma_one(r3_dot(p, c));
    lemma_one(r3_dot(c, c));
    assert(r3_dot(t, t) == r3_dot(p, p) + r3_dot(c, p) + r3_dot(p, c) + r3_dot(c, c));
    // The cross product is orthogonal to both.
    lemma_cross_orthogonal(a, b);
    lemma_cross_orthogonal(b, a);
    assert(r3_dot(c, b) == 0real) by {
        let e = r3_cross(b, a);
        lemma_commute(a.y, b.z);
        lemma_commute(b.y, a.z);
        lemma_commute(a.z, b.x);
        lemma_commute(b.z, a.x);
        lemma_commute(a.x, b.y);
        lemma_commute(b.x, a.y);
        assert(c.x == -e.x && c.y == -e.y && c.z == -e.z);
        assert((-e.x) * b.x == -(e.x * b.x)) by (nonlinear_arith);
        assert((-e.y) * b.y == -(e.y * b.y)) by (nonlinear_arith);
        assert((-e.z) * b.z == -(e.z * b.z)) by (nonlinear_arith);
    }
    lemma_dot_sum(c, bw, a, w2);
    lemma_scaled_dot(c, b, w1);
    lemma_zero(w1);
    lemma_zero(w2);
    assert(r3_dot(c, p) == 0real);
    lemma_dot_commutes(c, p);
    // The rest.
    lemma_dot_sum(p, bw, a, w2);
    lemma_scaled_dot(p, b, w1);
    lemma_dot_sum(b, bw, a, w2);
    lemma_scaled_dot(b, b, w1);
    lemma_dot_sum(a, bw, a, w2);
    lemma_scaled_dot(a, b, w1);
    lemma_dot_commutes(a, b);
    let nb = r3_dot(b, b);
    let na = r3_dot(a, a);
    assert(r3_dot(p, b) == nb * w1 + d * w2);
    assert(r3_dot(p, a) == d * w1 + na * w2);
    assert(r3_dot(p, p) == r3_dot(p, b) * w1 + r3_dot(p, a) * w2);
    assert((nb * w1 + d * w2) * w1 == (nb * w1) * w1 + (d * w1) * w2) by (nonlinear_arith);
    assert((d * w1 + na * w2) * w2 == (d * w1) * w2 + (na * w2) * w2) by (nonlinear_arith);
    lemma_cross_square(a, b);
}

/// The length of a product is the product of the lengths, for unit lengths.
proof fn lemma_unit_square(w1: real, na: real, w2: real, nb: real, d: real)
    requires
        w1 * w1 + na == 1real,
        w2 * w2 + nb == 1real,
    ensures
        (w1 * w2 - d) * (w1 * w2 - d) + ((nb * w1) * w1 + 2real * ((d * w1) * w2) + (na * w2) * w2
            + (na * nb - d * d)) == 1real,
{
    let p = w1 * w1;
    let q = w2 * w2;
    let m = w1 * w2;
    assert((m - d) * (m - d) == m * m - 2real * (m * d) + d * d) by (nonlinear_arith);
    assert(m * m == p * q) by (nonlinear_arith)
        requires
            m == w1 * w2,
            p == w1 * w1,
            q == w2 * w2,
    ;
    assert((d * w1) * w2 == m * d) by (nonlinear_arith)
        requires
            m == w1 * w2,
    ;
    assert((nb * w1) * w1 == nb * p) by (nonlinear_arith)
        requires
            p == w1 * w1,
    ;
    assert((na * w2) * w2 == na * q) by (nonlinear_arith)
        requires
            q == w2 * w2,
    ;
    assert(p * q + nb * p + na * q + na * nb == 1real) by (nonlinear_arith)
        requires
            na == 1real - p,
            nb == 1real - q,
    ;
}

/// In exact arithmetic the product of unit quaternions is a unit quaternion.
pub proof fn products_stay_unit<S: Scalar>(v: spec_fn(S) -> real, a: Quat<S>, b: Quat<S>)
    requires
        exact(v),
        unit_length(v, a),
        unit_length(v, b),
    ensures
        unit_length(v, <Dim3 as Space<S>>::rmul_spec(a, b)),
{
    let r = <Dim3 as Space<S>>::rmul_spec(a, b);
    let av = V3 { x: v(a.x), y: v(a.y), z: v(a.z) };
    let bv = V3 { x: v(b.x), y: v(b.y), z: v(b.z) };
    let w1 = v(a.w);
    let w2 = v(b.w);
    let d = r3_dot(av, bv);
    let t = r3_add(r3_add(r3_scale(bv, w1), r3_scale(av, w2)), r3_cross(av, bv));
    lemma_commute(w1, bv.x);
    lemma_commute(w1, bv.y);
    lemma_commute(w1, bv.z);
    lemma_commute(av.z, bv.y);
    lemma_commute(av.x, bv.z);
    lemma_commute(av.y, bv.x);
    assert(v(r.w) == w1 * w2 - d);
    assert(v(r.x) == t.x);
    assert(v(r.y) == t.y);
    assert(v(r.z) == t.z);
    lemma_product_square(w1, av, w2, bv);
    lemma_unit_square(w1, r3_dot(av, av), w2, r3_dot(bv, bv), d);
}

proof fn lemma_unit_inverse<S: Scalar>(v: spec_fn(S) -> real, a: Quat<S>)
    requires
        exact(v),
        unit_length(v, a),
    ensures
        unit_length(v, <Dim3 as Space<S>>::rinv_spec(a)),
{
    let x = v(a.x);
    let y = v(a.y);
    let z = v(a.z);
    assert((-x) * (-x) == x * x) by (nonlinear_arith);
    assert((-y) * (-y) == y * y) by (nonlinear_arith);
    assert((-z) * (-z) == z * z) by (nonlinear_arith);
}

proof fn lemma_unit_identity<S: Scalar>(v: spec_fn(S) -> real)
    requires
        exact(v),
    ensures
        unit_length(v, <Dim3 as Space<S>>::rid_spec()),
{
    lemma_zero(0real);
    lemma_one(1real);
}

// ---- joints ----

/// The frames of a joint are unit quaternions.
pub open spec fn unit_frames<S: Scalar>(
    v: spec_fn(S) -> real,
    joint: GenericJoint<S, Dim3>,
) -> bool {
    unit_length(v, joint.local_frame_a.rotation) && unit_length(v, joint.local_frame_b.rotation)
}

proof fn lemma_unit_transform<S: Scalar>(
    v: spec_fn(S) -> real,
    joint: GenericJoint<S, Dim3>,
    rot: Quat<S>,
    coords: Seq<S>,
    i: int,
)
    requires
        exact(v),
        unit_frames(v, joint),
        unit_length(v, rot),
    ensures
        unit_length(v, joint_transform(joint, rot, coords, i).rotation),
    decreases i,
{
    if i > 0 {
        lemma_unit_transform(v, joint, rot, coords, i - 1);
        lemma_unit_identity(v);
        products_stay_unit(
            v,
            <Dim3 as Space<S>>::rid_spec(),
            joint_transform(joint, rot, coords, i - 1).rotation,
        );
    } else {
        lemma_unit_inverse(v, joint.local_frame_b.rotation);
        products_stay_unit(v, rot, <Dim3 as Space<S>>::rinv_spec(joint.local_frame_b.rotation));
    }
}

/// In exact arithmetic a joint with unit frames and a unit rotation turns its link by
/// a unit quaternion.
pub proof fn unit_joints_turn_by_units<S: Scalar>(
    v: spec_fn(S) -> real,
    joint: GenericJoint<S, Dim3>,
    rot: Quat<S>,
    coords: Seq<S>,
)
    requires
        exact(v),
        unit_frames(v, joint),
        unit_length(v, rot),
    ensures
        unit_length(v, body_to_parent_spec(joint, rot, coords).rotation),
{
    lemma_unit_transform(v, joint, rot, coords, 3);
    products_stay_unit(
        v,
        joint.local_frame_a.rotation,
        joint_transform(joint, rot, coords, 3).rotation,
    );
}

/// Every joint has unit frames and a unit rotation.
pub open spec fn unit_joints<S: Scalar>(
    v: spec_fn(S) -> real,
    st: Seq<MultibodyLinkStatic<S, Dim3>>,
    ws: Seq<MultibodyLinkWorkspace<S, Dim3>>,
) -> bool {
    forall|k: int|
        0 <= k < st.len() ==> unit_frames(v, (#[trigger] st[k]).data) && unit_length(
            v,
            ws[k].joint_rot,
        )
}

proof fn lemma_unit_link<S: Scalar>(
    v: spec_fn(S) -> real,
    st: Seq<MultibodyLinkStatic<S, Dim3>>,
    ws: Seq<MultibodyLinkWorkspace<S, Dim3>>,
    root: Pose<S, Dim3>,
    k: int,
)
    requires
        exact(v),
        unit_joints(v, st, ws),
        unit_length(v, root.rotation),
        0 <= k < st.len(),
    ensures
        unit_length(v, link_pose(st, ws, root, k).rotation),
    decreases k,
{
    let p = st[k].parent_link_id as int;
    if 0 <= p < k {
        lemma_unit_link(v, st, ws, root, p);
        unit_joints_turn_by_units(v, st[k].data, ws[k].joint_rot, ws[k].coords@);
        products_stay_unit(
            v,
            link_pose(st, ws, root, p).rotation,
            body_to_parent_spec(st[k].data, ws[k].joint_rot, ws[k].coords@).rotation,
        );
    }
}

/// In exact arithmetic forward kinematics turns unit quaternions into unit
/// quaternions: the poses of the links and the frames of the joints are unit when
/// the root and the joints are.
pub proof fn unit_joints_have_unit_frames<S: Scalar>(
    v: spec_fn(S) -> real,
    st: Seq<MultibodyLinkStatic<S, Dim3>>,
    ws: Seq<MultibodyLinkWorkspace<S, Dim3>>,
    root: Pose<S, Dim3>,
)
    requires
        exact(v),
        ws.len() == st.len(),
        parents_first(st),
        unit_joints(v, st, ws),
        unit_length(v, root.rotation),
    ensures
        forall|k: int|
            0 <= k < st.len() ==> unit_length(
                v,
                (#[trigger] placed(st, ws, root, st.len() as int)[k]).local_to_world.rotation,
            ),
        frames_are_unit(v, st, placed(st, ws, root, st.len() as int)),
{
    let w = placed(st, ws, root, st.len() as int);
    assert forall|k: int| 0 <= k < st.len() implies unit_length(
        v,
        (#[trigger] w[k]).local_to_world.rotation,
    ) by {
        lemma_unit_link(v, st, ws, root, k);
    }
    assert forall|k: int| 0 <= k < st.len() implies unit_length(
        v,
        #[trigger] joint_frame_rot(st, w, k),
    ) by {
        let p = st[k].parent_link_id as int;
        assert(unit_frames(v, st[k].data));
        if 0 <= p < k {
            assert(unit_length(v, w[p].local_to_world.rotation));
            products_stay_unit(v, w[p].local_to_world.rotation, st[k].data.local_frame_a.rotation);
        } else {
            lemma_unit_identity(v);
            products_stay_unit(
                v,
                <Dim3 as Space<S>>::rid_spec(),
                st[k].data.local_frame_a.rotation,
            );
        }
    }
    assert forall|i: int|
        0 <= i < st.len() && free_axes((#[trigger] st[i]).data.locked_axes, 3, 6)
            == 3 implies unit_length(v, joint_frame_rot(st, w, i)) by {}
}

/// In exact arithmetic, the jacobian of each link of space maps the generalized
/// velocities to the velocity of the link at its centre of mass, for joints and a
/// root turned by unit quaternions.
pub proof fn unit_joints_have_true_jacobians<S: Scalar>(
    v: spec_fn(S) -> real,
    st: Seq<MultibodyLinkStatic<S, Dim3>>,
    ws: Seq<MultibodyLinkWorkspace<S, Dim3>>,
    root: Pose<S, Dim3>,
    q: Seq<S>,
    k: int,
)
    requires
        exact(v),
        v(two_spec::<S>()) == 2real,
        0 <= k < st.len(),
        ws.len() == st.len(),
        parents_first(st),
        dofs_in_range(st, q.len() as int),
        root_upright(v, st, ws),
        unit_joints(v, st, ws),
        unit_length(v, root.rotation),
    ensures
        ({
            let n = st.len() as int;
            let w = moving(st, placed(st, ws, root, n), q, n);
            &&& jacobian_linear(v, st, w, k, q) == vector_value::<S, Dim3>(v, w[k].rb_vels.linear)
            &&& jacobian_angular(v, st, w, k, q) == angular_value::<S, Dim3>(
                v,
                w[k].rb_vels.angular,
            )
        }),
{
    unit_joints_have_unit_frames(v, st, ws, root);
    space_jacobians_give_velocities(v, st, ws, root, q, k);
}

} // verus!
