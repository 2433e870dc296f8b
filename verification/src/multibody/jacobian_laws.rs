//! What the jacobians of the links mean when the arithmetic is exact.
//!
//! The plane is taken as a part of space: its vectors lie in the first two axes,
//! its rotations turn about the third one.
use super::dynamics::lemma_jac_ignores_velocity;
use super::gravity::parents_first;
use super::kinematics::{
    dofs_in_range, jac_col, joint_ang_vel, joint_dof, joint_frame_rot, joint_lin_vel, link_pose,
    link_velocity, moving, nth_free, placed,
};
use super::types::{MultibodyLinkStatic, MultibodyLinkWorkspace};
use crate::exact::{exact, lemma_commute, lemma_factor, lemma_zero};
use crate::joint::{free_axes, has_axis, lemma_free_axes_bound, lemma_free_axes_split};
use crate::real_vectors::{
    combination, lemma_combined_cross, lemma_combined_none, lemma_combined_same,
    lemma_combined_split, lemma_combined_sum, lemma_cross_add, lemma_cross_zero, lemma_dot_sum,
    lemma_minus_right, lemma_move_right, lemma_one, lemma_right, lemma_scale_add, r3_add, r3_cross,
    r3_dot, r3_scale, r3_zero,
};
use crate::scalar::{Scalar, two_spec};
use crate::space::{Dim2, Dim3, Dimension, Pose, Quat, Rot2, Space, V2, V3};
use vstd::prelude::*;

verus! {

// ---- vectors of the plane and of space ----

/// The value of a vector.
pub open spec fn vector_value<S: Scalar, D: Space<S>>(v: spec_fn(S) -> real, a: D::V) -> V3<real> {
    V3 {
        x: v(D::vget_spec(a, 0)),
        y: v(D::vget_spec(a, 1)),
        z: if D::dimension_spec() == Dimension::Three {
            v(D::vget_spec(a, 2))
        } else {
            0real
        },
    }
}

/// The value of an angular vector.
pub open spec fn angular_value<S: Scalar, D: Space<S>>(
    v: spec_fn(S) -> real,
    a: D::A,
) -> V3<real> {
    if D::dimension_spec() == Dimension::Three {
        V3 { x: v(D::aget_spec(a, 0)), y: v(D::aget_spec(a, 1)), z: v(D::aget_spec(a, 2)) }
    } else {
        V3 { x: 0real, y: 0real, z: v(D::aget_spec(a, 0)) }
    }
}

/// Under the reading `v`, sums, differences, cross products and rotations are those
/// of space.
pub open spec fn geometric<S: Scalar, D: Space<S>>(v: spec_fn(S) -> real) -> bool {
    &&& vector_value::<S, D>(v, D::vzero_spec()) == r3_zero()
    &&& angular_value::<S, D>(v, D::azero_spec()) == r3_zero()
    &&& forall|a: D::V, b: D::V|
        vector_value::<S, D>(v, #[trigger] D::vadd_spec(a, b)) == r3_add(
            vector_value::<S, D>(v, a),
            vector_value::<S, D>(v, b),
        )
    &&& forall|a: D::V, b: D::V|
        r3_add(
            vector_value::<S, D>(v, #[trigger] D::vsub_spec(a, b)),
            vector_value::<S, D>(v, b),
        ) == vector_value::<S, D>(v, a)
    &&& forall|a: D::A, b: D::A|
        angular_value::<S, D>(v, #[trigger] D::aadd_spec(a, b)) == r3_add(
            angular_value::<S, D>(v, a),
            angular_value::<S, D>(v, b),
        )
    &&& forall|w: D::A, a: D::V|
        vector_value::<S, D>(v, #[trigger] D::gcross_av_spec(w, a)) == r3_cross(
            angular_value::<S, D>(v, w),
            vector_value::<S, D>(v, a),
        )
    &&& forall|r: D::R| vector_value::<S, D>(v, #[trigger] D::rapply_spec(r, D::vzero_spec()))
        == r3_zero()
    &&& forall|r: D::R, a: D::V, i: int, s: S|
        0 <= i < D::dimension_spec().lin_spec() ==> vector_value::<S, D>(
            v,
            #[trigger] D::rapply_spec(r, D::vadd_spec(a, D::vaxis_spec(i, s))),
        ) == r3_add(
            vector_value::<S, D>(v, D::rapply_spec(r, a)),
            r3_scale(
                vector_value::<S, D>(v, D::rapply_spec(r, D::vaxis_spec(i, S::one_spec()))),
                v(s),
            ),
        )
    &&& forall|r: D::R| angular_value::<S, D>(v, #[trigger] D::rapply_ang_spec(r, D::azero_spec()))
        == r3_zero()
    &&& forall|r: D::R, i: int, s: S|
        0 <= i < D::dimension_spec().ang_spec() ==> angular_value::<S, D>(
            v,
            #[trigger] D::rapply_ang_spec(
                r,
                D::aadd_spec(D::azero_spec(), D::aaxis_spec(i, s)),
            ),
        ) == r3_scale(
            angular_value::<S, D>(v, D::rapply_ang_spec(r, D::aaxis_spec(i, S::one_spec()))),
            v(s),
        )
    &&& forall|a: D::V|
        vector_value::<S, D>(
            v,
            #[trigger] D::rapply_spec(D::rmul_spec(D::rid_spec(), D::rid_spec()), a),
        ) == vector_value::<S, D>(v, a)
    &&& forall|a: D::A|
        angular_value::<S, D>(
            v,
            #[trigger] D::rapply_ang_spec(D::rmul_spec(D::rid_spec(), D::rid_spec()), a),
        ) == angular_value::<S, D>(v, a)
}

/// Under the reading `v`, the columns of the rotation `r` turn angular vectors as
/// `r` itself does.
pub open spec fn columns_turn<S: Scalar, D: Space<S>>(v: spec_fn(S) -> real, r: D::R) -> bool {
    forall|x: S, y: S, z: S|
        angular_value::<S, D>(
            v,
            #[trigger] D::rapply_ang_spec(
                r,
                D::aadd_spec(D::azero_spec(), D::afrom_spec(x, y, z)),
            ),
        ) == r3_add(
            r3_add(
                r3_scale(angular_value::<S, D>(v, D::rcol_spec(r, 0)), v(x)),
                r3_scale(angular_value::<S, D>(v, D::rcol_spec(r, 1)), v(y)),
            ),
            r3_scale(angular_value::<S, D>(v, D::rcol_spec(r, 2)), v(z)),
        )
}

// ---- one joint ----

/// What degree of freedom `c` of a joint adds to the linear velocity.
pub open spec fn dof_linear<S: Scalar, D: Space<S>>(
    v: spec_fn(S) -> real,
    locked: u32,
    rot: D::R,
    c: int,
) -> V3<real> {
    match joint_dof::<S, D>(locked, rot, c).0 {
        Some(a) => vector_value::<S, D>(v, a),
        None => r3_zero(),
    }
}

/// What degree of freedom `c` of a joint adds to the angular velocity.
pub open spec fn dof_angular<S: Scalar, D: Space<S>>(
    v: spec_fn(S) -> real,
    locked: u32,
    rot: D::R,
    c: int,
) -> V3<real> {
    match joint_dof::<S, D>(locked, rot, c).1 {
        Some(a) => angular_value::<S, D>(v, a),
        None => r3_zero(),
    }
}

/// A free axis is the free axis of its own rank.
pub(crate) proof fn lemma_rank(locked: u32, lo: int, hi: int, i: int)
    requires
        lo <= i < hi,
        !has_axis(locked, i),
    ensures
        nth_free(locked, lo, hi, free_axes(locked, lo, i)) == i,
        free_axes(locked, lo, i) < free_axes(locked, lo, hi),
    decreases hi - i,
{
    lemma_free_axes_split(locked, lo, i + 1, hi);
    lemma_free_axes_bound(locked, i + 1, hi);
    if i < hi - 1 {
        lemma_free_axes_split(locked, lo, i + 1, hi - 1);
        lemma_free_axes_bound(locked, i + 1, hi - 1);
        lemma_rank(locked, lo, hi - 1, i);
    }
}

proof fn lemma_linear_part<S: Scalar, D: Space<S>>(
    v: spec_fn(S) -> real,
    locked: u32,
    rot: D::R,
    q: Seq<S>,
    aid: int,
    i: int,
)
    requires
        geometric::<S, D>(v),
        0 <= i <= D::dimension_spec().lin_spec(),
    ensures
        combination(
            v,
            q,
            |c: int| dof_linear::<S, D>(v, locked, rot, c - aid),
            aid,
            aid + free_axes(locked, 0, i),
        ) == vector_value::<S, D>(
            v,
            D::rapply_spec(rot, joint_lin_vel::<S, D>(locked, q, aid, i)),
        ),
    decreases i,
{
    if i > 0 {
        lemma_linear_part::<S, D>(v, locked, rot, q, aid, i - 1);
        if !has_axis(locked, i - 1) {
            let dim = D::dimension_spec().lin_spec();
            let c = free_axes(locked, 0, i - 1);
            lemma_rank(locked, 0, dim, i - 1);
            lemma_free_axes_bound(locked, 0, i - 1);
            let a = joint_lin_vel::<S, D>(locked, q, aid, i - 1);
            let s = q[aid + c];
            assert(dof_linear::<S, D>(v, locked, rot, c) == vector_value::<S, D>(
                v,
                D::rapply_spec(rot, D::vaxis_spec(i - 1, S::one_spec())),
            ));
            assert(D::rapply_spec(rot, joint_lin_vel::<S, D>(locked, q, aid, i))
                == D::rapply_spec(rot, D::vadd_spec(a, D::vaxis_spec(i - 1, s))));
        }
    }
}

/// Weighted by the generalized velocities, the degrees of freedom of a joint add up
/// to the velocity of the joint.
proof fn lemma_joint<S: Scalar, D: Space<S>>(
    v: spec_fn(S) -> real,
    locked: u32,
    rot: D::R,
    q: Seq<S>,
    aid: int,
    n: int,
)
    requires
        geometric::<S, D>(v),
        0 <= aid,
        aid + free_axes(locked, 0, D::dimension_spec().spatial_spec()) <= n,
        free_axes(locked, D::dimension_spec().lin_spec(), D::dimension_spec().spatial_spec()) == 3
            ==> columns_turn::<S, D>(v, rot),
    ensures
        combination(v, q, |c: int| dof_linear::<S, D>(v, locked, rot, c - aid), 0, n)
            == vector_value::<S, D>(
            v,
            D::rapply_spec(
                rot,
                joint_lin_vel::<S, D>(locked, q, aid, D::dimension_spec().lin_spec()),
            ),
        ),
        combination(v, q, |c: int| dof_angular::<S, D>(v, locked, rot, c - aid), 0, n)
            == angular_value::<S, D>(
            v,
            D::rapply_ang_spec(rot, joint_ang_vel::<S, D>(locked, q, aid)),
        ),
{
    let dim = D::dimension_spec().lin_spec();
    let sd = D::dimension_spec().spatial_spec();
    let lin = free_axes(locked, 0, dim);
    let ang = free_axes(locked, dim, sd);
    lemma_free_axes_split(locked, 0, dim, sd);
    lemma_free_axes_bound(locked, 0, dim);
    lemma_free_axes_bound(locked, dim, sd);
    let f = |c: int| dof_linear::<S, D>(v, locked, rot, c - aid);
    let g = |c: int| dof_angular::<S, D>(v, locked, rot, c - aid);
    lemma_linear_part::<S, D>(v, locked, rot, q, aid, dim);
    lemma_combined_split(v, q, f, 0, aid, n);
    lemma_combined_split(v, q, f, aid, aid + lin, n);
    lemma_combined_none(v, q, f, 0, aid);
    lemma_combined_none(v, q, f, aid + lin, n);
    let at = aid + lin;
    lemma_combined_split(v, q, g, 0, at, n);
    lemma_combined_none(v, q, g, 0, at);
    if ang == 1 {
        lemma_combined_split(v, q, g, at, at + 1, n);
        lemma_combined_none(v, q, g, at + 1, n);
        let i = nth_free(locked, dim, sd, 0);
        super::kinematics::lemma_nth_free(locked, dim, sd, 0);
        reveal_with_fuel(combination, 2);
        assert(g(at) == angular_value::<S, D>(
            v,
            D::rapply_ang_spec(rot, D::aaxis_spec(i - dim, S::one_spec())),
        ));
        assert(joint_ang_vel::<S, D>(locked, q, aid) == D::aadd_spec(
            D::azero_spec(),
            D::aaxis_spec(i - dim, q[at]),
        ));
    } else if ang == 3 {
        lemma_combined_split(v, q, g, at, at + 3, n);
        lemma_combined_none(v, q, g, at + 3, n);
        reveal_with_fuel(combination, 4);
        assert(g(at) == angular_value::<S, D>(v, D::rcol_spec(rot, 0)));
        assert(g(at + 1) == angular_value::<S, D>(v, D::rcol_spec(rot, 1)));
        assert(g(at + 2) == angular_value::<S, D>(v, D::rcol_spec(rot, 2)));
        assert(joint_ang_vel::<S, D>(locked, q, aid) == D::aadd_spec(
            D::azero_spec(),
            D::afrom_spec(q[at], q[at + 1], q[at + 2]),
        ));
        assert(combination(v, q, g, at, at + 1) == r3_scale(g(at), v(q[at])));
        assert(combination(v, q, g, at, at + 2) == r3_add(
            r3_scale(g(at), v(q[at])),
            r3_scale(g(at + 1), v(q[at + 1])),
        ));
    } else {
        lemma_combined_none(v, q, g, at, n);
    }
}

// ---- all links ----

/// The free root turns in the frame of the world, about its centre of mass.
pub open spec fn root_upright<S: Scalar, D: Space<S>>(
    v: spec_fn(S) -> real,
    st: Seq<MultibodyLinkStatic<S, D>>,
    ws: Seq<MultibodyLinkWorkspace<S, D>>,
) -> bool {
    let locked = st[0].data.locked_axes;
    let dim = D::dimension_spec().lin_spec();
    let sd = D::dimension_spec().spatial_spec();
    &&& free_axes(locked, 0, sd) > 0 ==> st[0].data.local_frame_a.rotation == D::rid_spec()
    &&& free_axes(locked, dim, sd) > 0 ==> vector_value::<S, D>(v, ws[0].shift23) == r3_zero()
}

/// The columns of the joint frame of link `k` turn as the frame does, where three
/// axes turn.
pub open spec fn frame_turns<S: Scalar, D: Space<S>>(
    v: spec_fn(S) -> real,
    st: Seq<MultibodyLinkStatic<S, D>>,
    ws: Seq<MultibodyLinkWorkspace<S, D>>,
    k: int,
) -> bool {
    free_axes(
        st[k].data.locked_axes,
        D::dimension_spec().lin_spec(),
        D::dimension_spec().spatial_spec(),
    ) == 3 ==> columns_turn::<S, D>(v, joint_frame_rot(st, ws, k))
}

/// The way from the parent's centre of mass to that of link `k` leads through the
/// joint.
pub open spec fn meets_at_joint<S: Scalar, D: Space<S>>(
    v: spec_fn(S) -> real,
    st: Seq<MultibodyLinkStatic<S, D>>,
    ws: Seq<MultibodyLinkWorkspace<S, D>>,
    k: int,
) -> bool {
    let p = st[k].parent_link_id as int;
    vector_value::<S, D>(
        v,
        D::vsub_spec(
            ws[k].local_to_world.point_spec(st[k].local_mprops.com),
            ws[p].local_to_world.point_spec(st[p].local_mprops.com),
        ),
    ) == r3_add(
        vector_value::<S, D>(v, ws[k].shift02),
        vector_value::<S, D>(v, ws[k].shift23),
    )
}

/// The linear part of the jacobian of link `k`, applied to generalized velocities.
pub open spec fn jacobian_linear<S: Scalar, D: Space<S>>(
    v: spec_fn(S) -> real,
    st: Seq<MultibodyLinkStatic<S, D>>,
    ws: Seq<MultibodyLinkWorkspace<S, D>>,
    k: int,
    q: Seq<S>,
) -> V3<real> {
    combination(
        v,
        q,
        |c: int| vector_value::<S, D>(v, jac_col(st, ws, k, c).linear),
        0,
        q.len() as int,
    )
}

/// The angular part of the jacobian of link `k`, applied to generalized velocities.
pub open spec fn jacobian_angular<S: Scalar, D: Space<S>>(
    v: spec_fn(S) -> real,
    st: Seq<MultibodyLinkStatic<S, D>>,
    ws: Seq<MultibodyLinkWorkspace<S, D>>,
    k: int,
    q: Seq<S>,
) -> V3<real> {
    combination(
        v,
        q,
        |c: int| angular_value::<S, D>(v, jac_col(st, ws, k, c).angular),
        0,
        q.len() as int,
    )
}

proof fn lemma_locked_joint<S: Scalar, D: Space<S>>(locked: u32, q: Seq<S>, aid: int, i: int)
    requires
        0 <= i,
        free_axes(locked, 0, i) == 0,
    ensures
        joint_lin_vel::<S, D>(locked, q, aid, i) == D::vzero_spec(),
    decreases i,
{
    if i > 0 {
        lemma_free_axes_bound(locked, 0, i - 1);
        lemma_locked_joint::<S, D>(locked, q, aid, i - 1);
    }
}

proof fn lemma_root<S: Scalar, D: Space<S>>(
    v: spec_fn(S) -> real,
    st: Seq<MultibodyLinkStatic<S, D>>,
    ws: Seq<MultibodyLinkWorkspace<S, D>>,
    q: Seq<S>,
)
    requires
        geometric::<S, D>(v),
        st.len() > 0,
        dofs_in_range(st, q.len() as int),
        root_upright(v, st, ws),
        frame_turns(v, st, ws, 0),
    ensures
        jacobian_linear(v, st, ws, 0, q) == vector_value::<S, D>(
            v,
            link_velocity(st, ws, q, 0).linear,
        ),
        jacobian_angular(v, st, ws, 0, q) == angular_value::<S, D>(
            v,
            link_velocity(st, ws, q, 0).angular,
        ),
{
    let n = q.len() as int;
    let dim = D::dimension_spec().lin_spec();
    let sd = D::dimension_spec().spatial_spec();
    let locked = st[0].data.locked_axes;
    let aid = st[0].assembly_id as int;
    let rot = joint_frame_rot(st, ws, 0);
    let s23 = vector_value::<S, D>(v, ws[0].shift23);
    let jl = |c: int| dof_linear::<S, D>(v, locked, rot, c - aid);
    let ja = |c: int| dof_angular::<S, D>(v, locked, rot, c - aid);
    let fl = |c: int| vector_value::<S, D>(v, jac_col(st, ws, 0, c).linear);
    let fa = |c: int| angular_value::<S, D>(v, jac_col(st, ws, 0, c).angular);
    let x = |c: int| r3_cross(fa(c), s23);
    lemma_joint::<S, D>(v, locked, rot, q, aid, n);
    assert forall|c: int| 0 <= c < n implies #[trigger] fa(c) == ja(c) by {}
    assert forall|c: int| 0 <= c < n implies #[trigger] fl(c) == r3_add(jl(c), x(c)) by {}
    lemma_combined_same(v, q, fa, ja, 0, n);
    lemma_combined_cross(v, q, fa, x, s23, 0, n);
    lemma_combined_sum(v, q, jl, x, fl, 0, n);
    lemma_free_axes_split(locked, 0, dim, sd);
    lemma_free_axes_bound(locked, 0, dim);
    lemma_free_axes_bound(locked, dim, sd);
    if free_axes(locked, dim, sd) > 0 {
        lemma_cross_zero(combination(v, q, fa, 0, n));
    } else {
        lemma_cross_zero(s23);
    }
    if free_axes(locked, 0, sd) == 0 {
        lemma_locked_joint::<S, D>(locked, q, aid, dim);
    }
}

proof fn lemma_child<S: Scalar, D: Space<S>>(
    v: spec_fn(S) -> real,
    st: Seq<MultibodyLinkStatic<S, D>>,
    ws: Seq<MultibodyLinkWorkspace<S, D>>,
    q: Seq<S>,
    k: int,
)
    requires
        geometric::<S, D>(v),
        0 < k < st.len(),
        st[k].parent_link_id < k,
        dofs_in_range(st, q.len() as int),
        frame_turns(v, st, ws, k),
        meets_at_joint(v, st, ws, k),
        ({
            let p = st[k].parent_link_id as int;
            &&& jacobian_linear(v, st, ws, p, q) == vector_value::<S, D>(
                v,
                link_velocity(st, ws, q, p).linear,
            )
            &&& jacobian_angular(v, st, ws, p, q) == angular_value::<S, D>(
                v,
                link_velocity(st, ws, q, p).angular,
            )
        }),
    ensures
        jacobian_linear(v, st, ws, k, q) == vector_value::<S, D>(
            v,
            link_velocity(st, ws, q, k).linear,
        ),
        jacobian_angular(v, st, ws, k, q) == angular_value::<S, D>(
            v,
            link_velocity(st, ws, q, k).angular,
        ),
{
    let n = q.len() as int;
    let p = st[k].parent_link_id as int;
    let locked = st[k].data.locked_axes;
    let aid = st[k].assembly_id as int;
    let rot = joint_frame_rot(st, ws, k);
    let s02 = vector_value::<S, D>(v, ws[k].shift02);
    let s23 = vector_value::<S, D>(v, ws[k].shift23);
    let jl = |c: int| dof_linear::<S, D>(v, locked, rot, c - aid);
    let ja = |c: int| dof_angular::<S, D>(v, locked, rot, c - aid);
    let pl = |c: int| vector_value::<S, D>(v, jac_col(st, ws, p, c).linear);
    let pa = |c: int| angular_value::<S, D>(v, jac_col(st, ws, p, c).angular);
    let fl = |c: int| vector_value::<S, D>(v, jac_col(st, ws, k, c).linear);
    let fa = |c: int| angular_value::<S, D>(v, jac_col(st, ws, k, c).angular);
    let carried = |c: int| r3_cross(pa(c), s02);
    let inherited = |c: int| r3_add(pl(c), carried(c));
    let joined = |c: int| r3_add(inherited(c), jl(c));
    let swung = |c: int| r3_cross(fa(c), s23);
    lemma_joint::<S, D>(v, locked, rot, q, aid, n);
    assert forall|c: int| 0 <= c < n implies #[trigger] fa(c) == r3_add(pa(c), ja(c)) by {}
    assert forall|c: int| 0 <= c < n implies #[trigger] fl(c) == r3_add(joined(c), swung(c)) by {}
    lemma_combined_sum(v, q, pa, ja, fa, 0, n);
    lemma_combined_cross(v, q, pa, carried, s02, 0, n);
    lemma_combined_sum(v, q, pl, carried, inherited, 0, n);
    lemma_combined_sum(v, q, inherited, jl, joined, 0, n);
    lemma_combined_cross(v, q, fa, swung, s23, 0, n);
    lemma_combined_sum(v, q, joined, swung, fl, 0, n);
    let w = combination(v, q, pa, 0, n);
    let j = combination(v, q, ja, 0, n);
    lemma_cross_add(w, j, s23);
    lemma_cross_add(s02, s23, w);
}

/// The jacobians map generalized velocities to the velocities of the links.
proof fn lemma_velocities<S: Scalar, D: Space<S>>(
    v: spec_fn(S) -> real,
    st: Seq<MultibodyLinkStatic<S, D>>,
    ws: Seq<MultibodyLinkWorkspace<S, D>>,
    q: Seq<S>,
    k: int,
)
    requires
        geometric::<S, D>(v),
        0 <= k < st.len(),
        parents_first(st),
        dofs_in_range(st, q.len() as int),
        root_upright(v, st, ws),
        forall|i: int| 0 <= i < st.len() ==> #[trigger] frame_turns(v, st, ws, i),
        forall|i: int| 0 < i < st.len() ==> #[trigger] meets_at_joint(v, st, ws, i),
    ensures
        jacobian_linear(v, st, ws, k, q) == vector_value::<S, D>(
            v,
            link_velocity(st, ws, q, k).linear,
        ),
        jacobian_angular(v, st, ws, k, q) == angular_value::<S, D>(
            v,
            link_velocity(st, ws, q, k).angular,
        ),
    decreases k,
{
    assert(frame_turns(v, st, ws, k));
    if k == 0 {
        lemma_root(v, st, ws, q);
    } else {
        assert(st[k].parent_link_id < k);
        assert(meets_at_joint(v, st, ws, k));
        lemma_velocities(v, st, ws, q, st[k].parent_link_id as int);
        lemma_child(v, st, ws, q, k);
    }
}

/// The law of the jacobians, where the vectors are those of space.
proof fn lemma_jacobians_give_velocities<S: Scalar, D: Space<S>>(
    v: spec_fn(S) -> real,
    st: Seq<MultibodyLinkStatic<S, D>>,
    ws: Seq<MultibodyLinkWorkspace<S, D>>,
    root: Pose<S, D>,
    q: Seq<S>,
    k: int,
)
    requires
        geometric::<S, D>(v),
        0 <= k < st.len(),
        ws.len() == st.len(),
        parents_first(st),
        dofs_in_range(st, q.len() as int),
        root_upright(v, st, ws),
        forall|i: int|
            0 <= i < st.len() ==> #[trigger] frame_turns(
                v,
                st,
                placed(st, ws, root, st.len() as int),
                i,
            ),
    ensures
        ({
            let n = st.len() as int;
            let w = moving(st, placed(st, ws, root, n), q, n);
            &&& jacobian_linear(v, st, w, k, q) == vector_value::<S, D>(v, w[k].rb_vels.linear)
            &&& jacobian_angular(v, st, w, k, q) == angular_value::<S, D>(
                v,
                w[k].rb_vels.angular,
            )
        }),
{
    let n = st.len() as int;
    let p = placed(st, ws, root, n);
    let w = moving(st, p, q, n);
    assert forall|i: int| 0 < i < st.len() implies #[trigger] meets_at_joint(v, st, p, i) by {
        let j = st[i].parent_link_id as int;
        assert(st[i].parent_link_id < i);
        assert(p[j].local_to_world == link_pose(st, ws, root, j));
        assert(p[i].local_to_world == link_pose(st, ws, root, i));
        let a = p[i].local_to_world.point_spec(st[i].local_mprops.com);
        let b = p[j].local_to_world.point_spec(st[j].local_mprops.com);
        let c = p[i].local_to_world.point_spec(st[i].data.local_frame_b.translation);
        assert(p[i].shift02 == D::vsub_spec(c, b));
        assert(p[i].shift23 == D::vsub_spec(a, c));
        let d = D::vsub_spec(a, b);
        assert(r3_add(vector_value::<S, D>(v, d), vector_value::<S, D>(v, b))
            == vector_value::<S, D>(v, a));
    }
    assert(p[0].shift23 == ws[0].shift23);
    assert(root_upright(v, st, p));
    lemma_velocities(v, st, p, q, k);
    assert forall|c: int| 0 <= c < q.len() implies #[trigger] jac_col(st, w, k, c) == jac_col(
        st,
        p,
        k,
        c,
    ) by {
        lemma_jac_ignores_velocity(st, p, q, k, c);
    }
    lemma_combined_same(
        v,
        q,
        |c: int| vector_value::<S, D>(v, jac_col(st, w, k, c).linear),
        |c: int| vector_value::<S, D>(v, jac_col(st, p, k, c).linear),
        0,
        q.len() as int,
    );
    lemma_combined_same(
        v,
        q,
        |c: int| angular_value::<S, D>(v, jac_col(st, w, k, c).angular),
        |c: int| angular_value::<S, D>(v, jac_col(st, p, k, c).angular),
        0,
        q.len() as int,
    );
}

// ---- the plane ----

/// Exact arithmetic makes the plane a part of space.
pub proof fn plane_is_geometric<S: Scalar>(v: spec_fn(S) -> real)
    requires
        exact(v),
    ensures
        geometric::<S, Dim2>(v),
{
    assert forall|w: S, a: V2<S>|
        vector_value::<S, Dim2>(v, #[trigger] <Dim2 as Space<S>>::gcross_av_spec(w, a))
            == r3_cross(
            angular_value::<S, Dim2>(v, w),
            vector_value::<S, Dim2>(v, a),
        ) by {
        let x = v(a.x);
        let y = v(a.y);
        let z = v(w);
        lemma_zero(x);
        lemma_zero(y);
        lemma_zero(z);
        assert((-z) * y == 0real - y * z) by (nonlinear_arith);
    }
    assert forall|r: Rot2<S>|
        vector_value::<S, Dim2>(
            v,
            #[trigger] <Dim2 as Space<S>>::rapply_spec(r, <Dim2 as Space<S>>::vzero_spec()),
        ) == r3_zero() by {
        lemma_zero(v(r.re));
        lemma_zero(v(r.im));
    }
    assert forall|r: Rot2<S>, a: V2<S>, i: int, s: S| 0 <= i < 2 implies vector_value::<S, Dim2>(
        v,
        #[trigger] <Dim2 as Space<S>>::rapply_spec(
            r,
            <Dim2 as Space<S>>::vadd_spec(a, <Dim2 as Space<S>>::vaxis_spec(i, s)),
        ),
    ) == r3_add(
        vector_value::<S, Dim2>(v, <Dim2 as Space<S>>::rapply_spec(r, a)),
        r3_scale(
            vector_value::<S, Dim2>(
                v,
                <Dim2 as Space<S>>::rapply_spec(
                    r,
                    <Dim2 as Space<S>>::vaxis_spec(i, S::one_spec()),
                ),
            ),
            v(s),
        ),
    ) by {
        let c = v(r.re);
        let d = v(r.im);
        let k = v(s);
        lemma_zero(c);
        lemma_zero(d);
        lemma_zero(k);
        lemma_factor(c, v(a.x), k);
        lemma_factor(c, v(a.y), k);
        lemma_factor(d, v(a.x), k);
        lemma_factor(d, v(a.y), k);
        lemma_one(c);
        lemma_one(d);
        assert((0real - d) * k == 0real - d * k) by (nonlinear_arith);
    }
    assert forall|r: Rot2<S>, i: int, s: S| 0 <= i < 1 implies angular_value::<S, Dim2>(
        v,
        #[trigger] <Dim2 as Space<S>>::rapply_ang_spec(
            r,
            <Dim2 as Space<S>>::aadd_spec(
                <Dim2 as Space<S>>::azero_spec(),
                <Dim2 as Space<S>>::aaxis_spec(i, s),
            ),
        ),
    ) == r3_scale(
        angular_value::<S, Dim2>(
            v,
            <Dim2 as Space<S>>::rapply_ang_spec(
                r,
                <Dim2 as Space<S>>::aaxis_spec(i, S::one_spec()),
            ),
        ),
        v(s),
    ) by {
        lemma_zero(v(s));
        lemma_one(v(s));
    }
    assert forall|a: V2<S>|
        vector_value::<S, Dim2>(
            v,
            #[trigger] <Dim2 as Space<S>>::rapply_spec(
                <Dim2 as Space<S>>::rmul_spec(
                    <Dim2 as Space<S>>::rid_spec(),
                    <Dim2 as Space<S>>::rid_spec(),
                ),
                a,
            ),
        ) == vector_value::<S, Dim2>(v, a) by {
        lemma_one(1real);
        lemma_zero(1real);
        lemma_zero(0real);
        lemma_one(v(a.x));
        lemma_one(v(a.y));
        lemma_zero(v(a.x));
        lemma_zero(v(a.y));
    }
}

// ---- space ----

/// A vector turned by the quaternion with real part `w` and imaginary part `b`.
pub open spec fn r3_turned(w: real, b: V3<real>, two: real, a: V3<real>) -> V3<real> {
    r3_add(
        r3_add(r3_scale(a, w * w - r3_dot(b, b)), r3_scale(b, r3_dot(a, b) * two)),
        r3_scale(r3_cross(b, a), w * two),
    )
}

pub open spec fn r3_axis(i: int) -> V3<real> {
    if i == 0 {
        V3 { x: 1real, y: 0real, z: 0real }
    } else if i == 1 {
        V3 { x: 0real, y: 1real, z: 0real }
    } else {
        V3 { x: 0real, y: 0real, z: 1real }
    }
}

proof fn lemma_scaled(a: V3<real>, e: V3<real>, k: real, p: real)
    ensures
        r3_scale(r3_add(a, r3_scale(e, k)), p) == r3_add(
            r3_scale(a, p),
            r3_scale(r3_scale(e, p), k),
        ),
{
    lemma_right(a.x, e.x * k, p);
    lemma_right(a.y, e.y * k, p);
    lemma_right(a.z, e.z * k, p);
    lemma_move_right(e.x, k, p);
    lemma_move_right(e.y, k, p);
    lemma_move_right(e.z, k, p);
}

proof fn lemma_along(b: V3<real>, c: real, d: real, k: real, two: real)
    ensures
        r3_scale(b, (c + d * k) * two) == r3_add(
            r3_scale(b, c * two),
            r3_scale(r3_scale(b, d * two), k),
        ),
{
    lemma_right(c, d * k, two);
    lemma_move_right(d, k, two);
    lemma_factor(b.x, c * two, (d * two) * k);
    lemma_factor(b.y, c * two, (d * two) * k);
    lemma_factor(b.z, c * two, (d * two) * k);
    lemma_move_right(d * two, k, b.x);
    lemma_move_right(d * two, k, b.y);
    lemma_move_right(d * two, k, b.z);
}

pub(crate) proof fn lemma_cross_second(b: V3<real>, a: V3<real>, e: V3<real>, k: real)
    ensures
        r3_cross(b, r3_add(a, r3_scale(e, k))) == r3_add(
            r3_cross(b, a),
            r3_scale(r3_cross(b, e), k),
        ),
{
    lemma_second_part(b.y, a.z, e.z, k, a.y, e.y, b.z);
    lemma_second_part(b.z, a.x, e.x, k, a.z, e.z, b.x);
    lemma_second_part(b.x, a.y, e.y, k, a.x, e.x, b.y);
}

proof fn lemma_second_part(b: real, a: real, e: real, k: real, c: real, f: real, d: real)
    ensures
        b * (a + e * k) - (c + f * k) * d == (b * a - c * d) + (b * e - f * d) * k,
{
    lemma_factor(b, a, e * k);
    lemma_move_right(e, k, b);
    lemma_right(c, f * k, d);
    lemma_move_right(f, k, d);
    lemma_minus_right(b * e, f * d, k);
}

/// Turning is linear.
pub(crate) proof fn lemma_turned_linear(
    w: real,
    b: V3<real>,
    two: real,
    a: V3<real>,
    e: V3<real>,
    k: real,
)
    ensures
        r3_turned(w, b, two, r3_add(a, r3_scale(e, k))) == r3_add(
            r3_turned(w, b, two, a),
            r3_scale(r3_turned(w, b, two, e), k),
        ),
{
    let p = w * w - r3_dot(b, b);
    let t = w * two;
    lemma_scaled(a, e, k, p);
    lemma_dot_sum(b, a, e, k);
    lemma_along(b, r3_dot(a, b), r3_dot(e, b), k, two);
    lemma_cross_second(b, a, e, k);
    lemma_scaled(r3_cross(b, a), r3_cross(b, e), k, t);
    let x = r3_scale(e, p);
    let y = r3_scale(b, r3_dot(e, b) * two);
    let z = r3_scale(r3_cross(b, e), t);
    lemma_scale_add(x, y, k);
    lemma_scale_add(r3_add(x, y), z, k);
}

pub(crate) proof fn lemma_turned_zero(w: real, b: V3<real>, two: real)
    ensures
        r3_turned(w, b, two, r3_zero()) == r3_zero(),
{
    lemma_zero(w * w - r3_dot(b, b));
    lemma_zero(b.x);
    lemma_zero(b.y);
    lemma_zero(b.z);
    lemma_zero(two);
    lemma_zero(w * two);
    lemma_cross_zero(b);
}

pub(crate) proof fn lemma_rapply<S: Scalar>(v: spec_fn(S) -> real, r: Quat<S>, a: V3<S>)
    requires
        exact(v),
    ensures
        vector_value::<S, Dim3>(v, <Dim3 as Space<S>>::rapply_spec(r, a)) == r3_turned(
            v(r.w),
            V3 { x: v(r.x), y: v(r.y), z: v(r.z) },
            v(two_spec::<S>()),
            vector_value::<S, Dim3>(v, a),
        ),
{
}

/// Exact arithmetic makes the vectors of space those of geometry.
pub proof fn space_is_geometric<S: Scalar>(v: spec_fn(S) -> real)
    requires
        exact(v),
    ensures
        geometric::<S, Dim3>(v),
{
    let two = v(two_spec::<S>());
    assert forall|r: Quat<S>|
        vector_value::<S, Dim3>(
            v,
            #[trigger] <Dim3 as Space<S>>::rapply_spec(r, <Dim3 as Space<S>>::vzero_spec()),
        ) == r3_zero() by {
        lemma_rapply(v, r, <Dim3 as Space<S>>::vzero_spec());
        lemma_turned_zero(v(r.w), V3 { x: v(r.x), y: v(r.y), z: v(r.z) }, two);
    }
    assert forall|r: Quat<S>|
        angular_value::<S, Dim3>(
            v,
            #[trigger] <Dim3 as Space<S>>::rapply_ang_spec(r, <Dim3 as Space<S>>::azero_spec()),
        ) == r3_zero() by {
        lemma_rapply(v, r, <Dim3 as Space<S>>::vzero_spec());
        lemma_turned_zero(v(r.w), V3 { x: v(r.x), y: v(r.y), z: v(r.z) }, two);
    }
    assert forall|r: Quat<S>, a: V3<S>, i: int, s: S| 0 <= i < 3 implies vector_value::<S, Dim3>(
        v,
        #[trigger] <Dim3 as Space<S>>::rapply_spec(
            r,
            <Dim3 as Space<S>>::vadd_spec(a, <Dim3 as Space<S>>::vaxis_spec(i, s)),
        ),
    ) == r3_add(
        vector_value::<S, Dim3>(v, <Dim3 as Space<S>>::rapply_spec(r, a)),
        r3_scale(
            vector_value::<S, Dim3>(
                v,
                <Dim3 as Space<S>>::rapply_spec(
                    r,
                    <Dim3 as Space<S>>::vaxis_spec(i, S::one_spec()),
                ),
            ),
            v(s),
        ),
    ) by {
        lemma_rapply_axis(v, r, a, i, s);
    }
    assert forall|r: Quat<S>, i: int, s: S| 0 <= i < 3 implies angular_value::<S, Dim3>(
        v,
        #[trigger] <Dim3 as Space<S>>::rapply_ang_spec(
            r,
            <Dim3 as Space<S>>::aadd_spec(
                <Dim3 as Space<S>>::azero_spec(),
                <Dim3 as Space<S>>::aaxis_spec(i, s),
            ),
        ),
    ) == r3_scale(
        angular_value::<S, Dim3>(
            v,
            <Dim3 as Space<S>>::rapply_ang_spec(
                r,
                <Dim3 as Space<S>>::aaxis_spec(i, S::one_spec()),
            ),
        ),
        v(s),
    ) by {
        lemma_rapply_axis(v, r, <Dim3 as Space<S>>::vzero_spec(), i, s);
        lemma_rapply(v, r, <Dim3 as Space<S>>::vzero_spec());
        lemma_turned_zero(v(r.w), V3 { x: v(r.x), y: v(r.y), z: v(r.z) }, two);
    }
    assert forall|a: V3<S>|
        vector_value::<S, Dim3>(
            v,
            #[trigger] <Dim3 as Space<S>>::rapply_spec(
                <Dim3 as Space<S>>::rmul_spec(
                    <Dim3 as Space<S>>::rid_spec(),
                    <Dim3 as Space<S>>::rid_spec(),
                ),
                a,
            ),
        ) == vector_value::<S, Dim3>(v, a) by {
        lemma_rapply_identity(v, a);
    }
    assert forall|a: V3<S>|
        angular_value::<S, Dim3>(
            v,
            #[trigger] <Dim3 as Space<S>>::rapply_ang_spec(
                <Dim3 as Space<S>>::rmul_spec(
                    <Dim3 as Space<S>>::rid_spec(),
                    <Dim3 as Space<S>>::rid_spec(),
                ),
                a,
            ),
        ) == angular_value::<S, Dim3>(v, a) by {
        lemma_rapply_identity(v, a);
    }
}

proof fn lemma_rapply_axis<S: Scalar>(
    v: spec_fn(S) -> real,
    r: Quat<S>,
    a: V3<S>,
    i: int,
    s: S,
)
    requires
        exact(v),
        0 <= i < 3,
    ensures
        vector_value::<S, Dim3>(
            v,
            <Dim3 as Space<S>>::rapply_spec(
                r,
                <Dim3 as Space<S>>::vadd_spec(a, <Dim3 as Space<S>>::vaxis_spec(i, s)),
            ),
        ) == r3_add(
            vector_value::<S, Dim3>(v, <Dim3 as Space<S>>::rapply_spec(r, a)),
            r3_scale(
                vector_value::<S, Dim3>(
                    v,
                    <Dim3 as Space<S>>::rapply_spec(
                        r,
                        <Dim3 as Space<S>>::vaxis_spec(i, S::one_spec()),
                    ),
                ),
                v(s),
            ),
        ),
{
    let b = V3 { x: v(r.x), y: v(r.y), z: v(r.z) };
    let two = v(two_spec::<S>());
    let x = vector_value::<S, Dim3>(v, a);
    let axis = <Dim3 as Space<S>>::vaxis_spec(i, S::one_spec());
    let e = r3_axis(i);
    let sum = <Dim3 as Space<S>>::vadd_spec(a, <Dim3 as Space<S>>::vaxis_spec(i, s));
    lemma_one(v(s));
    lemma_zero(v(s));
    assert(vector_value::<S, Dim3>(v, axis) == e);
    assert(vector_value::<S, Dim3>(v, sum) == r3_add(x, r3_scale(e, v(s))));
    lemma_rapply(v, r, sum);
    lemma_rapply(v, r, a);
    lemma_rapply(v, r, axis);
    lemma_turned_linear(v(r.w), b, two, x, e, v(s));
}

proof fn lemma_rapply_identity<S: Scalar>(v: spec_fn(S) -> real, a: V3<S>)
    requires
        exact(v),
    ensures
        vector_value::<S, Dim3>(
            v,
            <Dim3 as Space<S>>::rapply_spec(
                <Dim3 as Space<S>>::rmul_spec(
                    <Dim3 as Space<S>>::rid_spec(),
                    <Dim3 as Space<S>>::rid_spec(),
                ),
                a,
            ),
        ) == vector_value::<S, Dim3>(v, a),
{
    let r = <Dim3 as Space<S>>::rmul_spec(
        <Dim3 as Space<S>>::rid_spec(),
        <Dim3 as Space<S>>::rid_spec(),
    );
    let two = v(two_spec::<S>());
    let x = vector_value::<S, Dim3>(v, a);
    lemma_one(1real);
    lemma_zero(1real);
    lemma_zero(0real);
    assert(v(r.x) == 0real && v(r.y) == 0real && v(r.z) == 0real && v(r.w) == 1real);
    lemma_rapply(v, r, a);
    lemma_one(x.x);
    lemma_one(x.y);
    lemma_one(x.z);
    lemma_zero(x.x);
    lemma_zero(x.y);
    lemma_zero(x.z);
    lemma_zero(r3_dot(x, r3_zero()) * two);
    lemma_cross_zero(x);
    lemma_zero(1real * two);
}

/// Under the reading `v`, a quaternion has length one.
pub open spec fn unit_length<S: Scalar>(v: spec_fn(S) -> real, q: Quat<S>) -> bool {
    v(q.x) * v(q.x) + v(q.y) * v(q.y) + v(q.z) * v(q.z) + v(q.w) * v(q.w) == 1real
}

proof fn lemma_double(a: real, b: real)
    ensures
        a * (b + b) == 2real * (a * b),
        a * (b * 2real) == 2real * (a * b),
        b * (a * 2real) == 2real * (a * b),
{
    assert(a * (b + b) == 2real * (a * b)) by (nonlinear_arith);
    assert(a * (b * 2real) == 2real * (a * b)) by (nonlinear_arith);
    assert(b * (a * 2real) == 2real * (a * b)) by (nonlinear_arith);
}

/// The columns of a unit quaternion's matrix are the turned axes.
pub(crate) proof fn lemma_column<S: Scalar>(v: spec_fn(S) -> real, q: Quat<S>, i: int)
    requires
        exact(v),
        v(two_spec::<S>()) == 2real,
        unit_length(v, q),
        0 <= i < 3,
    ensures
        vector_value::<S, Dim3>(v, <Dim3 as Space<S>>::rcol_spec(q, i)) == r3_turned(
            v(q.w),
            V3 { x: v(q.x), y: v(q.y), z: v(q.z) },
            v(two_spec::<S>()),
            r3_axis(i),
        ),
{
    let b = V3 { x: v(q.x), y: v(q.y), z: v(q.z) };
    let w = v(q.w);
    let p = w * w - r3_dot(b, b);
    lemma_one(p);
    lemma_zero(p);
    lemma_one(b.x);
    lemma_one(b.y);
    lemma_one(b.z);
    lemma_zero(b.x);
    lemma_zero(b.y);
    lemma_zero(b.z);
    lemma_zero(w * 2real);
    lemma_double(b.x, b.x);
    lemma_double(b.x, b.y);
    lemma_double(b.x, b.z);
    lemma_double(b.y, b.x);
    lemma_double(b.y, b.y);
    lemma_double(b.y, b.z);
    lemma_double(b.z, b.x);
    lemma_double(b.z, b.y);
    lemma_double(b.z, b.z);
    lemma_double(w, b.x);
    lemma_double(w, b.y);
    lemma_double(w, b.z);
    lemma_commute(b.x, b.y);
    lemma_commute(b.x, b.z);
    lemma_commute(b.y, b.z);
    lemma_minus_right(0real, b.x, w * 2real);
    lemma_minus_right(0real, b.y, w * 2real);
    lemma_minus_right(0real, b.z, w * 2real);
}

/// In exact arithmetic, the columns of a unit quaternion turn as the quaternion
/// does.
pub proof fn unit_columns_turn<S: Scalar>(v: spec_fn(S) -> real, q: Quat<S>)
    requires
        exact(v),
        v(two_spec::<S>()) == 2real,
        unit_length(v, q),
    ensures
        columns_turn::<S, Dim3>(v, q),
{
    let b = V3 { x: v(q.x), y: v(q.y), z: v(q.z) };
    let w = v(q.w);
    let two = v(two_spec::<S>());
    assert forall|x: S, y: S, z: S|
        angular_value::<S, Dim3>(
            v,
            #[trigger] <Dim3 as Space<S>>::rapply_ang_spec(
                q,
                <Dim3 as Space<S>>::aadd_spec(
                    <Dim3 as Space<S>>::azero_spec(),
                    <Dim3 as Space<S>>::afrom_spec(x, y, z),
                ),
            ),
        ) == r3_add(
            r3_add(
                r3_scale(
                    angular_value::<S, Dim3>(v, <Dim3 as Space<S>>::rcol_spec(q, 0)),
                    v(x),
                ),
                r3_scale(
                    angular_value::<S, Dim3>(v, <Dim3 as Space<S>>::rcol_spec(q, 1)),
                    v(y),
                ),
            ),
            r3_scale(angular_value::<S, Dim3>(v, <Dim3 as Space<S>>::rcol_spec(q, 2)), v(z)),
        ) by {
        let a = <Dim3 as Space<S>>::aadd_spec(
            <Dim3 as Space<S>>::azero_spec(),
            <Dim3 as Space<S>>::afrom_spec(x, y, z),
        );
        lemma_rapply(v, q, a);
        let a1 = r3_add(r3_zero(), r3_scale(r3_axis(0), v(x)));
        let a2 = r3_add(a1, r3_scale(r3_axis(1), v(y)));
        let a3 = r3_add(a2, r3_scale(r3_axis(2), v(z)));
        lemma_one(v(x));
        lemma_one(v(y));
        lemma_one(v(z));
        lemma_zero(v(x));
        lemma_zero(v(y));
        lemma_zero(v(z));
        assert(vector_value::<S, Dim3>(v, a) == a3);
        lemma_turned_zero(w, b, two);
        lemma_turned_linear(w, b, two, r3_zero(), r3_axis(0), v(x));
        lemma_turned_linear(w, b, two, a1, r3_axis(1), v(y));
        lemma_turned_linear(w, b, two, a2, r3_axis(2), v(z));
        lemma_column(v, q, 0);
        lemma_column(v, q, 1);
        lemma_column(v, q, 2);
    }
}

// ---- the law ----

/// The frame of every joint with three turning axes has length one.
pub open spec fn frames_are_unit<S: Scalar>(
    v: spec_fn(S) -> real,
    st: Seq<MultibodyLinkStatic<S, Dim3>>,
    ws: Seq<MultibodyLinkWorkspace<S, Dim3>>,
) -> bool {
    forall|i: int|
        0 <= i < st.len() && free_axes((#[trigger] st[i]).data.locked_axes, 3, 6) == 3
            ==> unit_length(v, joint_frame_rot(st, ws, i))
}

/// In exact arithmetic, the jacobian of each link of the plane maps the generalized
/// velocities to the velocity of the link at its centre of mass.
pub proof fn plane_jacobians_give_velocities<S: Scalar>(
    v: spec_fn(S) -> real,
    st: Seq<MultibodyLinkStatic<S, Dim2>>,
    ws: Seq<MultibodyLinkWorkspace<S, Dim2>>,
    root: Pose<S, Dim2>,
    q: Seq<S>,
    k: int,
)
    requires
        exact(v),
        0 <= k < st.len(),
        ws.len() == st.len(),
        parents_first(st),
        dofs_in_range(st, q.len() as int),
        root_upright(v, st, ws),
    ensures
        ({
            let n = st.len() as int;
            let w = moving(st, placed(st, ws, root, n), q, n);
            &&& jacobian_linear(v, st, w, k, q) == vector_value::<S, Dim2>(v, w[k].rb_vels.linear)
            &&& jacobian_angular(v, st, w, k, q) == angular_value::<S, Dim2>(
                v,
                w[k].rb_vels.angular,
            )
        }),
{
    plane_is_geometric(v);
    let p = placed(st, ws, root, st.len() as int);
    assert forall|i: int| 0 <= i < st.len() implies #[trigger] frame_turns(v, st, p, i) by {
        lemma_free_axes_bound(st[i].data.locked_axes, 2, 3);
    }
    lemma_jacobians_give_velocities(v, st, ws, root, q, k);
}

/// In exact arithmetic, the jacobian of each link of space maps the generalized
/// velocities to the velocity of the link at its centre of mass.
pub proof fn space_jacobians_give_velocities<S: Scalar>(
    v: spec_fn(S) -> real,
    st: Seq<MultibodyLinkStatic<S, Dim3>>,
    ws: Seq<MultibodyLinkWorkspace<S, Dim3>>,
    root: Pose<S, Dim3>,
    q: Seq<S>,
    k: int,
)
    requires
        exact(v),
        v(two_spec::<S>()) == 2real,
        0 <= k < st.len(),
        ws.len() == st.len(),
        parents_first(st),
        dofs_in_range(st, q.len() as int),
        root_upright(v, st, ws),
        frames_are_unit(v, st, placed(st, ws, root, st.len() as int)),
    ensures
        ({
            let n = st.len() as int;
            let w = moving(st, placed(st, ws, root, n), q, n);
            &&& jacobian_linear(v, st, w, k, q) == vector_value::<S, Dim3>(v, w[k].rb_vels.linear)
            &&& jacobian_angular(v, st, w, k, q) == angular_value::<S, Dim3>(
                v,
                w[k].rb_vels.angular,
            )
        }),
{
    space_is_geometric(v);
    let p = placed(st, ws, root, st.len() as int);
    assert forall|i: int| 0 <= i < st.len() implies #[trigger] frame_turns(v, st, p, i) by {
        assert(st[i] == st[i]);
        if free_axes(st[i].data.locked_axes, 3, 6) == 3 {
            unit_columns_turn(v, joint_frame_rot(st, p, i));
        }
    }
    lemma_jacobians_give_velocities(v, st, ws, root, q, k);
}

} // verus!
