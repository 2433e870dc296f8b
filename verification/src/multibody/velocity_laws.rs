//! The velocities of links as the rates at which their poses change, when the
//! arithmetic is exact.
use super::gravity::parents_first;
use super::jacobian_laws::{
    angular_value, geometric, lemma_cross_second, lemma_rapply, lemma_turned_linear,
    lemma_turned_zero, plane_is_geometric, r3_turned, space_is_geometric, unit_length, vector_value,
};
use super::joint_laws::{lemma_cross_cross, turns_at};
use super::kinematics::{
    body_to_parent_spec, joint_ang_vel, joint_frame_rot, joint_lin_vel, joint_transform,
    joint_velocity, lemma_nth_free, link_pose, link_velocity, local_joint_velocity, nth_free,
    placed,
};
use super::pose_laws::slide;
use super::rate_laws::{kinetic, plane_is_kinetic, rates, space_is_kinetic};
use super::space_laws::{
    along, lemma_identity_turn, lemma_unscaled, plane_is_spatial, space_is_spatial, spatial,
};
use super::turn_laws::{
    lemma_compose, lemma_compose2, lemma_cross_signs, lemma_dot_commutes, lemma_rmul, lemma_signs,
    lemma_turn, lemma_turn_products, quat_value,
};
use super::types::{MultibodyLinkStatic, MultibodyLinkWorkspace};
use super::unit_laws::products_stay_unit;
use crate::exact::{exact, lemma_commute, lemma_factor, lemma_zero};
use crate::joint::{GenericJoint, free_axes, has_axis, lemma_free_axes_bound};
use crate::quaternions::{
    h_add, h_conj, h_mul, h_norm, h_of, h_vec, lemma_associate, lemma_by_parts, lemma_conj_product,
    lemma_distribute_sum, lemma_times_one, lemma_unit_conj,
};
use crate::real_vectors::{
    lemma_cross_add, lemma_cross_zero, lemma_minus_right, lemma_one, lemma_right, lemma_scale_add,
    r3_add, r3_cross, r3_dot, r3_neg, r3_scale, r3_sub, r3_zero,
};
use crate::scalar::{Scalar, two_spec};
use crate::space::{Dim2, Dim3, Dimension, Pose, Quat, Rot2, Space, V2, V3, Velocity};
use vstd::prelude::*;

verus! {

// ---- rotations in motion ----

/// How a rotation turns vectors, spins, and is a unit.
#[verifier::reject_recursive_types(R)]
pub struct Motion<R> {
    /// The image of a vector under a rotation.
    pub turn: spec_fn(R, V3<real>) -> V3<real>,
    /// Whether a rotation turns at an angular velocity.
    pub spin: spec_fn(R, V3<real>) -> bool,
    /// Whether a rotation is a unit.
    pub unit: spec_fn(R) -> bool,
}

/// Under the readings `v` and `d`, rotations turn vectors linearly, products of
/// rotations turn one after the other, and what a rotation turns changes by the
/// turning of the rotation and by its own change.
#[verifier::opaque]
pub open spec fn spinning<S: Scalar, D: Space<S>>(
    v: spec_fn(S) -> real,
    d: spec_fn(S) -> real,
    m: Motion<D::R>,
) -> bool {
    &&& forall|r: D::R, x: D::V|
        vector_value::<S, D>(v, #[trigger] D::rapply_spec(r, x)) == (m.turn)(
            r,
            vector_value::<S, D>(v, x),
        )
    &&& forall|r: D::R, x: D::A|
        angular_value::<S, D>(v, #[trigger] D::rapply_ang_spec(r, x)) == (m.turn)(
            r,
            angular_value::<S, D>(v, x),
        )
    &&& forall|r: D::R, a: V3<real>, b: V3<real>|
        #[trigger] (m.turn)(r, r3_add(a, b)) == r3_add((m.turn)(r, a), (m.turn)(r, b))
    &&& forall|r: D::R| #[trigger] (m.turn)(r, r3_zero()) == r3_zero()
    &&& forall|a: V3<real>| #[trigger] (m.turn)(D::rid_spec(), a) == a
    &&& forall|a: D::R, b: D::R, x: V3<real>|
        #[trigger] (m.turn)(D::rmul_spec(a, b), x) == (m.turn)(a, (m.turn)(b, x))
    &&& forall|a: D::R, p: V3<real>, q: V3<real>|
        (m.unit)(a) ==> #[trigger] (m.turn)(a, r3_cross(p, q)) == r3_cross(
            (m.turn)(a, p),
            (m.turn)(a, q),
        )
    &&& (m.unit)(D::rid_spec())
    &&& forall|a: D::R, b: D::R|
        (m.unit)(a) && (m.unit)(b) ==> #[trigger] (m.unit)(D::rmul_spec(a, b))
    &&& forall|a: D::R| (m.unit)(a) ==> #[trigger] (m.unit)(D::rinv_spec(a))
    &&& (m.spin)(D::rid_spec(), r3_zero())
    &&& forall|a: D::R|
        (m.spin)(a, r3_zero()) ==> #[trigger] (m.spin)(D::rinv_spec(a), r3_zero())
    &&& forall|a: D::R, b: D::R, wa: V3<real>, wb: V3<real>|
        #![trigger (m.spin)(a, wa), (m.spin)(b, wb), D::rmul_spec(a, b)]
        (m.spin)(a, wa) && (m.spin)(b, wb) && (m.unit)(a) ==> (m.spin)(
            D::rmul_spec(a, b),
            r3_add(wa, (m.turn)(a, wb)),
        )
    &&& forall|r: D::R, w: V3<real>, x: D::V|
        #![trigger (m.spin)(r, w), D::rapply_spec(r, x)]
        (m.spin)(r, w) ==> vector_value::<S, D>(d, D::rapply_spec(r, x)) == r3_add(
            r3_cross(w, vector_value::<S, D>(v, D::rapply_spec(r, x))),
            (m.turn)(r, vector_value::<S, D>(d, x)),
        )
    &&& forall|r: D::R, w: V3<real>, x: D::A|
        #![trigger (m.spin)(r, w), D::rapply_ang_spec(r, x)]
        (m.spin)(r, w) ==> angular_value::<S, D>(d, D::rapply_ang_spec(r, x)) == r3_add(
            r3_cross(w, angular_value::<S, D>(v, D::rapply_ang_spec(r, x))),
            (m.turn)(r, angular_value::<S, D>(d, x)),
        )
    &&& forall|i: int, s: S|
        0 <= i < D::dimension_spec().lin_spec() ==> vector_value::<S, D>(
            d,
            #[trigger] D::vaxis_spec(i, s),
        ) == along(i, d(s))
    &&& forall|a: D::V|
        vector_value::<S, D>(d, #[trigger] D::vneg_spec(a)) == r3_neg(
            vector_value::<S, D>(d, a),
        )
}

/// How rotations turn vectors.
proof fn lemma_spinning_turn<S: Scalar, D: Space<S>>(
    v: spec_fn(S) -> real,
    d: spec_fn(S) -> real,
    m: Motion<D::R>,
    r: D::R,
    x: D::V,
)
    requires
        spinning::<S, D>(v, d, m),
    ensures
        vector_value::<S, D>(v, D::rapply_spec(r, x)) == (m.turn)(
            r,
            vector_value::<S, D>(v, x),
        ),
{
    reveal(spinning);
}

proof fn lemma_spinning_turn_ang<S: Scalar, D: Space<S>>(
    v: spec_fn(S) -> real,
    d: spec_fn(S) -> real,
    m: Motion<D::R>,
    r: D::R,
    x: D::A,
)
    requires
        spinning::<S, D>(v, d, m),
    ensures
        angular_value::<S, D>(v, D::rapply_ang_spec(r, x)) == (m.turn)(
            r,
            angular_value::<S, D>(v, x),
        ),
{
    reveal(spinning);
}

proof fn lemma_spinning_add<S: Scalar, D: Space<S>>(
    v: spec_fn(S) -> real,
    d: spec_fn(S) -> real,
    m: Motion<D::R>,
    r: D::R,
    a: V3<real>,
    b: V3<real>,
)
    requires
        spinning::<S, D>(v, d, m),
    ensures
        (m.turn)(r, r3_add(a, b)) == r3_add((m.turn)(r, a), (m.turn)(r, b)),
        (m.turn)(r, r3_zero()) == r3_zero(),
        (m.turn)(D::rid_spec(), a) == a,
{
    reveal(spinning);
}

proof fn lemma_spinning_product<S: Scalar, D: Space<S>>(
    v: spec_fn(S) -> real,
    d: spec_fn(S) -> real,
    m: Motion<D::R>,
    a: D::R,
    b: D::R,
    x: V3<real>,
)
    requires
        spinning::<S, D>(v, d, m),
    ensures
        (m.turn)(D::rmul_spec(a, b), x) == (m.turn)(a, (m.turn)(b, x)),
        (m.unit)(a) && (m.unit)(b) ==> (m.unit)(D::rmul_spec(a, b)),
        (m.unit)(D::rid_spec()),
        (m.unit)(a) ==> (m.unit)(D::rinv_spec(a)),
        (m.spin)(D::rid_spec(), r3_zero()),
        (m.spin)(a, r3_zero()) ==> (m.spin)(D::rinv_spec(a), r3_zero()),
{
    reveal(spinning);
}

proof fn lemma_spinning_cross<S: Scalar, D: Space<S>>(
    v: spec_fn(S) -> real,
    d: spec_fn(S) -> real,
    m: Motion<D::R>,
    a: D::R,
    p: V3<real>,
    q: V3<real>,
)
    requires
        spinning::<S, D>(v, d, m),
        (m.unit)(a),
    ensures
        (m.turn)(a, r3_cross(p, q)) == r3_cross((m.turn)(a, p), (m.turn)(a, q)),
{
    reveal(spinning);
}

proof fn lemma_spinning_spin<S: Scalar, D: Space<S>>(
    v: spec_fn(S) -> real,
    d: spec_fn(S) -> real,
    m: Motion<D::R>,
    a: D::R,
    wa: V3<real>,
    b: D::R,
    wb: V3<real>,
)
    requires
        spinning::<S, D>(v, d, m),
        (m.spin)(a, wa),
        (m.spin)(b, wb),
        (m.unit)(a),
    ensures
        (m.spin)(D::rmul_spec(a, b), r3_add(wa, (m.turn)(a, wb))),
{
    reveal(spinning);
    let r = D::rmul_spec(a, b);
}

proof fn lemma_spinning_rate<S: Scalar, D: Space<S>>(
    v: spec_fn(S) -> real,
    d: spec_fn(S) -> real,
    m: Motion<D::R>,
    r: D::R,
    w: V3<real>,
    x: D::V,
)
    requires
        spinning::<S, D>(v, d, m),
        (m.spin)(r, w),
    ensures
        vector_value::<S, D>(d, D::rapply_spec(r, x)) == r3_add(
            r3_cross(w, vector_value::<S, D>(v, D::rapply_spec(r, x))),
            (m.turn)(r, vector_value::<S, D>(d, x)),
        ),
{
    reveal(spinning);
}

proof fn lemma_spinning_parts<S: Scalar, D: Space<S>>(
    v: spec_fn(S) -> real,
    d: spec_fn(S) -> real,
    m: Motion<D::R>,
    i: int,
    s: S,
    a: D::V,
)
    requires
        spinning::<S, D>(v, d, m),
    ensures
        0 <= i < D::dimension_spec().lin_spec() ==> vector_value::<S, D>(d, D::vaxis_spec(i, s))
            == along(i, d(s)),
        vector_value::<S, D>(d, D::vneg_spec(a)) == r3_neg(vector_value::<S, D>(d, a)),
{
    reveal(spinning);
}

/// A rotation of the plane turns at the angular velocity `w`, which is along the third
/// axis.
pub open spec fn plane_turns_at<S: Scalar>(
    v: spec_fn(S) -> real,
    d: spec_fn(S) -> real,
    r: Rot2<S>,
    w: V3<real>,
) -> bool {
    &&& w.x == 0real
    &&& w.y == 0real
    &&& d(r.re) == -(w.z * v(r.im))
    &&& d(r.im) == w.z * v(r.re)
}

/// The motion of the rotations of the plane.
pub open spec fn plane_motion<S: Scalar>(
    v: spec_fn(S) -> real,
    d: spec_fn(S) -> real,
) -> Motion<Rot2<S>> {
    Motion {
        turn: |r: Rot2<S>, a: V3<real>|
            V3 {
                x: v(r.re) * a.x - v(r.im) * a.y,
                y: v(r.im) * a.x + v(r.re) * a.y,
                z: a.z,
            },
        spin: |r: Rot2<S>, w: V3<real>| plane_turns_at(v, d, r, w),
        unit: |r: Rot2<S>| v(r.re) * v(r.re) + v(r.im) * v(r.im) == 1real,
    }
}

/// The motion of the rotations of space.
pub open spec fn space_motion<S: Scalar>(
    v: spec_fn(S) -> real,
    d: spec_fn(S) -> real,
) -> Motion<Quat<S>> {
    Motion {
        turn: |r: Quat<S>, a: V3<real>|
            r3_turned(v(r.w), V3 { x: v(r.x), y: v(r.y), z: v(r.z) }, 2real, a),
        spin: |r: Quat<S>, w: V3<real>| turns_at(v, d, r, w),
        unit: |r: Quat<S>| unit_length(v, r),
    }
}

// ---- one joint ----

/// The parts of a joint that its link's motion does not change.
pub open spec fn still_joint<S: Scalar, D: Space<S>>(
    d: spec_fn(S) -> real,
    m: Motion<D::R>,
    joint: GenericJoint<S, D>,
) -> bool {
    &&& (m.spin)(joint.local_frame_a.rotation, r3_zero())
    &&& (m.spin)(joint.local_frame_b.rotation, r3_zero())
    &&& (m.unit)(joint.local_frame_a.rotation)
    &&& (m.unit)(joint.local_frame_b.rotation)
    &&& vector_value::<S, D>(d, joint.local_frame_a.translation) == r3_zero()
    &&& vector_value::<S, D>(d, joint.local_frame_b.translation) == r3_zero()
}

/// The way from the origin of frame B back, in frame A.
spec fn way_back<S: Scalar, D: Space<S>>(
    v: spec_fn(S) -> real,
    m: Motion<D::R>,
    joint: GenericJoint<S, D>,
    rot: D::R,
) -> V3<real> {
    (m.turn)(
        rot,
        (m.turn)(
            D::rinv_spec(joint.local_frame_b.rotation),
            r3_neg(vector_value::<S, D>(v, joint.local_frame_b.translation)),
        ),
    )
}

proof fn lemma_transform_rate<S: Scalar, D: Space<S>>(
    v: spec_fn(S) -> real,
    d: spec_fn(S) -> real,
    m: Motion<D::R>,
    joint: GenericJoint<S, D>,
    rot: D::R,
    w: V3<real>,
    coords: Seq<S>,
    i: int,
)
    requires
        geometric::<S, D>(v),
        spatial::<S, D>(v),
        kinetic::<S, D>(v, d),
        spinning::<S, D>(v, d, m),
        still_joint(d, m, joint),
        (m.spin)(rot, w),
        (m.unit)(rot),
        0 <= i <= D::dimension_spec().lin_spec(),
    ensures
        ({
            let t = joint_transform(joint, rot, coords, i);
            let back = way_back(v, m, joint, rot);
            &&& (m.spin)(t.rotation, w)
            &&& (m.unit)(t.rotation)
            &&& forall|x: V3<real>|
                #[trigger] (m.turn)(t.rotation, x) == (m.turn)(
                    rot,
                    (m.turn)(D::rinv_spec(joint.local_frame_b.rotation), x),
                )
            &&& vector_value::<S, D>(v, t.translation) == r3_add(
                back,
                slide(v, joint.locked_axes, coords, i),
            )
            &&& vector_value::<S, D>(d, t.translation) == r3_add(
                r3_cross(w, back),
                slide(d, joint.locked_axes, coords, i),
            )
        }),
    decreases i,
{
    let rb = D::rinv_spec(joint.local_frame_b.rotation);
    if i > 0 {
        lemma_transform_rate(v, d, m, joint, rot, w, coords, i - 1);
        let t = joint_transform(joint, rot, coords, i - 1);
        if !has_axis(joint.locked_axes, i - 1) {
            let axis = D::vaxis_spec(i - 1, coords[i - 1]);
            assert(vector_value::<S, D>(v, axis) == along(i - 1, v(coords[i - 1])));
            lemma_spinning_parts::<S, D>(v, d, m, i - 1, coords[i - 1], axis);
            let one = D::rid_spec();
            let r = D::rmul_spec(one, t.rotation);
            lemma_spinning_product::<S, D>(v, d, m, one, t.rotation, w);
            lemma_spinning_spin::<S, D>(v, d, m, one, r3_zero(), t.rotation, w);
            lemma_spinning_add::<S, D>(v, d, m, one, w, w);
            assert(r3_add(r3_zero(), w) == w);
            assert forall|x: V3<real>|
                #[trigger] (m.turn)(r, x) == (m.turn)(rot, (m.turn)(rb, x)) by {
                lemma_spinning_product::<S, D>(v, d, m, one, t.rotation, x);
                let y = (m.turn)(t.rotation, x);
                lemma_spinning_add::<S, D>(v, d, m, one, y, y);
            }
            let tv = vector_value::<S, D>(v, t.translation);
            let td = vector_value::<S, D>(d, t.translation);
            let moved = D::rapply_spec(one, t.translation);
            lemma_spinning_turn::<S, D>(v, d, m, one, t.translation);
            lemma_spinning_rate::<S, D>(v, d, m, one, r3_zero(), t.translation);
            lemma_spinning_add::<S, D>(v, d, m, one, tv, tv);
            lemma_spinning_add::<S, D>(v, d, m, one, td, td);
            lemma_cross_zero(vector_value::<S, D>(v, moved));
        }
    } else {
        let t = joint_transform(joint, rot, coords, i);
        let bt = joint.local_frame_b.translation;
        let neg = D::vneg_spec(bt);
        let y = D::rapply_spec(rb, neg);
        let z = D::rapply_spec(rot, y);
        lemma_spinning_product::<S, D>(
            v,
            d,
            m,
            joint.local_frame_b.rotation,
            joint.local_frame_b.rotation,
            w,
        );
        lemma_spinning_product::<S, D>(v, d, m, rot, rb, w);
        lemma_spinning_spin::<S, D>(v, d, m, rot, w, rb, r3_zero());
        lemma_spinning_add::<S, D>(v, d, m, rot, w, w);
        lemma_spinning_add::<S, D>(v, d, m, rb, w, w);
        assert(r3_add(w, r3_zero()) == w);
        assert forall|x: V3<real>|
            #[trigger] (m.turn)(t.rotation, x) == (m.turn)(rot, (m.turn)(rb, x)) by {
            lemma_spinning_product::<S, D>(v, d, m, rot, rb, x);
        }
        lemma_spinning_turn::<S, D>(v, d, m, rb, neg);
        lemma_spinning_turn::<S, D>(v, d, m, rot, y);
        lemma_spinning_rate::<S, D>(v, d, m, rb, r3_zero(), neg);
        lemma_spinning_rate::<S, D>(v, d, m, rot, w, y);
        let s = joint.locked_axes;
        lemma_spinning_parts::<S, D>(v, d, m, -1, coords[0], bt);
        lemma_cross_zero(vector_value::<S, D>(v, y));
        assert(r3_neg(r3_zero()) == r3_zero());
    }
}

// ---- the links ----

/// The linear velocity of a joint in its frame: the velocity of each free linear
/// degree of freedom along its axis.
pub open spec fn sliding<S: Scalar>(
    v: spec_fn(S) -> real,
    locked: u32,
    q: Seq<S>,
    aid: int,
    n: int,
) -> V3<real> {
    V3 {
        x: if 0 < n && !has_axis(locked, 0) {
            v(q[aid + free_axes(locked, 0, 0)])
        } else {
            0real
        },
        y: if 1 < n && !has_axis(locked, 1) {
            v(q[aid + free_axes(locked, 0, 1)])
        } else {
            0real
        },
        z: if 2 < n && !has_axis(locked, 2) {
            v(q[aid + free_axes(locked, 0, 2)])
        } else {
            0real
        },
    }
}

/// The angular velocity of a joint in its frame: the velocity of its one angle along
/// its axis, or those of its three angles.
pub open spec fn turning<S: Scalar>(
    v: spec_fn(S) -> real,
    dim: Dimension,
    locked: u32,
    q: Seq<S>,
    aid: int,
) -> V3<real> {
    let lin = dim.lin_spec();
    let sd = dim.spatial_spec();
    let at = aid + free_axes(locked, 0, lin);
    let angles = free_axes(locked, lin, sd);
    if angles == 1 {
        if dim == Dimension::Two {
            along(2, v(q[at]))
        } else {
            along(nth_free(locked, lin, sd, 0) - lin, v(q[at]))
        }
    } else if angles == 3 {
        V3 { x: v(q[at]), y: v(q[at + 1]), z: v(q[at + 2]) }
    } else {
        r3_zero()
    }
}

/// The joint of link `k` moves at the velocities `q`: its frames and the centre of mass
/// of the link stay where they are on their bodies, its free linear coordinates change
/// at their velocities, and its rotation turns at those of its angles.
pub open spec fn joint_moves<S: Scalar, D: Space<S>>(
    v: spec_fn(S) -> real,
    d: spec_fn(S) -> real,
    m: Motion<D::R>,
    st: MultibodyLinkStatic<S, D>,
    ws: MultibodyLinkWorkspace<S, D>,
    q: Seq<S>,
) -> bool {
    let locked = st.data.locked_axes;
    &&& still_joint(d, m, st.data)
    &&& vector_value::<S, D>(d, st.local_mprops.com) == r3_zero()
    &&& (m.unit)(ws.joint_rot)
    &&& (m.spin)(
        ws.joint_rot,
        turning(v, D::dimension_spec(), locked, q, st.assembly_id as int),
    )
    &&& forall|i: int|
        0 <= i < D::dimension_spec().lin_spec() && !has_axis(locked, i) ==> d(
            #[trigger] ws.coords@[i],
        ) == v(q[st.assembly_id + free_axes(locked, 0, i)])
}

/// The angular parts of vectors, by axes.
pub open spec fn by_axes<S: Scalar, D: Space<S>>(v: spec_fn(S) -> real) -> bool {
    &&& forall|i: int, s: S|
        0 <= i < D::dimension_spec().ang_spec() ==> angular_value::<S, D>(
            v,
            #[trigger] D::aaxis_spec(i, s),
        ) == along(
            if D::dimension_spec() == Dimension::Two {
                2
            } else {
                i
            },
            v(s),
        )
    &&& D::dimension_spec() == Dimension::Three ==> forall|x: S, y: S, z: S|
        angular_value::<S, D>(v, #[trigger] D::afrom_spec(x, y, z)) == (V3 {
            x: v(x),
            y: v(y),
            z: v(z),
        })
}

proof fn lemma_sliding<S: Scalar, D: Space<S>>(
    v: spec_fn(S) -> real,
    locked: u32,
    q: Seq<S>,
    aid: int,
    n: int,
)
    requires
        geometric::<S, D>(v),
        spatial::<S, D>(v),
        0 <= n <= D::dimension_spec().lin_spec(),
    ensures
        vector_value::<S, D>(v, joint_lin_vel::<S, D>(locked, q, aid, n)) == sliding(
            v,
            locked,
            q,
            aid,
            n,
        ),
    decreases n,
{
    if n > 0 {
        lemma_sliding::<S, D>(v, locked, q, aid, n - 1);
        if !has_axis(locked, n - 1) {
            let s = q[aid + free_axes(locked, 0, n - 1)];
            assert(vector_value::<S, D>(v, D::vaxis_spec(n - 1, s)) == along(n - 1, v(s)));
        }
    }
}

proof fn lemma_turning<S: Scalar, D: Space<S>>(
    v: spec_fn(S) -> real,
    locked: u32,
    q: Seq<S>,
    aid: int,
)
    requires
        geometric::<S, D>(v),
        by_axes::<S, D>(v),
    ensures
        angular_value::<S, D>(v, joint_ang_vel::<S, D>(locked, q, aid)) == turning(
            v,
            D::dimension_spec(),
            locked,
            q,
            aid,
        ),
{
    let dim = D::dimension_spec();
    let lin = dim.lin_spec();
    let sd = dim.spatial_spec();
    let at = aid + free_axes(locked, 0, lin);
    let angles = free_axes(locked, lin, sd);
    lemma_free_axes_bound(locked, lin, sd);
    if angles == 1 {
        lemma_nth_free(locked, lin, sd, 0);
        let i = nth_free(locked, lin, sd, 0) - lin;
        assert(angular_value::<S, D>(v, D::aaxis_spec(i, q[at])) == along(
            if dim == Dimension::Two {
                2
            } else {
                i
            },
            v(q[at]),
        ));
    } else if angles == 3 {
        assert(angular_value::<S, D>(v, D::afrom_spec(q[at], q[at + 1], q[at + 2])) == (V3 {
            x: v(q[at]),
            y: v(q[at + 1]),
            z: v(q[at + 2]),
        }));
    }
}

/// The rate of the centre of mass of a link, collected into the velocities that it
/// adds up from.
proof fn lemma_collect(
    wp: V3<real>,
    j: V3<real>,
    com: V3<real>,
    bt: V3<real>,
    b: V3<real>,
    pcom: V3<real>,
    jl: V3<real>,
    rp: V3<real>,
)
    ensures
        r3_add(
            r3_cross(r3_add(wp, j), com),
            r3_add(r3_add(r3_cross(wp, b), r3_add(r3_cross(j, r3_neg(bt)), jl)), rp),
        ) == r3_add(
            r3_add(
                r3_add(r3_add(r3_cross(wp, pcom), rp), jl),
                r3_cross(wp, r3_sub(r3_add(com, b), pcom)),
            ),
            r3_cross(j, r3_sub(com, bt)),
        ),
{
    lemma_cross_add(wp, j, com);
    lemma_cross_signs(j, bt);
    let np = r3_neg(pcom);
    assert(r3_sub(r3_add(com, b), pcom) == r3_add(r3_add(com, b), np));
    lemma_cross_add(r3_add(com, b), np, wp);
    lemma_cross_add(com, b, wp);
    lemma_cross_signs(wp, pcom);
    let nb = r3_neg(bt);
    assert(r3_sub(com, bt) == r3_add(com, nb));
    lemma_cross_add(com, nb, j);
}

/// What the motion of link `k` comes to.
pub open spec fn link_moves<S: Scalar, D: Space<S>>(
    v: spec_fn(S) -> real,
    d: spec_fn(S) -> real,
    m: Motion<D::R>,
    st: MultibodyLinkStatic<S, D>,
    pose: Pose<S, D>,
    vel: Velocity<S, D>,
) -> bool {
    &&& (m.unit)(pose.rotation)
    &&& (m.spin)(pose.rotation, angular_value::<S, D>(v, vel.angular))
    &&& vector_value::<S, D>(d, pose.point_spec(st.local_mprops.com)) == vector_value::<S, D>(
        v,
        vel.linear,
    )
}

proof fn lemma_child_moves<S: Scalar, D: Space<S>>(
    v: spec_fn(S) -> real,
    d: spec_fn(S) -> real,
    m: Motion<D::R>,
    st: Seq<MultibodyLinkStatic<S, D>>,
    ws: Seq<MultibodyLinkWorkspace<S, D>>,
    root: Pose<S, D>,
    q: Seq<S>,
    k: int,
)
    requires
        geometric::<S, D>(v),
        spatial::<S, D>(v),
        kinetic::<S, D>(v, d),
        spinning::<S, D>(v, d, m),
        by_axes::<S, D>(v),
        0 < k < st.len(),
        ws.len() == st.len(),
        st[k].parent_link_id < k,
        joint_moves(v, d, m, st[k], ws[k], q),
        vector_value::<S, D>(d, st[st[k].parent_link_id as int].local_mprops.com) == r3_zero(),
        ({
            let p = st[k].parent_link_id as int;
            let pl = placed(st, ws, root, st.len() as int);
            link_moves(v, d, m, st[p], pl[p].local_to_world, link_velocity(st, pl, q, p))
        }),
    ensures
        ({
            let p = st[k].parent_link_id as int;
            let pl = placed(st, ws, root, st.len() as int);
            let jv = joint_velocity(st, pl, q, k);
            let pose = pl[k].local_to_world;
            let wp = angular_value::<S, D>(v, link_velocity(st, pl, q, p).angular);
            let f = joint_frame_rot(st, pl, k);
            &&& link_moves(v, d, m, st[k], pose, link_velocity(st, pl, q, k))
            &&& (m.spin)(f, wp)
            &&& jv.linear == D::rapply_spec(f, local_joint_velocity(st[k], q).linear)
            &&& jv.angular == D::rapply_ang_spec(f, local_joint_velocity(st[k], q).angular)
        }),
{
    let n = st.len() as int;
    let p = st[k].parent_link_id as int;
    let pl = placed(st, ws, root, n);
    let joint = st[k].data;
    let locked = joint.locked_axes;
    let aid = st[k].assembly_id as int;
    let lin = D::dimension_spec().lin_spec();
    let rot = ws[k].joint_rot;
    let coords = ws[k].coords@;
    let parent = pl[p].local_to_world;
    let pose = pl[k].local_to_world;
    assert(parent == link_pose(st, ws, root, p));
    assert(pose == link_pose(st, ws, root, k));
    let w = turning(v, D::dimension_spec(), locked, q, aid);
    lemma_transform_rate(v, d, m, joint, rot, w, coords, lin);
    lemma_sliding::<S, D>(v, locked, q, aid, lin);
    lemma_turning::<S, D>(v, locked, q, aid);
    let t = joint_transform(joint, rot, coords, lin);
    let b = body_to_parent_spec(joint, rot, coords);
    assert(pose == parent.after_spec(b));
    let ra = joint.local_frame_a.rotation;
    let rp = parent.rotation;
    let ls = sliding(v, locked, q, aid, lin);
    assert(slide(d, locked, coords, lin) == ls) by {
        if 0 < lin && !has_axis(locked, 0) {
            assert(d(coords[0]) == v(q[aid + free_axes(locked, 0, 0)]));
        }
        if 1 < lin && !has_axis(locked, 1) {
            assert(d(coords[1]) == v(q[aid + free_axes(locked, 0, 1)]));
        }
        if 2 < lin && !has_axis(locked, 2) {
            assert(d(coords[2]) == v(q[aid + free_axes(locked, 0, 2)]));
        }
    }
    let back = way_back(v, m, joint, rot);
    // The joint's frame turns with the parent.
    let f = joint_frame_rot(st, pl, k);
    let wp = angular_value::<S, D>(v, link_velocity(st, pl, q, p).angular);
    assert(f == D::rmul_spec(rp, ra));
    lemma_spinning_spin::<S, D>(v, d, m, rp, wp, ra, r3_zero());
    lemma_spinning_add::<S, D>(v, d, m, rp, wp, wp);
    assert(r3_add(wp, r3_zero()) == wp);
    // The link's rotation.
    let rb = b.rotation;
    assert(rb == D::rmul_spec(ra, t.rotation));
    lemma_spinning_spin::<S, D>(v, d, m, ra, r3_zero(), t.rotation, w);
    lemma_spinning_product::<S, D>(v, d, m, ra, t.rotation, w);
    let wa = (m.turn)(ra, w);
    assert(r3_add(r3_zero(), wa) == wa);
    let j = (m.turn)(rp, wa);
    assert(pose.rotation == D::rmul_spec(rp, rb));
    lemma_spinning_spin::<S, D>(v, d, m, rp, wp, rb, wa);
    lemma_spinning_product::<S, D>(v, d, m, rp, rb, wa);
    // The joint's velocity.
    let jv = joint_velocity(st, pl, q, k);
    let local = local_joint_velocity(st[k], q);
    let vel = link_velocity(st, pl, q, k);
    lemma_spinning_turn_ang::<S, D>(v, d, m, f, local.angular);
    lemma_spinning_product::<S, D>(v, d, m, rp, ra, w);
    assert(angular_value::<S, D>(v, jv.angular) == j);
    let jl = (m.turn)(rp, (m.turn)(ra, ls));
    lemma_spinning_turn::<S, D>(v, d, m, f, local.linear);
    lemma_spinning_product::<S, D>(v, d, m, rp, ra, ls);
    assert(vector_value::<S, D>(v, jv.linear) == jl);
    assert(angular_value::<S, D>(v, vel.angular) == r3_add(wp, j));
    // The rate of the link's origin.
    let bt_rate = vector_value::<S, D>(d, b.translation);
    let moved = D::rapply_spec(ra, t.translation);
    lemma_cross_zero(vector_value::<S, D>(v, moved));
    assert(bt_rate == (m.turn)(ra, r3_add(r3_cross(w, back), ls))) by {
        lemma_spinning_rate::<S, D>(v, d, m, ra, r3_zero(), t.translation);
    }
    let ub = (m.turn)(rp, (m.turn)(ra, back));
    assert((m.turn)(rp, bt_rate) == r3_add(r3_cross(j, ub), jl)) by {
        let x = r3_cross(w, back);
        lemma_spinning_add::<S, D>(v, d, m, ra, x, ls);
        lemma_spinning_cross::<S, D>(v, d, m, ra, w, back);
        let y = r3_cross(wa, (m.turn)(ra, back));
        lemma_spinning_add::<S, D>(v, d, m, rp, y, (m.turn)(ra, ls));
        lemma_spinning_cross::<S, D>(v, d, m, rp, wa, (m.turn)(ra, back));
    }
    // The origin of frame B lies opposite to the way back.
    let bt = joint.local_frame_b.translation;
    let btv = vector_value::<S, D>(v, bt);
    let far = (m.turn)(pose.rotation, btv);
    assert(ub == r3_neg(far)) by {
        let rbi = D::rinv_spec(joint.local_frame_b.rotation);
        let x = (m.turn)(rbi, btv);
        let nx = (m.turn)(rbi, r3_neg(btv));
        assert(r3_add(btv, r3_neg(btv)) == r3_zero());
        assert(r3_add(x, nx) == r3_zero()) by {
            lemma_spinning_add::<S, D>(v, d, m, rbi, btv, r3_neg(btv));
        }
        assert(r3_add((m.turn)(rot, x), back) == r3_zero()) by {
            lemma_spinning_add::<S, D>(v, d, m, rot, x, nx);
        }
        let y = (m.turn)(rot, x);
        assert((m.turn)(t.rotation, btv) == y);
        let ya = (m.turn)(ra, y);
        let ba = (m.turn)(ra, back);
        assert(r3_add(ya, ba) == r3_zero()) by {
            lemma_spinning_add::<S, D>(v, d, m, ra, y, back);
        }
        lemma_spinning_product::<S, D>(v, d, m, ra, t.rotation, btv);
        assert((m.turn)(rb, btv) == ya);
        assert(r3_add((m.turn)(rp, ya), ub) == r3_zero()) by {
            lemma_spinning_add::<S, D>(v, d, m, rp, ya, ba);
        }
        lemma_spinning_product::<S, D>(v, d, m, rp, rb, btv);
    }
    // The rates of the origin and of the centre of mass.
    let com = st[k].local_mprops.com;
    let pcom = st[p].local_mprops.com;
    let at = D::rapply_spec(rp, b.translation);
    let rc = D::rapply_spec(pose.rotation, com);
    let rpc = D::rapply_spec(rp, pcom);
    let pr = vector_value::<S, D>(d, parent.translation);
    lemma_spinning_rate::<S, D>(v, d, m, rp, wp, b.translation);
    lemma_spinning_rate::<S, D>(v, d, m, pose.rotation, r3_add(wp, j), com);
    lemma_spinning_rate::<S, D>(v, d, m, rp, wp, pcom);
    lemma_spinning_add::<S, D>(v, d, m, pose.rotation, j, j);
    lemma_spinning_turn::<S, D>(v, d, m, pose.rotation, bt);
    lemma_collect(
        wp,
        j,
        vector_value::<S, D>(v, rc),
        far,
        vector_value::<S, D>(v, at),
        vector_value::<S, D>(v, rpc),
        jl,
        pr,
    );
    let a_pt = pose.point_spec(com);
    let b_pt = parent.point_spec(pcom);
    let c_pt = pose.point_spec(bt);
    assert(pl[k].shift23 == D::vsub_spec(a_pt, c_pt));
    assert(vector_value::<S, D>(v, D::vsub_spec(a_pt, c_pt)) == r3_sub(
        vector_value::<S, D>(v, rc),
        far,
    ));
    assert(vector_value::<S, D>(v, D::vsub_spec(a_pt, b_pt)) == r3_sub(
        r3_add(vector_value::<S, D>(v, rc), vector_value::<S, D>(v, at)),
        vector_value::<S, D>(v, rpc),
    ));
    assert(vector_value::<S, D>(v, link_velocity(st, pl, q, p).linear) == r3_add(
        r3_cross(wp, vector_value::<S, D>(v, rpc)),
        pr,
    ));
}

/// The root moves at the velocity that the multibody takes it to have.
pub open spec fn root_moves<S: Scalar, D: Space<S>>(
    v: spec_fn(S) -> real,
    d: spec_fn(S) -> real,
    m: Motion<D::R>,
    st: Seq<MultibodyLinkStatic<S, D>>,
    root: Pose<S, D>,
    q: Seq<S>,
) -> bool {
    link_moves(v, d, m, st[0], root, local_joint_velocity(st[0], q))
}

proof fn lemma_links_move<S: Scalar, D: Space<S>>(
    v: spec_fn(S) -> real,
    d: spec_fn(S) -> real,
    m: Motion<D::R>,
    st: Seq<MultibodyLinkStatic<S, D>>,
    ws: Seq<MultibodyLinkWorkspace<S, D>>,
    root: Pose<S, D>,
    q: Seq<S>,
    k: int,
)
    requires
        geometric::<S, D>(v),
        spatial::<S, D>(v),
        kinetic::<S, D>(v, d),
        spinning::<S, D>(v, d, m),
        by_axes::<S, D>(v),
        0 <= k < st.len(),
        ws.len() == st.len(),
        parents_first(st),
        root_moves(v, d, m, st, root, q),
        forall|i: int| 0 <= i < st.len() ==> #[trigger] joint_moves(v, d, m, st[i], ws[i], q),
    ensures
        ({
            let pl = placed(st, ws, root, st.len() as int);
            link_moves(v, d, m, st[k], pl[k].local_to_world, link_velocity(st, pl, q, k))
        }),
    decreases k,
{
    assert(joint_moves(v, d, m, st[k], ws[k], q));
    if k > 0 {
        let p = st[k].parent_link_id as int;
        assert(st[k].parent_link_id < k);
        lemma_links_move(v, d, m, st, ws, root, q, p);
        assert(joint_moves(v, d, m, st[p], ws[p], q));
        lemma_child_moves(v, d, m, st, ws, root, q, k);
    }
}

// ---- the plane ----

/// In exact arithmetic, the rotations of the plane turn and spin as those of space.
pub proof fn plane_is_spinning<S: Scalar>(v: spec_fn(S) -> real, d: spec_fn(S) -> real)
    requires
        exact(v),
        rates(v, d),
    ensures
        spinning::<S, Dim2>(v, d, plane_motion(v, d)),
        by_axes::<S, Dim2>(v),
{
    reveal(spinning);
    let m = plane_motion(v, d);
    assert forall|r: Rot2<S>, a: V3<real>, b: V3<real>|
        #[trigger] (m.turn)(r, r3_add(a, b)) == r3_add((m.turn)(r, a), (m.turn)(r, b)) by {
        lemma_factor(v(r.re), a.x, b.x);
        lemma_factor(v(r.re), a.y, b.y);
        lemma_factor(v(r.im), a.x, b.x);
        lemma_factor(v(r.im), a.y, b.y);
    }
    assert forall|r: Rot2<S>| #[trigger] (m.turn)(r, r3_zero()) == r3_zero() by {
        lemma_zero(v(r.re));
        lemma_zero(v(r.im));
    }
    let one = <Dim2 as Space<S>>::rid_spec();
    assert forall|a: V3<real>| #[trigger] (m.turn)(one, a) == a by {
        lemma_one(a.x);
        lemma_one(a.y);
        lemma_zero(a.x);
        lemma_zero(a.y);
    }
    assert forall|a: Rot2<S>, b: Rot2<S>, x: V3<real>|
        #[trigger] (m.turn)(<Dim2 as Space<S>>::rmul_spec(a, b), x) == (m.turn)(
            a,
            (m.turn)(b, x),
        ) by {
        lemma_compose2(v(a.re), v(a.im), v(b.re), v(b.im), x.x, x.y);
    }
    assert forall|a: Rot2<S>, p: V3<real>, q: V3<real>|
        (m.unit)(a) implies #[trigger] (m.turn)(a, r3_cross(p, q)) == r3_cross(
        (m.turn)(a, p),
        (m.turn)(a, q),
    ) by {
        lemma_plane_cross(v(a.re), v(a.im), p, q);
    }
    lemma_one(1real);
    lemma_zero(0real);
    lemma_zero(1real);
    assert forall|a: Rot2<S>, b: Rot2<S>| (m.unit)(a) && (m.unit)(b) implies #[trigger] (m.unit)(
        <Dim2 as Space<S>>::rmul_spec(a, b),
    ) by {
        lemma_plane_unit(v(a.re), v(a.im), v(b.re), v(b.im));
    }
    assert forall|a: Rot2<S>| (m.unit)(a) implies #[trigger] (m.unit)(
        <Dim2 as Space<S>>::rinv_spec(a),
    ) by {
        let s = v(a.im);
        assert((-s) * (-s) == s * s) by (nonlinear_arith);
    }
    assert forall|a: Rot2<S>| (m.spin)(a, r3_zero()) implies #[trigger] (m.spin)(
        <Dim2 as Space<S>>::rinv_spec(a),
        r3_zero(),
    ) by {
        lemma_zero(v(a.re));
        lemma_zero(v(a.im));
        lemma_zero(-v(a.im));
    }
    assert forall|a: Rot2<S>, b: Rot2<S>, wa: V3<real>, wb: V3<real>|
        #![trigger (m.spin)(a, wa), (m.spin)(b, wb), <Dim2 as Space<S>>::rmul_spec(a, b)]
        (m.spin)(a, wa) && (m.spin)(b, wb) && (m.unit)(a) implies (m.spin)(
        <Dim2 as Space<S>>::rmul_spec(a, b),
        r3_add(wa, (m.turn)(a, wb)),
    ) by {
        lemma_zero(v(a.re));
        lemma_zero(v(a.im));
        lemma_plane_spin(v(a.re), v(a.im), v(b.re), v(b.im), wa.z, wb.z);
    }
    assert forall|r: Rot2<S>, w: V3<real>, x: V2<S>|
        #![trigger (m.spin)(r, w), <Dim2 as Space<S>>::rapply_spec(r, x)]
        (m.spin)(r, w) implies vector_value::<S, Dim2>(
        d,
        <Dim2 as Space<S>>::rapply_spec(r, x),
    ) == r3_add(
        r3_cross(w, vector_value::<S, Dim2>(v, <Dim2 as Space<S>>::rapply_spec(r, x))),
        (m.turn)(r, vector_value::<S, Dim2>(d, x)),
    ) by {
        let c = v(r.re);
        let s = v(r.im);
        let a = v(x.x);
        let b = v(x.y);
        lemma_zero(c * a - s * b);
        lemma_zero(s * a + c * b);
        lemma_zero(w.z);
        lemma_plane_rate(c, s, w.z, a, b);
    }
    assert forall|r: Rot2<S>, w: V3<real>, x: S|
        #![trigger (m.spin)(r, w), <Dim2 as Space<S>>::rapply_ang_spec(r, x)]
        (m.spin)(r, w) implies angular_value::<S, Dim2>(
        d,
        <Dim2 as Space<S>>::rapply_ang_spec(r, x),
    ) == r3_add(
        r3_cross(w, angular_value::<S, Dim2>(v, <Dim2 as Space<S>>::rapply_ang_spec(r, x))),
        (m.turn)(r, angular_value::<S, Dim2>(d, x)),
    ) by {
        lemma_zero(v(x));
        lemma_zero(w.z);
        lemma_zero(v(r.re));
        lemma_zero(v(r.im));
    }
    assert forall|r: Rot2<S>, x: S|
        angular_value::<S, Dim2>(v, #[trigger] <Dim2 as Space<S>>::rapply_ang_spec(r, x))
            == (m.turn)(r, angular_value::<S, Dim2>(v, x)) by {
        lemma_zero(v(r.re));
        lemma_zero(v(r.im));
    }
}

proof fn lemma_plane_unit(c: real, s: real, e: real, t: real)
    requires
        c * c + s * s == 1real,
        e * e + t * t == 1real,
    ensures
        (c * e - s * t) * (c * e - s * t) + (s * e + c * t) * (s * e + c * t) == 1real,
{
    let cc = c * c;
    let ss = s * s;
    let ee = e * e;
    let tt = t * t;
    let x = (c * e) * (s * t);
    assert((c * e - s * t) * (c * e - s * t) == (c * e) * (c * e) - 2real * x + (s * t) * (s * t))
        by (nonlinear_arith)
        requires
            x == (c * e) * (s * t),
    ;
    let y = (s * e) * (c * t);
    assert((s * e + c * t) * (s * e + c * t) == (s * e) * (s * e) + 2real * y + (c * t) * (c * t))
        by (nonlinear_arith)
        requires
            y == (s * e) * (c * t),
    ;
    assert((c * e) * (s * t) == (c * s) * (e * t)) by (nonlinear_arith);
    assert((s * e) * (c * t) == (c * s) * (e * t)) by (nonlinear_arith);
    assert((c * e) * (c * e) == cc * ee) by (nonlinear_arith)
        requires
            cc == c * c,
            ee == e * e,
    ;
    assert((s * t) * (s * t) == ss * tt) by (nonlinear_arith)
        requires
            ss == s * s,
            tt == t * t,
    ;
    assert((s * e) * (s * e) == ss * ee) by (nonlinear_arith)
        requires
            ss == s * s,
            ee == e * e,
    ;
    assert((c * t) * (c * t) == cc * tt) by (nonlinear_arith)
        requires
            cc == c * c,
            tt == t * t,
    ;
    lemma_factor(cc, ee, tt);
    lemma_factor(ss, ee, tt);
    lemma_one(cc);
    lemma_one(ss);
}

proof fn lemma_plane_cross(c: real, s: real, p: V3<real>, q: V3<real>)
    requires
        c * c + s * s == 1real,
    ensures
        ({
            let tp = V3 { x: c * p.x - s * p.y, y: s * p.x + c * p.y, z: p.z };
            let tq = V3 { x: c * q.x - s * q.y, y: s * q.x + c * q.y, z: q.z };
            let x = r3_cross(p, q);
            r3_cross(tp, tq) == (V3 { x: c * x.x - s * x.y, y: s * x.x + c * x.y, z: x.z })
        }),
{
    lemma_two_terms(s, p.x, c, p.y, q.z);
    lemma_two_terms(s, q.x, c, q.y, p.z);
    lemma_two_terms(c, p.x, -s, p.y, q.z);
    lemma_two_terms(c, q.x, -s, q.y, p.z);
    lemma_signs(s, p.y);
    lemma_signs(s, q.y);
    let a = p.y * q.z - q.y * p.z;
    let b = p.z * q.x - q.z * p.x;
    assert(c * a == c * (p.y * q.z) - c * (q.y * p.z)) by (nonlinear_arith)
        requires
            a == p.y * q.z - q.y * p.z,
    ;
    assert(s * b == s * (p.z * q.x) - s * (q.z * p.x)) by (nonlinear_arith)
        requires
            b == p.z * q.x - q.z * p.x,
    ;
    assert(s * a == s * (p.y * q.z) - s * (q.y * p.z)) by (nonlinear_arith)
        requires
            a == p.y * q.z - q.y * p.z,
    ;
    assert(c * b == c * (p.z * q.x) - c * (q.z * p.x)) by (nonlinear_arith)
        requires
            b == p.z * q.x - q.z * p.x,
    ;
    lemma_commute(p.z, q.x);
    lemma_commute(p.x, q.z);
    lemma_commute(p.z, q.y);
    lemma_signs(s, p.y * q.z);
    lemma_signs(s, q.y * p.z);
    lemma_commute(q.z, p.x);
    let tpx = c * p.x - s * p.y;
    let tqx = c * q.x - s * q.y;
    let tpy = s * p.x + c * p.y;
    let tqy = s * q.x + c * q.y;
    lemma_commute(p.z, tqx);
    lemma_commute(q.z, tpx);
    // The third component: the area is kept.
    assert(tpx * tqy - tqx * tpy == p.x * q.y - q.x * p.y) by {
        lemma_area(c, s, p.x, p.y, q.x, q.y);
    }
}

proof fn lemma_two_terms(s: real, a: real, c: real, b: real, k: real)
    ensures
        (s * a + c * b) * k == s * (a * k) + c * (b * k),
{
    lemma_right(s * a, c * b, k);
    assert((s * a) * k == s * (a * k)) by (nonlinear_arith);
    assert((c * b) * k == c * (b * k)) by (nonlinear_arith);
}

proof fn lemma_area(c: real, s: real, a: real, b: real, e: real, f: real)
    requires
        c * c + s * s == 1real,
    ensures
        (c * a - s * b) * (s * e + c * f) - (c * e - s * f) * (s * a + c * b) == a * f - e * b,
{
    let x = s * e + c * f;
    let y = s * a + c * b;
    lemma_minus_right(c * a, s * b, x);
    lemma_minus_right(c * e, s * f, y);
    lemma_factor(c * a, s * e, c * f);
    lemma_factor(s * b, s * e, c * f);
    lemma_factor(c * e, s * a, c * b);
    lemma_factor(s * f, s * a, c * b);
    let cc = c * c;
    let ss = s * s;
    let cs = c * s;
    assert((c * a) * (s * e) == cs * (a * e)) by (nonlinear_arith)
        requires
            cs == c * s,
    ;
    assert((c * a) * (c * f) == cc * (a * f)) by (nonlinear_arith)
        requires
            cc == c * c,
    ;
    assert((s * b) * (s * e) == ss * (e * b)) by (nonlinear_arith)
        requires
            ss == s * s,
    ;
    assert((s * b) * (c * f) == cs * (b * f)) by (nonlinear_arith)
        requires
            cs == c * s,
    ;
    assert((c * e) * (s * a) == cs * (a * e)) by (nonlinear_arith)
        requires
            cs == c * s,
    ;
    assert((c * e) * (c * b) == cc * (e * b)) by (nonlinear_arith)
        requires
            cc == c * c,
    ;
    assert((s * f) * (s * a) == ss * (a * f)) by (nonlinear_arith)
        requires
            ss == s * s,
    ;
    assert((s * f) * (c * b) == cs * (b * f)) by (nonlinear_arith)
        requires
            cs == c * s,
    ;
    let af = a * f;
    let eb = e * b;
    lemma_right(cc, ss, af);
    lemma_right(cc, ss, eb);
    lemma_one(af);
    lemma_one(eb);
}

proof fn lemma_plane_spin(c: real, s: real, e: real, t: real, p: real, q: real)
    ensures
        (-(p * s) * e + c * -(q * t)) - ((p * c) * t + s * (q * e)) == -((p + q) * (s * e + c * t)),
        ((p * c) * e + s * -(q * t)) + (-(p * s) * t + c * (q * e)) == (p + q) * (c * e - s * t),
{
    let x = s * e + c * t;
    let y = c * e - s * t;
    lemma_right(p, q, x);
    lemma_right(p, q, y);
    lemma_factor(p, s * e, c * t);
    lemma_factor(q, s * e, c * t);
    assert(p * y == p * (c * e) - p * (s * t)) by (nonlinear_arith)
        requires
            y == c * e - s * t,
    ;
    assert(q * y == q * (c * e) - q * (s * t)) by (nonlinear_arith)
        requires
            y == c * e - s * t,
    ;
    assert(-(p * s) * e == -(p * (s * e))) by (nonlinear_arith);
    assert(c * -(q * t) == -(q * (c * t))) by (nonlinear_arith);
    assert((p * c) * t == p * (c * t)) by (nonlinear_arith);
    assert(s * (q * e) == q * (s * e)) by (nonlinear_arith);
    assert((p * c) * e == p * (c * e)) by (nonlinear_arith);
    assert(s * -(q * t) == -(q * (s * t))) by (nonlinear_arith);
    assert(-(p * s) * t == -(p * (s * t))) by (nonlinear_arith);
    assert(c * (q * e) == q * (c * e)) by (nonlinear_arith);
}

proof fn lemma_plane_rate(c: real, s: real, w: real, a: real, b: real)
    ensures
        -(w * s) * a - (w * c) * b == 0real - (s * a + c * b) * w,
        (w * c) * a + -(w * s) * b == w * (c * a - s * b),
{
    let x = s * a + c * b;
    lemma_commute(x, w);
    lemma_factor(w, s * a, c * b);
    assert(w * (c * a - s * b) == w * (c * a) - w * (s * b)) by (nonlinear_arith);
    assert(-(w * s) * a == -(w * (s * a))) by (nonlinear_arith);
    assert((w * c) * b == w * (c * b)) by (nonlinear_arith);
    assert((w * c) * a == w * (c * a)) by (nonlinear_arith);
    assert(-(w * s) * b == -(w * (s * b))) by (nonlinear_arith);
}

// ---- space ----

/// How `r3_turned` changes with the quaternion `(w, b)` that changes at `(e, f)`.
spec fn turned_rate(w: real, b: V3<real>, e: real, f: V3<real>, x: V3<real>) -> V3<real> {
    r3_add(
        r3_add(
            r3_add(
                r3_scale(x, e * w + w * e - (r3_dot(f, b) + r3_dot(b, f))),
                r3_scale(f, r3_dot(x, b) * 2real),
            ),
            r3_scale(b, r3_dot(x, f) * 2real),
        ),
        r3_add(r3_scale(r3_cross(f, x), w * 2real), r3_scale(r3_cross(b, x), e * 2real)),
    )
}

proof fn lemma_rapply_rate<S: Scalar>(
    v: spec_fn(S) -> real,
    d: spec_fn(S) -> real,
    r: Quat<S>,
    x: V3<S>,
)
    requires
        exact(v),
        rates(v, d),
        v(two_spec::<S>()) == 2real,
    ensures
        ({
            let q = quat_value(v, r);
            let p = quat_value(d, r);
            vector_value::<S, Dim3>(d, <Dim3 as Space<S>>::rapply_spec(r, x)) == r3_add(
                turned_rate(q.w, h_vec(q), p.w, h_vec(p), vector_value::<S, Dim3>(v, x)),
                r3_turned(q.w, h_vec(q), 2real, vector_value::<S, Dim3>(d, x)),
            )
        }),
{
    let q = quat_value(v, r);
    let p = quat_value(d, r);
    let b = h_vec(q);
    let f = h_vec(p);
    let y = vector_value::<S, Dim3>(v, x);
    let g = vector_value::<S, Dim3>(d, x);
    let yb = r3_dot(y, b);
    let sum = r3_dot(g, b) + r3_dot(y, f);
    lemma_zero(yb);
    lemma_zero(q.w);
    lemma_right(r3_dot(g, b), r3_dot(y, f), 2real);
    lemma_factor(b.x, r3_dot(g, b) * 2real, r3_dot(y, f) * 2real);
    lemma_factor(b.y, r3_dot(g, b) * 2real, r3_dot(y, f) * 2real);
    lemma_factor(b.z, r3_dot(g, b) * 2real, r3_dot(y, f) * 2real);
    let c1 = r3_cross(f, y);
    let c2 = r3_cross(b, g);
    let k = q.w * 2real;
    lemma_right(c1.x, c2.x, k);
    lemma_right(c1.y, c2.y, k);
    lemma_right(c1.z, c2.z, k);
    let e = <Dim3 as Space<S>>::rapply_spec(r, x);
    let dot = r3_dot(y, f) + r3_dot(g, b);
    let dq = p.w * q.w + q.w * p.w - (r3_dot(f, b) + r3_dot(b, f));
    let bb = q.w * q.w - r3_dot(b, b);
    let ks = p.w * 2real;
    let xb = r3_cross(b, y);
    lemma_rate_part(v, d, r, x);
    assert(d(e.x) == (g.x * bb + y.x * dq) + (f.x * (yb * 2real) + b.x * (sum * 2real)) + ((c1.x
        + c2.x) * k + xb.x * ks));
    assert(d(e.y) == (g.y * bb + y.y * dq) + (f.y * (yb * 2real) + b.y * (sum * 2real)) + ((c1.y
        + c2.y) * k + xb.y * ks));
    assert(d(e.z) == (g.z * bb + y.z * dq) + (f.z * (yb * 2real) + b.z * (sum * 2real)) + ((c1.z
        + c2.z) * k + xb.z * ks));
}

/// The rates of the factors of a turned vector.
proof fn lemma_rate_part<S: Scalar>(
    v: spec_fn(S) -> real,
    d: spec_fn(S) -> real,
    r: Quat<S>,
    x: V3<S>,
)
    requires
        exact(v),
        rates(v, d),
        v(two_spec::<S>()) == 2real,
    ensures
        ({
            let q = quat_value(v, r);
            let p = quat_value(d, r);
            let b = h_vec(q);
            let f = h_vec(p);
            let y = vector_value::<S, Dim3>(v, x);
            let g = vector_value::<S, Dim3>(d, x);
            let im = V3 { x: r.x, y: r.y, z: r.z };
            let vb = <Dim3 as Space<S>>::vdot_spec(x, im).times_spec(two_spec::<S>());
            &&& d(vb) == (r3_dot(g, b) + r3_dot(y, f)) * 2real
            &&& v(vb) == r3_dot(y, b) * 2real
            &&& d(r.w.times_spec(two_spec::<S>())) == p.w * 2real
            &&& d(r.w.times_spec(r.w).minus_spec(<Dim3 as Space<S>>::vdot_spec(im, im))) == p.w
                * q.w + q.w * p.w - (r3_dot(f, b) + r3_dot(b, f))
        }),
{
    let q = quat_value(v, r);
    let y = vector_value::<S, Dim3>(v, x);
    lemma_zero(r3_dot(y, h_vec(q)));
    lemma_zero(q.w);
}

/// Halved quaternion.
spec fn h_half(a: Quat<real>) -> Quat<real> {
    Quat { x: a.x / 2real, y: a.y / 2real, z: a.z / 2real, w: a.w / 2real }
}

proof fn lemma_half_factor(a: Quat<real>, b: Quat<real>)
    ensures
        h_mul(h_half(a), b) == h_half(h_mul(a, b)),
        h_mul(b, h_half(a)) == h_half(h_mul(b, a)),
        h_conj(h_half(a)) == h_half(h_conj(a)),
{
    lemma_half_times(a.x, b.x);
    lemma_half_times(a.x, b.y);
    lemma_half_times(a.x, b.z);
    lemma_half_times(a.x, b.w);
    lemma_half_times(a.y, b.x);
    lemma_half_times(a.y, b.y);
    lemma_half_times(a.y, b.z);
    lemma_half_times(a.y, b.w);
    lemma_half_times(a.z, b.x);
    lemma_half_times(a.z, b.y);
    lemma_half_times(a.z, b.z);
    lemma_half_times(a.z, b.w);
    lemma_half_times(a.w, b.x);
    lemma_half_times(a.w, b.y);
    lemma_half_times(a.w, b.z);
    lemma_half_times(a.w, b.w);
}

proof fn lemma_half_times(a: real, b: real)
    ensures
        (a / 2real) * b == (a * b) / 2real,
        b * (a / 2real) == (b * a) / 2real,
{
    assert((a / 2real) * b == (a * b) / 2real) by (nonlinear_arith);
    assert(b * (a / 2real) == (b * a) / 2real) by (nonlinear_arith);
}

/// One of the two products that a turned vector changes by.
proof fn lemma_one_rate(w: real, b: V3<real>, e: real, f: V3<real>, x: V3<real>)
    ensures
        h_vec(h_mul(h_mul(h_of(w, b), h_of(0real, x)), h_conj(h_of(e, f)))) == r3_add(
            r3_add(
                r3_add(r3_scale(f, r3_dot(b, x)), r3_scale(x, w * e)),
                r3_add(r3_scale(r3_cross(b, x), e), r3_scale(r3_cross(f, x), w)),
            ),
            r3_sub(r3_scale(b, r3_dot(f, x)), r3_scale(x, r3_dot(f, b))),
        ),
{
    let s = r3_dot(b, x);
    let c = r3_cross(b, x);
    let u = r3_add(r3_scale(x, w), c);
    let m = r3_neg(f);
    lemma_by_parts(w, b, 0real, x);
    lemma_zero(w);
    lemma_zero(b.x);
    lemma_zero(b.y);
    lemma_zero(b.z);
    assert(h_mul(h_of(w, b), h_of(0real, x)) == h_of(-s, u));
    assert(h_conj(h_of(e, f)) == h_of(e, m));
    lemma_by_parts(-s, u, e, m);
    lemma_scale_add(r3_scale(x, w), c, e);
    assert((x.x * w) * e == x.x * (w * e)) by (nonlinear_arith);
    assert((x.y * w) * e == x.y * (w * e)) by (nonlinear_arith);
    assert((x.z * w) * e == x.z * (w * e)) by (nonlinear_arith);
    assert((-f.x) * (-s) == f.x * s) by (nonlinear_arith);
    assert((-f.y) * (-s) == f.y * s) by (nonlinear_arith);
    assert((-f.z) * (-s) == f.z * s) by (nonlinear_arith);
    lemma_cross_signs(u, f);
    lemma_cross_signs(f, u);
    assert(r3_cross(u, m) == r3_cross(f, u));
    lemma_cross_add(r3_scale(x, w), c, f);
    lemma_cross_second(f, r3_zero(), x, w);
    lemma_cross_zero(f);
    assert(r3_add(r3_zero(), r3_scale(x, w)) == r3_scale(x, w));
    lemma_cross_cross(f, b, x);
}

/// The products that a turned vector changes by make up its rate.
proof fn lemma_turned_rate(w: real, b: V3<real>, e: real, f: V3<real>, x: V3<real>)
    ensures
        turned_rate(w, b, e, f, x) == r3_add(
            h_vec(h_mul(h_mul(h_of(w, b), h_of(0real, x)), h_conj(h_of(e, f)))),
            h_vec(h_mul(h_mul(h_of(e, f), h_of(0real, x)), h_conj(h_of(w, b)))),
        ),
{
    lemma_one_rate(w, b, e, f, x);
    lemma_one_rate(e, f, w, b, x);
    lemma_dot_commutes(b, x);
    lemma_dot_commutes(f, x);
    lemma_dot_commutes(b, f);
    lemma_commute(w, e);
    let p = r3_dot(x, b);
    let o = r3_dot(x, f);
    let n = r3_dot(b, f);
    let c = r3_cross(b, x);
    let k = r3_cross(f, x);
    lemma_gather(x.x, f.x, b.x, k.x, c.x, w, e, p, o, n);
    lemma_gather(x.y, f.y, b.y, k.y, c.y, w, e, p, o, n);
    lemma_gather(x.z, f.z, b.z, k.z, c.z, w, e, p, o, n);
}

proof fn lemma_gather(
    x: real,
    f: real,
    b: real,
    k: real,
    c: real,
    w: real,
    e: real,
    p: real,
    o: real,
    n: real,
)
    ensures
        x * (e * w + w * e - (n + n)) + f * (p * 2real) + b * (o * 2real) + (k * (w * 2real) + c
            * (e * 2real)) == ((f * p + x * (w * e)) + (c * e + k * w) + (b * o - x * n)) + ((b * o
            + x * (e * w)) + (k * w + c * e) + (f * p - x * n)),
{
    let ew = e * w;
    let we = w * e;
    assert(x * (ew + we - (n + n)) == x * ew + x * we - x * n - x * n) by (nonlinear_arith);
    assert(f * (p * 2real) == f * p + f * p) by (nonlinear_arith);
    assert(b * (o * 2real) == b * o + b * o) by (nonlinear_arith);
    assert(k * (w * 2real) == k * w + k * w) by (nonlinear_arith);
    assert(c * (e * 2real) == c * e + c * e) by (nonlinear_arith);
}

/// A vector that a rotation turns, whose quaternion changes by half the product with
/// `o`, changes by the cross product with `o`.
proof fn lemma_spin_rate(q: Quat<real>, o: V3<real>, x: V3<real>)
    ensures
        ({
            let p = h_half(h_mul(h_of(0real, o), q));
            turned_rate(q.w, h_vec(q), p.w, h_vec(p), x) == r3_cross(
                o,
                r3_turned(q.w, h_vec(q), 2real, x),
            )
        }),
{
    let om = h_of(0real, o);
    let full = h_mul(om, q);
    let p = h_half(full);
    let t = r3_turned(q.w, h_vec(q), 2real, x);
    let big = h_of(0real, t);
    let px = h_of(0real, x);
    assert(h_of(q.w, h_vec(q)) == q);
    assert(h_of(p.w, h_vec(p)) == p);
    lemma_turned_rate(q.w, h_vec(q), p.w, h_vec(p), x);
    lemma_turn(q, x);
    // (q x) conj(p) == half of big conj(om)
    let qx = h_mul(q, px);
    lemma_half_factor(full, q);
    lemma_half_factor(h_conj(full), qx);
    lemma_conj_product(om, q);
    lemma_associate(qx, h_conj(q), h_conj(om));
    assert(h_mul(qx, h_conj(p)) == h_half(h_mul(big, h_conj(om))));
    // (p x) conj(q) == half of om big
    lemma_half_factor(full, px);
    lemma_half_factor(h_mul(full, px), h_conj(q));
    lemma_associate(om, q, px);
    lemma_associate(om, qx, h_conj(q));
    assert(h_mul(h_mul(p, px), h_conj(q)) == h_half(h_mul(om, big)));
    // By parts.
    let no = r3_neg(o);
    assert(h_conj(om) == h_of(0real, no));
    lemma_by_parts(0real, t, 0real, no);
    lemma_by_parts(0real, o, 0real, t);
    lemma_zero(t.x);
    lemma_zero(t.y);
    lemma_zero(t.z);
    lemma_zero(o.x);
    lemma_zero(o.y);
    lemma_zero(o.z);
    lemma_zero(no.x);
    lemma_zero(no.y);
    lemma_zero(no.z);
    lemma_cross_signs(t, o);
    lemma_cross_signs(o, t);
    let c = r3_cross(o, t);
    lemma_halves(c.x);
    lemma_halves(c.y);
    lemma_halves(c.z);
}

proof fn lemma_halves(a: real)
    ensures
        a / 2real + a / 2real == a,
{
    assert(a / 2real + a / 2real == a) by (nonlinear_arith);
}

/// A product of spinning unit rotations spins.
proof fn lemma_spin_product(a: Quat<real>, wa: V3<real>, b: Quat<real>, wb: V3<real>)
    requires
        h_norm(a) == 1real,
    ensures
        h_add(
            h_mul(h_half(h_mul(h_of(0real, wa), a)), b),
            h_mul(a, h_half(h_mul(h_of(0real, wb), b))),
        ) == h_half(
            h_mul(
                h_of(0real, r3_add(wa, r3_turned(a.w, h_vec(a), 2real, wb))),
                h_mul(a, b),
            ),
        ),
{
    let oa = h_of(0real, wa);
    let ob = h_of(0real, wb);
    let t = r3_turned(a.w, h_vec(a), 2real, wb);
    let ot = h_of(0real, t);
    let ab = h_mul(a, b);
    lemma_half_factor(h_mul(oa, a), b);
    lemma_half_factor(h_mul(ob, b), a);
    lemma_associate(oa, a, b);
    // a ob == ot a
    lemma_turn(a, wb);
    lemma_unit_conj(a);
    let ao = h_mul(a, ob);
    lemma_associate(ao, h_conj(a), a);
    lemma_times_one(ao);
    assert(h_mul(ot, a) == ao);
    lemma_associate(a, ob, b);
    lemma_associate(ot, a, b);
    lemma_distribute_sum(ab, oa, ot);
    assert(h_add(oa, ot) == h_of(0real, r3_add(wa, t)));
    let x = h_mul(oa, ab);
    let y = h_mul(ot, ab);
    lemma_half_sum(x.x, y.x);
    lemma_half_sum(x.y, y.y);
    lemma_half_sum(x.z, y.z);
    lemma_half_sum(x.w, y.w);
}

proof fn lemma_half_sum(a: real, b: real)
    ensures
        a / 2real + b / 2real == (a + b) / 2real,
{
    assert(a / 2real + b / 2real == (a + b) / 2real) by (nonlinear_arith);
}

/// In exact arithmetic, the rotations of space turn and spin.
pub proof fn space_is_spinning<S: Scalar>(v: spec_fn(S) -> real, d: spec_fn(S) -> real)
    requires
        exact(v),
        rates(v, d),
        v(two_spec::<S>()) == 2real,
    ensures
        spinning::<S, Dim3>(v, d, space_motion(v, d)),
        by_axes::<S, Dim3>(v),
{
    reveal(spinning);
    let m = space_motion(v, d);
    assert forall|r: Quat<S>, x: V3<S>|
        vector_value::<S, Dim3>(v, #[trigger] <Dim3 as Space<S>>::rapply_spec(r, x)) == (m.turn)(
            r,
            vector_value::<S, Dim3>(v, x),
        ) by {
        lemma_rapply(v, r, x);
    }
    assert forall|r: Quat<S>, x: V3<S>|
        angular_value::<S, Dim3>(v, #[trigger] <Dim3 as Space<S>>::rapply_ang_spec(r, x))
            == (m.turn)(r, angular_value::<S, Dim3>(v, x)) by {
        lemma_rapply(v, r, x);
    }
    assert forall|r: Quat<S>, a: V3<real>, b: V3<real>|
        #[trigger] (m.turn)(r, r3_add(a, b)) == r3_add((m.turn)(r, a), (m.turn)(r, b)) by {
        let q = quat_value(v, r);
        lemma_turned_linear(q.w, h_vec(q), 2real, a, b, 1real);
        lemma_unscaled(b);
        lemma_unscaled((m.turn)(r, b));
    }
    assert forall|r: Quat<S>| #[trigger] (m.turn)(r, r3_zero()) == r3_zero() by {
        let q = quat_value(v, r);
        lemma_turned_zero(q.w, h_vec(q), 2real);
    }
    let one = <Dim3 as Space<S>>::rid_spec();
    assert forall|a: V3<real>| #[trigger] (m.turn)(one, a) == a by {
        lemma_identity_turn(a, 2real);
    }
    assert forall|a: Quat<S>, b: Quat<S>, x: V3<real>|
        #[trigger] (m.turn)(<Dim3 as Space<S>>::rmul_spec(a, b), x) == (m.turn)(
            a,
            (m.turn)(b, x),
        ) by {
        lemma_rmul(v, a, b);
        lemma_compose(quat_value(v, a), quat_value(v, b), x);
    }
    assert forall|a: Quat<S>, p: V3<real>, q: V3<real>|
        (m.unit)(a) implies #[trigger] (m.turn)(a, r3_cross(p, q)) == r3_cross(
        (m.turn)(a, p),
        (m.turn)(a, q),
    ) by {
        lemma_turn_products(quat_value(v, a), p, q);
    }
    lemma_one(1real);
    lemma_zero(0real);
    assert forall|a: Quat<S>, b: Quat<S>| (m.unit)(a) && (m.unit)(b) implies #[trigger] (m.unit)(
        <Dim3 as Space<S>>::rmul_spec(a, b),
    ) by {
        products_stay_unit(v, a, b);
    }
    assert forall|a: Quat<S>| (m.unit)(a) implies #[trigger] (m.unit)(
        <Dim3 as Space<S>>::rinv_spec(a),
    ) by {
        let q = quat_value(v, a);
        assert((-q.x) * (-q.x) == q.x * q.x) by (nonlinear_arith);
        assert((-q.y) * (-q.y) == q.y * q.y) by (nonlinear_arith);
        assert((-q.z) * (-q.z) == q.z * q.z) by (nonlinear_arith);
    }
    assert((m.spin)(one, r3_zero())) by {
        lemma_no_turn(quat_value(v, one));
    }
    assert forall|a: Quat<S>| (m.spin)(a, r3_zero()) implies #[trigger] (m.spin)(
        <Dim3 as Space<S>>::rinv_spec(a),
        r3_zero(),
    ) by {
        lemma_no_turn(quat_value(v, a));
        lemma_no_turn(quat_value(v, <Dim3 as Space<S>>::rinv_spec(a)));
    }
    assert forall|a: Quat<S>, b: Quat<S>, wa: V3<real>, wb: V3<real>|
        #![trigger (m.spin)(a, wa), (m.spin)(b, wb), <Dim3 as Space<S>>::rmul_spec(a, b)]
        (m.spin)(a, wa) && (m.spin)(b, wb) && (m.unit)(a) implies (m.spin)(
        <Dim3 as Space<S>>::rmul_spec(a, b),
        r3_add(wa, (m.turn)(a, wb)),
    ) by {
        let av = quat_value(v, a);
        let bv = quat_value(v, b);
        lemma_rmul(v, a, b);
        lemma_spin_product(av, wa, bv, wb);
        let da = quat_value(d, a);
        let db = quat_value(d, b);
        assert(da == h_half(h_mul(h_of(0real, wa), av)));
        assert(db == h_half(h_mul(h_of(0real, wb), bv)));
        let r = <Dim3 as Space<S>>::rmul_spec(a, b);
        assert(quat_value(d, r) == h_add(h_mul(da, bv), h_mul(av, db)));
    }
    assert forall|r: Quat<S>, w: V3<real>, x: V3<S>|
        #![trigger (m.spin)(r, w), <Dim3 as Space<S>>::rapply_spec(r, x)]
        (m.spin)(r, w) implies vector_value::<S, Dim3>(
        d,
        <Dim3 as Space<S>>::rapply_spec(r, x),
    ) == r3_add(
        r3_cross(w, vector_value::<S, Dim3>(v, <Dim3 as Space<S>>::rapply_spec(r, x))),
        (m.turn)(r, vector_value::<S, Dim3>(d, x)),
    ) by {
        lemma_turned_spin(v, d, r, w, x);
    }
    assert forall|r: Quat<S>, w: V3<real>, x: V3<S>|
        #![trigger (m.spin)(r, w), <Dim3 as Space<S>>::rapply_ang_spec(r, x)]
        (m.spin)(r, w) implies angular_value::<S, Dim3>(
        d,
        <Dim3 as Space<S>>::rapply_ang_spec(r, x),
    ) == r3_add(
        r3_cross(w, angular_value::<S, Dim3>(v, <Dim3 as Space<S>>::rapply_ang_spec(r, x))),
        (m.turn)(r, angular_value::<S, Dim3>(d, x)),
    ) by {
        lemma_turned_spin(v, d, r, w, x);
    }
}

proof fn lemma_no_turn(q: Quat<real>)
    ensures
        h_mul(h_of(0real, r3_zero()), q) == h_of(0real, r3_zero()),
        h_half(h_of(0real, r3_zero())) == h_of(0real, r3_zero()),
{
    lemma_zero(q.x);
    lemma_zero(q.y);
    lemma_zero(q.z);
    lemma_zero(q.w);
    assert(0real / 2real == 0real) by (nonlinear_arith);
}

proof fn lemma_turned_spin<S: Scalar>(
    v: spec_fn(S) -> real,
    d: spec_fn(S) -> real,
    r: Quat<S>,
    w: V3<real>,
    x: V3<S>,
)
    requires
        exact(v),
        rates(v, d),
        v(two_spec::<S>()) == 2real,
        turns_at(v, d, r, w),
    ensures
        ({
            let q = quat_value(v, r);
            vector_value::<S, Dim3>(d, <Dim3 as Space<S>>::rapply_spec(r, x)) == r3_add(
                r3_cross(w, vector_value::<S, Dim3>(v, <Dim3 as Space<S>>::rapply_spec(r, x))),
                r3_turned(q.w, h_vec(q), 2real, vector_value::<S, Dim3>(d, x)),
            )
        }),
{
    let q = quat_value(v, r);
    lemma_rapply_rate(v, d, r, x);
    lemma_rapply(v, r, x);
    assert(quat_value(d, r) == h_half(h_mul(h_of(0real, w), q)));
    lemma_spin_rate(q, w, vector_value::<S, Dim3>(v, x));
}

/// In the plane, when the arithmetic is exact, a link moves at its velocity: while the root
/// moves at its own and every joint at the velocities `q` of its coordinates, the
/// centre of mass of each link changes place at the linear velocity of the link, and
/// its rotation turns at the angular one.
pub proof fn plane_links_move_at_their_velocity<S: Scalar>(
    v: spec_fn(S) -> real,
    d: spec_fn(S) -> real,
    st: Seq<MultibodyLinkStatic<S, Dim2>>,
    ws: Seq<MultibodyLinkWorkspace<S, Dim2>>,
    root: Pose<S, Dim2>,
    q: Seq<S>,
    k: int,
)
    requires
        exact(v),
        rates(v, d),
        v(two_spec::<S>()) == 2real,
        0 <= k < st.len(),
        ws.len() == st.len(),
        parents_first(st),
        root_moves(v, d, plane_motion(v, d), st, root, q),
        forall|i: int|
            0 <= i < st.len() ==> #[trigger] joint_moves(
                v,
                d,
                plane_motion(v, d),
                st[i],
                ws[i],
                q,
            ),
    ensures
        ({
            let pl = placed(st, ws, root, st.len() as int);
            let pose = pl[k].local_to_world;
            let vel = link_velocity(st, pl, q, k);
            &&& vector_value::<S, Dim2>(d, pose.point_spec(st[k].local_mprops.com))
                == vector_value::<S, Dim2>(v, vel.linear)
            &&& plane_turns_at(v, d, pose.rotation, angular_value::<S, Dim2>(v, vel.angular))
        }),
{
    plane_is_geometric(v);
    plane_is_spatial(v);
    plane_is_kinetic(v, d);
    plane_is_spinning(v, d);
    lemma_links_move::<S, Dim2>(v, d, plane_motion(v, d), st, ws, root, q, k);
}

/// In space, when the arithmetic is exact, a link moves at its velocity: while the root
/// moves at its own and every joint at the velocities `q` of its coordinates, the
/// centre of mass of each link changes place at the linear velocity of the link, and
/// its rotation turns at the angular one.
pub proof fn space_links_move_at_their_velocity<S: Scalar>(
    v: spec_fn(S) -> real,
    d: spec_fn(S) -> real,
    st: Seq<MultibodyLinkStatic<S, Dim3>>,
    ws: Seq<MultibodyLinkWorkspace<S, Dim3>>,
    root: Pose<S, Dim3>,
    q: Seq<S>,
    k: int,
)
    requires
        exact(v),
        rates(v, d),
        v(two_spec::<S>()) == 2real,
        0 <= k < st.len(),
        ws.len() == st.len(),
        parents_first(st),
        root_moves(v, d, space_motion(v, d), st, root, q),
        forall|i: int|
            0 <= i < st.len() ==> #[trigger] joint_moves(
                v,
                d,
                space_motion(v, d),
                st[i],
                ws[i],
                q,
            ),
    ensures
        ({
            let pl = placed(st, ws, root, st.len() as int);
            let pose = pl[k].local_to_world;
            let vel = link_velocity(st, pl, q, k);
            &&& vector_value::<S, Dim3>(d, pose.point_spec(st[k].local_mprops.com))
                == vector_value::<S, Dim3>(v, vel.linear)
            &&& turns_at(v, d, pose.rotation, angular_value::<S, Dim3>(v, vel.angular))
        }),
{
    space_is_geometric(v);
    space_is_spatial(v);
    space_is_kinetic(v, d);
    space_is_spinning(v, d);
    lemma_links_move::<S, Dim3>(v, d, space_motion(v, d), st, ws, root, q, k);
}

} // verus!
