//! Velocities and accelerations as rates of change, when the arithmetic is exact.
//!
//! Beside the reading `v` of numbers as reals stands a second reading `d`: how fast
//! each number changes. It obeys the rules of differentiation.
use super::gravity::{
    has_mass, inherited_acc, kin_acc, link_force, link_world_inertia_spec, parents_first,
    settled_acc,
};
use super::jacobian_laws::{
    angular_value, geometric, plane_is_geometric, space_is_geometric, vector_value,
};
use super::kinematics::{joint_velocity, link_pose, link_velocity, moving, placed};
use super::mass_laws::{inertia_value, inertial, plane_is_inertial, space_is_inertial};
use super::space_laws::{plane_is_spatial, space_is_spatial, spatial};
use super::types::{LocalMassProperties, MultibodyLinkStatic, MultibodyLinkWorkspace};
use crate::exact::{exact, lemma_commute, lemma_zero};
use crate::real_vectors::{
    lemma_cross_add, lemma_cross_zero, lemma_image_zero, lemma_minus_right, r3_add, r3_cross,
    r3_dot, r3_image, r3_scale, r3_sub, r3_zero,
};
use crate::scalar::{Scalar, two_spec};
use crate::solver::anchor_laws::{lemma_cross_orthogonal, lemma_cross_twice};
use crate::space::{Dim2, Dim3, Pose, Space, V2, V3, Velocity};
use vstd::prelude::*;

verus! {

/// `d` reads how fast numbers change whose values `v` reads: constants do not, and
/// sums and products change by the sum and the product rule.
pub open spec fn rates<S: Scalar>(v: spec_fn(S) -> real, d: spec_fn(S) -> real) -> bool {
    &&& d(S::zero_spec()) == 0real
    &&& d(S::one_spec()) == 0real
    &&& d(two_spec::<S>()) == 0real
    &&& forall|a: S, b: S| d(#[trigger] a.plus_spec(b)) == d(a) + d(b)
    &&& forall|a: S, b: S| d(#[trigger] a.minus_spec(b)) == d(a) - d(b)
    &&& forall|a: S, b: S| d(#[trigger] a.times_spec(b)) == d(a) * v(b) + v(a) * d(b)
    &&& forall|a: S| d(#[trigger] a.neg_spec()) == -d(a)
}

/// Under `v` and `d`, vectors change by the sum and the product rule, and multiples
/// and products of angular vectors are those of space.
pub open spec fn kinetic<S: Scalar, D: Space<S>>(
    v: spec_fn(S) -> real,
    d: spec_fn(S) -> real,
) -> bool {
    &&& vector_value::<S, D>(d, D::vzero_spec()) == r3_zero()
    &&& angular_value::<S, D>(d, D::azero_spec()) == r3_zero()
    &&& forall|a: D::V, b: D::V|
        vector_value::<S, D>(d, #[trigger] D::vadd_spec(a, b)) == r3_add(
            vector_value::<S, D>(d, a),
            vector_value::<S, D>(d, b),
        )
    &&& forall|a: D::V, b: D::V|
        r3_add(
            vector_value::<S, D>(d, #[trigger] D::vsub_spec(a, b)),
            vector_value::<S, D>(d, b),
        ) == vector_value::<S, D>(d, a)
    &&& forall|a: D::A, b: D::A|
        angular_value::<S, D>(d, #[trigger] D::aadd_spec(a, b)) == r3_add(
            angular_value::<S, D>(d, a),
            angular_value::<S, D>(d, b),
        )
    &&& forall|w: D::A, a: D::V|
        vector_value::<S, D>(d, #[trigger] D::gcross_av_spec(w, a)) == r3_add(
            r3_cross(angular_value::<S, D>(d, w), vector_value::<S, D>(v, a)),
            r3_cross(angular_value::<S, D>(v, w), vector_value::<S, D>(d, a)),
        )
    &&& forall|a: D::V|
        vector_value::<S, D>(v, #[trigger] D::vscale_spec(a, two_spec::<S>())) == r3_add(
            vector_value::<S, D>(v, a),
            vector_value::<S, D>(v, a),
        )
    &&& forall|c: D::A, a: D::A, b: D::A|
        angular_value::<S, D>(v, #[trigger] D::aadd_cross_spec(c, a, b)) == r3_add(
            angular_value::<S, D>(v, c),
            r3_cross(angular_value::<S, D>(v, a), angular_value::<S, D>(v, b)),
        )
}

/// Exact arithmetic makes the vectors of the plane change as those of space do.
pub proof fn plane_is_kinetic<S: Scalar>(v: spec_fn(S) -> real, d: spec_fn(S) -> real)
    requires
        exact(v),
        rates(v, d),
        v(two_spec::<S>()) == 2real,
    ensures
        kinetic::<S, Dim2>(v, d),
{
    assert forall|w: S, a: V2<S>|
        vector_value::<S, Dim2>(d, #[trigger] <Dim2 as Space<S>>::gcross_av_spec(w, a)) == r3_add(
            r3_cross(angular_value::<S, Dim2>(d, w), vector_value::<S, Dim2>(v, a)),
            r3_cross(angular_value::<S, Dim2>(v, w), vector_value::<S, Dim2>(d, a)),
        ) by {
        lemma_zero(v(a.x));
        lemma_zero(v(a.y));
        lemma_zero(d(a.x));
        lemma_zero(d(a.y));
        lemma_zero(v(w));
        lemma_zero(d(w));
        lemma_minus_times(d(w), v(a.y));
        lemma_minus_times(v(w), d(a.y));
        lemma_commute(v(a.y), d(w));
        lemma_commute(d(a.y), v(w));
    }
    assert forall|a: V2<S>|
        vector_value::<S, Dim2>(
            v,
            #[trigger] <Dim2 as Space<S>>::vscale_spec(a, two_spec::<S>()),
        ) == r3_add(vector_value::<S, Dim2>(v, a), vector_value::<S, Dim2>(v, a)) by {
        lemma_double(v(a.x));
        lemma_double(v(a.y));
    }
    assert forall|c: S, a: S, b: S|
        angular_value::<S, Dim2>(v, #[trigger] <Dim2 as Space<S>>::aadd_cross_spec(c, a, b))
            == r3_add(
            angular_value::<S, Dim2>(v, c),
            r3_cross(angular_value::<S, Dim2>(v, a), angular_value::<S, Dim2>(v, b)),
        ) by {
        lemma_zero(v(a));
        lemma_zero(v(b));
    }
}

proof fn lemma_minus_times(a: real, b: real)
    ensures
        (-a) * b == -(a * b),
{
    assert((-a) * b == -(a * b)) by (nonlinear_arith);
}

proof fn lemma_double(a: real)
    ensures
        a * 2real == a + a,
{
    assert(a * 2real == a + a) by (nonlinear_arith);
}

/// Exact arithmetic makes the vectors of space change by the rules of
/// differentiation.
pub proof fn space_is_kinetic<S: Scalar>(v: spec_fn(S) -> real, d: spec_fn(S) -> real)
    requires
        exact(v),
        rates(v, d),
        v(two_spec::<S>()) == 2real,
    ensures
        kinetic::<S, Dim3>(v, d),
{
    assert forall|w: V3<S>, a: V3<S>|
        vector_value::<S, Dim3>(d, #[trigger] <Dim3 as Space<S>>::gcross_av_spec(w, a)) == r3_add(
            r3_cross(angular_value::<S, Dim3>(d, w), vector_value::<S, Dim3>(v, a)),
            r3_cross(angular_value::<S, Dim3>(v, w), vector_value::<S, Dim3>(d, a)),
        ) by {}
    assert forall|a: V3<S>|
        vector_value::<S, Dim3>(
            v,
            #[trigger] <Dim3 as Space<S>>::vscale_spec(a, two_spec::<S>()),
        ) == r3_add(vector_value::<S, Dim3>(v, a), vector_value::<S, Dim3>(v, a)) by {
        lemma_double(v(a.x));
        lemma_double(v(a.y));
        lemma_double(v(a.z));
    }
}

// ---- accelerations ----

/// Link `k` moves as a rigid body on its joint: the way from the parent's centre of
/// mass to the joint turns with the parent and follows the joint's sliding, the way
/// from the joint to the link's own centre of mass turns with the link, and the
/// velocity of the joint, constant in the joint's frame, turns with the parent.
pub open spec fn rigid_link<S: Scalar, D: Space<S>>(
    v: spec_fn(S) -> real,
    d: spec_fn(S) -> real,
    st: Seq<MultibodyLinkStatic<S, D>>,
    ws: Seq<MultibodyLinkWorkspace<S, D>>,
    k: int,
) -> bool {
    let wp = angular_value::<S, D>(v, ws[st[k].parent_link_id as int].rb_vels.angular);
    let wk = angular_value::<S, D>(v, ws[k].rb_vels.angular);
    let jl = vector_value::<S, D>(v, ws[k].joint_velocity.linear);
    let ja = angular_value::<S, D>(v, ws[k].joint_velocity.angular);
    &&& vector_value::<S, D>(d, ws[k].shift02) == r3_add(
        r3_cross(wp, vector_value::<S, D>(v, ws[k].shift02)),
        jl,
    )
    &&& vector_value::<S, D>(d, ws[k].shift23) == r3_cross(
        wk,
        vector_value::<S, D>(v, ws[k].shift23),
    )
    &&& vector_value::<S, D>(d, ws[k].joint_velocity.linear) == r3_cross(wp, jl)
    &&& angular_value::<S, D>(d, ws[k].joint_velocity.angular) == r3_cross(wp, ja)
}

/// The root turns at a constant rate about the point that its velocity is taken at.
pub open spec fn steady_root<S: Scalar, D: Space<S>>(
    v: spec_fn(S) -> real,
    d: spec_fn(S) -> real,
    ws: Seq<MultibodyLinkWorkspace<S, D>>,
) -> bool {
    let w = angular_value::<S, D>(v, ws[0].rb_vels.angular);
    &&& vector_value::<S, D>(d, ws[0].rb_vels.linear) == r3_cross(
        w,
        r3_cross(w, vector_value::<S, D>(v, ws[0].shift23)),
    )
    &&& angular_value::<S, D>(d, ws[0].rb_vels.angular) == r3_zero()
}

/// The rate of `vp + jl + wp x (s02 + s23) + ja x s23`, by the product rule, collected
/// into the terms of a moving frame.
proof fn lemma_moving_frame(
    wp: V3<real>,
    al: V3<real>,
    jl: V3<real>,
    ja: V3<real>,
    s02: V3<real>,
    s23: V3<real>,
)
    ensures
        ({
            let wk = r3_add(wp, ja);
            let r02 = r3_add(r3_cross(wp, s02), jl);
            let r23 = r3_cross(wk, s23);
            let lever = r3_add(
                r3_cross(al, r3_add(s02, s23)),
                r3_cross(wp, r3_add(r02, r23)),
            );
            let swing = r3_add(r3_cross(r3_cross(wp, ja), s23), r3_cross(ja, r23));
            let coriolis = r3_cross(wp, jl);
            r3_add(r3_add(coriolis, lever), swing) == r3_add(
                r3_add(
                    r3_add(r3_add(coriolis, coriolis), r3_cross(wp, r3_cross(wp, s02))),
                    r3_cross(al, s02),
                ),
                r3_add(
                    r3_cross(wk, r23),
                    r3_cross(r3_add(al, r3_cross(wp, ja)), s23),
                ),
            )
        }),
{
    let wk = r3_add(wp, ja);
    let r23 = r3_cross(wk, s23);
    lemma_cross_add(s02, s23, al);
    lemma_cross_add(r3_add(r3_cross(wp, s02), jl), r23, wp);
    lemma_cross_add(r3_cross(wp, s02), jl, wp);
    lemma_cross_add(wp, ja, r23);
    lemma_cross_add(al, r3_cross(wp, ja), s23);
}

proof fn lemma_rate_step<S: Scalar, D: Space<S>>(
    v: spec_fn(S) -> real,
    d: spec_fn(S) -> real,
    st: Seq<MultibodyLinkStatic<S, D>>,
    ws: Seq<MultibodyLinkWorkspace<S, D>>,
    p: int,
    k: int,
    shift: D::V,
    acc: Velocity<S, D>,
)
    requires
        geometric::<S, D>(v),
        kinetic::<S, D>(v, d),
        p == st[k].parent_link_id,
        rigid_link(v, d, st, ws, k),
        ws[k].rb_vels == (Velocity::<S, D> {
            linear: D::vadd_spec(
                D::vadd_spec(
                    D::vadd_spec(ws[p].rb_vels.linear, ws[k].joint_velocity.linear),
                    D::gcross_av_spec(ws[p].rb_vels.angular, shift),
                ),
                D::gcross_av_spec(ws[k].joint_velocity.angular, ws[k].shift23),
            ),
            angular: D::aadd_spec(ws[p].rb_vels.angular, ws[k].joint_velocity.angular),
        }),
        vector_value::<S, D>(v, shift) == r3_add(
            vector_value::<S, D>(v, ws[k].shift02),
            vector_value::<S, D>(v, ws[k].shift23),
        ),
        vector_value::<S, D>(d, shift) == r3_add(
            vector_value::<S, D>(d, ws[k].shift02),
            vector_value::<S, D>(d, ws[k].shift23),
        ),
        vector_value::<S, D>(d, ws[p].rb_vels.linear) == vector_value::<S, D>(v, acc.linear),
        angular_value::<S, D>(d, ws[p].rb_vels.angular) == angular_value::<S, D>(v, acc.angular),
    ensures
        ({
            let a = settled_acc(ws[k], inherited_acc(ws[k], acc, ws[p].rb_vels.angular));
            &&& vector_value::<S, D>(d, ws[k].rb_vels.linear) == vector_value::<S, D>(v, a.linear)
            &&& angular_value::<S, D>(d, ws[k].rb_vels.angular) == angular_value::<S, D>(
                v,
                a.angular,
            )
        }),
{
    let wp = angular_value::<S, D>(v, ws[p].rb_vels.angular);
    let al = angular_value::<S, D>(v, acc.angular);
    let jl = vector_value::<S, D>(v, ws[k].joint_velocity.linear);
    let ja = angular_value::<S, D>(v, ws[k].joint_velocity.angular);
    let s02 = vector_value::<S, D>(v, ws[k].shift02);
    let s23 = vector_value::<S, D>(v, ws[k].shift23);
    lemma_moving_frame(wp, al, jl, ja, s02, s23);
}

proof fn lemma_rates<S: Scalar, D: Space<S>>(
    v: spec_fn(S) -> real,
    d: spec_fn(S) -> real,
    st: Seq<MultibodyLinkStatic<S, D>>,
    ws: Seq<MultibodyLinkWorkspace<S, D>>,
    root: Pose<S, D>,
    q: Seq<S>,
    k: int,
)
    requires
        geometric::<S, D>(v),
        kinetic::<S, D>(v, d),
        0 <= k < st.len(),
        ws.len() == st.len(),
        parents_first(st),
        ({
            let n = st.len() as int;
            let w = moving(st, placed(st, ws, root, n), q, n);
            &&& steady_root(v, d, w)
            &&& forall|i: int| 0 < i < st.len() ==> #[trigger] rigid_link(v, d, st, w, i)
        }),
    ensures
        ({
            let n = st.len() as int;
            let w = moving(st, placed(st, ws, root, n), q, n);
            let a = kin_acc(st, w, k);
            &&& vector_value::<S, D>(d, w[k].rb_vels.linear) == vector_value::<S, D>(v, a.linear)
            &&& angular_value::<S, D>(d, w[k].rb_vels.angular) == angular_value::<S, D>(
                v,
                a.angular,
            )
        }),
    decreases k,
{
    let n = st.len() as int;
    let pl = placed(st, ws, root, n);
    let w = moving(st, pl, q, n);
    if k == 0 {
        let s23 = vector_value::<S, D>(v, w[0].shift23);
        lemma_cross_zero(s23);
    } else {
        let p = st[k].parent_link_id as int;
        assert(st[k].parent_link_id < k);
        lemma_rates(v, d, st, ws, root, q, p);
        assert(rigid_link(v, d, st, w, k));
        assert(w[k].rb_vels == link_velocity(st, pl, q, k));
        assert(w[p].rb_vels == link_velocity(st, pl, q, p));
        assert(w[k].joint_velocity == joint_velocity(st, pl, q, k));
        let a = pl[k].local_to_world.point_spec(st[k].local_mprops.com);
        let b = pl[p].local_to_world.point_spec(st[p].local_mprops.com);
        let c = pl[k].local_to_world.point_spec(st[k].data.local_frame_b.translation);
        assert(pl[p].local_to_world == link_pose(st, ws, root, p));
        assert(pl[k].local_to_world == link_pose(st, ws, root, k));
        assert(w[k].shift02 == D::vsub_spec(c, b));
        assert(w[k].shift23 == D::vsub_spec(a, c));
        let shift = D::vsub_spec(a, b);
        assert(r3_add(vector_value::<S, D>(v, shift), vector_value::<S, D>(v, b))
            == vector_value::<S, D>(v, a));
        assert(r3_add(vector_value::<S, D>(d, shift), vector_value::<S, D>(d, b))
            == vector_value::<S, D>(d, a));
        lemma_rate_step(v, d, st, w, p, k, shift, kin_acc(st, w, p));
    }
}


/// In exact arithmetic, the acceleration of each link of the plane at zero joint acceleration is
/// the rate of its velocity: the linear one that of its centre of mass, the angular
/// one that of its turning.
pub proof fn plane_accelerations_are_rates<S: Scalar>(
    v: spec_fn(S) -> real,
    d: spec_fn(S) -> real,
    st: Seq<MultibodyLinkStatic<S, Dim2>>,
    ws: Seq<MultibodyLinkWorkspace<S, Dim2>>,
    root: Pose<S, Dim2>,
    q: Seq<S>,
    k: int,
)
    requires
        exact(v),
        rates(v, d),
        v(two_spec::<S>()) == 2real,
        0 <= k < st.len(),
        ws.len() == st.len(),
        parents_first(st),
        ({
            let n = st.len() as int;
            let w = moving(st, placed(st, ws, root, n), q, n);
            &&& steady_root(v, d, w)
            &&& forall|i: int| 0 < i < st.len() ==> #[trigger] rigid_link(v, d, st, w, i)
        }),
    ensures
        ({
            let n = st.len() as int;
            let w = moving(st, placed(st, ws, root, n), q, n);
            let a = kin_acc(st, w, k);
            &&& vector_value::<S, Dim2>(v, a.linear) == vector_value::<S, Dim2>(
                d,
                w[k].rb_vels.linear,
            )
            &&& angular_value::<S, Dim2>(v, a.angular) == angular_value::<S, Dim2>(
                d,
                w[k].rb_vels.angular,
            )
        }),
{
    plane_is_geometric(v);
    plane_is_kinetic(v, d);
    lemma_rates(v, d, st, ws, root, q, k);
}

/// In exact arithmetic, the acceleration of each link of space at zero joint acceleration is
/// the rate of its velocity: the linear one that of its centre of mass, the angular
/// one that of its turning.
pub proof fn space_accelerations_are_rates<S: Scalar>(
    v: spec_fn(S) -> real,
    d: spec_fn(S) -> real,
    st: Seq<MultibodyLinkStatic<S, Dim3>>,
    ws: Seq<MultibodyLinkWorkspace<S, Dim3>>,
    root: Pose<S, Dim3>,
    q: Seq<S>,
    k: int,
)
    requires
        exact(v),
        rates(v, d),
        v(two_spec::<S>()) == 2real,
        0 <= k < st.len(),
        ws.len() == st.len(),
        parents_first(st),
        ({
            let n = st.len() as int;
            let w = moving(st, placed(st, ws, root, n), q, n);
            &&& steady_root(v, d, w)
            &&& forall|i: int| 0 < i < st.len() ==> #[trigger] rigid_link(v, d, st, w, i)
        }),
    ensures
        ({
            let n = st.len() as int;
            let w = moving(st, placed(st, ws, root, n), q, n);
            let a = kin_acc(st, w, k);
            &&& vector_value::<S, Dim3>(v, a.linear) == vector_value::<S, Dim3>(
                d,
                w[k].rb_vels.linear,
            )
            &&& angular_value::<S, Dim3>(v, a.angular) == angular_value::<S, Dim3>(
                d,
                w[k].rb_vels.angular,
            )
        }),
{
    space_is_geometric(v);
    space_is_kinetic(v, d);
    lemma_rates(v, d, st, ws, root, q, k);
}

/// A link that turns steadily about a resting joint accelerates towards the axis
/// through the joint: by the square of its angular velocity times the part of its
/// offset that is perpendicular to the axis, and not along the axis.
proof fn lemma_turning<S: Scalar, D: Space<S>>(
    v: spec_fn(S) -> real,
    ws: MultibodyLinkWorkspace<S, D>,
    resting: Velocity<S, D>,
)
    requires
        geometric::<S, D>(v),
        vector_value::<S, D>(v, resting.linear) == r3_zero(),
        angular_value::<S, D>(v, resting.angular) == r3_zero(),
    ensures
        ({
            let w = angular_value::<S, D>(v, ws.rb_vels.angular);
            let s = vector_value::<S, D>(v, ws.shift23);
            let a = vector_value::<S, D>(v, settled_acc(ws, resting).linear);
            &&& a == r3_add(r3_scale(w, r3_dot(s, w)), r3_scale(s, -r3_dot(w, w)))
            &&& r3_dot(a, w) == 0real
        }),
{
    let w = angular_value::<S, D>(v, ws.rb_vels.angular);
    let s = vector_value::<S, D>(v, ws.shift23);
    lemma_cross_zero(s);
    lemma_cross_twice(w, s);
    lemma_cross_orthogonal(w, r3_cross(w, s));
}

/// In exact arithmetic, a link of the plane that turns at the angular velocity `w`, without
/// angular acceleration, about a resting joint has the acceleration `-|w|^2` times
/// the part of its offset from the joint that is perpendicular to `w`.
pub proof fn plane_links_accelerate_inwards<S: Scalar>(
    v: spec_fn(S) -> real,
    ws: MultibodyLinkWorkspace<S, Dim2>,
    resting: Velocity<S, Dim2>,
)
    requires
        exact(v),
        vector_value::<S, Dim2>(v, resting.linear) == r3_zero(),
        angular_value::<S, Dim2>(v, resting.angular) == r3_zero(),
    ensures
        ({
            let w = angular_value::<S, Dim2>(v, ws.rb_vels.angular);
            let s = vector_value::<S, Dim2>(v, ws.shift23);
            let a = vector_value::<S, Dim2>(v, settled_acc(ws, resting).linear);
            &&& a == r3_add(r3_scale(w, r3_dot(s, w)), r3_scale(s, -r3_dot(w, w)))
            &&& r3_dot(a, w) == 0real
        }),
{
    plane_is_geometric(v);
    lemma_turning(v, ws, resting);
}

/// In exact arithmetic, a link of space that turns at the angular velocity `w`, without
/// angular acceleration, about a resting joint has the acceleration `-|w|^2` times
/// the part of its offset from the joint that is perpendicular to `w`.
pub proof fn space_links_accelerate_inwards<S: Scalar>(
    v: spec_fn(S) -> real,
    ws: MultibodyLinkWorkspace<S, Dim3>,
    resting: Velocity<S, Dim3>,
)
    requires
        exact(v),
        vector_value::<S, Dim3>(v, resting.linear) == r3_zero(),
        angular_value::<S, Dim3>(v, resting.angular) == r3_zero(),
    ensures
        ({
            let w = angular_value::<S, Dim3>(v, ws.rb_vels.angular);
            let s = vector_value::<S, Dim3>(v, ws.shift23);
            let a = vector_value::<S, Dim3>(v, settled_acc(ws, resting).linear);
            &&& a == r3_add(r3_scale(w, r3_dot(s, w)), r3_scale(s, -r3_dot(w, w)))
            &&& r3_dot(a, w) == 0real
        }),
{
    space_is_geometric(v);
    lemma_turning(v, ws, resting);
}

// ---- momentum ----

/// The inertia `m` of a body turns with the body, whose angular velocity is `w`.
pub open spec fn inertia_turns<S: Scalar, D: Space<S>>(
    v: spec_fn(S) -> real,
    d: spec_fn(S) -> real,
    m: D::I,
    w: D::A,
) -> bool {
    let wv = angular_value::<S, D>(v, w);
    let im = inertia_value::<S, D>(v, m);
    forall|a: D::A|
        angular_value::<S, D>(d, #[trigger] D::imul_spec(m, a)) == r3_add(
            r3_sub(
                r3_cross(wv, r3_image(im, angular_value::<S, D>(v, a))),
                r3_image(im, r3_cross(wv, angular_value::<S, D>(v, a))),
            ),
            r3_image(im, angular_value::<S, D>(d, a)),
        )
}

proof fn lemma_momentum<S: Scalar, D: Space<S>>(
    v: spec_fn(S) -> real,
    d: spec_fn(S) -> real,
    ws: MultibodyLinkWorkspace<S, D>,
    lmp: LocalMassProperties<S, D>,
    acc: Velocity<S, D>,
    g: D::V,
)
    requires
        exact(v),
        spatial::<S, D>(v),
        inertial::<S, D>(v),
        has_mass(lmp),
        vector_value::<S, D>(v, acc.linear) == vector_value::<S, D>(d, ws.rb_vels.linear),
        angular_value::<S, D>(v, acc.angular) == angular_value::<S, D>(d, ws.rb_vels.angular),
        inertia_turns::<S, D>(v, d, link_world_inertia_spec(ws, lmp), ws.rb_vels.angular),
    ensures
        ({
            let f = link_force(ws, lmp, acc, g);
            let mass = 1real / v(D::vget_spec(lmp.inv_mass, 0));
            let spin = D::imul_spec(link_world_inertia_spec(ws, lmp), ws.rb_vels.angular);
            &&& r3_add(
                vector_value::<S, D>(v, f.linear),
                r3_scale(vector_value::<S, D>(d, ws.rb_vels.linear), mass),
            ) == r3_scale(vector_value::<S, D>(v, g), mass)
            &&& r3_add(angular_value::<S, D>(v, f.angular), angular_value::<S, D>(d, spin))
                == r3_zero()
        }),
{
    let mass = 1real / v(D::vget_spec(lmp.inv_mass, 0));
    let g3 = vector_value::<S, D>(v, g);
    let a3 = vector_value::<S, D>(v, acc.linear);
    lemma_minus_right(g3.x, a3.x, mass);
    lemma_minus_right(g3.y, a3.y, mass);
    lemma_minus_right(g3.z, a3.z, mass);
    let m = link_world_inertia_spec(ws, lmp);
    let im = inertia_value::<S, D>(v, m);
    let w = angular_value::<S, D>(v, ws.rb_vels.angular);
    lemma_cross_orthogonal(w, w);
    lemma_image_zero(im);
    assert(angular_value::<S, D>(d, D::imul_spec(m, ws.rb_vels.angular)) == r3_add(
        r3_cross(w, r3_image(im, w)),
        r3_image(im, angular_value::<S, D>(d, ws.rb_vels.angular)),
    ));
}

/// In exact arithmetic, the force and torque asked of a link of the plane are what gravity
/// gives less the rates of its momentum and of its angular momentum.
pub proof fn plane_forces_balance_momentum<S: Scalar>(
    v: spec_fn(S) -> real,
    d: spec_fn(S) -> real,
    ws: MultibodyLinkWorkspace<S, Dim2>,
    lmp: LocalMassProperties<S, Dim2>,
    acc: Velocity<S, Dim2>,
    g: <Dim2 as Space<S>>::V,
)
    requires
        exact(v),
        has_mass(lmp),
        vector_value::<S, Dim2>(v, acc.linear) == vector_value::<S, Dim2>(d, ws.rb_vels.linear),
        angular_value::<S, Dim2>(v, acc.angular) == angular_value::<S, Dim2>(
            d,
            ws.rb_vels.angular,
        ),
        inertia_turns::<S, Dim2>(v, d, link_world_inertia_spec(ws, lmp), ws.rb_vels.angular),
    ensures
        ({
            let f = link_force(ws, lmp, acc, g);
            let mass = 1real / v(<Dim2 as Space<S>>::vget_spec(lmp.inv_mass, 0));
            let spin = <Dim2 as Space<S>>::imul_spec(
                link_world_inertia_spec(ws, lmp),
                ws.rb_vels.angular,
            );
            &&& r3_add(
                vector_value::<S, Dim2>(v, f.linear),
                r3_scale(vector_value::<S, Dim2>(d, ws.rb_vels.linear), mass),
            ) == r3_scale(vector_value::<S, Dim2>(v, g), mass)
            &&& r3_add(angular_value::<S, Dim2>(v, f.angular), angular_value::<S, Dim2>(d, spin))
                == r3_zero()
        }),
{
    plane_is_spatial(v);
    plane_is_inertial(v);
    lemma_momentum::<S, Dim2>(v, d, ws, lmp, acc, g);
}

/// In exact arithmetic, the force and torque asked of a link of space are what gravity
/// gives less the rates of its momentum and of its angular momentum.
pub proof fn space_forces_balance_momentum<S: Scalar>(
    v: spec_fn(S) -> real,
    d: spec_fn(S) -> real,
    ws: MultibodyLinkWorkspace<S, Dim3>,
    lmp: LocalMassProperties<S, Dim3>,
    acc: Velocity<S, Dim3>,
    g: <Dim3 as Space<S>>::V,
)
    requires
        exact(v),
        has_mass(lmp),
        vector_value::<S, Dim3>(v, acc.linear) == vector_value::<S, Dim3>(d, ws.rb_vels.linear),
        angular_value::<S, Dim3>(v, acc.angular) == angular_value::<S, Dim3>(
            d,
            ws.rb_vels.angular,
        ),
        inertia_turns::<S, Dim3>(v, d, link_world_inertia_spec(ws, lmp), ws.rb_vels.angular),
    ensures
        ({
            let f = link_force(ws, lmp, acc, g);
            let mass = 1real / v(<Dim3 as Space<S>>::vget_spec(lmp.inv_mass, 0));
            let spin = <Dim3 as Space<S>>::imul_spec(
                link_world_inertia_spec(ws, lmp),
                ws.rb_vels.angular,
            );
            &&& r3_add(
                vector_value::<S, Dim3>(v, f.linear),
                r3_scale(vector_value::<S, Dim3>(d, ws.rb_vels.linear), mass),
            ) == r3_scale(vector_value::<S, Dim3>(v, g), mass)
            &&& r3_add(angular_value::<S, Dim3>(v, f.angular), angular_value::<S, Dim3>(d, spin))
                == r3_zero()
        }),
{
    space_is_spatial(v);
    space_is_inertial(v);
    lemma_momentum::<S, Dim3>(v, d, ws, lmp, acc, g);
}

} // verus!
