//! What warm starts, sensors, resets and motors do, when the arithmetic is exact.
use super::contact_constraints::{WarmStart, sensed, warmstarted};
use super::drive_laws::pd_torques_drive_to_the_target;
use super::env_reset::{FREE_ROOT, LINK_OF_FREE_ROOT, masked_pose, teleported};
use super::gravity_and_lu::{delayed_target, force_driven, pd_axes, pd_links, pd_torque};
use super::jacobian_laws::{angular_value, geometric, vector_value};
use super::step_laws::{contact_impulses_push_along, contact_mobility};
use super::sweeps::{ContactSweep, column, contact_velocity, has_free};
use super::types::{
    MB_CONTACT_KIND_NORMAL, MultibodyContactConstraint, MultibodyLinkStatic, MultibodyLinkWorkspace,
};
use crate::exact::{exact, linear_space, ordered};
use crate::joint::{free_axes, has_axis, lemma_free_axes_bound, lemma_free_axes_split};
use crate::real_vectors::r3_add;
use crate::scalar::Scalar;
use crate::space::{Pose, Space};
use vstd::prelude::*;

verus! {

// ---- warm starts ----

proof fn lemma_warm_lens<S: Scalar, D: Space<S>>(
    cons: Seq<MultibodyContactConstraint<S, D>>,
    cols: Seq<Seq<S>>,
    st0: WarmStart<S, D>,
    k: int,
)
    requires
        k <= cons.len(),
        forall|s: int|
            0 <= s < cons.len() && has_free(#[trigger] cons[s]) ==> cons[s].free_body_id
                < st0.frees.len(),
    ensures
        warmstarted(cons, cols, st0, k).dofv.len() == st0.dofv.len(),
        warmstarted(cons, cols, st0, k).frees.len() == st0.frees.len(),
    decreases k,
{
    if k > 0 {
        lemma_warm_lens(cons, cols, st0, k - 1);
        assert(has_free(cons[k - 1]) ==> cons[k - 1].free_body_id < st0.frees.len());
    }
}

/// In exact arithmetic, warm starting a contact constraint pushes along it: the
/// velocity along any row `jac` of the multibody, with that of the free body along the
/// constraint, grows by the kept impulse times the mobility.
pub proof fn warm_starts_push_along<S: Scalar, D: Space<S>>(
    v: spec_fn(S) -> real,
    cons: Seq<MultibodyContactConstraint<S, D>>,
    cols: Seq<Seq<S>>,
    st0: WarmStart<S, D>,
    jac: Seq<S>,
    k: int,
)
    requires
        exact(v),
        linear_space::<S, D>(v),
        0 <= k < cons.len(),
        jac.len() == st0.dofv.len(),
        forall|s: int|
            0 <= s < cons.len() && has_free(#[trigger] cons[s]) ==> cons[s].free_body_id
                < st0.frees.len(),
    ensures
        ({
            let c = cons[k];
            let before = warmstarted(cons, cols, st0, k);
            let after = warmstarted(cons, cols, st0, k + 1);
            v(contact_velocity(c, jac, after.dofv, after.frees)) == v(
                contact_velocity(c, jac, before.dofv, before.frees),
            ) + v(c.impulse) * contact_mobility(v, c, jac, column(cols, k))
        }),
{
    let c = cons[k];
    let p = warmstarted(cons, cols, st0, k);
    lemma_warm_lens(cons, cols, st0, k);
    let sweep = ContactSweep { dofv: p.dofv, imps: seq![c.impulse], frees: p.frees };
    contact_impulses_push_along(v, c, jac, column(cols, k), 0, c.impulse, c.impulse, sweep);
}

// ---- contact sensors ----

proof fn lemma_sensed_before<S: Scalar, D: Space<S>>(
    cons: Seq<MultibodyContactConstraint<S, D>>,
    c: MultibodyContactConstraint<S, D>,
    link: u32,
    s: int,
    n: int,
)
    requires
        0 <= n <= s < cons.len(),
    ensures
        sensed(cons.update(s, c), link, n) == sensed(cons, link, n),
    decreases n,
{
    if n > 0 {
        lemma_sensed_before(cons, c, link, s, n - 1);
    }
}

/// In exact arithmetic, the contact sensor of a link grows with each impulse that
/// pushes the link along a contact normal, one for one, and with no other impulse.
pub proof fn sensors_feel_normal_impulses<S: Scalar, D: Space<S>>(
    v: spec_fn(S) -> real,
    cons: Seq<MultibodyContactConstraint<S, D>>,
    link: u32,
    s: int,
    x: S,
    n: int,
)
    requires
        exact(v),
        0 <= s < n <= cons.len(),
    ensures
        ({
            let other = cons.update(s, MultibodyContactConstraint { impulse: x, ..cons[s] });
            let gain = v(sensed(other, link, n)) - v(sensed(cons, link, n));
            if cons[s].kind == MB_CONTACT_KIND_NORMAL && cons[s].link_id == link {
                gain == v(x) - v(cons[s].impulse)
            } else {
                gain == 0real
            }
        }),
    decreases n,
{
    let c = MultibodyContactConstraint { impulse: x, ..cons[s] };
    if s == n - 1 {
        lemma_sensed_before(cons, c, link, s, n - 1);
    } else {
        sensors_feel_normal_impulses(v, cons, link, s, x, n - 1);
    }
}

/// In exact arithmetic, the contact sensor of a link reads zero without impulses.
pub proof fn sensors_rest_without_impulses<S: Scalar, D: Space<S>>(
    v: spec_fn(S) -> real,
    cons: Seq<MultibodyContactConstraint<S, D>>,
    link: u32,
    n: int,
)
    requires
        exact(v),
        0 <= n <= cons.len(),
        forall|s: int| 0 <= s < n ==> v((#[trigger] cons[s]).impulse) == 0real,
    ensures
        v(sensed(cons, link, n)) == 0real,
    decreases n,
{
    if n > 0 {
        sensors_rest_without_impulses(v, cons, link, n - 1);
        assert(v(cons[n - 1].impulse) == 0real);
    }
}

// ---- resets ----

/// In exact arithmetic, teleporting a link of a free root moves each of its points by
/// the offset, and leaves other links where they are; the coordinates of a free root
/// grow by the components of the offset, and its pose on its parent moves with them.
pub proof fn teleports_move_by_the_offset<S: Scalar, D: Space<S>>(
    v: spec_fn(S) -> real,
    w0: MultibodyLinkWorkspace<S, D>,
    w1: MultibodyLinkWorkspace<S, D>,
    flags: u32,
    off: D::V,
    pt: D::V,
    i: int,
)
    requires
        exact(v),
        geometric::<S, D>(v),
        teleported(w0, flags, off, w1),
        0 <= i < 6,
    ensures
        ({
            let before = vector_value::<S, D>(v, w0.local_to_world.point_spec(pt));
            let after = vector_value::<S, D>(v, w1.local_to_world.point_spec(pt));
            after == if flags & LINK_OF_FREE_ROOT != 0 {
                r3_add(before, vector_value::<S, D>(v, off))
            } else {
                before
            }
        }),
        ({
            let before = vector_value::<S, D>(v, w0.local_to_parent.point_spec(pt));
            let after = vector_value::<S, D>(v, w1.local_to_parent.point_spec(pt));
            after == if flags & FREE_ROOT != 0 {
                r3_add(before, vector_value::<S, D>(v, off))
            } else {
                before
            }
        }),
        v(w1.coords@[i]) == v(w0.coords@[i]) + if flags & FREE_ROOT != 0 && i
            < D::dimension_spec().lin_spec() {
            v(D::vget_spec(off, i))
        } else {
            0real
        },
        angular_value::<S, D>(v, w1.rb_vels.angular) == angular_value::<S, D>(
            v,
            w0.rb_vels.angular,
        ),
{
}

/// In exact arithmetic, a masked body moves by the offset, each point of it, and a body
/// that is not masked stays.
pub proof fn masked_bodies_move_by_the_offset<S: Scalar, D: Space<S>>(
    v: spec_fn(S) -> real,
    p: Pose<S, D>,
    mask: u32,
    off: D::V,
    pt: D::V,
)
    requires
        exact(v),
        geometric::<S, D>(v),
    ensures
        ({
            let before = vector_value::<S, D>(v, p.point_spec(pt));
            let after = vector_value::<S, D>(v, masked_pose(p, mask, off).point_spec(pt));
            after == if mask != 0 {
                r3_add(before, vector_value::<S, D>(v, off))
            } else {
                before
            }
        }),
{
}

// ---- motors ----

/// The degree of freedom of an axis.
pub open spec fn axis_dof<S: Scalar, D: Space<S>>(
    st: MultibodyLinkStatic<S, D>,
    axis: int,
) -> int {
    st.assembly_id + free_axes(st.data.locked_axes, 0, axis)
}

/// The degrees of freedom of the free axes of a link are among the first `n`.
pub open spec fn axes_within<S: Scalar, D: Space<S>>(
    st: MultibodyLinkStatic<S, D>,
    n: int,
) -> bool {
    forall|a: int|
        0 <= a < D::dimension_spec().spatial_spec() && !has_axis(st.data.locked_axes, a) ==> 0
            <= #[trigger] axis_dof(st, a) < n
}

/// Degree of freedom `d` belongs to no free axis of the link.
pub open spec fn elsewhere<S: Scalar, D: Space<S>>(
    st: MultibodyLinkStatic<S, D>,
    d: int,
) -> bool {
    forall|a: int|
        0 <= a < D::dimension_spec().spatial_spec() && !has_axis(st.data.locked_axes, a) ==> d
            != #[trigger] axis_dof(st, a)
}

proof fn lemma_axes_elsewhere<S: Scalar, D: Space<S>>(
    tau: Seq<S>,
    st: MultibodyLinkStatic<S, D>,
    coords: Seq<S>,
    vel: Seq<S>,
    prev: Option<S>,
    n: int,
    d: int,
)
    requires
        n <= D::dimension_spec().spatial_spec(),
        axes_within(st, tau.len() as int),
        0 <= d < tau.len(),
        forall|a: int|
            0 <= a < n && !has_axis(st.data.locked_axes, a) ==> d != #[trigger] axis_dof(st, a),
    ensures
        pd_axes(tau, st, coords, vel, prev, n).len() == tau.len(),
        pd_axes(tau, st, coords, vel, prev, n)[d] == tau[d],
    decreases n,
{
    if n > 0 {
        lemma_axes_elsewhere(tau, st, coords, vel, prev, n - 1, d);
        assert(force_driven(st, n - 1) ==> d != axis_dof(st, n - 1));
        assert(force_driven(st, n - 1) ==> 0 <= axis_dof(st, n - 1) < tau.len());
    }
}

proof fn lemma_axes_len<S: Scalar, D: Space<S>>(
    tau: Seq<S>,
    st: MultibodyLinkStatic<S, D>,
    coords: Seq<S>,
    vel: Seq<S>,
    prev: Option<S>,
    n: int,
)
    requires
        n <= D::dimension_spec().spatial_spec(),
        axes_within(st, tau.len() as int),
    ensures
        pd_axes(tau, st, coords, vel, prev, n).len() == tau.len(),
    decreases n,
{
    if n > 0 {
        lemma_axes_len(tau, st, coords, vel, prev, n - 1);
        assert(force_driven(st, n - 1) ==> 0 <= axis_dof(st, n - 1) < tau.len());
    }
}

/// The target of a motor: that of the axis, or the one kept while the delay lasts.
pub open spec fn driven_to<S: Scalar>(own: S, prev: Option<S>) -> S {
    match prev {
        Some(p) => p,
        None => own,
    }
}

proof fn lemma_axis_torque<S: Scalar, D: Space<S>>(
    v: spec_fn(S) -> real,
    tau: Seq<S>,
    st: MultibodyLinkStatic<S, D>,
    coords: Seq<S>,
    vel: Seq<S>,
    prev: Option<S>,
    n: int,
    a: int,
)
    requires
        exact(v),
        0 <= a < n <= D::dimension_spec().spatial_spec(),
        !has_axis(st.data.locked_axes, a),
        axes_within(st, tau.len() as int),
    ensures
        ({
            let d = axis_dof(st, a);
            let motor = st.data.motors[a];
            v(pd_axes(tau, st, coords, vel, prev, n)[d]) == v(tau[d]) + if force_driven(st, a) {
                v(
                    pd_torque(
                        motor.stiffness,
                        motor.damping,
                        motor.max_force,
                        driven_to(motor.target_pos, prev),
                        coords[a],
                        vel[d],
                    ),
                )
            } else {
                0real
            }
        }),
    decreases n,
{
    let locked = st.data.locked_axes;
    let d = axis_dof(st, a);
    assert(0 <= d < tau.len());
    assert(force_driven(st, n - 1) ==> 0 <= axis_dof(st, n - 1) < tau.len());
    lemma_axes_len(tau, st, coords, vel, prev, n - 1);
    if a == n - 1 {
        assert forall|b: int| 0 <= b < n - 1 && !has_axis(locked, b) implies d
            != #[trigger] axis_dof(st, b) by {
            lemma_free_axes_split(locked, 0, b + 1, a);
            lemma_free_axes_bound(locked, b + 1, a);
        }
        lemma_axes_elsewhere(tau, st, coords, vel, prev, n - 1, d);
    } else {
        lemma_axis_torque(v, tau, st, coords, vel, prev, n - 1, a);
        lemma_free_axes_split(locked, 0, a + 1, n - 1);
        lemma_free_axes_bound(locked, a + 1, n - 1);
    }
}

proof fn lemma_links_len<S: Scalar, D: Space<S>>(
    tau: Seq<S>,
    st: Seq<MultibodyLinkStatic<S, D>>,
    ws: Seq<MultibodyLinkWorkspace<S, D>>,
    vel: Seq<S>,
    delay: Seq<S>,
    first_link: int,
    k: int,
)
    requires
        k <= st.len(),
        forall|o: int| 0 <= o < st.len() ==> axes_within(#[trigger] st[o], tau.len() as int),
    ensures
        pd_links(tau, st, ws, vel, delay, first_link, k).len() == tau.len(),
    decreases k,
{
    if k > 0 {
        lemma_links_len(tau, st, ws, vel, delay, first_link, k - 1);
        let t = pd_links(tau, st, ws, vel, delay, first_link, k - 1);
        assert(axes_within(st[k - 1], tau.len() as int));
        lemma_axes_len(
            t,
            st[k - 1],
            ws[k - 1].coords@,
            vel,
            delayed_target(delay, first_link + k - 1),
            D::dimension_spec().spatial_spec(),
        );
    }
}

proof fn lemma_links_elsewhere<S: Scalar, D: Space<S>>(
    tau: Seq<S>,
    st: Seq<MultibodyLinkStatic<S, D>>,
    ws: Seq<MultibodyLinkWorkspace<S, D>>,
    vel: Seq<S>,
    delay: Seq<S>,
    first_link: int,
    k: int,
    d: int,
)
    requires
        k <= st.len(),
        forall|o: int| 0 <= o < st.len() ==> axes_within(#[trigger] st[o], tau.len() as int),
        0 <= d < tau.len(),
        forall|l: int| 0 <= l < k ==> elsewhere(#[trigger] st[l], d),
    ensures
        pd_links(tau, st, ws, vel, delay, first_link, k)[d] == tau[d],
    decreases k,
{
    if k > 0 {
        lemma_links_elsewhere(tau, st, ws, vel, delay, first_link, k - 1, d);
        lemma_links_len(tau, st, ws, vel, delay, first_link, k - 1);
        let t = pd_links(tau, st, ws, vel, delay, first_link, k - 1);
        assert(elsewhere(st[k - 1], d));
        lemma_axes_elsewhere(
            t,
            st[k - 1],
            ws[k - 1].coords@,
            vel,
            delayed_target(delay, first_link + k - 1),
            D::dimension_spec().spatial_spec(),
            d,
        );
    }
}

proof fn lemma_link_torque<S: Scalar, D: Space<S>>(
    v: spec_fn(S) -> real,
    tau: Seq<S>,
    st: Seq<MultibodyLinkStatic<S, D>>,
    ws: Seq<MultibodyLinkWorkspace<S, D>>,
    vel: Seq<S>,
    delay: Seq<S>,
    first_link: int,
    k: int,
    l: int,
    a: int,
)
    requires
        exact(v),
        0 <= l < k <= st.len(),
        0 <= a < D::dimension_spec().spatial_spec(),
        !has_axis(st[l].data.locked_axes, a),
        forall|o: int| 0 <= o < st.len() ==> axes_within(#[trigger] st[o], tau.len() as int),
        forall|o: int|
            0 <= o < k && o != l ==> elsewhere(#[trigger] st[o], axis_dof(st[l], a)),
    ensures
        ({
            let d = axis_dof(st[l], a);
            let motor = st[l].data.motors[a];
            v(pd_links(tau, st, ws, vel, delay, first_link, k)[d]) == v(tau[d])
                + if st[l].kinematic == 0 && force_driven(st[l], a) {
                v(
                    pd_torque(
                        motor.stiffness,
                        motor.damping,
                        motor.max_force,
                        driven_to(motor.target_pos, delayed_target(delay, first_link + l)),
                        ws[l].coords@[a],
                        vel[d],
                    ),
                )
            } else {
                0real
            }
        }),
    decreases k,
{
    let d = axis_dof(st[l], a);
    let t = pd_links(tau, st, ws, vel, delay, first_link, k - 1);
    let prev = delayed_target(delay, first_link + k - 1);
    let n = D::dimension_spec().spatial_spec();
    lemma_links_len(tau, st, ws, vel, delay, first_link, k - 1);
    assert(axes_within(st[l], tau.len() as int));
    assert(axes_within(st[k - 1], tau.len() as int));
    assert(0 <= d < tau.len());
    if l == k - 1 {
        lemma_links_elsewhere(tau, st, ws, vel, delay, first_link, k - 1, d);
        lemma_axis_torque(v, t, st[l], ws[l].coords@, vel, prev, n, a);
    } else {
        lemma_link_torque(v, tau, st, ws, vel, delay, first_link, k - 1, l, a);
        assert(elsewhere(st[k - 1], d));
        lemma_axes_elsewhere(t, st[k - 1], ws[k - 1].coords@, vel, prev, n, d);
    }
}

/// In exact arithmetic, a motor that drives an axis by a force adds to the force on
/// its degree of freedom what draws the coordinate to the target: where the maximum
/// force does not bind, the force of a spring and a damper. While a delay lasts the
/// target is the one kept from before. A link that is moved by hand, and an axis
/// without such a motor, gets nothing.
pub proof fn motors_push_to_their_target<S: Scalar, D: Space<S>>(
    v: spec_fn(S) -> real,
    tau: Seq<S>,
    st: Seq<MultibodyLinkStatic<S, D>>,
    ws: Seq<MultibodyLinkWorkspace<S, D>>,
    vel: Seq<S>,
    delay: Seq<S>,
    first_link: int,
    l: int,
    a: int,
)
    requires
        exact(v),
        ordered(v),
        0 <= l < st.len(),
        0 <= a < D::dimension_spec().spatial_spec(),
        !has_axis(st[l].data.locked_axes, a),
        forall|o: int| 0 <= o < st.len() ==> axes_within(#[trigger] st[o], tau.len() as int),
        forall|o: int|
            0 <= o < st.len() && o != l ==> elsewhere(#[trigger] st[o], axis_dof(st[l], a)),
        0real < v(st[l].data.motors[a].max_force),
        0real <= v(st[l].data.motors[a].stiffness),
        0real <= v(st[l].data.motors[a].damping),
    ensures
        ({
            let d = axis_dof(st[l], a);
            let motor = st[l].data.motors[a];
            let max = v(motor.max_force);
            let f = v(pd_links(tau, st, ws, vel, delay, first_link, st.len() as int)[d]) - v(
                tau[d],
            );
            let target = if v(delay[0]) < v(delay[1]) {
                v(delay[2 + (first_link + l)])
            } else {
                v(motor.target_pos)
            };
            let away = v(ws[l].coords@[a]) - target;
            let pull = v(motor.stiffness) * away + v(motor.damping) * v(vel[d]);
            if st[l].kinematic == 0 && force_driven(st[l], a) {
                &&& -max <= f <= max
                &&& -max <= pull <= max ==> f + pull == 0real
                &&& v(vel[d]) == 0real && 0real < v(motor.stiffness) && away != 0real ==> f * away
                    < 0real
            } else {
                f == 0real
            }
        }),
{
    lemma_link_torque(v, tau, st, ws, vel, delay, first_link, st.len() as int, l, a);
    let d = axis_dof(st[l], a);
    let motor = st[l].data.motors[a];
    pd_torques_drive_to_the_target(
        v,
        motor.stiffness,
        motor.damping,
        motor.max_force,
        driven_to(motor.target_pos, delayed_target(delay, first_link + l)),
        ws[l].coords@[a],
        vel[d],
    );
}

} // verus!
