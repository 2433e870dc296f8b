//! Poses, jacobians and velocities of the links, parents before children.
use super::gravity::parents_first;
use super::types::{MultibodyInfo, MultibodyLinkStatic, MultibodyLinkWorkspace};
use crate::joint::{
    GenericJoint, count_free_ang_dofs, count_free_lin_dofs, free_axes, has_axis,
    lemma_free_axes_bound, lemma_free_axes_split, test_axis,
};
use crate::scalar::Scalar;
use crate::space::{Pose, Space, Velocity};
use crate::views::{VecView, same_outside_vec, vec_get, vec_of, vec_set};
use vstd::prelude::*;

verus! {

// ---- joint transforms ----

/// The joint transform after the translations along the free axes `0..i`.
pub open spec fn joint_transform<S: Scalar, D: Space<S>>(
    joint: GenericJoint<S, D>,
    rot: D::R,
    coords: Seq<S>,
    i: int,
) -> Pose<S, D>
    decreases i,
{
    if i <= 0 {
        Pose { rotation: rot, translation: D::vzero_spec() }.after_spec(
            joint.local_frame_b.inverse_spec(),
        )
    } else {
        let t = joint_transform(joint, rot, coords, i - 1);
        if has_axis(joint.locked_axes, i - 1) {
            t
        } else {
            Pose {
                rotation: D::rid_spec(),
                translation: D::vaxis_spec(i - 1, coords[i - 1]),
            }.after_spec(t)
        }
    }
}

/// The pose of a link in its parent's frame.
pub open spec fn body_to_parent_spec<S: Scalar, D: Space<S>>(
    joint: GenericJoint<S, D>,
    rot: D::R,
    coords: Seq<S>,
) -> Pose<S, D> {
    joint.local_frame_a.after_spec(
        joint_transform(joint, rot, coords, D::dimension_spec().lin_spec()),
    )
}

/// The pose of a link in its parent's frame, from its joint coordinates.
pub fn body_to_parent<S: Scalar, D: Space<S>>(
    stat: &MultibodyLinkStatic<S, D>,
    link: &MultibodyLinkWorkspace<S, D>,
) -> (r: Pose<S, D>)
    ensures
        r == body_to_parent_spec(stat.data, link.joint_rot, link.coords@),
{
    let dim: u32 = D::dimension().lin();
    let start: Pose<S, D> = Pose { rotation: link.joint_rot, translation: D::vzero() };
    let mut t = start.after(stat.data.local_frame_b.inverse());
    let mut i: u32 = 0;
    while i < dim
        invariant
            i <= dim <= 3,
            dim == D::dimension_spec().lin_spec(),
            t == joint_transform(stat.data, link.joint_rot, link.coords@, i as int),
        decreases dim - i,
    {
        if !test_axis(stat.data.locked_axes, i) {
            let step: Pose<S, D> = Pose {
                rotation: D::rid(),
                translation: D::vaxis(i as usize, link.coords[i as usize]),
            };
            t = step.after(t);
        }
        i = i + 1;
    }
    stat.data.local_frame_a.after(t)
}

// ---- forward kinematics ----

/// The world pose of link `k`, given the root's.
pub open spec fn link_pose<S: Scalar, D: Space<S>>(
    st: Seq<MultibodyLinkStatic<S, D>>,
    ws: Seq<MultibodyLinkWorkspace<S, D>>,
    root: Pose<S, D>,
    k: int,
) -> Pose<S, D>
    decreases k,
{
    let p = st[k].parent_link_id as int;
    if 0 <= p < k {
        link_pose(st, ws, root, p).after_spec(
            body_to_parent_spec(st[k].data, ws[k].joint_rot, ws[k].coords@),
        )
    } else {
        root
    }
}

/// The workspace of link `k` after forward kinematics.
pub open spec fn placed_link<S: Scalar, D: Space<S>>(
    st: Seq<MultibodyLinkStatic<S, D>>,
    ws: Seq<MultibodyLinkWorkspace<S, D>>,
    root: Pose<S, D>,
    k: int,
) -> MultibodyLinkWorkspace<S, D> {
    if k == 0 {
        MultibodyLinkWorkspace { local_to_parent: root, local_to_world: root, ..ws[0] }
    } else {
        let p = st[k].parent_link_id as int;
        let parent = link_pose(st, ws, root, p);
        let world = link_pose(st, ws, root, k);
        let anchor = world.point_spec(st[k].data.local_frame_b.translation);
        MultibodyLinkWorkspace {
            local_to_parent: body_to_parent_spec(st[k].data, ws[k].joint_rot, ws[k].coords@),
            local_to_world: world,
            shift02: D::vsub_spec(anchor, parent.point_spec(st[p].local_mprops.com)),
            shift23: D::vsub_spec(world.point_spec(st[k].local_mprops.com), anchor),
            ..ws[k]
        }
    }
}

/// The workspaces once the first `k` links are placed.
pub open spec fn placed<S: Scalar, D: Space<S>>(
    st: Seq<MultibodyLinkStatic<S, D>>,
    ws: Seq<MultibodyLinkWorkspace<S, D>>,
    root: Pose<S, D>,
    k: int,
) -> Seq<MultibodyLinkWorkspace<S, D>> {
    Seq::new(
        ws.len(),
        |i: int|
            if i < k {
                placed_link(st, ws, root, i)
            } else {
                ws[i]
            },
    )
}

/// The root pose: a fixed root is where its body is, a free root follows its
/// joint.
pub open spec fn root_pose_spec<S: Scalar, D: Space<S>>(
    root_is_dynamic: bool,
    st: Seq<MultibodyLinkStatic<S, D>>,
    ws: Seq<MultibodyLinkWorkspace<S, D>>,
    poses: Seq<Pose<S, D>>,
) -> Pose<S, D> {
    if root_is_dynamic {
        body_to_parent_spec(st[0].data, ws[0].joint_rot, ws[0].coords@)
    } else {
        poses[st[0].rb_id as int]
    }
}

/// The body poses once the first `k` links are published. A fixed root is
/// not.
pub open spec fn published<S: Scalar, D: Space<S>>(
    root_is_dynamic: bool,
    st: Seq<MultibodyLinkStatic<S, D>>,
    ws: Seq<MultibodyLinkWorkspace<S, D>>,
    root: Pose<S, D>,
    poses: Seq<Pose<S, D>>,
    k: int,
) -> Seq<Pose<S, D>>
    decreases k,
{
    if k <= 0 {
        poses
    } else if k == 1 {
        if root_is_dynamic {
            poses.update(st[0].rb_id as int, root)
        } else {
            poses
        }
    } else {
        published(root_is_dynamic, st, ws, root, poses, k - 1).update(
            st[k - 1].rb_id as int,
            link_pose(st, ws, root, k - 1),
        )
    }
}

/// Every link's body is among the batch's bodies.
pub open spec fn bodies_in_range<S: Scalar, D: Space<S>>(
    st: Seq<MultibodyLinkStatic<S, D>>,
    n: int,
) -> bool {
    forall|k: int| 0 <= k < st.len() ==> (#[trigger] st[k]).rb_id < n
}

/// Places every link from its joint coordinates, root first, and publishes
/// the body poses.
pub fn forward_kinematics<S: Scalar, D: Space<S>>(
    mb: &MultibodyInfo,
    stat: &[MultibodyLinkStatic<S, D>],
    ws: &mut [MultibodyLinkWorkspace<S, D>],
    lv: VecView,
    poses: &mut [Pose<S, D>],
    pv: VecView,
)
    requires
        lv.fits(stat@.len() as int),
        lv.fits(old(ws)@.len() as int),
        pv.fits(old(poses)@.len() as int),
        lv.len > 0,
        parents_first(vec_of(stat@, lv)),
        bodies_in_range(vec_of(stat@, lv), pv.len as int),
    ensures
        ({
            let st = vec_of(stat@, lv);
            let ws0 = vec_of(old(ws)@, lv);
            let dynamic = mb.root_is_dynamic != 0;
            let root = root_pose_spec(dynamic, st, ws0, vec_of(old(poses)@, pv));
            &&& vec_of(final(ws)@, lv) == placed(st, ws0, root, lv.len as int)
            &&& vec_of(final(poses)@, pv) == published(
                dynamic,
                st,
                ws0,
                root,
                vec_of(old(poses)@, pv),
                lv.len as int,
            )
        }),
        same_outside_vec(old(ws)@, final(ws)@, lv),
        same_outside_vec(old(poses)@, final(poses)@, pv),
{
    let ghost st = vec_of(stat@, lv);
    let ghost ws0 = vec_of(ws@, lv);
    let ghost poses0 = vec_of(poses@, pv);
    let ghost dynamic = mb.root_is_dynamic != 0;
    let ghost rootg = root_pose_spec(dynamic, st, ws0, poses0);
    let root_stat = vec_get(stat, lv, 0);
    let mut w = vec_get(ws, lv, 0);
    assert(st[0] == root_stat);
    let root = if mb.root_is_dynamic == 0 {
        vec_get(poses, pv, root_stat.rb_id as usize)
    } else {
        let pose = body_to_parent(&root_stat, &w);
        vec_set(poses, pv, root_stat.rb_id as usize, pose);
        pose
    };
    w.local_to_parent = root;
    w.local_to_world = root;
    vec_set(ws, lv, 0, w);
    assert(vec_of(ws@, lv) =~= placed(st, ws0, rootg, 1));
    let mut k: usize = 1;
    while k < lv.len
        invariant
            lv.fits(stat@.len() as int),
            lv.fits(old(ws)@.len() as int),
            pv.fits(old(poses)@.len() as int),
            1 <= k <= lv.len,
            parents_first(st),
            bodies_in_range(st, pv.len as int),
            st == vec_of(stat@, lv),
            ws0 == vec_of(old(ws)@, lv),
            vec_of(ws@, lv) == placed(st, ws0, rootg, k as int),
            vec_of(poses@, pv) == published(dynamic, st, ws0, rootg, poses0, k as int),
            same_outside_vec(old(ws)@, ws@, lv),
            same_outside_vec(old(poses)@, poses@, pv),
        decreases lv.len - k,
    {
        let s = vec_get(stat, lv, k);
        assert(st[k as int] == s);
        let p: usize = s.parent_link_id as usize;
        let parent_stat = vec_get(stat, lv, p);
        let parent_to_world = vec_get(ws, lv, p).local_to_world;
        let mut w = vec_get(ws, lv, k);
        let local_to_parent = body_to_parent(&s, &w);
        let local_to_world = parent_to_world.after(local_to_parent);
        let world_com = local_to_world.point(s.local_mprops.com);
        let parent_com = parent_to_world.point(parent_stat.local_mprops.com);
        let anchor = local_to_world.point(s.data.local_frame_b.translation);
        w.local_to_parent = local_to_parent;
        w.local_to_world = local_to_world;
        w.shift02 = D::vsub(anchor, parent_com);
        w.shift23 = D::vsub(world_com, anchor);
        vec_set(ws, lv, k, w);
        vec_set(poses, pv, s.rb_id as usize, local_to_world);
        assert(vec_of(ws@, lv) =~= placed(st, ws0, rootg, k + 1));
        k = k + 1;
    }
}

// ---- joint jacobians ----

/// The free axis of `lo..hi` that has `c` free axes before it, or -1.
pub open spec fn nth_free(locked: u32, lo: int, hi: int, c: int) -> int
    decreases hi - lo,
{
    if hi <= lo {
        -1
    } else if !has_axis(locked, hi - 1) && free_axes(locked, lo, hi - 1) == c {
        hi - 1
    } else {
        nth_free(locked, lo, hi - 1, c)
    }
}

pub proof fn lemma_nth_free(locked: u32, lo: int, hi: int, c: int)
    requires
        lo <= hi,
        0 <= c < free_axes(locked, lo, hi),
    ensures
        lo <= nth_free(locked, lo, hi, c) < hi,
    decreases hi - lo,
{
    if lo < hi {
        if !(!has_axis(locked, hi - 1) && free_axes(locked, lo, hi - 1) == c) {
            lemma_nth_free(locked, lo, hi - 1, c);
        }
    }
}

pub(crate) fn find_free(locked: u32, lo: u32, hi: u32, c: u32) -> (r: u32)
    requires
        lo <= hi <= 6,
        c < free_axes(locked, lo as int, hi as int),
    ensures
        r == nth_free(locked, lo as int, hi as int, c as int),
        lo <= r < hi,
{
    proof {
        lemma_nth_free(locked, lo as int, hi as int, c as int);
    }
    let mut found: u32 = hi;
    let mut n: u32 = 0;
    let mut i: u32 = lo;
    while i < hi
        invariant
            lo <= i <= hi <= 6,
            n == free_axes(locked, lo as int, i as int),
            n <= i - lo,
            found == (if nth_free(locked, lo as int, i as int, c as int) >= 0 {
                nth_free(locked, lo as int, i as int, c as int)
            } else {
                hi as int
            }),
        decreases hi - i,
    {
        if !test_axis(locked, i) {
            if n == c {
                found = i;
            }
            n = n + 1;
        }
        i = i + 1;
    }
    found
}

/// Degree of freedom `c` of a joint: what a unit velocity of it adds to the
/// linear and to the angular velocity, in world space. A joint with exactly
/// two free angular axes has no angular columns.
pub open spec fn joint_dof<S: Scalar, D: Space<S>>(locked: u32, rot: D::R, c: int) -> (
    Option<D::V>,
    Option<D::A>,
) {
    let dim = D::dimension_spec().lin_spec();
    let sd = D::dimension_spec().spatial_spec();
    let lin = free_axes(locked, 0, dim);
    let ang = free_axes(locked, dim, sd);
    if 0 <= c < lin {
        (Some(D::rapply_spec(rot, D::vaxis_spec(nth_free(locked, 0, dim, c), S::one_spec()))), None)
    } else if ang == 1 && c == lin {
        (
            None,
            Some(
                D::rapply_ang_spec(
                    rot,
                    D::aaxis_spec(nth_free(locked, dim, sd, 0) - dim, S::one_spec()),
                ),
            ),
        )
    } else if ang == 3 && lin <= c < lin + 3 {
        (None, Some(D::rcol_spec(rot, c - lin)))
    } else {
        (None, None)
    }
}

pub fn joint_dof_column<S: Scalar, D: Space<S>>(locked: u32, rot: D::R, c: u32) -> (r: (
    Option<D::V>,
    Option<D::A>,
))
    ensures
        r == joint_dof::<S, D>(locked, rot, c as int),
{
    let d = D::dimension();
    let dim: u32 = d.lin();
    let sd: u32 = d.spatial();
    let lin: u32 = count_free_lin_dofs(d, locked);
    let ang: u32 = count_free_ang_dofs(d, locked);
    proof {
        lemma_free_axes_bound(locked, 0, dim as int);
        lemma_free_axes_bound(locked, dim as int, sd as int);
    }
    if c < lin {
        let i: u32 = find_free(locked, 0, dim, c);
        (Some(D::rapply(rot, D::vaxis(i as usize, S::one()))), None)
    } else if ang == 1 && c == lin {
        let i: u32 = find_free(locked, dim, sd, 0);
        (None, Some(D::rapply_ang(rot, D::aaxis((i - dim) as usize, S::one()))))
    } else if ang == 3 && c - lin < 3 {
        (None, Some(D::rcol(rot, (c - lin) as usize)))
    } else {
        (None, None)
    }
}

/// Degree of freedom `c` as a spatial velocity, zero where it adds nothing.
pub open spec fn joint_column_spec<S: Scalar, D: Space<S>>(
    locked: u32,
    rot: D::R,
    c: int,
) -> Velocity<S, D> {
    let d = joint_dof::<S, D>(locked, rot, c);
    Velocity {
        linear: match d.0 {
            Some(v) => v,
            None => D::vzero_spec(),
        },
        angular: match d.1 {
            Some(a) => a,
            None => D::azero_spec(),
        },
    }
}

/// Column `c` of a joint's jacobian.
pub fn joint_jacobian_column<S: Scalar, D: Space<S>>(
    stat: &MultibodyLinkStatic<S, D>,
    transform_rot: D::R,
    c: u32,
) -> (r: Velocity<S, D>)
    ensures
        r == joint_column_spec::<S, D>(stat.data.locked_axes, transform_rot, c as int),
{
    let d = joint_dof_column::<S, D>(stat.data.locked_axes, transform_rot, c);
    Velocity {
        linear: match d.0 {
            Some(v) => v,
            None => D::vzero(),
        },
        angular: match d.1 {
            Some(a) => a,
            None => D::azero(),
        },
    }
}

/// A column plus degree of freedom `c` of a joint; `c` may lie outside it.
pub open spec fn with_joint_dof<S: Scalar, D: Space<S>>(
    col: Velocity<S, D>,
    locked: u32,
    rot: D::R,
    c: int,
) -> Velocity<S, D> {
    let d = joint_dof::<S, D>(locked, rot, c);
    Velocity {
        linear: match d.0 {
            Some(v) => D::vadd_spec(col.linear, v),
            None => col.linear,
        },
        angular: match d.1 {
            Some(a) => D::aadd_spec(col.angular, a),
            None => col.angular,
        },
    }
}

/// A velocity moved by `shift`: the rotation carries the new point along.
pub open spec fn shifted<S: Scalar, D: Space<S>>(
    v: Velocity<S, D>,
    shift: D::V,
) -> Velocity<S, D> {
    Velocity {
        linear: D::vadd_spec(v.linear, D::gcross_av_spec(v.angular, shift)),
        angular: v.angular,
    }
}

/// The rotation of the joint frame of link `k` in world space.
pub open spec fn joint_frame_rot<S: Scalar, D: Space<S>>(
    st: Seq<MultibodyLinkStatic<S, D>>,
    ws: Seq<MultibodyLinkWorkspace<S, D>>,
    k: int,
) -> D::R {
    let p = st[k].parent_link_id as int;
    D::rmul_spec(
        if 0 <= p < k {
            ws[p].local_to_world.rotation
        } else {
            D::rid_spec()
        },
        st[k].data.local_frame_a.rotation,
    )
}

/// Column `c` of the jacobian of link `k`: the velocity of the link's centre
/// of mass per unit of generalized velocity `c`.
pub open spec fn jac_col<S: Scalar, D: Space<S>>(
    st: Seq<MultibodyLinkStatic<S, D>>,
    ws: Seq<MultibodyLinkWorkspace<S, D>>,
    k: int,
    c: int,
) -> Velocity<S, D>
    decreases k,
{
    let p = st[k].parent_link_id as int;
    let inherited = if 0 <= p < k {
        shifted(jac_col(st, ws, p, c), ws[k].shift02)
    } else {
        Velocity::zero_spec()
    };
    shifted(
        with_joint_dof(
            inherited,
            st[k].data.locked_axes,
            joint_frame_rot(st, ws, k),
            c - st[k].assembly_id,
        ),
        ws[k].shift23,
    )
}

/// Column `c` of the jacobian of a link, from its parent's column.
pub fn jacobian_column<S: Scalar, D: Space<S>>(
    stat: &MultibodyLinkStatic<S, D>,
    ws: &MultibodyLinkWorkspace<S, D>,
    frame_rot: D::R,
    parent: Option<Velocity<S, D>>,
    c: u32,
) -> (r: Velocity<S, D>)
    ensures
        r == shifted(
            with_joint_dof(
                match parent {
                    Some(p) => shifted(p, ws.shift02),
                    None => Velocity::zero_spec(),
                },
                stat.data.locked_axes,
                frame_rot,
                c - stat.assembly_id,
            ),
            ws.shift23,
        ),
{
    let base: Velocity<S, D> = match parent {
        Some(p) => Velocity {
            linear: D::vadd(p.linear, D::gcross_av(p.angular, ws.shift02)),
            angular: p.angular,
        },
        None => Velocity::zero(),
    };
    let d = if c >= stat.assembly_id {
        joint_dof_column::<S, D>(stat.data.locked_axes, frame_rot, c - stat.assembly_id)
    } else {
        proof {
            let dim = D::dimension_spec().lin_spec();
            lemma_free_axes_bound(stat.data.locked_axes, 0, dim);
        }
        (None, None)
    };
    let linear = match d.0 {
        Some(v) => D::vadd(base.linear, v),
        None => base.linear,
    };
    let angular = match d.1 {
        Some(a) => D::aadd(base.angular, a),
        None => base.angular,
    };
    Velocity { linear: D::vadd(linear, D::gcross_av(angular, ws.shift23)), angular: angular }
}

// ---- velocities ----

/// The linear joint velocity of the free axes `0..i`, in the joint frame.
pub open spec fn joint_lin_vel<S: Scalar, D: Space<S>>(
    locked: u32,
    vel: Seq<S>,
    aid: int,
    i: int,
) -> D::V
    decreases i,
{
    if i <= 0 {
        D::vzero_spec()
    } else {
        let v = joint_lin_vel::<S, D>(locked, vel, aid, i - 1);
        if has_axis(locked, i - 1) {
            v
        } else {
            D::vadd_spec(v, D::vaxis_spec(i - 1, vel[aid + free_axes(locked, 0, i - 1)]))
        }
    }
}

/// The angular joint velocity, in the joint frame. A joint with exactly two
/// free angular axes contributes none.
pub open spec fn joint_ang_vel<S: Scalar, D: Space<S>>(
    locked: u32,
    vel: Seq<S>,
    aid: int,
) -> D::A {
    let dim = D::dimension_spec().lin_spec();
    let sd = D::dimension_spec().spatial_spec();
    let at = aid + free_axes(locked, 0, dim);
    let ang = free_axes(locked, dim, sd);
    if ang == 1 {
        D::aadd_spec(
            D::azero_spec(),
            D::aaxis_spec(nth_free(locked, dim, sd, 0) - dim, vel[at]),
        )
    } else if ang == 3 {
        D::aadd_spec(D::azero_spec(), D::afrom_spec(vel[at], vel[at + 1], vel[at + 2]))
    } else {
        D::azero_spec()
    }
}

/// The velocity that a joint contributes, in the joint frame.
pub fn jacobian_mul_coordinates<S: Scalar, D: Space<S>>(
    locked: u32,
    assembly_id: u32,
    dof: &[S],
    vv: VecView,
) -> (r: Velocity<S, D>)
    requires
        vv.fits(dof@.len() as int),
        assembly_id + free_axes(locked, 0, D::dimension_spec().spatial_spec()) <= vv.len,
    ensures
        r.linear == joint_lin_vel::<S, D>(
            locked,
            vec_of(dof@, vv),
            assembly_id as int,
            D::dimension_spec().lin_spec(),
        ),
        r.angular == joint_ang_vel::<S, D>(locked, vec_of(dof@, vv), assembly_id as int),
{
    let d = D::dimension();
    let dim: u32 = d.lin();
    let sd: u32 = d.spatial();
    let ghost vel = vec_of(dof@, vv);
    let aid: usize = assembly_id as usize;
    let mut linear = D::vzero();
    let mut curr: usize = 0;
    let mut i: u32 = 0;
    proof {
        lemma_free_axes_split(locked, 0, dim as int, sd as int);
        lemma_free_axes_bound(locked, dim as int, sd as int);
    }
    while i < dim
        invariant
            vv.fits(dof@.len() as int),
            vel == vec_of(dof@, vv),
            aid == assembly_id,
            i <= dim <= 3,
            dim == D::dimension_spec().lin_spec(),
            assembly_id + free_axes(locked, 0, dim as int) <= vv.len,
            curr == free_axes(locked, 0, i as int),
            curr <= i,
            linear == joint_lin_vel::<S, D>(locked, vel, assembly_id as int, i as int),
        decreases dim - i,
    {
        proof {
            lemma_free_axes_split(locked, 0, i + 1, dim as int);
            lemma_free_axes_bound(locked, i + 1, dim as int);
        }
        if !test_axis(locked, i) {
            let v = vec_get(dof, vv, aid + curr);
            linear = D::vadd(linear, D::vaxis(i as usize, v));
            curr = curr + 1;
        }
        i = i + 1;
    }
    let ang: u32 = count_free_ang_dofs(d, locked);
    let at: usize = aid + curr;
    let angular = if ang == 1 {
        let a: u32 = find_free(locked, dim, sd, 0);
        D::aadd(D::azero(), D::aaxis((a - dim) as usize, vec_get(dof, vv, at)))
    } else if ang == 3 {
        let x = vec_get(dof, vv, at);
        let y = vec_get(dof, vv, at + 1);
        let z = vec_get(dof, vv, at + 2);
        D::aadd(D::azero(), D::afrom(x, y, z))
    } else {
        D::azero()
    };
    Velocity { linear: linear, angular: angular }
}

/// The velocity that the joint of link `k` contributes, in its joint frame.
pub open spec fn local_joint_velocity<S: Scalar, D: Space<S>>(
    st: MultibodyLinkStatic<S, D>,
    vel: Seq<S>,
) -> Velocity<S, D> {
    Velocity {
        linear: joint_lin_vel::<S, D>(
            st.data.locked_axes,
            vel,
            st.assembly_id as int,
            D::dimension_spec().lin_spec(),
        ),
        angular: joint_ang_vel::<S, D>(st.data.locked_axes, vel, st.assembly_id as int),
    }
}

/// The velocity that the joint of link `k` contributes, in world space. The
/// root's is taken as it stands.
pub open spec fn joint_velocity<S: Scalar, D: Space<S>>(
    st: Seq<MultibodyLinkStatic<S, D>>,
    ws: Seq<MultibodyLinkWorkspace<S, D>>,
    vel: Seq<S>,
    k: int,
) -> Velocity<S, D> {
    let p = st[k].parent_link_id as int;
    let local = local_joint_velocity(st[k], vel);
    if 0 <= p < k {
        let rot = D::rmul_spec(ws[p].local_to_world.rotation, st[k].data.local_frame_a.rotation);
        Velocity {
            linear: D::rapply_spec(rot, local.linear),
            angular: D::rapply_ang_spec(rot, local.angular),
        }
    } else {
        local
    }
}

/// The total velocity of link `k`.
pub open spec fn link_velocity<S: Scalar, D: Space<S>>(
    st: Seq<MultibodyLinkStatic<S, D>>,
    ws: Seq<MultibodyLinkWorkspace<S, D>>,
    vel: Seq<S>,
    k: int,
) -> Velocity<S, D>
    decreases k,
{
    let p = st[k].parent_link_id as int;
    let jv = joint_velocity(st, ws, vel, k);
    if 0 <= p < k {
        let parent = link_velocity(st, ws, vel, p);
        let shift = D::vsub_spec(
            ws[k].local_to_world.point_spec(st[k].local_mprops.com),
            ws[p].local_to_world.point_spec(st[p].local_mprops.com),
        );
        Velocity {
            linear: D::vadd_spec(
                D::vadd_spec(
                    D::vadd_spec(parent.linear, jv.linear),
                    D::gcross_av_spec(parent.angular, shift),
                ),
                D::gcross_av_spec(jv.angular, ws[k].shift23),
            ),
            angular: D::aadd_spec(parent.angular, jv.angular),
        }
    } else {
        jv
    }
}

/// The workspaces with the velocities of the first `k` links.
pub open spec fn moving<S: Scalar, D: Space<S>>(
    st: Seq<MultibodyLinkStatic<S, D>>,
    ws: Seq<MultibodyLinkWorkspace<S, D>>,
    vel: Seq<S>,
    k: int,
) -> Seq<MultibodyLinkWorkspace<S, D>> {
    Seq::new(
        ws.len(),
        |i: int|
            if i < k {
                MultibodyLinkWorkspace {
                    joint_velocity: joint_velocity(st, ws, vel, i),
                    rb_vels: link_velocity(st, ws, vel, i),
                    ..ws[i]
                }
            } else {
                ws[i]
            },
    )
}

/// Every joint's degrees of freedom lie among the multibody's.
pub open spec fn dofs_in_range<S: Scalar, D: Space<S>>(
    st: Seq<MultibodyLinkStatic<S, D>>,
    ndofs: int,
) -> bool {
    forall|k: int|
        0 <= k < st.len() ==> (#[trigger] st[k]).assembly_id + free_axes(
            st[k].data.locked_axes,
            0,
            D::dimension_spec().spatial_spec(),
        ) <= ndofs
}

/// Propagates the generalized velocities to the links, root first.
pub fn propagate_velocities<S: Scalar, D: Space<S>>(
    stat: &[MultibodyLinkStatic<S, D>],
    ws: &mut [MultibodyLinkWorkspace<S, D>],
    lv: VecView,
    dof: &[S],
    vv: VecView,
)
    requires
        lv.fits(stat@.len() as int),
        lv.fits(old(ws)@.len() as int),
        vv.fits(dof@.len() as int),
        parents_first(vec_of(stat@, lv)),
        dofs_in_range(vec_of(stat@, lv), vv.len as int),
    ensures
        vec_of(final(ws)@, lv) == moving(
            vec_of(stat@, lv),
            vec_of(old(ws)@, lv),
            vec_of(dof@, vv),
            lv.len as int,
        ),
        same_outside_vec(old(ws)@, final(ws)@, lv),
{
    let ghost st = vec_of(stat@, lv);
    let ghost ws0 = vec_of(ws@, lv);
    let ghost vel = vec_of(dof@, vv);
    assert(ws0 =~= moving(st, ws0, vel, 0));
    let mut k: usize = 0;
    while k < lv.len
        invariant
            lv.fits(stat@.len() as int),
            lv.fits(old(ws)@.len() as int),
            vv.fits(dof@.len() as int),
            k <= lv.len,
            parents_first(st),
            dofs_in_range(st, vv.len as int),
            st == vec_of(stat@, lv),
            ws0 == vec_of(old(ws)@, lv),
            vel == vec_of(dof@, vv),
            vec_of(ws@, lv) == moving(st, ws0, vel, k as int),
            same_outside_vec(old(ws)@, ws@, lv),
        decreases lv.len - k,
    {
        let s = vec_get(stat, lv, k);
        assert(st[k as int] == s);
        let mut w = vec_get(ws, lv, k);
        let local: Velocity<S, D> = jacobian_mul_coordinates(
            s.data.locked_axes,
            s.assembly_id,
            dof,
            vv,
        );
        if k == 0 {
            w.joint_velocity = local;
            w.rb_vels = local;
        } else {
            let p: usize = s.parent_link_id as usize;
            let pw = vec_get(ws, lv, p);
            let ps = vec_get(stat, lv, p);
            let rot = D::rmul(pw.local_to_world.rotation, s.data.local_frame_a.rotation);
            let jv: Velocity<S, D> = Velocity {
                linear: D::rapply(rot, local.linear),
                angular: D::rapply_ang(rot, local.angular),
            };
            let shift = D::vsub(
                w.local_to_world.point(s.local_mprops.com),
                pw.local_to_world.point(ps.local_mprops.com),
            );
            let linear = D::vadd(
                D::vadd(
                    D::vadd(pw.rb_vels.linear, jv.linear),
                    D::gcross_av(pw.rb_vels.angular, shift),
                ),
                D::gcross_av(jv.angular, w.shift23),
            );
            w.rb_vels = Velocity {
                linear: linear,
                angular: D::aadd(pw.rb_vels.angular, jv.angular),
            };
            w.joint_velocity = jv;
        }
        vec_set(ws, lv, k, w);
        assert(vec_of(ws@, lv) =~= moving(st, ws0, vel, k + 1));
        k = k + 1;
    }
}

} // verus!
