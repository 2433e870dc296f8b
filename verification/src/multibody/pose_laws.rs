//! Where joints put their links, when the arithmetic is exact.
use super::jacobian_laws::{
    geometric, lemma_rank, lemma_rapply, plane_is_geometric, space_is_geometric, unit_length,
    vector_value,
};
use super::kinematics::{body_to_parent_spec, joint_column_spec, joint_frame_rot, joint_transform};
use super::space_laws::{along, plane_is_spatial, space_is_spatial, spatial};
use super::turn_laws::{
    composes, lemma_rmul, lemma_signs, plane_rotations_compose, quat_value, space_rotations_compose,
};
use super::types::{MultibodyLinkStatic, MultibodyLinkWorkspace};
use crate::exact::{exact, lemma_zero};
use crate::joint::{GenericJoint, free_axes, has_axis, lemma_free_axes_bound};
use crate::quaternions::{h_conj, h_one, lemma_unit_conj};
use crate::real_vectors::{lemma_one, r3_add, r3_scale, r3_sub, r3_zero};
use crate::scalar::{Scalar, two_spec};
use crate::space::{Dim2, Dim3, Pose, Quat, Rot2, Space, V2, V3};
use vstd::prelude::*;

verus! {

// ---- rotations that are undone ----

/// Under the reading `v`, the inverse of `r` undoes `r`.
pub open spec fn undone<S: Scalar, D: Space<S>>(v: spec_fn(S) -> real, r: D::R) -> bool {
    forall|x: D::V|
        vector_value::<S, D>(
            v,
            #[trigger] D::rapply_spec(D::rinv_spec(r), D::rapply_spec(r, x)),
        ) == vector_value::<S, D>(v, x)
}

/// In exact arithmetic, the inverse of a unit complex number undoes it.
pub proof fn unit_numbers_are_undone<S: Scalar>(v: spec_fn(S) -> real, r: Rot2<S>)
    requires
        exact(v),
        v(r.re) * v(r.re) + v(r.im) * v(r.im) == 1real,
    ensures
        undone::<S, Dim2>(v, r),
{
    plane_rotations_compose(v);
    let c = v(r.re);
    let s = v(r.im);
    let i = <Dim2 as Space<S>>::rinv_spec(r);
    let m = <Dim2 as Space<S>>::rmul_spec(i, r);
    lemma_signs(s, s);
    lemma_signs(s, c);
    assert(v(m.re) == 1real && v(m.im) == 0real);
    assert forall|p: V2<S>|
        vector_value::<S, Dim2>(
            v,
            #[trigger] <Dim2 as Space<S>>::rapply_spec(
                i,
                <Dim2 as Space<S>>::rapply_spec(r, p),
            ),
        ) == vector_value::<S, Dim2>(v, p) by {
        assert(vector_value::<S, Dim2>(v, <Dim2 as Space<S>>::rapply_spec(m, p))
            == vector_value::<S, Dim2>(
            v,
            <Dim2 as Space<S>>::rapply_spec(i, <Dim2 as Space<S>>::rapply_spec(r, p)),
        ));
        lemma_one(v(p.x));
        lemma_one(v(p.y));
        lemma_zero(v(p.x));
        lemma_zero(v(p.y));
    }
}

/// In exact arithmetic, the inverse of a unit quaternion undoes it.
pub proof fn unit_quaternions_are_undone<S: Scalar>(v: spec_fn(S) -> real, q: Quat<S>)
    requires
        exact(v),
        v(two_spec::<S>()) == 2real,
        unit_length(v, q),
    ensures
        undone::<S, Dim3>(v, q),
{
    space_rotations_compose(v);
    space_is_spatial(v);
    let i = <Dim3 as Space<S>>::rinv_spec(q);
    let qv = quat_value(v, q);
    assert(quat_value(v, i) == h_conj(qv));
    lemma_rmul(v, i, q);
    lemma_unit_conj(qv);
    let one = <Dim3 as Space<S>>::rid_spec();
    assert forall|x: V3<S>|
        vector_value::<S, Dim3>(
            v,
            #[trigger] <Dim3 as Space<S>>::rapply_spec(
                i,
                <Dim3 as Space<S>>::rapply_spec(q, x),
            ),
        ) == vector_value::<S, Dim3>(v, x) by {
        let m = <Dim3 as Space<S>>::rmul_spec(i, q);
        assert(vector_value::<S, Dim3>(v, <Dim3 as Space<S>>::rapply_spec(m, x))
            == vector_value::<S, Dim3>(
            v,
            <Dim3 as Space<S>>::rapply_spec(i, <Dim3 as Space<S>>::rapply_spec(q, x)),
        ));
        assert(quat_value(v, m) == h_one());
        lemma_rapply(v, m, x);
        lemma_rapply(v, one, x);
        assert(vector_value::<S, Dim3>(v, <Dim3 as Space<S>>::rapply_spec(one, x))
            == vector_value::<S, Dim3>(v, x));
    }
}

// ---- one joint ----

/// The free linear coordinates of a joint among the first `n` axes, as a vector;
/// zero along the locked axes.
pub open spec fn slide<S>(
    v: spec_fn(S) -> real,
    locked: u32,
    coords: Seq<S>,
    n: int,
) -> V3<real> {
    V3 {
        x: if 0 < n && !has_axis(locked, 0) {
            v(coords[0])
        } else {
            0real
        },
        y: if 1 < n && !has_axis(locked, 1) {
            v(coords[1])
        } else {
            0real
        },
        z: if 2 < n && !has_axis(locked, 2) {
            v(coords[2])
        } else {
            0real
        },
    }
}

proof fn lemma_transform<S: Scalar, D: Space<S>>(
    v: spec_fn(S) -> real,
    joint: GenericJoint<S, D>,
    rot: D::R,
    coords: Seq<S>,
    i: int,
)
    requires
        geometric::<S, D>(v),
        spatial::<S, D>(v),
        composes::<S, D>(v),
        0 <= i <= D::dimension_spec().lin_spec(),
    ensures
        ({
            let t = joint_transform(joint, rot, coords, i);
            let back = D::rinv_spec(joint.local_frame_b.rotation);
            &&& vector_value::<S, D>(v, t.translation) == r3_add(
                vector_value::<S, D>(
                    v,
                    D::rapply_spec(
                        rot,
                        D::rapply_spec(back, D::vneg_spec(joint.local_frame_b.translation)),
                    ),
                ),
                slide(v, joint.locked_axes, coords, i),
            )
            &&& forall|x: D::V|
                vector_value::<S, D>(v, #[trigger] D::rapply_spec(t.rotation, x))
                    == vector_value::<S, D>(v, D::rapply_spec(rot, D::rapply_spec(back, x)))
        }),
    decreases i,
{
    if i > 0 {
        lemma_transform(v, joint, rot, coords, i - 1);
        let t = joint_transform(joint, rot, coords, i - 1);
        if !has_axis(joint.locked_axes, i - 1) {
            let axis = D::vaxis_spec(i - 1, coords[i - 1]);
            assert(vector_value::<S, D>(v, axis) == along(i - 1, v(coords[i - 1])));
            let m = D::rmul_spec(D::rid_spec(), t.rotation);
            assert forall|x: D::V|
                vector_value::<S, D>(v, #[trigger] D::rapply_spec(m, x)) == vector_value::<S, D>(
                    v,
                    D::rapply_spec(t.rotation, x),
                ) by {
                assert(vector_value::<S, D>(
                    v,
                    D::rapply_spec(D::rid_spec(), D::rapply_spec(t.rotation, x)),
                ) == vector_value::<S, D>(v, D::rapply_spec(t.rotation, x)));
            }
        }
    } else {
        let back = D::rinv_spec(joint.local_frame_b.rotation);
        assert forall|x: D::V|
            vector_value::<S, D>(
                v,
                #[trigger] D::rapply_spec(joint_transform(joint, rot, coords, i).rotation, x),
            ) == vector_value::<S, D>(v, D::rapply_spec(rot, D::rapply_spec(back, x))) by {
            assert(joint_transform(joint, rot, coords, i).rotation == D::rmul_spec(rot, back));
        }
    }
}

/// The laws of a joint's pose, where vectors and rotations are those of space.
proof fn lemma_body_to_parent<S: Scalar, D: Space<S>>(
    v: spec_fn(S) -> real,
    joint: GenericJoint<S, D>,
    rot: D::R,
    coords: Seq<S>,
    c: D::V,
)
    requires
        geometric::<S, D>(v),
        spatial::<S, D>(v),
        composes::<S, D>(v),
        vector_value::<S, D>(v, c) == slide(
            v,
            joint.locked_axes,
            coords,
            D::dimension_spec().lin_spec(),
        ),
    ensures
        ({
            let b = body_to_parent_spec(joint, rot, coords);
            let back = D::rinv_spec(joint.local_frame_b.rotation);
            &&& vector_value::<S, D>(v, b.point_spec(joint.local_frame_b.translation))
                == vector_value::<S, D>(v, joint.local_frame_a.point_spec(c))
            &&& forall|x: D::V|
                vector_value::<S, D>(v, #[trigger] D::rapply_spec(b.rotation, x)) == vector_value::<
                    S,
                    D,
                >(
                    v,
                    D::rapply_spec(
                        joint.local_frame_a.rotation,
                        D::rapply_spec(rot, D::rapply_spec(back, x)),
                    ),
                )
        }),
{
    let dim = D::dimension_spec().lin_spec();
    let b = body_to_parent_spec(joint, rot, coords);
    let t = joint_transform(joint, rot, coords, dim);
    let ra = joint.local_frame_a.rotation;
    let back = D::rinv_spec(joint.local_frame_b.rotation);
    let bt = joint.local_frame_b.translation;
    lemma_transform(v, joint, rot, coords, dim);
    assert(b.rotation == D::rmul_spec(ra, t.rotation));
    assert forall|x: D::V|
        vector_value::<S, D>(v, #[trigger] D::rapply_spec(b.rotation, x)) == vector_value::<S, D>(
            v,
            D::rapply_spec(ra, D::rapply_spec(rot, D::rapply_spec(back, x))),
        ) by {
        assert(vector_value::<S, D>(v, D::rapply_spec(t.rotation, x)) == vector_value::<S, D>(
            v,
            D::rapply_spec(rot, D::rapply_spec(back, x)),
        ));
    }
    // The way to the origin of frame B and back cancels.
    let out = D::rapply_spec(rot, D::rapply_spec(back, bt));
    let home = D::rapply_spec(rot, D::rapply_spec(back, D::vneg_spec(bt)));
    let sum = D::vadd_spec(bt, D::vneg_spec(bt));
    let z = D::vzero_spec();
    assert(vector_value::<S, D>(v, sum) == vector_value::<S, D>(v, z));
    let b1 = D::rapply_spec(back, bt);
    let b2 = D::rapply_spec(back, D::vneg_spec(bt));
    assert(vector_value::<S, D>(v, D::rapply_spec(back, sum)) == r3_add(
        vector_value::<S, D>(v, b1),
        vector_value::<S, D>(v, b2),
    ));
    assert(vector_value::<S, D>(v, D::rapply_spec(back, sum)) == vector_value::<S, D>(
        v,
        D::rapply_spec(back, z),
    ));
    let s2 = D::vadd_spec(b1, b2);
    assert(vector_value::<S, D>(v, s2) == vector_value::<S, D>(v, z));
    assert(vector_value::<S, D>(v, D::rapply_spec(rot, s2)) == r3_add(
        vector_value::<S, D>(v, out),
        vector_value::<S, D>(v, home),
    ));
    assert(vector_value::<S, D>(v, D::rapply_spec(rot, s2)) == vector_value::<S, D>(
        v,
        D::rapply_spec(rot, z),
    ));
    assert(r3_add(vector_value::<S, D>(v, out), vector_value::<S, D>(v, home)) == r3_zero());
    let whole = D::vadd_spec(out, t.translation);
    assert(vector_value::<S, D>(v, whole) == vector_value::<S, D>(v, c));
    assert(vector_value::<S, D>(v, D::rapply_spec(ra, whole)) == r3_add(
        vector_value::<S, D>(v, D::rapply_spec(ra, out)),
        vector_value::<S, D>(v, D::rapply_spec(ra, t.translation)),
    ));
    assert(vector_value::<S, D>(v, D::rapply_spec(ra, whole)) == vector_value::<S, D>(
        v,
        D::rapply_spec(ra, c),
    ));
    assert(vector_value::<S, D>(v, D::rapply_spec(b.rotation, bt)) == vector_value::<S, D>(
        v,
        D::rapply_spec(ra, out),
    ));
}

/// `c1` are the coordinates `c0` with the coordinate of axis `i` raised by `by`.
pub open spec fn raised<S>(
    v: spec_fn(S) -> real,
    c0: Seq<S>,
    c1: Seq<S>,
    i: int,
    by: real,
) -> bool {
    &&& v(c1[i]) == v(c0[i]) + by
    &&& forall|j: int| j != i ==> #[trigger] c1[j] == c0[j]
}

proof fn lemma_raised<S: Scalar, D: Space<S>>(
    v: spec_fn(S) -> real,
    joint: GenericJoint<S, D>,
    rot: D::R,
    c0: Seq<S>,
    c1: Seq<S>,
    i: int,
    by: real,
    s: S,
)
    requires
        geometric::<S, D>(v),
        spatial::<S, D>(v),
        composes::<S, D>(v),
        0 <= i < D::dimension_spec().lin_spec(),
        raised(v, c0, c1, i, by),
        v(s) == by,
    ensures
        ({
            let b0 = body_to_parent_spec(joint, rot, c0);
            let b1 = body_to_parent_spec(joint, rot, c1);
            let axis = vector_value::<S, D>(
                v,
                D::rapply_spec(
                    joint.local_frame_a.rotation,
                    D::vaxis_spec(i, S::one_spec()),
                ),
            );
            let moved = if has_axis(joint.locked_axes, i) {
                r3_zero()
            } else {
                r3_scale(axis, by)
            };
            vector_value::<S, D>(v, b1.translation) == r3_add(
                vector_value::<S, D>(v, b0.translation),
                moved,
            )
        }),
{
    let dim = D::dimension_spec().lin_spec();
    lemma_transform(v, joint, rot, c0, dim);
    lemma_transform(v, joint, rot, c1, dim);
    let t0 = joint_transform(joint, rot, c0, dim);
    let t1 = joint_transform(joint, rot, c1, dim);
    let ra = joint.local_frame_a.rotation;
    let l = joint.locked_axes;
    let axis = D::vaxis_spec(i, s);
    assert(vector_value::<S, D>(v, axis) == along(i, by));
    let sum = D::vadd_spec(t0.translation, axis);
    if has_axis(l, i) {
        assert(slide(v, l, c1, dim) == slide(v, l, c0, dim));
        assert(vector_value::<S, D>(v, t1.translation) == vector_value::<S, D>(
            v,
            t0.translation,
        ));
    } else {
        assert(slide(v, l, c1, dim) == r3_add(slide(v, l, c0, dim), along(i, by)));
        assert(vector_value::<S, D>(v, t1.translation) == vector_value::<S, D>(v, sum));
        assert(vector_value::<S, D>(v, D::rapply_spec(ra, sum)) == r3_add(
            vector_value::<S, D>(v, D::rapply_spec(ra, t0.translation)),
            r3_scale(
                vector_value::<S, D>(v, D::rapply_spec(ra, D::vaxis_spec(i, S::one_spec()))),
                v(s),
            ),
        ));
    }
    assert(vector_value::<S, D>(v, D::rapply_spec(ra, t1.translation)) == vector_value::<S, D>(
        v,
        D::rapply_spec(
            ra,
            if has_axis(l, i) {
                t0.translation
            } else {
                sum
            },
        ),
    ));
}

proof fn lemma_same_turn<S: Scalar, D: Space<S>>(
    v: spec_fn(S) -> real,
    joint: GenericJoint<S, D>,
    rot: D::R,
    c0: Seq<S>,
    c1: Seq<S>,
    x: D::V,
)
    requires
        geometric::<S, D>(v),
        spatial::<S, D>(v),
        composes::<S, D>(v),
    ensures
        vector_value::<S, D>(
            v,
            D::rapply_spec(body_to_parent_spec(joint, rot, c1).rotation, x),
        ) == vector_value::<S, D>(
            v,
            D::rapply_spec(body_to_parent_spec(joint, rot, c0).rotation, x),
        ),
{
    let dim = D::dimension_spec().lin_spec();
    lemma_transform(v, joint, rot, c0, dim);
    lemma_transform(v, joint, rot, c1, dim);
    let ra = joint.local_frame_a.rotation;
    let t0 = joint_transform(joint, rot, c0, dim).rotation;
    let t1 = joint_transform(joint, rot, c1, dim).rotation;
    assert(vector_value::<S, D>(v, D::rapply_spec(t1, x)) == vector_value::<S, D>(
        v,
        D::rapply_spec(t0, x),
    ));
    assert(vector_value::<S, D>(v, D::rapply_spec(ra, D::rapply_spec(t1, x))) == vector_value::<
        S,
        D,
    >(v, D::rapply_spec(ra, D::rapply_spec(t0, x))));
    assert(body_to_parent_spec(joint, rot, c0).rotation == D::rmul_spec(ra, t0));
    assert(body_to_parent_spec(joint, rot, c1).rotation == D::rmul_spec(ra, t1));
}

proof fn lemma_column<S: Scalar, D: Space<S>>(
    v: spec_fn(S) -> real,
    st: Seq<MultibodyLinkStatic<S, D>>,
    ws: Seq<MultibodyLinkWorkspace<S, D>>,
    parent: Pose<S, D>,
    k: int,
    rot: D::R,
    c0: Seq<S>,
    c1: Seq<S>,
    i: int,
    by: S,
    x: D::V,
)
    requires
        geometric::<S, D>(v),
        spatial::<S, D>(v),
        composes::<S, D>(v),
        0 <= i < D::dimension_spec().lin_spec(),
        !has_axis(st[k].data.locked_axes, i),
        raised(v, c0, c1, i, v(by)),
        0 <= st[k].parent_link_id < k,
        parent == ws[st[k].parent_link_id as int].local_to_world,
    ensures
        ({
            let joint = st[k].data;
            let p0 = parent.after_spec(body_to_parent_spec(joint, rot, c0));
            let p1 = parent.after_spec(body_to_parent_spec(joint, rot, c1));
            let column = joint_column_spec::<S, D>(
                joint.locked_axes,
                joint_frame_rot(st, ws, k),
                free_axes(joint.locked_axes, 0, i),
            );
            vector_value::<S, D>(v, p1.point_spec(x)) == r3_add(
                vector_value::<S, D>(v, p0.point_spec(x)),
                r3_scale(vector_value::<S, D>(v, column.linear), v(by)),
            )
        }),
{
    let joint = st[k].data;
    let dim = D::dimension_spec().lin_spec();
    let b0 = body_to_parent_spec(joint, rot, c0);
    let b1 = body_to_parent_spec(joint, rot, c1);
    let ra = joint.local_frame_a.rotation;
    let rp = parent.rotation;
    let e = D::vaxis_spec(i, S::one_spec());
    lemma_raised(v, joint, rot, c0, c1, i, v(by), by);
    lemma_same_turn(v, joint, rot, c0, c1, x);
    lemma_rank(joint.locked_axes, 0, dim, i);
    lemma_free_axes_bound(joint.locked_axes, 0, i);
    let f = D::rmul_spec(rp, ra);
    assert(joint_frame_rot(st, ws, k) == f);
    let column = joint_column_spec::<S, D>(
        joint.locked_axes,
        f,
        free_axes(joint.locked_axes, 0, i),
    );
    assert(column.linear == D::rapply_spec(f, e));
    // The displacement in the parent's frame, and in the world.
    let shift = D::vscale_spec(D::rapply_spec(ra, e), by);
    let sum = D::vadd_spec(b0.translation, shift);
    assert(vector_value::<S, D>(v, sum) == vector_value::<S, D>(v, b1.translation));
    assert(vector_value::<S, D>(v, D::rapply_spec(rp, sum)) == vector_value::<S, D>(
        v,
        D::rapply_spec(rp, b1.translation),
    ));
    assert(vector_value::<S, D>(v, D::rapply_spec(rp, sum)) == r3_add(
        vector_value::<S, D>(v, D::rapply_spec(rp, b0.translation)),
        vector_value::<S, D>(v, D::rapply_spec(rp, shift)),
    ));
    assert(vector_value::<S, D>(v, D::rapply_spec(rp, shift)) == r3_scale(
        vector_value::<S, D>(v, D::rapply_spec(rp, D::rapply_spec(ra, e))),
        v(by),
    ));
    assert(vector_value::<S, D>(v, D::rapply_spec(f, e)) == vector_value::<S, D>(
        v,
        D::rapply_spec(rp, D::rapply_spec(ra, e)),
    ));
    let y0 = D::rapply_spec(b0.rotation, x);
    let y1 = D::rapply_spec(b1.rotation, x);
    assert(vector_value::<S, D>(v, D::rapply_spec(rp, y1)) == vector_value::<S, D>(
        v,
        D::rapply_spec(rp, y0),
    ));
    let m0 = D::rmul_spec(rp, b0.rotation);
    let m1 = D::rmul_spec(rp, b1.rotation);
    assert(vector_value::<S, D>(v, D::rapply_spec(m0, x)) == vector_value::<S, D>(
        v,
        D::rapply_spec(rp, y0),
    ));
    assert(vector_value::<S, D>(v, D::rapply_spec(m1, x)) == vector_value::<S, D>(
        v,
        D::rapply_spec(rp, y1),
    ));
}

/// In exact arithmetic, a joint of the plane holds the origin of its frame B at the place in
/// its frame A that the free linear coordinates name, and the axes of frame B as its
/// rotation turns those of frame A.
pub proof fn plane_joints_hold_their_frames<S: Scalar>(
    v: spec_fn(S) -> real,
    joint: GenericJoint<S, Dim2>,
    rot: <Dim2 as Space<S>>::R,
    coords: Seq<S>,
    c: <Dim2 as Space<S>>::V,
    x: <Dim2 as Space<S>>::V,
)
    requires
        exact(v),
        undone::<S, Dim2>(v, joint.local_frame_b.rotation),
        forall|i: int|
            0 <= i < <Dim2 as Space<S>>::dimension_spec().lin_spec() ==> v(#[trigger] <Dim2 as Space<S>>::vget_spec(c, i))
                == (if has_axis(joint.locked_axes, i) {
                0real
            } else {
                v(coords[i])
            }),
    ensures
        ({
            let b = body_to_parent_spec(joint, rot, coords);
            &&& vector_value::<S, Dim2>(v, b.point_spec(joint.local_frame_b.translation))
                == vector_value::<S, Dim2>(v, joint.local_frame_a.point_spec(c))
            &&& vector_value::<S, Dim2>(
                v,
                <Dim2 as Space<S>>::rapply_spec(
                    b.rotation,
                    <Dim2 as Space<S>>::rapply_spec(joint.local_frame_b.rotation, x),
                ),
            ) == vector_value::<S, Dim2>(
                v,
                <Dim2 as Space<S>>::rapply_spec(
                    joint.local_frame_a.rotation,
                    <Dim2 as Space<S>>::rapply_spec(rot, x),
                ),
            )
        }),
{
    plane_is_geometric(v);
    plane_is_spatial(v);
    plane_rotations_compose(v);
    assert(<Dim2 as Space<S>>::vget_spec(c, 0) == c.x && <Dim2 as Space<S>>::vget_spec(c, 1) == c.y);
    
    lemma_body_to_parent::<S, Dim2>(v, joint, rot, coords, c);
    let y = <Dim2 as Space<S>>::rapply_spec(joint.local_frame_b.rotation, x);
    let back = <Dim2 as Space<S>>::rinv_spec(joint.local_frame_b.rotation);
    let b = body_to_parent_spec(joint, rot, coords);
    let home = <Dim2 as Space<S>>::rapply_spec(back, y);
    assert(vector_value::<S, Dim2>(v, home) == vector_value::<S, Dim2>(v, x));
    assert(vector_value::<S, Dim2>(v, <Dim2 as Space<S>>::rapply_spec(rot, home)) == vector_value::<S, Dim2>(
        v,
        <Dim2 as Space<S>>::rapply_spec(rot, x),
    ));
    let ra = joint.local_frame_a.rotation;
    assert(vector_value::<S, Dim2>(v, <Dim2 as Space<S>>::rapply_spec(b.rotation, y)) == vector_value::<S, Dim2>(
        v,
        <Dim2 as Space<S>>::rapply_spec(ra, <Dim2 as Space<S>>::rapply_spec(rot, home)),
    ));
    assert(vector_value::<S, Dim2>(
        v,
        <Dim2 as Space<S>>::rapply_spec(ra, <Dim2 as Space<S>>::rapply_spec(rot, home)),
    ) == vector_value::<S, Dim2>(v, <Dim2 as Space<S>>::rapply_spec(ra, <Dim2 as Space<S>>::rapply_spec(rot, x))));
}

/// In exact arithmetic, raising a free linear coordinate of a joint of the plane by `by` moves
/// the link by `by` along that axis of frame A and does not turn it. A coordinate of
/// a locked axis has no effect.
pub proof fn plane_coordinates_slide_their_link<S: Scalar>(
    v: spec_fn(S) -> real,
    joint: GenericJoint<S, Dim2>,
    rot: <Dim2 as Space<S>>::R,
    c0: Seq<S>,
    c1: Seq<S>,
    i: int,
    by: S,
    x: <Dim2 as Space<S>>::V,
)
    requires
        exact(v),
        0 <= i < <Dim2 as Space<S>>::dimension_spec().lin_spec(),
        raised(v, c0, c1, i, v(by)),
    ensures
        ({
            let b0 = body_to_parent_spec(joint, rot, c0);
            let b1 = body_to_parent_spec(joint, rot, c1);
            let axis = vector_value::<S, Dim2>(
                v,
                <Dim2 as Space<S>>::rapply_spec(
                    joint.local_frame_a.rotation,
                    <Dim2 as Space<S>>::vaxis_spec(i, S::one_spec()),
                ),
            );
            &&& vector_value::<S, Dim2>(v, b1.translation) == r3_add(
                vector_value::<S, Dim2>(v, b0.translation),
                if has_axis(joint.locked_axes, i) {
                    r3_zero()
                } else {
                    r3_scale(axis, v(by))
                },
            )
            &&& vector_value::<S, Dim2>(v, <Dim2 as Space<S>>::rapply_spec(b1.rotation, x)) == vector_value::<
                S,
                Dim2,
            >(v, <Dim2 as Space<S>>::rapply_spec(b0.rotation, x))
        }),
{
    plane_is_geometric(v);
    plane_is_spatial(v);
    plane_rotations_compose(v);
    lemma_raised::<S, Dim2>(v, joint, rot, c0, c1, i, v(by), by);
    lemma_same_turn::<S, Dim2>(v, joint, rot, c0, c1, x);
}

/// In exact arithmetic, where the frames of a joint of the plane and the joint itself are not
/// turned, the link stands at the origin of frame A plus the vector of its free linear
/// coordinates less the origin of frame B.
pub proof fn plane_unturned_joints_add_up<S: Scalar>(
    v: spec_fn(S) -> real,
    joint: GenericJoint<S, Dim2>,
    coords: Seq<S>,
)
    requires
        exact(v),
        joint.local_frame_a.rotation == <Dim2 as Space<S>>::rid_spec(),
        joint.local_frame_b.rotation == <Dim2 as Space<S>>::rid_spec(),
    ensures
        ({
            let b = body_to_parent_spec(joint, <Dim2 as Space<S>>::rid_spec(), coords);
            vector_value::<S, Dim2>(v, b.translation) == r3_sub(
                r3_add(
                    vector_value::<S, Dim2>(v, joint.local_frame_a.translation),
                    slide(v, joint.locked_axes, coords, <Dim2 as Space<S>>::dimension_spec().lin_spec()),
                ),
                vector_value::<S, Dim2>(v, joint.local_frame_b.translation),
            )
        }),
{
    plane_is_geometric(v);
    plane_is_spatial(v);
    plane_rotations_compose(v);
    let one = <Dim2 as Space<S>>::rid_spec();
    let lin = <Dim2 as Space<S>>::dimension_spec().lin_spec();
    lemma_transform::<S, Dim2>(v, joint, one, coords, lin);
    lemma_one(1real);
    lemma_zero(0real);
    lemma_zero(1real);
    unit_numbers_are_undone(v, one);
    let back = <Dim2 as Space<S>>::rinv_spec(one);
    let m = <Dim2 as Space<S>>::vneg_spec(joint.local_frame_b.translation);
    let y = <Dim2 as Space<S>>::rapply_spec(one, m);
    assert(vector_value::<S, Dim2>(v, <Dim2 as Space<S>>::rapply_spec(back, y)) == vector_value::<S, Dim2>(v, m));
    assert(vector_value::<S, Dim2>(v, y) == vector_value::<S, Dim2>(v, m));
    assert(vector_value::<S, Dim2>(v, <Dim2 as Space<S>>::rapply_spec(back, y)) == vector_value::<S, Dim2>(
        v,
        <Dim2 as Space<S>>::rapply_spec(back, m),
    ));
    let t = joint_transform(joint, one, coords, lin);
    let b = body_to_parent_spec(joint, one, coords);
    assert(b.translation == <Dim2 as Space<S>>::vadd_spec(
        <Dim2 as Space<S>>::rapply_spec(one, t.translation),
        joint.local_frame_a.translation,
    ));
}

/// In exact arithmetic, the derivative of the place of a link of the plane in a free linear
/// coordinate of its joint is that degree of freedom of the joint's jacobian: raising
/// the coordinate by `by` moves every point of the link by `by` times it.
pub proof fn plane_places_follow_the_jacobian<S: Scalar>(
    v: spec_fn(S) -> real,
    st: Seq<MultibodyLinkStatic<S, Dim2>>,
    ws: Seq<MultibodyLinkWorkspace<S, Dim2>>,
    parent: Pose<S, Dim2>,
    k: int,
    rot: <Dim2 as Space<S>>::R,
    c0: Seq<S>,
    c1: Seq<S>,
    i: int,
    by: S,
    x: <Dim2 as Space<S>>::V,
)
    requires
        exact(v),
        0 <= i < <Dim2 as Space<S>>::dimension_spec().lin_spec(),
        !has_axis(st[k].data.locked_axes, i),
        raised(v, c0, c1, i, v(by)),
        0 <= st[k].parent_link_id < k,
        parent == ws[st[k].parent_link_id as int].local_to_world,
    ensures
        ({
            let joint = st[k].data;
            let p0 = parent.after_spec(body_to_parent_spec(joint, rot, c0));
            let p1 = parent.after_spec(body_to_parent_spec(joint, rot, c1));
            let column = joint_column_spec::<S, Dim2>(
                joint.locked_axes,
                joint_frame_rot(st, ws, k),
                free_axes(joint.locked_axes, 0, i),
            );
            vector_value::<S, Dim2>(v, p1.point_spec(x)) == r3_add(
                vector_value::<S, Dim2>(v, p0.point_spec(x)),
                r3_scale(vector_value::<S, Dim2>(v, column.linear), v(by)),
            )
        }),
{
    plane_is_geometric(v);
    plane_is_spatial(v);
    plane_rotations_compose(v);
    lemma_column::<S, Dim2>(v, st, ws, parent, k, rot, c0, c1, i, by, x);
}

/// In exact arithmetic, a joint of space holds the origin of its frame B at the place in
/// its frame A that the free linear coordinates name, and the axes of frame B as its
/// rotation turns those of frame A.
pub proof fn space_joints_hold_their_frames<S: Scalar>(
    v: spec_fn(S) -> real,
    joint: GenericJoint<S, Dim3>,
    rot: <Dim3 as Space<S>>::R,
    coords: Seq<S>,
    c: <Dim3 as Space<S>>::V,
    x: <Dim3 as Space<S>>::V,
)
    requires
        exact(v),
        v(two_spec::<S>()) == 2real,
        undone::<S, Dim3>(v, joint.local_frame_b.rotation),
        forall|i: int|
            0 <= i < <Dim3 as Space<S>>::dimension_spec().lin_spec() ==> v(#[trigger] <Dim3 as Space<S>>::vget_spec(c, i))
                == (if has_axis(joint.locked_axes, i) {
                0real
            } else {
                v(coords[i])
            }),
    ensures
        ({
            let b = body_to_parent_spec(joint, rot, coords);
            &&& vector_value::<S, Dim3>(v, b.point_spec(joint.local_frame_b.translation))
                == vector_value::<S, Dim3>(v, joint.local_frame_a.point_spec(c))
            &&& vector_value::<S, Dim3>(
                v,
                <Dim3 as Space<S>>::rapply_spec(
                    b.rotation,
                    <Dim3 as Space<S>>::rapply_spec(joint.local_frame_b.rotation, x),
                ),
            ) == vector_value::<S, Dim3>(
                v,
                <Dim3 as Space<S>>::rapply_spec(
                    joint.local_frame_a.rotation,
                    <Dim3 as Space<S>>::rapply_spec(rot, x),
                ),
            )
        }),
{
    space_is_geometric(v);
    space_is_spatial(v);
    space_rotations_compose(v);
    assert(<Dim3 as Space<S>>::vget_spec(c, 0) == c.x && <Dim3 as Space<S>>::vget_spec(c, 1) == c.y);
    assert(<Dim3 as Space<S>>::vget_spec(c, 2) == c.z);
    lemma_body_to_parent::<S, Dim3>(v, joint, rot, coords, c);
    let y = <Dim3 as Space<S>>::rapply_spec(joint.local_frame_b.rotation, x);
    let back = <Dim3 as Space<S>>::rinv_spec(joint.local_frame_b.rotation);
    let b = body_to_parent_spec(joint, rot, coords);
    let home = <Dim3 as Space<S>>::rapply_spec(back, y);
    assert(vector_value::<S, Dim3>(v, home) == vector_value::<S, Dim3>(v, x));
    assert(vector_value::<S, Dim3>(v, <Dim3 as Space<S>>::rapply_spec(rot, home)) == vector_value::<S, Dim3>(
        v,
        <Dim3 as Space<S>>::rapply_spec(rot, x),
    ));
    let ra = joint.local_frame_a.rotation;
    assert(vector_value::<S, Dim3>(v, <Dim3 as Space<S>>::rapply_spec(b.rotation, y)) == vector_value::<S, Dim3>(
        v,
        <Dim3 as Space<S>>::rapply_spec(ra, <Dim3 as Space<S>>::rapply_spec(rot, home)),
    ));
    assert(vector_value::<S, Dim3>(
        v,
        <Dim3 as Space<S>>::rapply_spec(ra, <Dim3 as Space<S>>::rapply_spec(rot, home)),
    ) == vector_value::<S, Dim3>(v, <Dim3 as Space<S>>::rapply_spec(ra, <Dim3 as Space<S>>::rapply_spec(rot, x))));
}

/// In exact arithmetic, raising a free linear coordinate of a joint of space by `by` moves
/// the link by `by` along that axis of frame A and does not turn it. A coordinate of
/// a locked axis has no effect.
pub proof fn space_coordinates_slide_their_link<S: Scalar>(
    v: spec_fn(S) -> real,
    joint: GenericJoint<S, Dim3>,
    rot: <Dim3 as Space<S>>::R,
    c0: Seq<S>,
    c1: Seq<S>,
    i: int,
    by: S,
    x: <Dim3 as Space<S>>::V,
)
    requires
        exact(v),
        v(two_spec::<S>()) == 2real,
        0 <= i < <Dim3 as Space<S>>::dimension_spec().lin_spec(),
        raised(v, c0, c1, i, v(by)),
    ensures
        ({
            let b0 = body_to_parent_spec(joint, rot, c0);
            let b1 = body_to_parent_spec(joint, rot, c1);
            let axis = vector_value::<S, Dim3>(
                v,
                <Dim3 as Space<S>>::rapply_spec(
                    joint.local_frame_a.rotation,
                    <Dim3 as Space<S>>::vaxis_spec(i, S::one_spec()),
                ),
            );
            &&& vector_value::<S, Dim3>(v, b1.translation) == r3_add(
                vector_value::<S, Dim3>(v, b0.translation),
                if has_axis(joint.locked_axes, i) {
                    r3_zero()
                } else {
                    r3_scale(axis, v(by))
                },
            )
            &&& vector_value::<S, Dim3>(v, <Dim3 as Space<S>>::rapply_spec(b1.rotation, x)) == vector_value::<
                S,
                Dim3,
            >(v, <Dim3 as Space<S>>::rapply_spec(b0.rotation, x))
        }),
{
    space_is_geometric(v);
    space_is_spatial(v);
    space_rotations_compose(v);
    lemma_raised::<S, Dim3>(v, joint, rot, c0, c1, i, v(by), by);
    lemma_same_turn::<S, Dim3>(v, joint, rot, c0, c1, x);
}

/// In exact arithmetic, where the frames of a joint of space and the joint itself are not
/// turned, the link stands at the origin of frame A plus the vector of its free linear
/// coordinates less the origin of frame B.
pub proof fn space_unturned_joints_add_up<S: Scalar>(
    v: spec_fn(S) -> real,
    joint: GenericJoint<S, Dim3>,
    coords: Seq<S>,
)
    requires
        exact(v),
        v(two_spec::<S>()) == 2real,
        joint.local_frame_a.rotation == <Dim3 as Space<S>>::rid_spec(),
        joint.local_frame_b.rotation == <Dim3 as Space<S>>::rid_spec(),
    ensures
        ({
            let b = body_to_parent_spec(joint, <Dim3 as Space<S>>::rid_spec(), coords);
            vector_value::<S, Dim3>(v, b.translation) == r3_sub(
                r3_add(
                    vector_value::<S, Dim3>(v, joint.local_frame_a.translation),
                    slide(v, joint.locked_axes, coords, <Dim3 as Space<S>>::dimension_spec().lin_spec()),
                ),
                vector_value::<S, Dim3>(v, joint.local_frame_b.translation),
            )
        }),
{
    space_is_geometric(v);
    space_is_spatial(v);
    space_rotations_compose(v);
    let one = <Dim3 as Space<S>>::rid_spec();
    let lin = <Dim3 as Space<S>>::dimension_spec().lin_spec();
    lemma_transform::<S, Dim3>(v, joint, one, coords, lin);
    lemma_one(1real);
    lemma_zero(0real);
    lemma_zero(1real);
    unit_quaternions_are_undone(v, one);
    let back = <Dim3 as Space<S>>::rinv_spec(one);
    let m = <Dim3 as Space<S>>::vneg_spec(joint.local_frame_b.translation);
    let y = <Dim3 as Space<S>>::rapply_spec(one, m);
    assert(vector_value::<S, Dim3>(v, <Dim3 as Space<S>>::rapply_spec(back, y)) == vector_value::<S, Dim3>(v, m));
    assert(vector_value::<S, Dim3>(v, y) == vector_value::<S, Dim3>(v, m));
    assert(vector_value::<S, Dim3>(v, <Dim3 as Space<S>>::rapply_spec(back, y)) == vector_value::<S, Dim3>(
        v,
        <Dim3 as Space<S>>::rapply_spec(back, m),
    ));
    let t = joint_transform(joint, one, coords, lin);
    let b = body_to_parent_spec(joint, one, coords);
    assert(b.translation == <Dim3 as Space<S>>::vadd_spec(
        <Dim3 as Space<S>>::rapply_spec(one, t.translation),
        joint.local_frame_a.translation,
    ));
}

/// In exact arithmetic, the derivative of the place of a link of space in a free linear
/// coordinate of its joint is that degree of freedom of the joint's jacobian: raising
/// the coordinate by `by` moves every point of the link by `by` times it.
pub proof fn space_places_follow_the_jacobian<S: Scalar>(
    v: spec_fn(S) -> real,
    st: Seq<MultibodyLinkStatic<S, Dim3>>,
    ws: Seq<MultibodyLinkWorkspace<S, Dim3>>,
    parent: Pose<S, Dim3>,
    k: int,
    rot: <Dim3 as Space<S>>::R,
    c0: Seq<S>,
    c1: Seq<S>,
    i: int,
    by: S,
    x: <Dim3 as Space<S>>::V,
)
    requires
        exact(v),
        v(two_spec::<S>()) == 2real,
        0 <= i < <Dim3 as Space<S>>::dimension_spec().lin_spec(),
        !has_axis(st[k].data.locked_axes, i),
        raised(v, c0, c1, i, v(by)),
        0 <= st[k].parent_link_id < k,
        parent == ws[st[k].parent_link_id as int].local_to_world,
    ensures
        ({
            let joint = st[k].data;
            let p0 = parent.after_spec(body_to_parent_spec(joint, rot, c0));
            let p1 = parent.after_spec(body_to_parent_spec(joint, rot, c1));
            let column = joint_column_spec::<S, Dim3>(
                joint.locked_axes,
                joint_frame_rot(st, ws, k),
                free_axes(joint.locked_axes, 0, i),
            );
            vector_value::<S, Dim3>(v, p1.point_spec(x)) == r3_add(
                vector_value::<S, Dim3>(v, p0.point_spec(x)),
                r3_scale(vector_value::<S, Dim3>(v, column.linear), v(by)),
            )
        }),
{
    space_is_geometric(v);
    space_is_spatial(v);
    space_rotations_compose(v);
    lemma_column::<S, Dim3>(v, st, ws, parent, k, rot, c0, c1, i, by, x);
}

} // verus!
