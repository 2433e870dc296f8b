//! Impulse joints with a multibody on at least one side.
use super::contact_constraints::mb_jacobians;
use super::gravity_and_lu::{mb_at, mb_at_spec, mb_listed};
use super::impulse_joint_helper::{
    AxisId, AxisTarget, JointConstraintHelper, axis_forces, axis_list, axis_list_fits_slots,
    axis_target, compute_axis_forces, compute_axis_target, helper_spec, list_axes, new_helper,
};
use super::impulse_joint_jacobians::{
    SideRow, axis_stride, axis_stride_spec, body_row, fill_body_jacobians, fill_mb_jacobians,
    fill_relative_mb_jacobians, link_row, relative_row, wj_id,
};
use super::solve_constraints::{body_vels_at, body_vels_view};
use super::types::{
    MbImpulseJointBuilder, MbImpulseJointConstraint, MultibodyInfo, MultibodyLinkWorkspace,
    SIDE_KIND_BODY, SIDE_KIND_FIXED, SIDE_KIND_MB, WorldMassProperties, max_axis_constraints,
    max_axis_constraints_spec,
};
use crate::batch::{BatchIndices, mbi_spec, room};
use crate::scalar::Scalar;
use crate::sim_params::ConstraintSoftness;
use crate::space::{Dimension, Pose, Space, Velocity};
use crate::threads::{lemma_next_visit, visits};
use crate::views::{VecView, vec_get, vec_of};
use vstd::prelude::*;

verus! {

// ---- sides ----

/// One side of a joint.
#[derive(Clone, Copy)]
pub struct SideCtx {
    /// `SIDE_KIND_*`.
    pub side_kind: u32,
    pub side_id: u32,
    pub side_link: u32,
    pub ndofs: u32,
    /// The multibody, where there is one.
    pub mb: MultibodyInfo,
}

/// What the joints of batch `b` are attached to.
pub struct JointScene<S: Scalar, D: Space<S>> {
    pub ids: BatchIndices,
    pub b: int,
    pub info: Seq<MultibodyInfo>,
    pub links: Seq<MultibodyLinkWorkspace<S, D>>,
    pub body_jacobians: Seq<S>,
    pub poses: Seq<Pose<S, D>>,
    pub mprops: Seq<WorldMassProperties<S, D>>,
}

/// The side of a joint with its number of degrees of freedom.
pub open spec fn side_spec<S: Scalar, D: Space<S>>(
    sc: JointScene<S, D>,
    kind: u32,
    id: u32,
    link: u32,
) -> SideCtx {
    let mb = if kind == SIDE_KIND_MB {
        mb_at_spec(sc.ids, sc.b, id as int, sc.info)
    } else {
        MultibodyInfo::empty_spec()
    };
    SideCtx {
        side_kind: kind,
        side_id: id,
        side_link: link,
        ndofs: if kind == SIDE_KIND_BODY {
            D::dimension_spec().spatial_spec() as u32
        } else if kind == SIDE_KIND_MB {
            mb.ndofs
        } else {
            0
        },
        mb: mb,
    }
}

/// The pose of a side in world space.
pub open spec fn side_pose<S: Scalar, D: Space<S>>(
    sc: JointScene<S, D>,
    s: SideCtx,
) -> Pose<S, D> {
    if s.side_kind == SIDE_KIND_FIXED {
        Pose::identity_spec()
    } else if s.side_kind == SIDE_KIND_BODY {
        sc.poses[s.side_id as int]
    } else {
        sc.links[mbi_spec(
            sc.ids.num_batches as int,
            sc.b,
            s.mb.first_link + s.side_link,
        )].local_to_world
    }
}

/// What a side names exists.
pub open spec fn side_ok<S: Scalar, D: Space<S>>(
    sc: JointScene<S, D>,
    kind: u32,
    id: u32,
    link: u32,
) -> bool {
    let s = side_spec(sc, kind, id, link);
    &&& kind <= SIDE_KIND_FIXED
    &&& kind == SIDE_KIND_BODY ==> id < sc.poses.len() && id < sc.mprops.len()
    &&& kind == SIDE_KIND_MB ==> {
        &&& mb_listed(sc.ids, sc.b, id as int, sc.info)
        &&& link < s.mb.num_links
        &&& mbi_spec(sc.ids.num_batches as int, sc.b, s.mb.first_link + link) < sc.links.len()
        &&& room(
            sc.ids.num_batches as int,
            sc.b,
            s.mb.jacobian_offset as int,
            s.mb.num_links * D::dimension_spec().spatial_spec() * s.mb.ndofs,
            sc.body_jacobians.len() as int,
        )
    }
}

/// The row of one side of a joint under a unit force and torque.
pub open spec fn side_row<S: Scalar, D: Space<S>>(
    sc: JointScene<S, D>,
    s: SideCtx,
    f: Velocity<S, D>,
) -> SideRow<S> {
    if s.side_kind == SIDE_KIND_BODY {
        body_row(f, sc.mprops[s.side_id as int])
    } else if s.side_kind == SIDE_KIND_MB {
        SideRow {
            jac: link_row(
                mb_jacobians::<S, D>(sc.ids, sc.b, s.mb, sc.body_jacobians)(s.side_link as int),
                f,
                s.mb.ndofs as int,
            ),
            response: Seq::empty(),
        }
    } else {
        SideRow { jac: Seq::empty(), response: Seq::empty() }
    }
}

/// Whether a joint closes a loop within one multibody. In space such a joint
/// has one row, the difference of its sides, on side B.
pub open spec fn closes_loop<S: Scalar, D: Space<S>>(a: SideCtx, b: SideCtx) -> bool {
    &&& D::dimension_spec() == Dimension::Three
    &&& a.side_kind == SIDE_KIND_MB
    &&& b.side_kind == SIDE_KIND_MB
    &&& a.side_id == b.side_id
}

/// The rows of both sides of a joint.
pub open spec fn joint_rows<S: Scalar, D: Space<S>>(
    sc: JointScene<S, D>,
    a: SideCtx,
    b: SideCtx,
    f: (Velocity<S, D>, Velocity<S, D>),
) -> (SideRow<S>, SideRow<S>) {
    if closes_loop::<S, D>(a, b) {
        let jacs = mb_jacobians::<S, D>(sc.ids, sc.b, b.mb, sc.body_jacobians);
        (
            SideRow { jac: Seq::empty(), response: Seq::empty() },
            SideRow {
                jac: relative_row(
                    jacs(a.side_link as int),
                    f.0,
                    jacs(b.side_link as int),
                    f.1,
                    b.mb.ndofs as int,
                ),
                response: Seq::empty(),
            },
        )
    } else {
        (side_row(sc, a, f.0), side_row(sc, b, f.1))
    }
}

/// A constraint of a joint before its effective mass is known.
pub open spec fn axis_constraint<S: Scalar, D: Space<S>>(
    a: SideCtx,
    b: SideCtx,
    joint_id: u32,
    id: AxisId,
    t: AxisTarget<S>,
    j_id: int,
) -> MbImpulseJointConstraint<S> {
    MbImpulseJointConstraint {
        kind: 1,
        joint_id: joint_id,
        writeback_kind: id.kind,
        writeback_axis: id.axis,
        side_a_kind: a.side_kind,
        side_a_id: a.side_id,
        side_a_link: a.side_link,
        ndofs_a: if closes_loop::<S, D>(a, b) {
            0
        } else {
            a.ndofs
        },
        side_b_kind: b.side_kind,
        side_b_id: b.side_id,
        side_b_link: b.side_link,
        ndofs_b: b.ndofs,
        j_id_a: j_id as u32,
        j_id_b: (j_id + 2 * a.ndofs) as u32,
        impulse: S::zero_spec(),
        impulse_lo: t.impulse_lo,
        impulse_hi: t.impulse_hi,
        inv_lhs: S::zero_spec(),
        rhs: t.rhs,
        rhs_wo_bias: t.rhs_wo_bias,
        cfm_coeff: t.cfm_coeff,
        cfm_gain: t.cfm_gain,
    }
}

// ---- the buffers of the joints ----

/// `buf` with `row` written at `at`.
pub open spec fn written<S>(buf: Seq<S>, at: int, row: Seq<S>) -> Seq<S> {
    Seq::new(
        buf.len(),
        |e: int|
            if at <= e < at + row.len() {
                row[e - at]
            } else {
                buf[e]
            },
    )
}

fn write_row<S: Copy>(buf: &mut [S], at: usize, row: &Vec<S>)
    requires
        at + row@.len() <= old(buf)@.len(),
    ensures
        final(buf)@ == written(old(buf)@, at as int, row@),
{
    let ghost b0 = buf@;
    let n: usize = row.len();
    let len: usize = buf.len();
    let mut i: usize = 0;
    while i < n
        invariant
            n == row@.len(),
            at + n <= buf@.len(),
            buf@.len() == b0.len(),
            b0.len() == len,
            i <= n,
            forall|e: int|
                0 <= e < b0.len() ==> #[trigger] buf@[e] == (if at <= e < at + i {
                    row@[e - at]
                } else {
                    b0[e]
                }),
        decreases n - i,
    {
        buf[at + i] = row[i];
        i = i + 1;
    }
    assert(buf@ =~= written(b0, at as int, row@));
}

/// The jacobian buffer with the block of one constraint written at `j`.
pub open spec fn block_written<S>(
    buf: Seq<S>,
    j: int,
    ndofs_a: int,
    ndofs_b: int,
    a: SideRow<S>,
    b: SideRow<S>,
) -> Seq<S> {
    let wa = written(written(buf, j, a.jac), j + ndofs_a, a.response);
    written(
        written(wa, j + 2 * ndofs_a, b.jac),
        j + 2 * ndofs_a + ndofs_b,
        b.response,
    )
}

/// Constraint slots and jacobians.
pub struct JointBuffers<S: Scalar> {
    pub cons: Seq<MbImpulseJointConstraint<S>>,
    pub jacs: Seq<S>,
}

/// A joint with its sides and frames resolved.
pub struct ResolvedJoint<S: Scalar, D: Space<S>> {
    pub a: SideCtx,
    pub b: SideCtx,
    pub helper: JointConstraintHelper<S, D>,
}

pub open spec fn resolved<S: Scalar, D: Space<S>>(
    sc: JointScene<S, D>,
    builder: MbImpulseJointBuilder<S, D>,
) -> ResolvedJoint<S, D> {
    let a = side_spec(sc, builder.side_a_kind, builder.side_a_id, builder.side_a_link);
    let b = side_spec(sc, builder.side_b_kind, builder.side_b_id, builder.side_b_link);
    let pa = side_pose(sc, a);
    let pb = side_pose(sc, b);
    ResolvedJoint {
        a: a,
        b: b,
        helper: helper_spec(
            pa.after_spec(builder.joint.local_frame_a),
            pb.after_spec(builder.joint.local_frame_b),
            pa.translation,
            pb.translation,
            builder.joint.locked_axes,
        ),
    }
}

/// The slots from `base` on, cleared.
pub open spec fn cleared<S: Scalar>(
    cons: Seq<MbImpulseJointConstraint<S>>,
    base: int,
    n: int,
) -> Seq<MbImpulseJointConstraint<S>> {
    Seq::new(
        cons.len(),
        |e: int|
            if base <= e < base + n {
                MbImpulseJointConstraint { kind: 0, impulse: S::zero_spec(), ..cons[e] }
            } else {
                cons[e]
            },
    )
}

/// First constraint slot of a joint of batch `b`.
pub open spec fn joint_cons_base<S: Scalar, D: Space<S>>(
    ids: BatchIndices,
    b: int,
    builder: MbImpulseJointBuilder<S, D>,
) -> int {
    b * ids.mb_imp_joint_constraints_batch_capacity + builder.constraint_id
}

/// First jacobian entry of a joint of batch `b`.
pub open spec fn joint_jac_base<S: Scalar, D: Space<S>>(
    ids: BatchIndices,
    b: int,
    builder: MbImpulseJointBuilder<S, D>,
) -> int {
    b * ids.mb_imp_joint_jacobians_batch_capacity + builder.jacobian_offset
}

/// The buffers after the first `k` constraints of a joint.
pub open spec fn axes_built<S: Scalar, D: Space<S>>(
    sc: JointScene<S, D>,
    soft: ConstraintSoftness<S>,
    builder: MbImpulseJointBuilder<S, D>,
    st0: JointBuffers<S>,
    k: int,
) -> JointBuffers<S>
    decreases k,
{
    let base = joint_cons_base(sc.ids, sc.b, builder);
    if k <= 0 {
        JointBuffers {
            cons: cleared(st0.cons, base, max_axis_constraints_spec(D::dimension_spec())),
            jacs: st0.jacs,
        }
    } else {
        let p = axes_built(sc, soft, builder, st0, k - 1);
        let r = resolved(sc, builder);
        let id = axis_list(builder.joint)[k - 1];
        let rows = joint_rows(sc, r.a, r.b, axis_forces(r.helper, id));
        let j = joint_jac_base(sc.ids, sc.b, builder) + (k - 1) * axis_stride_spec(
            r.a.ndofs as int,
            r.b.ndofs as int,
        );
        JointBuffers {
            cons: p.cons.update(
                base + k - 1,
                axis_constraint::<S, D>(
                    r.a,
                    r.b,
                    builder.joint_id,
                    id,
                    axis_target(r.helper, id, builder.joint, soft),
                    j,
                ),
            ),
            jacs: block_written(
                p.jacs,
                j,
                r.a.ndofs as int,
                r.b.ndofs as int,
                rows.0,
                rows.1,
            ),
        }
    }
}

/// The buffers after building all constraints of a joint.
pub open spec fn joint_built<S: Scalar, D: Space<S>>(
    sc: JointScene<S, D>,
    soft: ConstraintSoftness<S>,
    builder: MbImpulseJointBuilder<S, D>,
    st: JointBuffers<S>,
) -> JointBuffers<S> {
    axes_built(sc, soft, builder, st, axis_list(builder.joint).len() as int)
}

/// The slots and the blocks of a joint are there, and so is what it names.
pub open spec fn joint_ok<S: Scalar, D: Space<S>>(
    sc: JointScene<S, D>,
    builder: MbImpulseJointBuilder<S, D>,
    cons_len: int,
    jacs_len: int,
) -> bool {
    let r = resolved(sc, builder);
    let max = max_axis_constraints_spec(D::dimension_spec());
    let jend = joint_jac_base(sc.ids, sc.b, builder) + max * axis_stride_spec(
        r.a.ndofs as int,
        r.b.ndofs as int,
    );
    &&& joint_cons_base(sc.ids, sc.b, builder) + max <= cons_len
    &&& cons_len <= usize::MAX
    &&& jend <= jacs_len
    &&& jacs_len <= usize::MAX
    &&& jend <= u32::MAX
    &&& side_ok(sc, builder.side_a_kind, builder.side_a_id, builder.side_a_link)
    &&& side_ok(sc, builder.side_b_kind, builder.side_b_id, builder.side_b_link)
}

/// What the joints of batch `b` are attached to, out of the shared buffers.
pub open spec fn joint_scene<S: Scalar, D: Space<S>>(
    ids: BatchIndices,
    b: int,
    info: Seq<MultibodyInfo>,
    links: Seq<MultibodyLinkWorkspace<S, D>>,
    body_jacobians: Seq<S>,
    poses: Seq<Pose<S, D>>,
    mprops: Seq<WorldMassProperties<S, D>>,
) -> JointScene<S, D> {
    JointScene {
        ids: ids,
        b: b,
        info: info,
        links: links,
        body_jacobians: body_jacobians,
        poses: vec_of(poses, body_vels_view(ids, b)),
        mprops: vec_of(mprops, body_vels_view(ids, b)),
    }
}

fn resolve_side<S: Scalar, D: Space<S>>(
    kind: u32,
    id: u32,
    link: u32,
    info: &[MultibodyInfo],
    ids: &BatchIndices,
    b: u32,
    Ghost(sc): Ghost<JointScene<S, D>>,
) -> (r: SideCtx)
    requires
        sc.ids == *ids,
        sc.b == b,
        sc.info == info@,
        side_ok(sc, kind, id, link),
    ensures
        r == side_spec(sc, kind, id, link),
{
    let mb = if kind == SIDE_KIND_MB {
        mb_at(ids, b, id, info)
    } else {
        MultibodyInfo::default()
    };
    SideCtx {
        side_kind: kind,
        side_id: id,
        side_link: link,
        ndofs: if kind == SIDE_KIND_BODY {
            D::dimension().spatial()
        } else if kind == SIDE_KIND_MB {
            mb.ndofs
        } else {
            0
        },
        mb: mb,
    }
}

/// The pose of a side in world space.
fn side_world_pose<S: Scalar, D: Space<S>>(
    s: &SideCtx,
    links: &[MultibodyLinkWorkspace<S, D>],
    poses: &[Pose<S, D>],
    fv: VecView,
    ids: &BatchIndices,
    b: u32,
    Ghost(sc): Ghost<JointScene<S, D>>,
) -> (r: Pose<S, D>)
    requires
        sc.ids == *ids,
        sc.b == b,
        sc.links == links@,
        sc.poses == vec_of(poses@, fv),
        fv.fits(poses@.len() as int),
        b < ids.num_batches,
        side_ok(sc, s.side_kind, s.side_id, s.side_link),
        *s == side_spec(sc, s.side_kind, s.side_id, s.side_link),
    ensures
        r == side_pose(sc, *s),
{
    if s.side_kind == SIDE_KIND_FIXED {
        return Pose::identity();
    }
    if s.side_kind == SIDE_KIND_BODY {
        return vec_get(poses, fv, s.side_id as usize);
    }
    let n: usize = links.len();
    let ghost k = s.mb.first_link + s.side_link;
    assert(0 <= k * ids.num_batches && k <= k * ids.num_batches) by (nonlinear_arith)
        requires
            k >= 0,
            ids.num_batches >= 1,
    ;
    let at: usize = ids.mbi(b, s.mb.first_link as usize + s.side_link as usize);
    links[at].local_to_world
}

fn build_side_row<S: Scalar, D: Space<S>>(
    s: &SideCtx,
    f: Velocity<S, D>,
    body_jacobians: &[S],
    mprops: &[WorldMassProperties<S, D>],
    fv: VecView,
    ids: &BatchIndices,
    b: u32,
    Ghost(sc): Ghost<JointScene<S, D>>,
) -> (r: (Vec<S>, Vec<S>))
    requires
        sc.ids == *ids,
        sc.b == b,
        sc.body_jacobians == body_jacobians@,
        sc.mprops == vec_of(mprops@, fv),
        fv.fits(mprops@.len() as int),
        side_ok(sc, s.side_kind, s.side_id, s.side_link),
        *s == side_spec(sc, s.side_kind, s.side_id, s.side_link),
    ensures
        r.0@ == side_row(sc, *s, f).jac,
        r.1@ == side_row(sc, *s, f).response,
{
    if s.side_kind == SIDE_KIND_BODY {
        let mp = vec_get(mprops, fv, s.side_id as usize);
        fill_body_jacobians(f, mp)
    } else if s.side_kind == SIDE_KIND_MB {
        let j = fill_mb_jacobians(&s.mb, s.side_link, f, body_jacobians, ids, b);
        let w: Vec<S> = Vec::new();
        assert(w@ =~= Seq::empty());
        (j, w)
    } else {
        let j: Vec<S> = Vec::new();
        let w: Vec<S> = Vec::new();
        assert(j@ =~= Seq::empty() && w@ =~= Seq::empty());
        (j, w)
    }
}

/// Builds the rows of one constraint and writes them, then builds the
/// constraint.
fn lock_jacobians_generic<S: Scalar, D: Space<S>>(
    a: &SideCtx,
    bs: &SideCtx,
    joint_id: u32,
    id: AxisId,
    t: AxisTarget<S>,
    f: (Velocity<S, D>, Velocity<S, D>),
    jacobians: &mut [S],
    j: u32,
    body_jacobians: &[S],
    mprops: &[WorldMassProperties<S, D>],
    fv: VecView,
    ids: &BatchIndices,
    b: u32,
    Ghost(sc): Ghost<JointScene<S, D>>,
) -> (r: MbImpulseJointConstraint<S>)
    requires
        sc.ids == *ids,
        sc.b == b,
        sc.body_jacobians == body_jacobians@,
        sc.mprops == vec_of(mprops@, fv),
        fv.fits(mprops@.len() as int),
        side_ok(sc, a.side_kind, a.side_id, a.side_link),
        *a == side_spec(sc, a.side_kind, a.side_id, a.side_link),
        side_ok(sc, bs.side_kind, bs.side_id, bs.side_link),
        *bs == side_spec(sc, bs.side_kind, bs.side_id, bs.side_link),
        j + axis_stride_spec(a.ndofs as int, bs.ndofs as int) <= old(jacobians)@.len(),
        j + axis_stride_spec(a.ndofs as int, bs.ndofs as int) <= u32::MAX,
    ensures
        r == axis_constraint::<S, D>(*a, *bs, joint_id, id, t, j as int),
        final(jacobians)@ == block_written(
            old(jacobians)@,
            j as int,
            a.ndofs as int,
            bs.ndofs as int,
            joint_rows(sc, *a, *bs, f).0,
            joint_rows(sc, *a, *bs, f).1,
        ),
{
    let len: usize = jacobians.len();
    let is_space = match D::dimension() {
        Dimension::Two => false,
        Dimension::Three => true,
    };
    let loops = is_space && a.side_kind == SIDE_KIND_MB && bs.side_kind == SIDE_KIND_MB
        && a.side_id == bs.side_id;
    assert(loops == closes_loop::<S, D>(*a, *bs));
    let jb_at: usize = j as usize + 2 * a.ndofs as usize;
    if loops {
        let row = fill_relative_mb_jacobians(
            &bs.mb,
            a.side_link,
            f.0,
            bs.side_link,
            f.1,
            body_jacobians,
            ids,
            b,
        );
        let ghost j0 = jacobians@;
        proof {
            let e = Seq::<S>::empty();
            assert(written(j0, j as int, e) =~= j0);
            assert(written(j0, j + a.ndofs, e) =~= j0);
        }
        write_row(jacobians, jb_at, &row);
        proof {
            let e = Seq::<S>::empty();
            let j1 = jacobians@;
            assert(written(j1, jb_at + bs.ndofs, e) =~= j1);
        }
    } else {
        let (ja, wa) = build_side_row(a, f.0, body_jacobians, mprops, fv, ids, b, Ghost(sc));
        let (jb, wb) = build_side_row(bs, f.1, body_jacobians, mprops, fv, ids, b, Ghost(sc));
        write_row(jacobians, j as usize, &ja);
        write_row(jacobians, wj_id(j, a.ndofs), &wa);
        write_row(jacobians, jb_at, &jb);
        write_row(jacobians, wj_id(jb_at as u32, bs.ndofs), &wb);
    }
    MbImpulseJointConstraint {
        kind: 1,
        joint_id: joint_id,
        writeback_kind: id.kind,
        writeback_axis: id.axis,
        side_a_kind: a.side_kind,
        side_a_id: a.side_id,
        side_a_link: a.side_link,
        ndofs_a: if loops {
            0
        } else {
            a.ndofs
        },
        side_b_kind: bs.side_kind,
        side_b_id: bs.side_id,
        side_b_link: bs.side_link,
        ndofs_b: bs.ndofs,
        j_id_a: j,
        j_id_b: jb_at as u32,
        impulse: S::zero(),
        impulse_lo: t.impulse_lo,
        impulse_hi: t.impulse_hi,
        inv_lhs: S::zero(),
        rhs: t.rhs,
        rhs_wo_bias: t.rhs_wo_bias,
        cfm_coeff: t.cfm_coeff,
        cfm_gain: t.cfm_gain,
    }
}

proof fn lemma_axes_built_len<S: Scalar, D: Space<S>>(
    sc: JointScene<S, D>,
    soft: ConstraintSoftness<S>,
    builder: MbImpulseJointBuilder<S, D>,
    st0: JointBuffers<S>,
    k: int,
)
    requires
        0 <= k <= axis_list(builder.joint).len(),
        joint_ok(sc, builder, st0.cons.len() as int, st0.jacs.len() as int),
        sc.b >= 0,
    ensures
        axes_built(sc, soft, builder, st0, k).cons.len() == st0.cons.len(),
        axes_built(sc, soft, builder, st0, k).jacs.len() == st0.jacs.len(),
    decreases k,
{
    axis_list_fits_slots(builder.joint);
    if k > 0 {
        lemma_axes_built_len(sc, soft, builder, st0, k - 1);
    }
}

proof fn lemma_block_range(base: int, k: int, max: int, stride: int)
    requires
        0 <= base,
        0 <= k < max,
        0 <= stride,
    ensures
        0 <= k * stride,
        base + k * stride + stride <= base + max * stride,
{
    assert(0 <= k * stride && (k + 1) * stride <= max * stride && (k + 1) * stride == k * stride
        + stride) by (nonlinear_arith)
        requires
            0 <= k,
            k + 1 <= max,
            0 <= stride,
    ;
}

/// Builds all constraints of one joint and their rows. The responses of
/// multibodies are left out.
pub fn update_one_joint<S: Scalar, D: Space<S>>(
    builder: &MbImpulseJointBuilder<S, D>,
    constraints: &mut [MbImpulseJointConstraint<S>],
    jacobians: &mut [S],
    multibody_info: &[MultibodyInfo],
    links_workspace: &[MultibodyLinkWorkspace<S, D>],
    body_jacobians: &[S],
    poses: &[Pose<S, D>],
    mprops: &[WorldMassProperties<S, D>],
    soft: ConstraintSoftness<S>,
    ids: &BatchIndices,
    b: u32,
)
    requires
        b < ids.num_batches,
        (b + 1) * ids.colliders_batch_capacity <= poses@.len() <= usize::MAX,
        (b + 1) * ids.colliders_batch_capacity <= mprops@.len() <= usize::MAX,
        joint_ok(
            joint_scene(
                *ids,
                b as int,
                multibody_info@,
                links_workspace@,
                body_jacobians@,
                poses@,
                mprops@,
            ),
            *builder,
            old(constraints)@.len() as int,
            old(jacobians)@.len() as int,
        ),
    ensures
        ({
            let st = joint_built(
                joint_scene(
                    *ids,
                    b as int,
                    multibody_info@,
                    links_workspace@,
                    body_jacobians@,
                    poses@,
                    mprops@,
                ),
                soft,
                *builder,
                JointBuffers { cons: old(constraints)@, jacs: old(jacobians)@ },
            );
            final(constraints)@ == st.cons && final(jacobians)@ == st.jacs
        }),
{
    let ghost sc = joint_scene(
        *ids,
        b as int,
        multibody_info@,
        links_workspace@,
        body_jacobians@,
        poses@,
        mprops@,
    );
    let ghost st0 = JointBuffers { cons: constraints@, jacs: jacobians@ };
    let fv = body_vels_at(ids, b, poses.len());
    let fm = body_vels_at(ids, b, mprops.len());
    let a = resolve_side::<S, D>(
        builder.side_a_kind,
        builder.side_a_id,
        builder.side_a_link,
        multibody_info,
        ids,
        b,
        Ghost(sc),
    );
    let bs = resolve_side::<S, D>(
        builder.side_b_kind,
        builder.side_b_id,
        builder.side_b_link,
        multibody_info,
        ids,
        b,
        Ghost(sc),
    );
    let pa = side_world_pose(&a, links_workspace, poses, fv, ids, b, Ghost(sc));
    let pb = side_world_pose(&bs, links_workspace, poses, fv, ids, b, Ghost(sc));
    let helper = new_helper(
        pa.after(builder.joint.local_frame_a),
        pb.after(builder.joint.local_frame_b),
        pa.translation,
        pb.translation,
        builder.joint.locked_axes,
    );
    let ghost r = resolved(sc, *builder);
    assert(r.a == a && r.b == bs && r.helper == helper);
    let max: u32 = max_axis_constraints(D::dimension());
    let clen: usize = constraints.len();
    let jlen: usize = jacobians.len();
    proof {
        assert(0 <= b * ids.mb_imp_joint_constraints_batch_capacity && 0 <= b
            * ids.mb_imp_joint_jacobians_batch_capacity) by (nonlinear_arith)
            requires
                b >= 0,
                ids.mb_imp_joint_constraints_batch_capacity >= 0,
                ids.mb_imp_joint_jacobians_batch_capacity >= 0,
        ;
    }
    let ghost stride_g = axis_stride_spec(a.ndofs as int, bs.ndofs as int);
    let ghost jbase_g = joint_jac_base(*ids, b as int, *builder);
    proof {
        lemma_block_range(jbase_g, 0, max as int, stride_g);
    }
    let base: usize = b as usize * ids.mb_imp_joint_constraints_batch_capacity as usize
        + builder.constraint_id as usize;
    let j_base: usize = b as usize * ids.mb_imp_joint_jacobians_batch_capacity as usize
        + builder.jacobian_offset as usize;
    let stride: u32 = axis_stride(a.ndofs, bs.ndofs);
    let mut s: usize = 0;
    while s < max as usize
        invariant
            base + max <= constraints@.len(),
            constraints@.len() == clen,
            st0.cons.len() == clen,
            s <= max,
            forall|e: int|
                0 <= e < clen ==> #[trigger] constraints@[e] == (if base <= e < base + s {
                    MbImpulseJointConstraint {
                        kind: 0,
                        impulse: S::zero_spec(),
                        ..st0.cons[e]
                    }
                } else {
                    st0.cons[e]
                }),
        decreases max - s,
    {
        let mut c = constraints[base + s];
        c.kind = 0;
        c.impulse = S::zero();
        constraints[base + s] = c;
        s = s + 1;
    }
    assert(constraints@ =~= cleared(st0.cons, base as int, max as int));
    let list = list_axes(&builder.joint);
    proof {
        axis_list_fits_slots(builder.joint);
    }
    let n: usize = list.len();
    let mut j: u32 = j_base as u32;
    let mut k: usize = 0;
    while k < n
        invariant
            b < ids.num_batches,
            sc == joint_scene(
                *ids,
                b as int,
                multibody_info@,
                links_workspace@,
                body_jacobians@,
                poses@,
                mprops@,
            ),
            fm == body_vels_view(*ids, b as int),
            fm.fits(mprops@.len() as int),
            joint_ok(sc, *builder, st0.cons.len() as int, st0.jacs.len() as int),
            r == resolved(sc, *builder),
            r.a == a,
            r.b == bs,
            r.helper == helper,
            a == side_spec(sc, a.side_kind, a.side_id, a.side_link),
            side_ok(sc, a.side_kind, a.side_id, a.side_link),
            bs == side_spec(sc, bs.side_kind, bs.side_id, bs.side_link),
            side_ok(sc, bs.side_kind, bs.side_id, bs.side_link),
            stride == axis_stride_spec(a.ndofs as int, bs.ndofs as int),
            base == joint_cons_base(*ids, b as int, *builder),
            jbase_g == joint_jac_base(*ids, b as int, *builder),
            jbase_g >= 0,
            max == max_axis_constraints_spec(D::dimension_spec()),
            list@ == axis_list(builder.joint),
            n == list@.len(),
            n <= max,
            forall|i: int|
                0 <= i < n ==> (#[trigger] list@[i]).kind <= 2 && list@[i].axis
                    < D::dimension_spec().spatial_spec(),
            k <= n,
            j == jbase_g + k * stride,
            constraints@ == axes_built(sc, soft, *builder, st0, k as int).cons,
            jacobians@ == axes_built(sc, soft, *builder, st0, k as int).jacs,
        decreases n - k,
    {
        proof {
            lemma_axes_built_len(sc, soft, *builder, st0, k as int);
            lemma_block_range(jbase_g, k as int, max as int, stride as int);
            assert((k + 1) * stride == k * stride + stride) by (nonlinear_arith);
        }
        let id = list[k];
        let f = compute_axis_forces(&helper, id);
        let t = compute_axis_target(&helper, id, &builder.joint, soft);
        let c = lock_jacobians_generic(
            &a,
            &bs,
            builder.joint_id,
            id,
            t,
            f,
            jacobians,
            j,
            body_jacobians,
            mprops,
            fm,
            ids,
            b,
            Ghost(sc),
        );
        constraints[base + k] = c;
        j = j + stride;
        k = k + 1;
    }
}

/// First entry of the block of constraint `k` of a joint.
pub open spec fn block_base<S: Scalar, D: Space<S>>(
    sc: JointScene<S, D>,
    builder: MbImpulseJointBuilder<S, D>,
    k: int,
) -> int {
    let r = resolved(sc, builder);
    joint_jac_base(sc.ids, sc.b, builder) + k * axis_stride_spec(
        r.a.ndofs as int,
        r.b.ndofs as int,
    )
}

/// The rows of constraint `k` of a joint.
pub open spec fn axis_rows<S: Scalar, D: Space<S>>(
    sc: JointScene<S, D>,
    builder: MbImpulseJointBuilder<S, D>,
    k: int,
) -> (SideRow<S>, SideRow<S>) {
    let r = resolved(sc, builder);
    joint_rows(sc, r.a, r.b, axis_forces(r.helper, axis_list(builder.joint)[k]))
}

/// A buffer holds `row` at `at`.
pub open spec fn holds_row<S>(buf: Seq<S>, at: int, row: Seq<S>) -> bool {
    forall|i: int| 0 <= i < row.len() ==> #[trigger] buf[at + i] == row[i]
}

/// A row, or its response, has one entry per degree of freedom or none.
pub open spec fn row_fits<S>(row: SideRow<S>, ndofs: int) -> bool {
    &&& row.jac.len() == ndofs || row.jac.len() == 0
    &&& row.response.len() == ndofs || row.response.len() == 0
}

proof fn lemma_rows_fit<S: Scalar, D: Space<S>>(
    sc: JointScene<S, D>,
    builder: MbImpulseJointBuilder<S, D>,
    k: int,
)
    ensures
        row_fits(axis_rows(sc, builder, k).0, resolved(sc, builder).a.ndofs as int),
        row_fits(axis_rows(sc, builder, k).1, resolved(sc, builder).b.ndofs as int),
{
}

proof fn lemma_holds_apart<S>(buf: Seq<S>, at: int, row: Seq<S>, at2: int, row2: Seq<S>)
    requires
        0 <= at,
        at + row.len() <= buf.len(),
        holds_row(buf, at, row),
        at + row.len() <= at2 || at2 + row2.len() <= at,
    ensures
        holds_row(written(buf, at2, row2), at, row),
{
    let out = written(buf, at2, row2);
    assert forall|i: int| 0 <= i < row.len() implies #[trigger] out[at + i] == row[i] by {
        assert(buf[at + i] == row[i]);
    }
}

/// Building one block keeps what lies outside it.
proof fn lemma_holds_outside_block<S>(
    buf: Seq<S>,
    at: int,
    row: Seq<S>,
    j: int,
    na: int,
    nb: int,
    a: SideRow<S>,
    b: SideRow<S>,
)
    requires
        0 <= at,
        at + row.len() <= buf.len(),
        holds_row(buf, at, row),
        0 <= na,
        0 <= nb,
        row_fits(a, na),
        row_fits(b, nb),
        at + row.len() <= j || j + axis_stride_spec(na, nb) <= at,
    ensures
        holds_row(block_written(buf, j, na, nb, a, b), at, row),
{
    let b1 = written(buf, j, a.jac);
    let b2 = written(b1, j + na, a.response);
    let b3 = written(b2, j + 2 * na, b.jac);
    lemma_holds_apart(buf, at, row, j, a.jac);
    lemma_holds_apart(b1, at, row, j + na, a.response);
    lemma_holds_apart(b2, at, row, j + 2 * na, b.jac);
    lemma_holds_apart(b3, at, row, j + 2 * na + nb, b.response);
}

/// A block holds the rows and responses that were written into it.
proof fn lemma_block_holds<S>(
    buf: Seq<S>,
    j: int,
    na: int,
    nb: int,
    a: SideRow<S>,
    b: SideRow<S>,
)
    requires
        0 <= j,
        0 <= na,
        0 <= nb,
        j + axis_stride_spec(na, nb) <= buf.len(),
        row_fits(a, na),
        row_fits(b, nb),
    ensures
        holds_row(block_written(buf, j, na, nb, a, b), j, a.jac),
        holds_row(block_written(buf, j, na, nb, a, b), j + na, a.response),
        holds_row(block_written(buf, j, na, nb, a, b), j + 2 * na, b.jac),
        holds_row(block_written(buf, j, na, nb, a, b), j + 2 * na + nb, b.response),
{
    let b1 = written(buf, j, a.jac);
    let b2 = written(b1, j + na, a.response);
    let b3 = written(b2, j + 2 * na, b.jac);
    assert(holds_row(b1, j, a.jac));
    lemma_holds_apart(b1, j, a.jac, j + na, a.response);
    assert(holds_row(b2, j + na, a.response));
    lemma_holds_apart(b2, j, a.jac, j + 2 * na, b.jac);
    lemma_holds_apart(b2, j + na, a.response, j + 2 * na, b.jac);
    assert(holds_row(b3, j + 2 * na, b.jac));
    lemma_holds_apart(b3, j, a.jac, j + 2 * na + nb, b.response);
    lemma_holds_apart(b3, j + na, a.response, j + 2 * na + nb, b.response);
    lemma_holds_apart(b3, j + 2 * na, b.jac, j + 2 * na + nb, b.response);
}

/// After a joint has been built, the block of each of its constraints holds the
/// constraint's rows and responses: no constraint overwrites another's block.
pub proof fn built_rows_read_back<S: Scalar, D: Space<S>>(
    sc: JointScene<S, D>,
    soft: ConstraintSoftness<S>,
    builder: MbImpulseJointBuilder<S, D>,
    st0: JointBuffers<S>,
    n: int,
    k: int,
)
    requires
        sc.b >= 0,
        joint_ok(sc, builder, st0.cons.len() as int, st0.jacs.len() as int),
        0 <= k < n <= axis_list(builder.joint).len(),
    ensures
        ({
            let jacs = axes_built(sc, soft, builder, st0, n).jacs;
            let r = resolved(sc, builder);
            let na = r.a.ndofs as int;
            let nb = r.b.ndofs as int;
            let j = block_base(sc, builder, k);
            let rows = axis_rows(sc, builder, k);
            &&& holds_row(jacs, j, rows.0.jac)
            &&& holds_row(jacs, j + na, rows.0.response)
            &&& holds_row(jacs, j + 2 * na, rows.1.jac)
            &&& holds_row(jacs, j + 2 * na + nb, rows.1.response)
        }),
    decreases n,
{
    axis_list_fits_slots(builder.joint);
    let r = resolved(sc, builder);
    let na = r.a.ndofs as int;
    let nb = r.b.ndofs as int;
    let stride = axis_stride_spec(na, nb);
    let base = joint_jac_base(sc.ids, sc.b, builder);
    let max = max_axis_constraints_spec(D::dimension_spec());
    assert(0 <= base) by {
        assert(0 <= sc.b * sc.ids.mb_imp_joint_jacobians_batch_capacity) by (nonlinear_arith)
            requires
                sc.b >= 0,
                sc.ids.mb_imp_joint_jacobians_batch_capacity >= 0,
        ;
    }
    lemma_block_range(base, n - 1, max, stride);
    lemma_block_range(base, k, max, stride);
    lemma_axes_built_len(sc, soft, builder, st0, n - 1);
    let p = axes_built(sc, soft, builder, st0, n - 1).jacs;
    let jn = block_base(sc, builder, n - 1);
    let rows_n = axis_rows(sc, builder, n - 1);
    lemma_rows_fit(sc, builder, n - 1);
    if k == n - 1 {
        lemma_block_holds(p, jn, na, nb, rows_n.0, rows_n.1);
    } else {
        built_rows_read_back(sc, soft, builder, st0, n - 1, k);
        lemma_rows_fit(sc, builder, k);
        let j = block_base(sc, builder, k);
        let rows = axis_rows(sc, builder, k);
        assert(k * stride + stride <= (n - 1) * stride) by (nonlinear_arith)
            requires
                k + 1 <= n - 1,
                stride >= 0,
        ;
        lemma_holds_outside_block(p, j, rows.0.jac, jn, na, nb, rows_n.0, rows_n.1);
        lemma_holds_outside_block(p, j + na, rows.0.response, jn, na, nb, rows_n.0, rows_n.1);
        lemma_holds_outside_block(p, j + 2 * na, rows.1.jac, jn, na, nb, rows_n.0, rows_n.1);
        lemma_holds_outside_block(
            p,
            j + 2 * na + nb,
            rows.1.response,
            jn,
            na,
            nb,
            rows_n.0,
            rows_n.1,
        );
    }
}

// ---- kernels over all joints of a batch ----

/// Unused builder slots are fixed on both sides.
pub open spec fn is_dummy<S: Scalar, D: Space<S>>(builder: MbImpulseJointBuilder<S, D>) -> bool {
    builder.side_a_kind == SIDE_KIND_FIXED && builder.side_b_kind == SIDE_KIND_FIXED
}

/// Joint `i` of batch `b`.
pub open spec fn joint_at<S: Scalar, D: Space<S>>(
    ids: BatchIndices,
    b: int,
    builders: Seq<MbImpulseJointBuilder<S, D>>,
    i: int,
) -> MbImpulseJointBuilder<S, D> {
    builders[b * ids.mb_imp_joints_batch_capacity + i]
}

/// The buffers after one thread has built the joints it visits among the first
/// `n`.
pub open spec fn joints_updated<S: Scalar, D: Space<S>>(
    sc: JointScene<S, D>,
    soft: ConstraintSoftness<S>,
    builders: Seq<MbImpulseJointBuilder<S, D>>,
    st0: JointBuffers<S>,
    x: int,
    threads: int,
    n: int,
) -> JointBuffers<S>
    decreases n,
{
    if n <= 0 {
        st0
    } else {
        let p = joints_updated(sc, soft, builders, st0, x, threads, n - 1);
        let builder = joint_at(sc.ids, sc.b, builders, n - 1);
        if visits(x, threads, n - 1) && !is_dummy(builder) {
            joint_built(sc, soft, builder, p)
        } else {
            p
        }
    }
}

proof fn lemma_joints_skipped<S: Scalar, D: Space<S>>(
    sc: JointScene<S, D>,
    soft: ConstraintSoftness<S>,
    builders: Seq<MbImpulseJointBuilder<S, D>>,
    st0: JointBuffers<S>,
    x: int,
    threads: int,
    from: int,
    to: int,
)
    requires
        0 <= from <= to,
        forall|i: int| from <= i < to ==> !#[trigger] visits(x, threads, i),
    ensures
        joints_updated(sc, soft, builders, st0, x, threads, to) == joints_updated(
            sc,
            soft,
            builders,
            st0,
            x,
            threads,
            from,
        ),
    decreases to - from,
{
    if from < to {
        lemma_joints_skipped(sc, soft, builders, st0, x, threads, from, to - 1);
        assert(!visits(x, threads, to - 1));
    }
}

/// The joints of the batch are there, and all that they name.
pub open spec fn joints_ok<S: Scalar, D: Space<S>>(
    sc: JointScene<S, D>,
    builders: Seq<MbImpulseJointBuilder<S, D>>,
    cons_len: int,
    jacs_len: int,
) -> bool {
    let cap = sc.ids.mb_imp_joints_batch_capacity;
    &&& (sc.b + 1) * cap <= builders.len() <= usize::MAX
    &&& forall|i: int|
        0 <= i < cap && !is_dummy(#[trigger] joint_at(sc.ids, sc.b, builders, i)) ==> joint_ok(
            sc,
            joint_at(sc.ids, sc.b, builders, i),
            cons_len,
            jacs_len,
        )
}

pub(crate) fn load_joint<S: Scalar, D: Space<S>>(
    ids: &BatchIndices,
    b: u32,
    builders: &[MbImpulseJointBuilder<S, D>],
    i: u32,
) -> (r: MbImpulseJointBuilder<S, D>)
    requires
        (b + 1) * ids.mb_imp_joints_batch_capacity <= builders@.len() <= usize::MAX,
        i < ids.mb_imp_joints_batch_capacity,
    ensures
        r == joint_at(*ids, b as int, builders@, i as int),
{
    let cap: usize = ids.mb_imp_joints_batch_capacity as usize;
    assert((b + 1) * cap == b * cap + cap && 0 <= b * cap) by (nonlinear_arith)
        requires
            b >= 0,
            cap >= 0,
    ;
    builders[b as usize * cap + i as usize]
}

/// Builds the constraints of every joint of batch `b` that thread `x` of
/// `threads` visits.
pub fn gpu_mb_update_impulse_joint_constraints<S: Scalar, D: Space<S>>(
    x: u32,
    threads: u32,
    b: u32,
    builders: &[MbImpulseJointBuilder<S, D>],
    constraints: &mut [MbImpulseJointConstraint<S>],
    jacobians: &mut [S],
    soft: ConstraintSoftness<S>,
    multibody_info: &[MultibodyInfo],
    links_workspace: &[MultibodyLinkWorkspace<S, D>],
    body_jacobians: &[S],
    poses: &[Pose<S, D>],
    mprops: &[WorldMassProperties<S, D>],
    ids: &BatchIndices,
)
    requires
        threads > 0,
        b < ids.num_batches,
        (b + 1) * ids.colliders_batch_capacity <= poses@.len() <= usize::MAX,
        (b + 1) * ids.colliders_batch_capacity <= mprops@.len() <= usize::MAX,
        joints_ok(
            joint_scene(
                *ids,
                b as int,
                multibody_info@,
                links_workspace@,
                body_jacobians@,
                poses@,
                mprops@,
            ),
            builders@,
            old(constraints)@.len() as int,
            old(jacobians)@.len() as int,
        ),
    ensures
        ({
            let st = joints_updated(
                joint_scene(
                    *ids,
                    b as int,
                    multibody_info@,
                    links_workspace@,
                    body_jacobians@,
                    poses@,
                    mprops@,
                ),
                soft,
                builders@,
                JointBuffers { cons: old(constraints)@, jacs: old(jacobians)@ },
                x as int,
                threads as int,
                ids.mb_imp_joints_batch_capacity as int,
            );
            final(constraints)@ == st.cons && final(jacobians)@ == st.jacs
        }),
{
    let ghost sc = joint_scene(
        *ids,
        b as int,
        multibody_info@,
        links_workspace@,
        body_jacobians@,
        poses@,
        mprops@,
    );
    let ghost st0 = JointBuffers { cons: constraints@, jacs: jacobians@ };
    let cap: u32 = ids.mb_imp_joints_batch_capacity;
    let ghost xi = x as int;
    let ghost ti = threads as int;
    let mut i: u64 = x as u64;
    proof {
        if x <= cap {
            lemma_joints_skipped(sc, soft, builders@, st0, xi, ti, 0, x as int);
        } else {
            lemma_joints_skipped(sc, soft, builders@, st0, xi, ti, 0, cap as int);
        }
        assert(visits(xi, ti, xi)) by {
            assert(0int % ti == 0) by (nonlinear_arith)
                requires
                    ti > 0,
            ;
        }
    }
    while i < cap as u64
        invariant
            threads > 0,
            xi == x,
            ti == threads,
            b < ids.num_batches,
            cap == ids.mb_imp_joints_batch_capacity,
            (b + 1) * ids.colliders_batch_capacity <= poses@.len() <= usize::MAX,
            (b + 1) * ids.colliders_batch_capacity <= mprops@.len() <= usize::MAX,
            sc == joint_scene(
                *ids,
                b as int,
                multibody_info@,
                links_workspace@,
                body_jacobians@,
                poses@,
                mprops@,
            ),
            joints_ok(sc, builders@, st0.cons.len() as int, st0.jacs.len() as int),
            constraints@.len() == st0.cons.len(),
            jacobians@.len() == st0.jacs.len(),
            visits(xi, ti, i as int),
            i <= cap + threads || i == x,
            ({
                let st = joints_updated(
                    sc,
                    soft,
                    builders@,
                    st0,
                    xi,
                    ti,
                    if i <= cap {
                        i as int
                    } else {
                        cap as int
                    },
                );
                constraints@ == st.cons && jacobians@ == st.jacs
            }),
        decreases cap + threads - i,
    {
        let builder = load_joint(ids, b, builders, i as u32);
        assert(builder == joint_at(*ids, b as int, builders@, i as int));
        let dummy = builder.side_a_kind == SIDE_KIND_FIXED && builder.side_b_kind
            == SIDE_KIND_FIXED;
        if !dummy {
            let ghost c0 = constraints@;
            let ghost j0 = jacobians@;
            proof {
                lemma_axes_built_len(
                    sc,
                    soft,
                    builder,
                    JointBuffers { cons: c0, jacs: j0 },
                    axis_list(builder.joint).len() as int,
                );
            }
            update_one_joint(
                &builder,
                constraints,
                jacobians,
                multibody_info,
                links_workspace,
                body_jacobians,
                poses,
                mprops,
                soft,
                ids,
                b,
            );
        }
        proof {
            let to = if i + threads <= cap {
                i + threads
            } else {
                cap as int
            };
            assert forall|q: int| i + 1 <= q < to implies !#[trigger] visits(xi, ti, q) by {
                lemma_next_visit(xi, ti, i as int, q);
            }
            lemma_joints_skipped(sc, soft, builders@, st0, xi, ti, i + 1, to);
            lemma_next_visit(xi, ti, i as int, i + threads);
        }
        i = i + threads as u64;
    }
}

} // verus!
