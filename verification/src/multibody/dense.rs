//! Kernels over the dense layout: batch `b` owns the entries from `b` times
//! the capacity of one batch.
use super::gravity::{accelerated, assembled, damped, jac_of, parents_first};
use super::gravity_and_lu::{assemble_forces, jac_blocks};
use super::kinematics::{
    bodies_in_range, forward_kinematics, placed, published, root_pose_spec,
};
use super::types::{MultibodyInfo, MultibodyLinkStatic, MultibodyLinkWorkspace};
use crate::batch::BatchIndices;
use crate::scalar::Scalar;
use crate::space::{Pose, Space};
use crate::views::{VecView, same_outside_vec, vec_of};
use vstd::prelude::*;

verus! {

/// Entries `first..first + len` of batch `b`.
pub open spec fn dense_view_spec(b: int, capacity: int, first: int, len: int) -> VecView {
    VecView { base: (b * capacity + first) as usize, stride: 1, len: len as usize }
}

/// Those entries lie in a buffer of `n`.
pub open spec fn dense_room(b: int, capacity: int, first: int, len: int, n: int) -> bool {
    &&& n <= usize::MAX
    &&& b * capacity + first + len <= n
}

fn dense_view(b: u32, capacity: u32, first: u32, len: u32, n: usize) -> (v: VecView)
    requires
        dense_room(b as int, capacity as int, first as int, len as int, n as int),
    ensures
        v == dense_view_spec(b as int, capacity as int, first as int, len as int),
        v.fits(n as int),
        v.len == len,
{
    assert(0 <= b * capacity) by (nonlinear_arith)
        requires
            b >= 0,
            capacity >= 0,
    ;
    VecView {
        base: b as usize * capacity as usize + first as usize,
        stride: 1,
        len: len as usize,
    }
}

/// Sizes of one batch in the dense layout.
#[derive(Clone, Copy, Debug)]
pub struct DenseCapacities {
    pub multibodies: u32,
    pub links: u32,
    pub colliders: u32,
    pub jacobians: u32,
    pub dofs: u32,
}

/// The descriptor of multibody `i` of batch `b`, if the batch has it.
pub open spec fn dense_mb(
    b: int,
    i: int,
    cap: DenseCapacities,
    info: Seq<MultibodyInfo>,
    num: Seq<u32>,
) -> Option<MultibodyInfo> {
    if i < num[b] {
        Some(info[b * cap.multibodies + i])
    } else {
        None
    }
}

fn read_dense_mb(
    b: u32,
    i: u32,
    cap: DenseCapacities,
    info: &[MultibodyInfo],
    num: &[u32],
) -> (r: Option<MultibodyInfo>)
    requires
        b < num@.len(),
        i < num@[b as int] ==> b * cap.multibodies + i < info@.len(),
    ensures
        r == dense_mb(b as int, i as int, cap, info@, num@),
{
    let count: u32 = num[b as usize];
    let n: usize = info.len();
    if i >= count {
        return None;
    }
    assert(0 <= b * cap.multibodies) by (nonlinear_arith)
        requires
            b >= 0,
            cap.multibodies >= 0,
    ;
    Some(info[b as usize * cap.multibodies as usize + i as usize])
}

/// Forward kinematics of one multibody.
pub fn gpu_mb_forward_kinematics<S: Scalar, D: Space<S>>(
    mb_idx: u32,
    b: u32,
    multibody_info: &[MultibodyInfo],
    links_static: &[MultibodyLinkStatic<S, D>],
    links_workspace: &mut [MultibodyLinkWorkspace<S, D>],
    poses: &mut [Pose<S, D>],
    num_multibodies: &[u32],
    cap: DenseCapacities,
)
    requires
        b < num_multibodies@.len(),
        mb_idx < num_multibodies@[b as int] ==> b * cap.multibodies + mb_idx
            < multibody_info@.len(),
        match dense_mb(b as int, mb_idx as int, cap, multibody_info@, num_multibodies@) {
            Some(mb) => {
                let lv = dense_view_spec(
                    b as int,
                    cap.links as int,
                    mb.first_link as int,
                    mb.num_links as int,
                );
                &&& mb.num_links > 0
                &&& dense_room(
                    b as int,
                    cap.links as int,
                    mb.first_link as int,
                    mb.num_links as int,
                    links_static@.len() as int,
                )
                &&& links_static@.len() <= old(links_workspace)@.len() <= usize::MAX
                &&& dense_room(
                    b as int,
                    cap.colliders as int,
                    0,
                    cap.colliders as int,
                    old(poses)@.len() as int,
                )
                &&& parents_first(vec_of(links_static@, lv))
                &&& bodies_in_range(vec_of(links_static@, lv), cap.colliders as int)
            },
            None => true,
        },
    ensures
        match dense_mb(b as int, mb_idx as int, cap, multibody_info@, num_multibodies@) {
            Some(mb) => {
                let lv = dense_view_spec(
                    b as int,
                    cap.links as int,
                    mb.first_link as int,
                    mb.num_links as int,
                );
                let pv = dense_view_spec(
                    b as int,
                    cap.colliders as int,
                    0,
                    cap.colliders as int,
                );
                let st = vec_of(links_static@, lv);
                let ws0 = vec_of(old(links_workspace)@, lv);
                let poses0 = vec_of(old(poses)@, pv);
                let dynamic = mb.root_is_dynamic != 0;
                let root = root_pose_spec(dynamic, st, ws0, poses0);
                &&& vec_of(final(links_workspace)@, lv) == placed(
                    st,
                    ws0,
                    root,
                    mb.num_links as int,
                )
                &&& same_outside_vec(old(links_workspace)@, final(links_workspace)@, lv)
                &&& vec_of(final(poses)@, pv) == published(
                    dynamic,
                    st,
                    ws0,
                    root,
                    poses0,
                    mb.num_links as int,
                )
                &&& same_outside_vec(old(poses)@, final(poses)@, pv)
            },
            None => {
                &&& final(links_workspace)@ == old(links_workspace)@
                &&& final(poses)@ == old(poses)@
            },
        },
{
    let mb = match read_dense_mb(b, mb_idx, cap, multibody_info, num_multibodies) {
        Some(mb) => mb,
        None => {
            return ;
        },
    };
    let lv = dense_view(b, cap.links, mb.first_link, mb.num_links, links_static.len());
    let pv = dense_view(b, cap.colliders, 0, cap.colliders, poses.len());
    forward_kinematics(&mb, links_static, links_workspace, lv, poses, pv);
}

/// Gravity, inertia and damping forces of one multibody.
pub fn gpu_mb_apply_gravity_with_coriolis<S: Scalar, D: Space<S>>(
    mb_idx: u32,
    b: u32,
    multibody_info: &[MultibodyInfo],
    links_static: &[MultibodyLinkStatic<S, D>],
    links_workspace: &mut [MultibodyLinkWorkspace<S, D>],
    body_jacobians: &[S],
    gen_forces: &mut [S],
    dof_velocities: &[S],
    damping: &[S],
    num_multibodies: &[u32],
    gravity: D::V,
    cap: DenseCapacities,
)
    requires
        b < num_multibodies@.len(),
        mb_idx < num_multibodies@[b as int] ==> b * cap.multibodies + mb_idx
            < multibody_info@.len(),
        match dense_mb(b as int, mb_idx as int, cap, multibody_info@, num_multibodies@) {
            Some(mb) => {
                let lv = dense_view_spec(
                    b as int,
                    cap.links as int,
                    mb.first_link as int,
                    mb.num_links as int,
                );
                let sd = D::dimension_spec().spatial_spec();
                &&& dense_room(
                    b as int,
                    cap.links as int,
                    mb.first_link as int,
                    mb.num_links as int,
                    links_static@.len() as int,
                )
                &&& links_static@.len() <= old(links_workspace)@.len() <= usize::MAX
                &&& dense_room(
                    b as int,
                    cap.dofs as int,
                    mb.first_dof as int,
                    mb.ndofs as int,
                    old(gen_forces)@.len() as int,
                )
                &&& old(gen_forces)@.len() <= dof_velocities@.len() <= usize::MAX
                &&& dof_velocities@.len() == damping@.len()
                &&& dense_room(
                    b as int,
                    cap.jacobians as int,
                    mb.jacobian_offset as int,
                    mb.num_links * sd * mb.ndofs,
                    body_jacobians@.len() as int,
                )
                &&& parents_first(vec_of(links_static@, lv))
            },
            None => true,
        },
    ensures
        match dense_mb(b as int, mb_idx as int, cap, multibody_info@, num_multibodies@) {
            Some(mb) => {
                let lv = dense_view_spec(
                    b as int,
                    cap.links as int,
                    mb.first_link as int,
                    mb.num_links as int,
                );
                let dv = dense_view_spec(
                    b as int,
                    cap.dofs as int,
                    mb.first_dof as int,
                    mb.ndofs as int,
                );
                let sd = D::dimension_spec().spatial_spec();
                let st = vec_of(links_static@, lv);
                let ws0 = vec_of(old(links_workspace)@, lv);
                &&& vec_of(final(links_workspace)@, lv) == accelerated(
                    st,
                    ws0,
                    mb.num_links as int,
                )
                &&& same_outside_vec(old(links_workspace)@, final(links_workspace)@, lv)
                &&& vec_of(final(gen_forces)@, dv) == damped(
                    assembled(
                        st,
                        ws0,
                        jac_of(
                            body_jacobians@,
                            jac_blocks(
                                1,
                                0,
                                b * cap.jacobians + mb.jacobian_offset,
                                sd,
                                mb.ndofs as int,
                            ),
                        ),
                        gravity,
                        mb.ndofs as int,
                        mb.num_links as int,
                    ),
                    vec_of(damping@, dv),
                    vec_of(dof_velocities@, dv),
                )
                &&& same_outside_vec(old(gen_forces)@, final(gen_forces)@, dv)
            },
            None => {
                &&& final(links_workspace)@ == old(links_workspace)@
                &&& final(gen_forces)@ == old(gen_forces)@
            },
        },
{
    let mb = match read_dense_mb(b, mb_idx, cap, multibody_info, num_multibodies) {
        Some(mb) => mb,
        None => {
            return ;
        },
    };
    let ids = BatchIndices {
        num_batches: 1,
        multibodies_len: 0,
        links_batch_capacity: 0,
        dof_batch_capacity: 0,
        contacts_batch_capacity: 0,
        colliders_batch_capacity: 0,
        coriolis_batch_capacity: 0,
        multibodies_batch_capacity: 0,
        joint_constraints_batch_capacity: 0,
        colliders_len: 0,
        bodies_len: 0,
        mass_matrix_batch_capacity: 0,
        mb_imp_joints_batch_capacity: 0,
        mb_imp_joint_constraints_batch_capacity: 0,
        mb_imp_joint_jacobians_batch_capacity: 0,
        mb_imp_joint_colors_batch_capacity: 0,
    };
    let lv = dense_view(b, cap.links, mb.first_link, mb.num_links, links_static.len());
    let dv = dense_view(b, cap.dofs, mb.first_dof, mb.ndofs, gen_forces.len());
    proof {
        let sd = D::dimension_spec().spatial_spec();
        assert(0 <= b * cap.jacobians && 0 <= mb.num_links * sd * mb.ndofs) by (nonlinear_arith)
            requires
                b >= 0,
                cap.jacobians >= 0,
                mb.num_links >= 0,
                sd >= 0,
                mb.ndofs >= 0,
        ;
    }
    let joff: usize = b as usize * cap.jacobians as usize + mb.jacobian_offset as usize;
    assemble_forces(
        &ids,
        0,
        joff,
        links_static,
        links_workspace,
        lv,
        body_jacobians,
        gen_forces,
        dv,
        gravity,
    );
    let n: usize = mb.ndofs as usize;
    let ghost t0 = vec_of(gen_forces@, dv);
    let ghost out = damped(t0, vec_of(damping@, dv), vec_of(dof_velocities@, dv));
    let ghost before = gen_forces@;
    let mut i: usize = 0;
    while i < n
        invariant
            dv.fits(before.len() as int),
            dv.fits(damping@.len() as int),
            dv.fits(dof_velocities@.len() as int),
            dv.len == n,
            i <= n,
            t0 == vec_of(before, dv),
            out == damped(t0, vec_of(damping@, dv), vec_of(dof_velocities@, dv)),
            same_outside_vec(before, gen_forces@, dv),
            forall|j: int|
                0 <= j < n ==> #[trigger] vec_of(gen_forces@, dv)[j] == (if j < i {
                    out[j]
                } else {
                    t0[j]
                }),
        decreases n - i,
    {
        let x = crate::views::vec_get(gen_forces, dv, i).minus(
            crate::views::vec_get(damping, dv, i).times(
                crate::views::vec_get(dof_velocities, dv, i),
            ),
        );
        crate::views::vec_set(gen_forces, dv, i, x);
        i = i + 1;
    }
    assert(vec_of(gen_forces@, dv) =~= out);
}

} // verus!
