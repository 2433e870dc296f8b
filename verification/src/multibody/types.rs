//! Data of the multibody kernels: one record per multibody, link, constraint.
use crate::joint::GenericJoint;
use crate::scalar::Scalar;
use crate::space::{Dimension, Pose, Space, Velocity};
use vstd::prelude::*;

verus! {

/// Maximum number of simultaneously active contact points of one multibody.
pub const MAX_MB_CONTACTS_PER_MB: u32 = 64;

/// Number of constraint slots reserved per contact point: one normal and the
/// friction tangents.
pub open spec fn contact_constraints_per_point_spec(dim: Dimension) -> int {
    dim.lin_spec()
}

pub fn contact_constraints_per_point(dim: Dimension) -> (r: u32)
    ensures
        r == contact_constraints_per_point_spec(dim),
{
    dim.lin()
}

/// Number of constraint slots reserved per multibody.
pub open spec fn max_mb_contact_constraints_spec(dim: Dimension) -> int {
    64 * contact_constraints_per_point_spec(dim)
}

pub fn max_mb_contact_constraints(dim: Dimension) -> (r: u32)
    ensures
        r == max_mb_contact_constraints_spec(dim),
{
    MAX_MB_CONTACTS_PER_MB * contact_constraints_per_point(dim)
}

/// The `free_body_id` of a contact between two links of the multibody.
pub const NO_FREE_BODY: u32 = 0xffff_ffff;

/// `kind` of a contact constraint: unused slot.
pub const MB_CONTACT_KIND_INACTIVE: u32 = 0;

/// `kind` of a contact constraint: non-penetration.
pub const MB_CONTACT_KIND_NORMAL: u32 = 1;

/// `kind` of a contact constraint: friction.
pub const MB_CONTACT_KIND_TANGENT: u32 = 2;

/// The parent of a link without one.
pub const MULTIBODY_ROOT: u32 = 0xffff_ffff;

/// `kind` of a joint constraint: unused slot.
pub const MB_JOINT_KIND_INACTIVE: u32 = 0;

/// `kind` of a joint constraint: limit.
pub const MB_JOINT_KIND_LIMIT: u32 = 1;

/// `kind` of a joint constraint: motor.
pub const MB_JOINT_KIND_MOTOR: u32 = 2;

/// `kind` of a joint constraint: limit that does not act at present.
pub const MB_JOINT_KIND_LIMIT_INACTIVE: u32 = 3;

/// Mass properties of a body in its own frame.
#[derive(Clone, Copy)]
pub struct LocalMassProperties<S: Scalar, D: Space<S>> {
    pub inertia_ref_frame: D::R,
    /// Inverse principal moments of inertia.
    pub inv_principal_inertia: D::A,
    /// Inverse mass along each axis.
    pub inv_mass: D::V,
    pub com: D::V,
}

/// Inverse mass properties of a body in world space.
#[derive(Clone, Copy)]
pub struct WorldMassProperties<S: Scalar, D: Space<S>> {
    pub inv_inertia: D::I,
    pub inv_mass: D::V,
    pub com: D::V,
}

/// Configuration of one link, written once.
#[derive(Clone, Copy)]
pub struct MultibodyLinkStatic<S: Scalar, D: Space<S>> {
    /// Index of the rigid body behind this link.
    pub rb_id: u32,
    /// Parent link within the multibody, `MULTIBODY_ROOT` for the root.
    pub parent_link_id: u32,
    /// Index of the owning multibody.
    pub multibody_id: u32,
    /// First degree of freedom of this link's joint.
    pub assembly_id: u32,
    /// Number of degrees of freedom of this link's joint.
    pub ndofs: u32,
    /// 1 if the joint's velocities are user-controlled.
    pub kinematic: u32,
    pub data: GenericJoint<S, D>,
    pub local_mprops: LocalMassProperties<S, D>,
}

/// State of one link, updated every step.
#[derive(Clone, Copy)]
pub struct MultibodyLinkWorkspace<S: Scalar, D: Space<S>> {
    /// Accumulated joint rotation.
    pub joint_rot: D::R,
    /// Generalized coordinates by joint axis.
    pub coords: [S; 6],
    pub local_to_parent: Pose<S, D>,
    pub local_to_world: Pose<S, D>,
    /// From the parent's centre of mass to the joint, in world space.
    pub shift02: D::V,
    /// From the joint to this link's centre of mass, in world space.
    pub shift23: D::V,
    /// Velocity added by this joint, in world space.
    pub joint_velocity: Velocity<S, D>,
    /// Total velocity, in world space.
    pub rb_vels: Velocity<S, D>,
    /// Acceleration of the link at zero joint acceleration.
    pub kinematic_acc: Velocity<S, D>,
}

/// One constraint on a single degree of freedom, from a limit or a motor.
#[derive(Clone, Copy)]
pub struct MultibodyJointConstraint<S: Scalar> {
    /// The constrained degree of freedom within the multibody.
    pub dof_id: u32,
    /// `MB_JOINT_KIND_*`.
    pub kind: u32,
    /// The link in the low half, the joint axis in the high half.
    pub kind_extra: u32,
    pub rhs: S,
    pub rhs_wo_bias: S,
    pub inv_lhs: S,
    pub impulse: S,
    pub impulse_lo: S,
    pub impulse_hi: S,
    pub cfm_coeff: S,
    pub cfm_gain: S,
}

/// One contact constraint between a link and a free body.
#[derive(Clone, Copy)]
pub struct MultibodyContactConstraint<S: Scalar, D: Space<S>> {
    pub multibody_id: u32,
    pub link_id: u32,
    /// `MB_CONTACT_KIND_*`.
    pub kind: u32,
    pub free_body_id: u32,
    /// Inverse mass of the free body.
    pub free_body_im: S,
    pub friction_coeff: S,
    /// Slot of the normal constraint of the same contact point.
    pub normal_constraint_slot: u32,
    pub lin_jac: D::V,
    pub ang_jac: D::A,
    /// `ang_jac` multiplied by the free body's inverse inertia.
    pub ii_ang_jac: D::A,
    pub inv_lhs: S,
    pub rhs: S,
    pub rhs_wo_bias: S,
    pub impulse: S,
    pub cfm_factor: S,
    /// Softness of the interleaved sweep, relative to the effective mass.
    pub cfm_coeff: S,
    /// Softness of the interleaved sweep, per unit of impulse.
    pub cfm_gain: S,
    /// Slip of a tangent, or depth of a normal, since the contact was built.
    pub drift: S,
    /// Velocity per unit of slip; the reciprocal of the time step.
    pub drift_gain: S,
    /// Bound on the corrective velocity.
    pub max_corrective: S,
}

/// Where the data of one multibody lives.
#[derive(Clone, Copy, Debug, PartialEq, Eq, Structural)]
pub struct MultibodyInfo {
    /// First link, relative to the batch.
    pub first_link: u32,
    pub num_links: u32,
    /// First degree of freedom, relative to the batch.
    pub first_dof: u32,
    pub ndofs: u32,
    /// First entry in the jacobian tensor; one `spatial x ndofs` block per link.
    pub jacobian_offset: u32,
    /// First entry in the mass-matrix tensor; one `ndofs x ndofs` block.
    pub mass_matrix_offset: u32,
    /// 1 if the root joint is free.
    pub root_is_dynamic: u32,
    /// First entry in the Coriolis tensors.
    pub coriolis_offset: u32,
    /// First entry in the Coriolis scratch tensor.
    pub i_coriolis_dt_offset: u32,
    /// First slot in the joint-constraint buffer.
    pub first_constraint: u32,
    /// Number of slots in the joint-constraint buffer.
    pub max_constraints: u32,
    /// Number of contact-constraint slots in use.
    pub contact_constraint_count: u32,
    /// Number of contacts of the batch.
    pub batch_contacts_len: u32,
    /// 1 if contacts between links of this multibody are kept.
    pub self_contacts_enabled: u32,
}

impl MultibodyInfo {
    /// A multibody without links.
    pub open spec fn empty_spec() -> Self {
        MultibodyInfo {
            first_link: 0,
            num_links: 0,
            first_dof: 0,
            ndofs: 0,
            jacobian_offset: 0,
            mass_matrix_offset: 0,
            root_is_dynamic: 0,
            coriolis_offset: 0,
            i_coriolis_dt_offset: 0,
            first_constraint: 0,
            max_constraints: 0,
            contact_constraint_count: 0,
            batch_contacts_len: 0,
            self_contacts_enabled: 0,
        }
    }
}

impl Default for MultibodyInfo {
    fn default() -> (r: Self)
        ensures
            r == Self::empty_spec(),
    {
        MultibodyInfo {
            first_link: 0,
            num_links: 0,
            first_dof: 0,
            ndofs: 0,
            jacobian_offset: 0,
            mass_matrix_offset: 0,
            root_is_dynamic: 0,
            coriolis_offset: 0,
            i_coriolis_dt_offset: 0,
            first_constraint: 0,
            max_constraints: 0,
            contact_constraint_count: 0,
            batch_contacts_len: 0,
            self_contacts_enabled: 0,
        }
    }
}

/// `side_*_kind`: a free rigid body.
pub const SIDE_KIND_BODY: u32 = 0;

/// `side_*_kind`: a multibody link.
pub const SIDE_KIND_MB: u32 = 1;

/// `side_*_kind`: the world.
pub const SIDE_KIND_FIXED: u32 = 2;

/// The id of a fixed side.
pub const SIDE_FIXED: u32 = 0xffff_ffff;

/// Maximum number of axis constraints of one joint.
pub open spec fn max_axis_constraints_spec(dim: Dimension) -> int {
    2 * dim.spatial_spec()
}

pub fn max_axis_constraints(dim: Dimension) -> (r: u32)
    ensures
        r == max_axis_constraints_spec(dim),
{
    2 * dim.spatial()
}

/// An impulse joint with a multibody on at least one side.
#[derive(Clone, Copy)]
pub struct MbImpulseJointBuilder<S: Scalar, D: Space<S>> {
    pub joint: GenericJoint<S, D>,
    /// `SIDE_KIND_*`.
    pub side_a_kind: u32,
    pub side_a_id: u32,
    pub side_a_link: u32,
    pub joint_id: u32,
    /// `SIDE_KIND_*`.
    pub side_b_kind: u32,
    pub side_b_id: u32,
    pub side_b_link: u32,
    /// First constraint slot of this joint.
    pub constraint_id: u32,
    /// First entry of this joint in the jacobian buffer.
    pub jacobian_offset: u32,
    /// Number of entries reserved for this joint in the jacobian buffer.
    pub jacobian_capacity: u32,
}

/// One axis constraint of an impulse joint.
#[derive(Clone, Copy)]
pub struct MbImpulseJointConstraint<S: Scalar> {
    /// 0 for an unused slot, 1 for an active one.
    pub kind: u32,
    pub joint_id: u32,
    /// 0 for a lock, 1 for a limit, 2 for a motor.
    pub writeback_kind: u32,
    pub writeback_axis: u32,
    pub side_a_kind: u32,
    pub side_a_id: u32,
    pub side_a_link: u32,
    pub ndofs_a: u32,
    pub side_b_kind: u32,
    pub side_b_id: u32,
    pub side_b_link: u32,
    pub ndofs_b: u32,
    pub j_id_a: u32,
    pub j_id_b: u32,
    pub impulse: S,
    pub impulse_lo: S,
    pub impulse_hi: S,
    pub inv_lhs: S,
    pub rhs: S,
    pub rhs_wo_bias: S,
    pub cfm_coeff: S,
    pub cfm_gain: S,
}

} // verus!
