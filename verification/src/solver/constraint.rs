//! Contact constraints between two bodies.
use crate::scalar::Scalar;
use crate::space::Space;
use vstd::prelude::*;

verus! {

/// One direction of a contact point: the normal or a tangent.
#[derive(Clone, Copy)]
pub struct ConstraintRow<S: Scalar, D: Space<S>> {
    pub torque_dir_a: D::A,
    /// `torque_dir_a` multiplied by the inverse inertia of body A.
    pub ii_torque_dir_a: D::A,
    pub torque_dir_b: D::A,
    /// `torque_dir_b` multiplied by the inverse inertia of body B.
    pub ii_torque_dir_b: D::A,
    pub rhs: S,
    pub rhs_wo_bias: S,
    pub impulse: S,
    /// The effective mass; for the tangents of space its reciprocal.
    pub r: S,
}

/// One contact point of a constraint.
#[derive(Clone, Copy)]
pub struct TwoBodyConstraintElement<S: Scalar, D: Space<S>> {
    pub normal_part: ConstraintRow<S, D>,
    pub tangent0: ConstraintRow<S, D>,
    /// Unused in the plane.
    pub tangent1: ConstraintRow<S, D>,
    /// Coupling of the two tangents. Unused in the plane.
    pub tangent_coupling: S,
}

/// A contact between two bodies.
#[derive(Clone, Copy)]
pub struct TwoBodyConstraint<S: Scalar, D: Space<S>> {
    /// Direction of the normal force on body A.
    pub dir_a: D::V,
    /// First tangent. Unused in the plane, where the normal gives it.
    pub tangent_a: D::V,
    pub im_a: D::V,
    pub im_b: D::V,
    pub cfm_factor: S,
    /// Friction coefficient.
    pub limit: S,
    pub solver_body_a: u32,
    pub solver_body_b: u32,
    pub elements: [TwoBodyConstraintElement<S, D>; 4],
    /// Number of elements in use.
    pub len: u32,
}

/// What a contact point is rebuilt from in every substep.
#[derive(Clone, Copy)]
pub struct TwoBodyConstraintInfo<S: Scalar, D: Space<S>> {
    pub local_pt_a: D::V,
    pub local_pt_b: D::V,
    pub dist: S,
    pub normal_vel: S,
}

/// What a contact is rebuilt from in every substep.
#[derive(Clone, Copy)]
pub struct TwoBodyConstraintBuilder<S: Scalar, D: Space<S>> {
    pub infos: [TwoBodyConstraintInfo<S, D>; 4],
}

/// A contact between two bodies, with its elements as a sequence.
#[verifier::ext_equal]
pub struct TwoBodyModel<S: Scalar, D: Space<S>> {
    pub dir_a: D::V,
    pub tangent_a: D::V,
    pub im_a: D::V,
    pub im_b: D::V,
    pub cfm_factor: S,
    pub limit: S,
    pub solver_body_a: u32,
    pub solver_body_b: u32,
    pub elements: Seq<TwoBodyConstraintElement<S, D>>,
    pub len: u32,
}

impl<S: Scalar, D: Space<S>> View for TwoBodyConstraint<S, D> {
    type V = TwoBodyModel<S, D>;

    open spec fn view(&self) -> TwoBodyModel<S, D> {
        TwoBodyModel {
            dir_a: self.dir_a,
            tangent_a: self.tangent_a,
            im_a: self.im_a,
            im_b: self.im_b,
            cfm_factor: self.cfm_factor,
            limit: self.limit,
            solver_body_a: self.solver_body_a,
            solver_body_b: self.solver_body_b,
            elements: self.elements@,
            len: self.len,
        }
    }
}

} // verus!
