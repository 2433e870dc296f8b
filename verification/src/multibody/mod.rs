//! Articulated bodies in reduced coordinates.
pub mod contact_constraints;
pub mod contact_constraints_soa;
pub mod contact_laws;
pub mod coriolis_laws;
pub mod dense;
pub mod drive_laws;
pub mod dynamics;
pub mod env_reset;
pub mod force_laws;
pub mod gravity;
pub mod gravity_and_lu;
pub mod impulse_joint_constraints;
pub mod impulse_joint_finalize;
pub mod impulse_joint_helper;
pub mod impulse_joint_jacobians;
pub mod impulse_joint_solve;
pub mod integrate;
pub mod jacobian_laws;
pub mod joint_constraints;
pub mod joint_laws;
pub mod kinematics;
pub mod layout_bench;
pub mod ltdl;
pub mod lu;
pub mod lu_exact;
pub mod lu_regular;
pub mod mass_laws;
pub mod motion_laws;
pub mod packed_dof;
pub mod pass_laws;
pub mod pose_laws;
pub mod rate_laws;
pub mod rest_laws;
pub mod row_laws;
pub mod scatter_motor;
pub mod solve_constraints;
pub mod space_laws;
pub mod step_laws;
pub mod sweeps;
pub mod sweep_laws;
pub mod target_laws;
pub mod tier_laws;
pub mod turn_laws;
pub mod types;
pub mod unit_laws;
pub mod velocity_laws;
