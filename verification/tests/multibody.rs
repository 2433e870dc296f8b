use nexus_rbd::batch::BatchIndices;
use nexus_rbd::contact::{ContactManifold, ContactPoint, IndexedManifold};
use nexus_rbd::joint::{ACCELERATION_BASED, FORCE_BASED, GenericJoint, JointLimits, JointMotor, motor_params};
use nexus_rbd::multibody::contact_constraints::{
    NO_LINK, gpu_mb_finalize_contact_constraints, gpu_mb_init_contact_constraints,
    gpu_mb_reset_contact_warmstart, gpu_mb_sense_contact_impulses, gpu_mb_stash_contacts_len,
    gpu_mb_warmstart_contact_constraints,
};
use nexus_rbd::multibody::contact_constraints_soa::{
    gpu_mb_remove_solve_contact_no_bias_soa, gpu_mb_solve_contact_constraints_soa,
    gpu_mb_transpose_factors_soa,
};
use nexus_rbd::multibody::dense::{
    DenseCapacities, gpu_mb_apply_gravity_with_coriolis, gpu_mb_forward_kinematics,
};
use nexus_rbd::multibody::dynamics::{
    gpu_mb_compute_dynamics_pre, gpu_mb_compute_dynamics_without_coriolis_pre, packed_decode,
};
use nexus_rbd::multibody::env_reset::{
    EnvReset, ResetSizes, gpu_env_reset_bodies, gpu_mb_env_reset, gpu_mb_env_reset_batch,
};
use nexus_rbd::multibody::gravity_and_lu::{
    flat_decode, gpu_mb_gravity_and_lu, gpu_mb_gravity_and_lu_t1, gpu_mb_gravity_and_lu_t16,
    gpu_mb_gravity_and_lu_t32, gpu_mb_gravity_and_lu_t8,
};
use nexus_rbd::multibody::impulse_joint_constraints::gpu_mb_update_impulse_joint_constraints;
use nexus_rbd::multibody::impulse_joint_finalize::gpu_mb_finalize_impulse_joint_constraints;
use nexus_rbd::multibody::impulse_joint_solve::{
    gpu_mb_remove_impulse_joint_constraint_bias, gpu_mb_solve_impulse_joint_constraints,
};
use nexus_rbd::multibody::integrate::{
    gpu_mb_clamp_dof_velocities, gpu_mb_integrate, gpu_mb_integrate_velocities,
};
use nexus_rbd::multibody::joint_constraints::{
    build_limit_constraint, build_motor_constraint, gpu_mb_init_joint_constraints,
    gpu_mb_refresh_joint_constraints,
};
use nexus_rbd::multibody::layout_bench::{gpu_bench_finalize_env_major, gpu_bench_finalize_soa};
use nexus_rbd::multibody::ltdl::{ltdl_solve_mapped, ltdl_solve_strided};
use nexus_rbd::multibody::lu::{lu_decompose, lu_solve_in_place, sm_idx, sm_idx_packed};
use nexus_rbd::multibody::packed_dof::{
    gpu_mb_integrate_velocities_packed_dof, gpu_mb_transpose_dof_state_from_packed,
    gpu_mb_transpose_dof_state_to_packed, gpu_mb_transpose_gen_forces_to_packed,
};
use nexus_rbd::multibody::scatter_motor::{gpu_mb_delay_state_update, gpu_scatter_motor_targets};
use nexus_rbd::multibody::solve_constraints::{
    gpu_mb_build_contact_delassus, gpu_mb_solve_constraints, gpu_mb_solve_contacts_delassus,
    gpu_mb_solve_joints,
};
use nexus_rbd::multibody::types::{
    LocalMassProperties, MB_CONTACT_KIND_INACTIVE, MB_CONTACT_KIND_NORMAL, MB_CONTACT_KIND_TANGENT,
    MB_JOINT_KIND_INACTIVE, MB_JOINT_KIND_LIMIT, MB_JOINT_KIND_LIMIT_INACTIVE, MB_JOINT_KIND_MOTOR,
    MULTIBODY_ROOT, MbImpulseJointBuilder, MbImpulseJointConstraint, MultibodyContactConstraint,
    MultibodyInfo, MultibodyJointConstraint, MultibodyLinkStatic, MultibodyLinkWorkspace,
    NO_FREE_BODY, SIDE_FIXED, SIDE_KIND_BODY, SIDE_KIND_FIXED, SIDE_KIND_MB, WorldMassProperties,
};
use nexus_rbd::prep_render::{RbdInstanceDesc, gpu_rbd_prep_render};
use nexus_rbd::scalar::{Scalar, maybe_inv, threshold_inv};
use nexus_rbd::sim_params::{ConstraintSoftness, RbdSimParams};
use nexus_rbd::space::{Dim3, Mat3, Pose, Quat, V3, Velocity};
use nexus_rbd::views::{MatView, VecView};

#[derive(Clone, Copy, Debug, PartialEq)]
struct F(f32);

impl Scalar for F {
    fn zero() -> F {
        F(0.0)
    }

    fn one() -> F {
        F(1.0)
    }

    fn dec(m: i32, e: i32) -> F {
        F((m as f64 * 10f64.powi(e)) as f32)
    }

    fn plus(self, o: F) -> F {
        F(self.0 + o.0)
    }

    fn minus(self, o: F) -> F {
        F(self.0 - o.0)
    }

    fn times(self, o: F) -> F {
        F(self.0 * o.0)
    }

    fn over(self, o: F) -> F {
        F(self.0 / o.0)
    }

    fn negate(self) -> F {
        F(-self.0)
    }

    fn sqrt(self) -> F {
        F(self.0.sqrt())
    }

    fn sin(self) -> F {
        F(self.0.sin())
    }

    fn cos(self) -> F {
        F(self.0.cos())
    }

    fn atan2(self, x: F) -> F {
        F(self.0.atan2(x.0))
    }

    fn maximum(self, o: F) -> F {
        F(self.0.max(o.0))
    }

    fn minimum(self, o: F) -> F {
        F(self.0.min(o.0))
    }

    fn lt(self, o: F) -> bool {
        self.0 < o.0
    }

    fn le(self, o: F) -> bool {
        self.0 <= o.0
    }

    fn same(self, o: F) -> bool {
        self.0 == o.0
    }

    fn zero_spec() -> F {
        unreachable!()
    }

    fn one_spec() -> F {
        unreachable!()
    }

    fn dec_spec(_: i32, _: i32) -> F {
        unreachable!()
    }

    fn plus_spec(self, _: F) -> F {
        unreachable!()
    }

    fn minus_spec(self, _: F) -> F {
        unreachable!()
    }

    fn times_spec(self, _: F) -> F {
        unreachable!()
    }

    fn over_spec(self, _: F) -> F {
        unreachable!()
    }

    fn neg_spec(self) -> F {
        unreachable!()
    }

    fn sqrt_spec(self) -> F {
        unreachable!()
    }

    fn sin_spec(self) -> F {
        unreachable!()
    }

    fn cos_spec(self) -> F {
        unreachable!()
    }

    fn atan2_spec(self, _: F) -> F {
        unreachable!()
    }

    fn maximum_spec(self, _: F) -> F {
        unreachable!()
    }

    fn minimum_spec(self, _: F) -> F {
        unreachable!()
    }

    fn lt_spec(self, _: F) -> bool {
        unreachable!()
    }

    fn le_spec(self, _: F) -> bool {
        unreachable!()
    }

    fn same_spec(self, _: F) -> bool {
        unreachable!()
    }
}

type V = V3<F>;
type Link = MultibodyLinkStatic<F, Dim3>;
type Work = MultibodyLinkWorkspace<F, Dim3>;

fn v3(x: f32, y: f32, z: f32) -> V {
    V3 { x: F(x), y: F(y), z: F(z) }
}

fn quat(x: f32, y: f32, z: f32, w: f32) -> Quat<F> {
    Quat { x: F(x), y: F(y), z: F(z), w: F(w) }
}

fn still() -> Velocity<F, Dim3> {
    Velocity { linear: v3(0.0, 0.0, 0.0), angular: v3(0.0, 0.0, 0.0) }
}

fn at(x: f32, y: f32, z: f32) -> Pose<F, Dim3> {
    Pose { rotation: quat(0.0, 0.0, 0.0, 1.0), translation: v3(x, y, z) }
}

fn near(a: F, b: f32) {
    assert!((a.0 - b).abs() < 1e-4 * (1.0 + b.abs()), "{} is not {}", a.0, b);
}

fn near_v(a: V, x: f32, y: f32, z: f32) {
    near(a.x, x);
    near(a.y, y);
    near(a.z, z);
}

fn motor(model: u32) -> JointMotor<F> {
    JointMotor {
        target_pos: F(0.0),
        target_vel: F(0.0),
        stiffness: F(0.0),
        damping: F(0.0),
        max_force: F(1.0e6),
        model: model,
    }
}

fn joint(locked: u32, back: f32) -> GenericJoint<F, Dim3> {
    GenericJoint {
        local_frame_a: at(0.0, 0.0, 0.0),
        local_frame_b: at(-back, 0.0, 0.0),
        locked_axes: locked,
        limit_axes: 0,
        motor_axes: 0,
        limits: [JointLimits { min: F(0.0), max: F(0.0) }; 6],
        motors: [motor(ACCELERATION_BASED); 6],
    }
}

fn link(rb: u32, parent: u32, dof: u32, ndofs: u32, locked: u32, back: f32) -> Link {
    MultibodyLinkStatic {
        rb_id: rb,
        parent_link_id: parent,
        multibody_id: 0,
        assembly_id: dof,
        ndofs: ndofs,
        kinematic: 0,
        data: joint(locked, back),
        local_mprops: LocalMassProperties {
            inertia_ref_frame: quat(0.0, 0.0, 0.0, 1.0),
            inv_principal_inertia: v3(1.0, 1.0, 1.0),
            inv_mass: v3(0.5, 0.5, 0.5),
            com: v3(0.0, 0.0, 0.0),
        },
    }
}

fn work() -> Work {
    MultibodyLinkWorkspace {
        joint_rot: quat(0.0, 0.0, 0.0, 1.0),
        coords: [F(0.0); 6],
        local_to_parent: at(0.0, 0.0, 0.0),
        local_to_world: at(0.0, 0.0, 0.0),
        shift02: v3(0.0, 0.0, 0.0),
        shift23: v3(0.0, 0.0, 0.0),
        joint_velocity: still(),
        rb_vels: still(),
        kinematic_acc: still(),
    }
}

const SPIN_Z: u32 = 0b011111;
const FIXED: u32 = 0b111111;

/// Two batches of a fixed root with two unit arms that turn about z. The second
/// arm hangs from the end of the first. Every arm has mass 2 and inertia 1.
struct Arms {
    ids: BatchIndices,
    info: Vec<MultibodyInfo>,
    links: Vec<Link>,
    work: Vec<Work>,
    poses: Vec<Pose<F, Dim3>>,
    jacobians: Vec<F>,
    mass: Vec<F>,
    coriolis: Vec<F>,
    dofs: Vec<F>,
    forces: Vec<F>,
    pivots: Vec<u32>,
    delay: Vec<F>,
}

fn arms() -> Arms {
    let ids = BatchIndices {
        num_batches: 2,
        multibodies_len: 1,
        links_batch_capacity: 3,
        dof_batch_capacity: 2,
        contacts_batch_capacity: 4,
        colliders_batch_capacity: 4,
        coriolis_batch_capacity: 18,
        multibodies_batch_capacity: 1,
        joint_constraints_batch_capacity: 4,
        colliders_len: 4,
        bodies_len: 4,
        mass_matrix_batch_capacity: 4,
        mb_imp_joints_batch_capacity: 0,
        mb_imp_joint_constraints_batch_capacity: 0,
        mb_imp_joint_jacobians_batch_capacity: 0,
        mb_imp_joint_colors_batch_capacity: 0,
    };
    let info = MultibodyInfo {
        first_link: 0,
        num_links: 3,
        first_dof: 0,
        ndofs: 2,
        jacobian_offset: 0,
        mass_matrix_offset: 0,
        root_is_dynamic: 0,
        coriolis_offset: 0,
        i_coriolis_dt_offset: 0,
        first_constraint: 0,
        max_constraints: 4,
        contact_constraint_count: 0,
        batch_contacts_len: 0,
        self_contacts_enabled: 0,
    };
    let root = link(0, MULTIBODY_ROOT, 0, 0, FIXED, 0.0);
    let upper = link(1, 0, 0, 1, SPIN_Z, 1.0);
    let lower = link(2, 1, 1, 1, SPIN_Z, 1.0);
    Arms {
        ids: ids,
        info: vec![info; 2],
        links: vec![root, root, upper, upper, lower, lower],
        work: vec![work(); 6],
        poses: vec![at(0.0, 0.0, 0.0); 8],
        jacobians: vec![F(0.0); 2 * 3 * 6 * 2],
        mass: vec![F(0.0); 2 * 4],
        coriolis: vec![F(0.0); 2 * (2 * 18 + 12)],
        dofs: vec![F(0.0); 2 * 6 * 2],
        forces: vec![F(0.0); 2 * 2],
        pivots: vec![0; 2 * 2],
        delay: vec![F(0.0); 2 * 5],
    }
}

impl Arms {
    fn dynamics(&mut self, dt: f32) {
        for flat in 0..2u32 {
            gpu_mb_compute_dynamics_pre::<F, Dim3>(
                0,
                flat,
                8,
                &self.info,
                &self.links,
                &mut self.work,
                &mut self.poses,
                &mut self.jacobians,
                &mut self.mass,
                &mut self.coriolis,
                &self.dofs,
                F(dt),
                &self.ids,
            );
        }
    }

    fn forces_alone(&mut self, g: V) {
        for flat in 0..2u32 {
            gpu_mb_gravity_and_lu_t1::<F, Dim3>(
                flat,
                &self.info,
                &self.links,
                &mut self.work,
                &self.jacobians,
                &mut self.forces,
                &mut self.mass,
                &mut self.pivots,
                &self.dofs,
                g,
                &self.ids,
                &mut self.delay,
            );
        }
    }
}

#[test]
fn straight_arms_have_the_textbook_mass_matrix() {
    let mut a = arms();
    a.dynamics(0.01);
    for b in 0..2usize {
        near(a.mass[b], 12.0);
        near(a.mass[2 + b], 5.0);
        near(a.mass[4 + b], 5.0);
        near(a.mass[6 + b], 3.0);
        near_v(a.poses[4 * b + 1].translation, 1.0, 0.0, 0.0);
        near_v(a.poses[4 * b + 2].translation, 2.0, 0.0, 0.0);
    }
}

#[test]
fn bent_arms_couple_less() {
    // The lower arm at a right angle: its centre is at (1, 1).
    let mut a = arms();
    for b in 0..2usize {
        a.work[4 + b].coords[5] = F(std::f32::consts::FRAC_PI_2);
        a.work[4 + b].joint_rot = quat(0.0, 0.0, 0.5f32.sqrt(), 0.5f32.sqrt());
    }
    a.dynamics(0.01);
    for b in 0..2usize {
        near_v(a.poses[4 * b + 2].translation, 1.0, 1.0, 0.0);
        // 2 + 1 for the upper arm, 2 * 2 + 1 for the lower one.
        near(a.mass[b], 8.0);
        near(a.mass[2 + b], 3.0);
        near(a.mass[4 + b], 3.0);
        near(a.mass[6 + b], 3.0);
    }
}

#[test]
fn jacobians_map_dof_velocities_to_link_velocities() {
    let mut a = arms();
    for b in 0..2usize {
        a.work[4 + b].coords[5] = F(std::f32::consts::FRAC_PI_2);
        a.work[4 + b].joint_rot = quat(0.0, 0.0, 0.5f32.sqrt(), 0.5f32.sqrt());
        a.dofs[b] = F(2.0 + b as f32);
        a.dofs[2 + b] = F(-5.0);
    }
    a.dynamics(0.01);
    for b in 0..2usize {
        let q = [a.dofs[b].0, a.dofs[2 + b].0];
        for k in 0..3usize {
            let v = a.work[2 * k + b].rb_vels;
            let want = [v.linear.x, v.linear.y, v.linear.z, v.angular.x, v.angular.y, v.angular.z];
            for r in 0..6usize {
                let first = a.jacobians[(k * 12 + r) * 2 + b].0;
                let second = a.jacobians[(k * 12 + 6 + r) * 2 + b].0;
                near(want[r], first * q[0] + second * q[1]);
            }
        }
        // The upper arm turns about the origin.
        near_v(a.work[2 + b].rb_vels.linear, 0.0, q[0], 0.0);
        near_v(a.work[2 + b].rb_vels.angular, 0.0, 0.0, q[0]);
        // The lower arm adds its own turn about (1, 0).
        near_v(a.work[4 + b].rb_vels.linear, -q[0] - q[1], q[0], 0.0);
        near_v(a.work[4 + b].rb_vels.angular, 0.0, 0.0, q[0] + q[1]);
    }
}

#[test]
fn falling_arms_accelerate_as_the_equations_say() {
    let mut a = arms();
    a.dynamics(0.01);
    a.forces_alone(v3(0.0, -10.0, 0.0));
    for b in 0..2usize {
        near(a.forces[b], -80.0 / 11.0);
        near(a.forces[2 + b], 60.0 / 11.0);
    }
}

#[test]
fn damping_slows_and_inertia_resists() {
    let mut a = arms();
    for b in 0..2usize {
        a.dofs[b] = F(1.0);
        // Section 1 holds the damping, section 2 the armature.
        a.dofs[4 + b] = F(6.0);
        a.dofs[8 + b] = F(0.5);
    }
    let mut still_arms = arms();
    still_arms.dynamics(0.0);
    a.dynamics(0.0);
    for b in 0..2usize {
        assert!(a.mass[b].0 > still_arms.mass[b].0);
    }
    a.forces_alone(v3(0.0, 0.0, 0.0));
    assert!(a.forces[0].0 < 0.0);
}

#[test]
fn every_tier_solves_alike() {
    let g = v3(1.0, -10.0, 0.0);
    let mut serial = arms();
    for b in 0..2usize {
        serial.dofs[b] = F(0.5);
        serial.dofs[2 + b] = F(-0.25);
    }
    serial.dynamics(0.01);
    let mut wide = arms();
    wide.dofs = serial.dofs.clone();
    wide.dynamics(0.01);
    let start = serial.dofs.clone();
    serial.forces_alone(g);
    for b in 0..2u32 {
        let mut mat = vec![F(0.0); 4096];
        let mut x = vec![F(0.0); 64];
        let mut partial = vec![F(0.0); 64];
        gpu_mb_gravity_and_lu::<F, Dim3>(
            0,
            b,
            &wide.info,
            &wide.links,
            &mut wide.work,
            &wide.jacobians,
            &mut wide.forces,
            &mut wide.mass,
            &mut wide.pivots,
            &wide.dofs,
            g,
            &wide.ids,
            &mut wide.delay,
            &mut mat,
            &mut x,
            &mut partial,
        );
    }
    for tier in [8usize, 16, 32] {
        let mut packed = arms();
        packed.dofs = start.clone();
        packed.dynamics(0.01);
        let mut mat = vec![F(0.0); 64 * tier];
        let mut x = vec![F(0.0); 64];
        let mut partial = vec![F(0.0); 64];
        let run = match tier {
            8 => gpu_mb_gravity_and_lu_t8::<F, Dim3>,
            16 => gpu_mb_gravity_and_lu_t16::<F, Dim3>,
            _ => gpu_mb_gravity_and_lu_t32::<F, Dim3>,
        };
        for slot in 0..(64 / tier) as u32 {
            run(
                0,
                slot,
                &packed.info,
                &packed.links,
                &mut packed.work,
                &packed.jacobians,
                &mut packed.forces,
                &mut packed.mass,
                &mut packed.pivots,
                &packed.dofs,
                g,
                &packed.ids,
                &mut packed.delay,
                &mut mat,
                &mut x,
                &mut partial,
            );
        }
        for i in 0..4usize {
            near(packed.forces[i], serial.forces[i].0);
            assert_eq!(packed.pivots[i], serial.pivots[i]);
        }
        for i in 0..8usize {
            near(packed.mass[i], serial.mass[i].0);
        }
        near(packed.delay[0], 1.0);
    }
    for i in 0..4usize {
        near(wide.forces[i], serial.forces[i].0);
        assert_eq!(wide.pivots[i], serial.pivots[i]);
    }
    for i in 0..8usize {
        near(wide.mass[i], serial.mass[i].0);
    }
    // The first multibody of a batch counts the step.
    near(serial.delay[0], 1.0);
    near(serial.delay[5], 1.0);
}

#[test]
fn velocity_terms_change_the_mass_matrix_only_with_coriolis() {
    let mut with = arms();
    let mut without = arms();
    for b in 0..2usize {
        for a in [&mut with, &mut without] {
            a.work[4 + b].coords[5] = F(1.0);
            a.work[4 + b].joint_rot = quat(0.0, 0.0, 0.5f32.sin(), 0.5f32.cos());
            a.dofs[b] = F(3.0);
            a.dofs[2 + b] = F(1.0);
        }
    }
    with.dynamics(0.1);
    for flat in 0..2u32 {
        gpu_mb_compute_dynamics_without_coriolis_pre::<F, Dim3>(
            0,
            flat,
            8,
            &without.info,
            &without.links,
            &mut without.work,
            &mut without.poses,
            &mut without.jacobians,
            &mut without.mass,
            &without.dofs,
            F(0.1),
            &without.ids,
        );
    }
    assert!((with.mass[2].0 - without.mass[2].0).abs() > 1e-3);
    near(without.mass[2], without.mass[4].0);
    for i in 0..with.jacobians.len() {
        near(with.jacobians[i], without.jacobians[i].0);
    }
}

#[test]
fn unit_rotations_stay_unit() {
    let mut a = arms();
    for b in 0..2usize {
        a.links[4 + b].data.local_frame_a.rotation = quat(0.6, 0.0, 0.0, 0.8);
        a.links[4 + b].data.local_frame_b.rotation = quat(0.0, 0.48, 0.36, 0.8);
        a.work[2 + b].joint_rot = quat(0.0, 0.0, 0.3f32.sin(), 0.3f32.cos());
        a.work[4 + b].joint_rot = quat(0.0, 0.0, 0.7f32.sin(), 0.7f32.cos());
    }
    a.dynamics(0.0);
    for b in 0..2usize {
        let q = a.work[4 + b].local_to_world.rotation;
        let n = q.x.0 * q.x.0 + q.y.0 * q.y.0 + q.z.0 * q.z.0 + q.w.0 * q.w.0;
        near(F(n), 1.0);
        assert!(q.y.0.abs() > 0.1);
    }
}

#[test]
fn at_rest_coriolis_terms_change_nothing() {
    let mut with = arms();
    let mut without = arms();
    for b in 0..2usize {
        for a in [&mut with, &mut without] {
            a.work[4 + b].coords[5] = F(1.0);
            a.work[4 + b].joint_rot = quat(0.0, 0.0, 0.5f32.sin(), 0.5f32.cos());
        }
    }
    with.dynamics(0.1);
    without_coriolis(&mut without, 8);
    for i in 0..8usize {
        near(with.mass[i], without.mass[i].0);
    }
    assert!(with.mass[0].0 > 1.0);
}

#[test]
fn coriolis_impulses_of_the_last_link_are_kept() {
    let mut a = arms();
    a.coriolis = vec![F(7.0); a.coriolis.len()];
    for b in 0..2usize {
        a.work[4 + b].coords[5] = F(1.0);
        a.work[4 + b].joint_rot = quat(0.0, 0.0, 0.5f32.sin(), 0.5f32.cos());
        a.dofs[b] = F(3.0);
        a.dofs[2 + b] = F(1.0);
    }
    a.dynamics(0.1);
    for b in 0..2usize {
        let mut size = 0.0f32;
        for c in 0..2usize {
            for r in 0..3usize {
                let v = a.coriolis[(12 + 3 * c + r) * 2 + b].0;
                let w = a.coriolis[(18 + 12 + 3 * c + r) * 2 + b].0;
                size += v.abs();
                // Mass 2 and inertia 1, over a step of 0.1.
                near(a.coriolis[(36 + 6 * c + r) * 2 + b], v * 0.2);
                near(a.coriolis[(36 + 6 * c + 3 + r) * 2 + b], w * 0.1);
            }
        }
        assert!(size > 0.1);
    }
}

#[test]
fn dense_kernels_place_and_load() {
    let a = arms();
    let cap = DenseCapacities { multibodies: 1, links: 3, colliders: 4, jacobians: 36, dofs: 2 };
    let links = vec![a.links[0], a.links[2], a.links[4], a.links[0], a.links[2], a.links[4]];
    let mut ws = vec![work(); 6];
    let mut poses = vec![at(0.0, 0.0, 0.0); 8];
    poses[4] = at(0.0, 5.0, 0.0);
    let num = [1u32, 1];
    for b in 0..2u32 {
        gpu_mb_forward_kinematics::<F, Dim3>(
            0, b, &a.info, &links, &mut ws, &mut poses, &num, cap,
        );
        // A multibody that the batch does not have.
        gpu_mb_forward_kinematics::<F, Dim3>(
            1, b, &a.info, &links, &mut ws, &mut poses, &num, cap,
        );
    }
    near_v(poses[2].translation, 2.0, 0.0, 0.0);
    near_v(poses[6].translation, 2.0, 5.0, 0.0);
    near_v(ws[5].local_to_world.translation, 2.0, 5.0, 0.0);
    near_v(ws[5].shift02, 0.0, 0.0, 0.0);
    near_v(ws[5].shift23, 1.0, 0.0, 0.0);

    // One column of the jacobian of each arm, as it hangs straight.
    let mut jac = vec![F(0.0); 72];
    for b in 0..2usize {
        jac[36 * b + 12 + 1] = F(1.0);
        jac[36 * b + 12 + 5] = F(1.0);
        jac[36 * b + 24 + 1] = F(2.0);
        jac[36 * b + 24 + 5] = F(1.0);
        jac[36 * b + 24 + 6 + 1] = F(1.0);
        jac[36 * b + 24 + 6 + 5] = F(1.0);
    }
    let mut forces = vec![F(9.0); 4];
    let vel = vec![F(0.0); 4];
    let damping = vec![F(0.0); 4];
    for b in 0..2u32 {
        gpu_mb_apply_gravity_with_coriolis::<F, Dim3>(
            0,
            b,
            &a.info,
            &links,
            &mut ws,
            &jac,
            &mut forces,
            &vel,
            &damping,
            &num,
            v3(0.0, -10.0, 0.0),
            cap,
        );
    }
    near(forces[0], -60.0);
    near(forces[1], -20.0);
    near(forces[2], -60.0);
    near(forces[3], -20.0);
}

#[test]
fn velocities_and_positions_integrate() {
    let mut a = arms();
    for b in 0..2usize {
        a.forces[b] = F(4.0);
        a.forces[2 + b] = F(-2.0);
        // Section 4 limits a step, section 5 a substep.
        a.dofs[16 + b] = F(100.0);
        a.dofs[18 + b] = F(0.5);
        a.dofs[20 + b] = F(1.5);
        a.dofs[22 + b] = F(100.0);
    }
    for flat in 0..3u32 {
        gpu_mb_integrate_velocities(flat, &a.info, &mut a.dofs, &a.forces, F(0.5), &a.ids);
    }
    near(a.dofs[0], 2.0);
    near(a.dofs[3], -1.0);
    for flat in 0..3u32 {
        gpu_mb_clamp_dof_velocities(flat, &a.info, &mut a.dofs, &a.ids);
    }
    near(a.dofs[0], 2.0);
    near(a.dofs[3], -0.5);
    for flat in 0..3u32 {
        gpu_mb_integrate::<F, Dim3>(
            flat, &a.info, &a.links, &mut a.work, &mut a.dofs, F(0.5), &a.ids,
        );
    }
    for b in 0..2usize {
        near(a.dofs[b], 1.5);
        near(a.work[2 + b].coords[5], 0.75);
        near(a.work[2 + b].joint_rot.z, 0.375f32.sin());
        near(a.work[2 + b].joint_rot.w, 0.375f32.cos());
        near(a.work[4 + b].coords[5], -0.25);
        near(a.work[4 + b].joint_rot.z, -(0.125f32.sin()));
        near(a.work[b].coords[5], 0.0);
    }
}

fn empty_joint_slot() -> MultibodyJointConstraint<F> {
    MultibodyJointConstraint {
        dof_id: 0,
        kind: 7,
        kind_extra: 0,
        rhs: F(0.0),
        rhs_wo_bias: F(0.0),
        inv_lhs: F(0.0),
        impulse: F(0.0),
        impulse_lo: F(0.0),
        impulse_hi: F(0.0),
        cfm_coeff: F(0.0),
        cfm_gain: F(0.0),
    }
}

fn softness() -> ConstraintSoftness<F> {
    ConstraintSoftness {
        dt: F(0.1),
        inv_dt: F(10.0),
        erp_inv_dt: F(2.0),
        allowed_lin_err: F(0.0),
        max_corr_velocity: F(10.0),
        cfm_factor: F(1.0),
        joint_erp_inv_dt: F(4.0),
        joint_cfm_coeff: F(0.0),
    }
}

#[test]
fn a_violated_limit_turns_the_arm_back() {
    let mut a = arms();
    for b in 0..2usize {
        a.links[2 + b].data.limit_axes = 1 << 5;
        a.links[2 + b].data.limits[5] = JointLimits { min: F(-0.5), max: F(0.5) };
        a.work[2 + b].coords[5] = F(0.75);
        a.dofs[b] = F(3.0);
    }
    a.dynamics(0.0);
    a.forces_alone(v3(0.0, 0.0, 0.0));
    let mut cons = vec![empty_joint_slot(); 8];
    let mut cols = vec![F(0.0); 16];
    for b in 0..2u32 {
        gpu_mb_init_joint_constraints::<F, Dim3>(
            0,
            b,
            &a.info,
            &a.links,
            &a.work,
            &a.mass,
            &a.pivots,
            &mut cons,
            &mut cols,
            softness(),
            &a.ids,
        );
    }
    for b in 0..2usize {
        let c = &cons[4 * b];
        assert_eq!(c.kind, MB_JOINT_KIND_LIMIT);
        assert_eq!(c.kind_extra, 1 | (5 << 16));
        near(c.rhs, 1.0);
        assert_eq!(cons[4 * b + 1].kind, MB_JOINT_KIND_INACTIVE);
        // The first column of the inverse of [[12, 5], [5, 3]].
        near(cols[8 * b], 3.0 / 11.0);
        near(cols[8 * b + 1], -5.0 / 11.0);
        near(c.inv_lhs, 11.0 / 3.0);
    }
    for b in 0..2u32 {
        gpu_mb_solve_joints(0, b, &a.info, &mut cons, &cols, &mut a.dofs, true, &a.ids);
    }
    for b in 0..2usize {
        near(a.dofs[b], -1.0);
        near(a.dofs[2 + b], 4.0 * 5.0 / 3.0);
    }
    // Inside the range the limit stops acting.
    for b in 0..2usize {
        a.work[2 + b].coords[5] = F(0.25);
    }
    for b in 0..2u32 {
        gpu_mb_refresh_joint_constraints::<F, Dim3>(
            0, b, &a.info, &a.links, &a.work, &mut cons, softness(), &a.ids,
        );
    }
    assert_eq!(cons[0].kind, MB_JOINT_KIND_LIMIT_INACTIVE);
    near(cons[0].inv_lhs, 11.0 / 3.0);
    let before = a.dofs.clone();
    gpu_mb_solve_joints(0, 0, &a.info, &mut cons, &cols, &mut a.dofs, true, &a.ids);
    assert_eq!(a.dofs, before);
}

#[test]
fn motors_aim_at_their_targets() {
    let mut m = motor(ACCELERATION_BASED);
    m.stiffness = F(8.0);
    m.damping = F(2.0);
    m.target_pos = F(1.0);
    m.target_vel = F(0.25);
    m.max_force = F(3.0);
    let p = motor_params(&m, F(0.5));
    near(p.erp_inv_dt, 8.0 / 6.0);
    near(p.cfm_coeff, 1.0 / 3.0);
    near(p.cfm_gain, 0.0);
    near(p.max_impulse, 1.5);
    let c = build_motor_constraint(1, 2, 3, F(0.25), F(0.5), &m, None);
    assert_eq!(c.kind, MB_JOINT_KIND_MOTOR);
    assert_eq!(c.dof_id, 1);
    assert_eq!(c.kind_extra, 2 | (3 << 16));
    near(c.rhs, -0.75 * 8.0 / 6.0 - 0.25);
    near(c.impulse_lo, -1.5);
    near(c.impulse_hi, 1.5);
    // The target velocity may not leave the limits within the step.
    let l = JointLimits { min: F(0.0), max: F(0.3) };
    let c = build_motor_constraint(1, 2, 3, F(0.25), F(0.5), &m, Some(l));
    near(c.rhs, -0.75 * 8.0 / 6.0 - 0.1);
    // A force-based motor has no constraint.
    m.model = FORCE_BASED;
    near(motor_params(&m, F(0.5)).cfm_gain, 1.0 / 3.0);
    near(motor_params(&m, F(0.5)).cfm_coeff, 0.0);
    assert_eq!(build_motor_constraint(1, 2, 3, F(0.25), F(0.5), &m, None).kind, MB_JOINT_KIND_INACTIVE);
}

#[test]
fn limits_pull_only_inwards() {
    let l = JointLimits { min: F(-1.0), max: F(1.0) };
    let low = build_limit_constraint(0, 0, 0, F(-1.5), l, F(2.0), F(0.0));
    near(low.rhs, -1.0);
    assert!(low.impulse_lo.0 < -1.0e30);
    near(low.impulse_hi, 0.0);
    let high = build_limit_constraint(0, 0, 0, F(1.5), l, F(2.0), F(0.0));
    near(high.rhs, 1.0);
    near(high.impulse_lo, 0.0);
    assert!(high.impulse_hi.0 > 1.0e30);
    let inside = build_limit_constraint(0, 0, 0, F(1.0), l, F(2.0), F(0.0));
    assert_eq!(inside.kind, MB_JOINT_KIND_LIMIT_INACTIVE);
}

#[test]
fn force_based_motors_push_the_dof() {
    let mut a = arms();
    for b in 0..2usize {
        a.links[2 + b].data.motor_axes = 1 << 5;
        a.links[2 + b].data.motors[5] = motor(FORCE_BASED);
        a.links[2 + b].data.motors[5].stiffness = F(11.0);
        a.links[2 + b].data.motors[5].target_pos = F(1.0);
    }
    // The delayed target of batch 1 is still the one from before.
    a.delay[5] = F(0.0);
    a.delay[6] = F(2.0);
    a.delay[8] = F(-1.0);
    a.dynamics(0.0);
    a.forces_alone(v3(0.0, 0.0, 0.0));
    near(a.forces[0], 3.0);
    near(a.forces[2], -5.0);
    near(a.forces[1], -3.0);
    near(a.forces[3], 5.0);
}

fn contact_slot(kind: u32, normal: u32) -> MultibodyContactConstraint<F, Dim3> {
    MultibodyContactConstraint {
        multibody_id: 0,
        link_id: 2,
        kind: kind,
        free_body_id: 3,
        free_body_im: F(0.5),
        friction_coeff: F(0.5),
        normal_constraint_slot: normal,
        lin_jac: v3(0.0, -1.0, 0.0),
        ang_jac: v3(0.0, 0.0, 0.0),
        ii_ang_jac: v3(0.0, 0.0, 0.0),
        inv_lhs: F(0.0),
        rhs: F(0.0),
        rhs_wo_bias: F(0.0),
        impulse: F(0.0),
        cfm_factor: F(1.0),
        cfm_coeff: F(0.0),
        cfm_gain: F(0.0),
        drift: F(0.0),
        drift_gain: F(0.0),
        max_corrective: F(10.0),
    }
}

/// One contact point of the lower arm with a free body, ready to be solved.
fn touching() -> (Arms, Vec<MultibodyContactConstraint<F, Dim3>>, Vec<F>, Vec<F>) {
    let mut a = arms();
    for i in 0..2usize {
        a.info[i].contact_constraint_count = 3;
    }
    let mut cons = vec![contact_slot(MB_CONTACT_KIND_INACTIVE, 0); 384];
    let mut jacs = vec![F(0.0); 768];
    let mut cols = vec![F(0.0); 768];
    let inverse = [[3.0 / 11.0, -5.0 / 11.0], [-5.0 / 11.0, 12.0 / 11.0]];
    for b in 0..2usize {
        for s in 0..3usize {
            let k = 192 * b + s;
            cons[k] = contact_slot(
                if s == 0 { MB_CONTACT_KIND_NORMAL } else { MB_CONTACT_KIND_TANGENT },
                0,
            );
            let (j, lin) = match s {
                0 => ([2.0f32, 1.0], v3(0.0, -1.0, 0.0)),
                1 => ([0.25, 0.5], v3(-1.0, 0.0, 0.0)),
                _ => ([0.0, 0.0], v3(0.0, 0.0, -1.0)),
            };
            cons[k].lin_jac = lin;
            let mut lhs = 0.5f32;
            for r in 0..2usize {
                jacs[2 * k + r] = F(j[r]);
                let c = inverse[r][0] * j[0] + inverse[r][1] * j[1];
                cols[2 * k + r] = F(c);
                lhs += c * j[r];
            }
            cons[k].inv_lhs = F(1.0 / lhs);
        }
        a.dofs[b] = F(-3.0);
        a.dofs[2 + b] = F(1.0);
    }
    (a, cons, jacs, cols)
}

#[test]
fn contacts_stop_approach_within_friction() {
    let (mut a, mut cons, jacs, cols) = touching();
    let mut joints = vec![empty_joint_slot(); 8];
    for j in joints.iter_mut() {
        j.kind = MB_JOINT_KIND_INACTIVE;
    }
    let joint_cols = vec![F(0.0); 16];
    let mut vels = vec![still(); 8];
    for _ in 0..40 {
        for b in 0..2u32 {
            gpu_mb_solve_constraints::<F, Dim3>(
                0,
                b,
                &a.info,
                &mut joints,
                &joint_cols,
                &mut cons,
                &jacs,
                &cols,
                false,
                &a.ids,
                &mut a.dofs,
                &mut vels,
            );
        }
    }
    for b in 0..2usize {
        let n = cons[192 * b].impulse.0;
        assert!(n > 0.0);
        for s in 1..3usize {
            let t = cons[192 * b + s].impulse.0;
            assert!(t.abs() <= 0.5 * n + 1e-5);
        }
        let approach = 2.0 * a.dofs[b].0 + a.dofs[2 + b].0 - vels[4 * b + 3].linear.y.0;
        assert!(approach.abs() < 1e-3);
    }
}

/// Runs both sweeps on the same contacts and compares where they end.
fn sweeps_agree(
    mut a: Arms,
    mut cons: Vec<MultibodyContactConstraint<F, Dim3>>,
    jacs: Vec<F>,
    cols: Vec<F>,
    use_bias: bool,
) -> Vec<MultibodyContactConstraint<F, Dim3>> {
    let mut c = arms();
    c.info = a.info.clone();
    c.dofs = a.dofs.clone();
    let mut delassus_cons = cons.clone();
    let mut joints = vec![empty_joint_slot(); 8];
    for j in joints.iter_mut() {
        j.kind = MB_JOINT_KIND_INACTIVE;
    }
    let joint_cols = vec![F(0.0); 16];
    let mut vels = vec![still(); 8];
    let mut vels2 = vec![still(); 8];
    let mut delassus = vec![F(0.0); 2 * 192 * 192];
    for b in 0..2u32 {
        gpu_mb_build_contact_delassus::<F, Dim3>(
            0, b, &a.info, &cons, &jacs, &cols, &mut delassus, &a.ids,
        );
    }
    near(delassus[0], 1.0 / cons[0].inv_lhs.0);
    for _ in 0..3 {
        for b in 0..2u32 {
            gpu_mb_solve_constraints::<F, Dim3>(
                0,
                b,
                &a.info,
                &mut joints,
                &joint_cols,
                &mut cons,
                &jacs,
                &cols,
                use_bias,
                &a.ids,
                &mut a.dofs,
                &mut vels,
            );
            gpu_mb_solve_contacts_delassus::<F, Dim3>(
                0,
                b,
                &c.info,
                &mut delassus_cons,
                &jacs,
                &cols,
                &delassus,
                use_bias,
                &c.ids,
                &mut c.dofs,
                &mut vels2,
            );
        }
    }
    for i in 0..4usize {
        near(c.dofs[i], a.dofs[i].0);
    }
    for b in 0..2usize {
        for s in 0..3usize {
            near(delassus_cons[192 * b + s].impulse, cons[192 * b + s].impulse.0);
        }
        near(vels2[4 * b + 3].linear.y, vels[4 * b + 3].linear.y.0);
    }
    delassus_cons
}

#[test]
fn constraint_space_sweeps_end_in_the_same_velocities() {
    let (a, cons, jacs, cols) = touching();
    sweeps_agree(a, cons, jacs, cols, false);
}

#[test]
fn biased_constraint_space_sweeps_end_in_the_same_velocities() {
    let (a, mut cons, jacs, cols) = touching();
    for b in 0..2usize {
        cons[192 * b].rhs = F(-0.75);
        cons[192 * b].cfm_factor = F(0.875);
    }
    let biased = sweeps_agree(a, cons.clone(), jacs.clone(), cols.clone(), true);
    let (a, _, _, _) = touching();
    let plain = sweeps_agree(a, cons, jacs, cols, false);
    for b in 0..2usize {
        assert!((biased[192 * b].impulse.0 - plain[192 * b].impulse.0).abs() > 1e-2);
    }
}

#[test]
fn kept_estimates_replace_the_bias_and_follow_the_motion() {
    let (a, cons, jacs, cols) = touching();
    let mut joints = vec![empty_joint_slot(); 8];
    for j in joints.iter_mut() {
        j.kind = MB_JOINT_KIND_INACTIVE;
    }
    let joint_cols = vec![F(0.0); 16];
    let mut plain = cons.clone();
    let mut kept = cons;
    for b in 0..2usize {
        // A depth of 0.5 is corrected at a rate of 2.
        kept[192 * b].drift = F(-0.5);
        kept[192 * b].drift_gain = F(4.0);
        kept[192 * b].friction_coeff = F(2.0);
        plain[192 * b].rhs = F(-1.0);
    }
    let mut delassus = vec![F(0.0); 2 * 192 * 192];
    let mut dofs = a.dofs.clone();
    let mut kept_dofs = a.dofs.clone();
    let mut vels = vec![still(); 8];
    let mut kept_vels = vec![still(); 8];
    for b in 0..2u32 {
        gpu_mb_build_contact_delassus::<F, Dim3>(
            0, b, &a.info, &kept, &jacs, &cols, &mut delassus, &a.ids,
        );
        gpu_mb_solve_constraints::<F, Dim3>(
            0, b, &a.info, &mut joints, &joint_cols, &mut plain, &jacs, &cols, true, &a.ids,
            &mut dofs, &mut vels,
        );
        gpu_mb_solve_contacts_delassus::<F, Dim3>(
            0, b, &a.info, &mut kept, &jacs, &cols, &delassus, true, &a.ids, &mut kept_dofs,
            &mut kept_vels,
        );
    }
    for b in 0..2usize {
        near(kept[192 * b].impulse, plain[192 * b].impulse.0);
        near(kept[192 * b].drift, -0.5);
    }
    for b in 0..2u32 {
        gpu_mb_solve_contacts_delassus::<F, Dim3>(
            0, b, &a.info, &mut kept, &jacs, &cols, &delassus, false, &a.ids, &mut kept_dofs,
            &mut kept_vels,
        );
    }
    for b in 0..2usize {
        let away = 2.0 * kept_dofs[b].0 + kept_dofs[2 + b].0 - kept_vels[4 * b + 3].linear.y.0;
        near(kept[192 * b].drift, -0.5 + away / 4.0);
        near(kept[192 * b + 1].drift, 0.0);
    }
}

/// Contacts of the pressed lower arm, built and finalized.
fn built_contacts(
    soft: ConstraintSoftness<F>,
) -> (Arms, Vec<MultibodyContactConstraint<F, Dim3>>, Vec<F>, Vec<F>) {
    let mut a = arms();
    a.dynamics(0.0);
    let (manifolds, props) = pressed(&mut a);
    a.forces_alone(v3(0.0, 0.0, 0.0));
    for flat in 0..2u32 {
        gpu_mb_stash_contacts_len(flat, &mut a.info, &[1, 1], &a.ids);
    }
    let none = [NO_LINK, 0];
    let owners = [[0u32, 0], [0, 1], [0, 2], none, [0, 0], [0, 1], [0, 2], none];
    let mut cons = vec![contact_slot(MB_CONTACT_KIND_INACTIVE, 0); 384];
    let mut jacs = vec![F(0.0); 768];
    let mut cols = vec![F(0.0); 768];
    for b in 0..2u32 {
        gpu_mb_init_contact_constraints::<F, Dim3>(
            0,
            b,
            &mut a.info,
            &a.jacobians,
            &owners,
            &mut cons,
            &mut jacs,
            soft,
            &props,
            &a.poses,
            &manifolds,
            &a.ids,
        );
        gpu_mb_finalize_contact_constraints::<F, Dim3>(
            0, b, &a.info, &a.mass, &a.pivots, &mut cons, &jacs, &mut cols, &a.ids,
        );
    }
    (a, cons, jacs, cols)
}

#[test]
fn built_contacts_keep_their_bias_in_every_sweep() {
    let (a, cons, jacs, cols) = built_contacts(softness());
    // The penetration of 0.1 is corrected at a rate of 2.
    near(F(cons[0].rhs.0 - cons[0].rhs_wo_bias.0), -0.2);
    let biased = sweeps_agree(a, cons.clone(), jacs.clone(), cols.clone(), true);
    let (a, _, _, _) = built_contacts(softness());
    let plain = sweeps_agree(a, cons, jacs, cols, false);
    for b in 0..2usize {
        assert!(biased[192 * b].impulse.0 > plain[192 * b].impulse.0 + 1e-3);
    }
}

#[test]
fn built_contacts_are_as_soft_in_the_interleaved_sweep() {
    let mut soft = softness();
    soft.cfm_factor = F(0.8);
    let (mut a, mut cons, jacs, cols) = built_contacts(soft);
    near(cons[0].cfm_coeff, 0.25);
    near(cons[1].cfm_coeff, 0.0);
    let mut soa_cons = cons.clone();
    let mut soa_jacs = vec![F(0.0); 768];
    let mut soa_cols = vec![F(0.0); 768];
    for b in 0..2usize {
        for e in 0..384usize {
            soa_jacs[2 * e + b] = jacs[384 * b + e];
            soa_cols[2 * e + b] = cols[384 * b + e];
        }
    }
    let mut soa_dofs = vec![a.dofs[0], a.dofs[2], a.dofs[1], a.dofs[3]];
    let mut soa_vels = vec![still(); 8];
    for t in 0..2u32 {
        gpu_mb_solve_contact_constraints_soa::<F, Dim3>(
            t,
            &a.info,
            &mut soa_cons,
            &soa_jacs,
            &soa_cols,
            &[3, 3],
            &mut soa_dofs,
            &mut soa_vels,
            &[1, 1],
            &a.ids,
        );
    }
    let mut joints = vec![empty_joint_slot(); 8];
    for j in joints.iter_mut() {
        j.kind = MB_JOINT_KIND_INACTIVE;
    }
    let joint_cols = vec![F(0.0); 16];
    let mut vels = vec![still(); 8];
    for b in 0..2u32 {
        gpu_mb_solve_constraints::<F, Dim3>(
            0,
            b,
            &a.info,
            &mut joints,
            &joint_cols,
            &mut cons,
            &jacs,
            &cols,
            true,
            &a.ids,
            &mut a.dofs,
            &mut vels,
        );
    }
    for b in 0..2usize {
        assert!(cons[192 * b].impulse.0 > 0.0);
        near(soa_cons[192 * b].impulse, cons[192 * b].impulse.0);
        near(soa_dofs[2 * b], a.dofs[b].0);
        near(soa_vels[4 * b + 3].linear.y, vels[4 * b + 3].linear.y.0);
    }
}

#[test]
fn reciprocals_have_no_threshold() {
    near(F(maybe_inv(F(1e-30)).0 * 1e-30), 1.0);
    near(maybe_inv(F(-4.0)), -0.25);
    near(maybe_inv(F(0.0)), 0.0);
    near(threshold_inv(F(1e-30)), 0.0);
    near(threshold_inv(F(-4.0)), -0.25);
}

#[test]
fn lu_solves_with_pivots() {
    // Columns of [[0, 2, 1], [1, 1, 0], [4, 0, 3]].
    let mut m = vec![F(0.0), F(1.0), F(4.0), F(2.0), F(1.0), F(0.0), F(1.0), F(0.0), F(3.0)];
    let view = MatView { base: 0, row_stride: 1, col_stride: 3, nrows: 3, ncols: 3 };
    let piv = VecView { base: 0, stride: 1, len: 3 };
    let mut pivots = vec![9u32; 3];
    lu_decompose(&mut m, view, &mut pivots, piv);
    assert_eq!(pivots[0], 2);
    // The image of (1, 2, 3).
    let mut x = vec![F(7.0), F(3.0), F(13.0)];
    lu_solve_in_place(&m, view, &pivots, piv, &mut x, piv);
    near(x[0], 1.0);
    near(x[1], 2.0);
    near(x[2], 3.0);
}

#[test]
fn packed_positions_of_two_slots_differ() {
    assert_eq!(sm_idx(3, 2), 2 * 64 + 3);
    let mut seen: Vec<usize> = Vec::new();
    for slot in 0..8u32 {
        for r in 0..8u32 {
            for c in 0..8u32 {
                let k = sm_idx_packed::<8>(slot, r, c);
                assert!(k < 512);
                assert!(!seen.contains(&k));
                seen.push(k);
            }
        }
    }
}

#[test]
fn tree_factors_solve_in_both_layouts() {
    // L is unit lower triangular and follows the tree 0 <- 1 <- 2; M = Lt D L.
    let l = [[1.0f32, 0.0, 0.0], [0.5, 1.0, 0.0], [0.25, -1.0, 1.0]];
    let d = [2.0f32, 4.0, 5.0];
    let mut factors = vec![F(0.0); 9];
    for r in 0..3usize {
        for c in 0..r {
            factors[c * 3 + r] = F(l[r][c]);
        }
        factors[r * 3 + r] = F(d[r]);
    }
    let x = [1.0f32, -2.0, 3.0];
    let mut rhs = [F(0.0); 3];
    for r in 0..3usize {
        let mut sum = 0.0;
        for c in 0..3usize {
            let mut m = 0.0;
            for k in 0..3usize {
                m += l[k][r] * d[k] * l[k][c];
            }
            sum += m * x[c];
        }
        rhs[r] = F(sum);
    }
    let parents = [MULTIBODY_ROOT, 0, 1];
    let v = VecView { base: 0, stride: 1, len: 3 };
    let by_columns = MatView { base: 0, row_stride: 1, col_stride: 3, nrows: 3, ncols: 3 };
    let mut y = rhs.to_vec();
    ltdl_solve_strided(&factors, by_columns, &mut y, v, &parents, v);
    for i in 0..3usize {
        near(y[i], x[i]);
    }
    let mut transposed = vec![F(0.0); 9];
    for r in 0..3usize {
        for c in 0..3usize {
            transposed[r * 3 + c] = factors[c * 3 + r];
        }
    }
    let mut z = rhs.to_vec();
    ltdl_solve_mapped(&transposed, by_columns, &mut z, v, &parents, v);
    for i in 0..3usize {
        near(z[i], x[i]);
    }

    // The same solves for two environments, in both memory layouts.
    let mut env_mat = transposed.clone();
    env_mat.extend_from_slice(&transposed);
    let mut env_jacs = rhs.to_vec();
    env_jacs.extend_from_slice(&rhs);
    let mut env_cols = vec![F(0.0); 6];
    let mut env_inv = vec![F(0.0); 2];
    let mut soa_mat = vec![F(0.0); 18];
    let mut soa_jacs = vec![F(0.0); 6];
    for e in 0..2usize {
        for i in 0..9usize {
            soa_mat[2 * i + e] = transposed[i];
        }
        for i in 0..3usize {
            soa_jacs[2 * i + e] = rhs[i];
        }
    }
    let mut soa_cols = vec![F(0.0); 6];
    let mut soa_inv = vec![F(0.0); 2];
    for e in 0..2u32 {
        gpu_bench_finalize_env_major(
            e, &env_mat, &env_jacs, &mut env_cols, &mut env_inv, &parents, 3, 1,
        );
        gpu_bench_finalize_soa(
            e, &soa_mat, &soa_jacs, &mut soa_cols, &mut soa_inv, &parents, 3, 2, 1,
        );
    }
    let lhs: f32 = (0..3).map(|i| rhs[i].0 * x[i]).sum();
    for e in 0..2usize {
        for i in 0..3usize {
            near(env_cols[3 * e + i], x[i]);
            near(soa_cols[2 * i + e], x[i]);
        }
        near(env_inv[e], 1.0 / lhs);
        near(soa_inv[e], 1.0 / lhs);
    }
}

#[test]
fn packing_round_trips() {
    let a = arms();
    let n = 4usize;
    let state: Vec<F> = (0..n).map(|i| F(i as f32 + 1.0)).collect();
    let mut packed = vec![F(0.0); n];
    let mut back = vec![F(0.0); n];
    let mut forces = vec![F(0.0); n];
    for k in 0..5u32 {
        gpu_mb_transpose_dof_state_to_packed(k, &state, &mut packed, 2, &a.ids);
        gpu_mb_transpose_gen_forces_to_packed(k, &state, &mut forces, 2, &a.ids);
    }
    for k in 0..5u32 {
        gpu_mb_transpose_dof_state_from_packed(k, &packed, &mut back, 2, &a.ids);
    }
    assert_eq!(back, state);
    assert_ne!(packed, state);
    assert_eq!(forces, packed);
    for env in 0..3u32 {
        gpu_mb_integrate_velocities_packed_dof(
            env, &a.info, &mut packed, &forces, &[1, 1], F(0.5), &a.ids,
        );
    }
    for i in 0..n {
        near(packed[i], 1.5 * forces[i].0);
    }
}

#[test]
fn motors_are_retargeted_one_by_one() {
    let mut a = arms();
    let targets = [F(1.0), F(2.0), F(3.0), F(4.0)];
    for j in 0..3u32 {
        for env in 0..3u32 {
            gpu_scatter_motor_targets::<F, Dim3>(j, env, &targets, &mut a.links, &[1, 2], 2, 2, 5);
        }
    }
    for env in 0..2usize {
        near(a.links[2 + env].data.motors[5].target_pos, 1.0 + env as f32);
        near(a.links[4 + env].data.motors[5].target_pos, 3.0 + env as f32);
        assert_eq!(a.links[2 + env].data.motor_axes, 1 << 5);
        assert_eq!(a.links[env].data.motor_axes, 0);
    }
    for j in 0..2u32 {
        for env in 0..2u32 {
            gpu_mb_delay_state_update(
                j, env, &targets, &[F(7.0), F(8.0)], &[1, 2], &mut a.delay, 2, 2, 5,
            );
        }
    }
    for env in 0..2usize {
        near(a.delay[5 * env], 0.0);
        near(a.delay[5 * env + 1], 7.0 + env as f32);
        near(a.delay[5 * env + 3], 1.0 + env as f32);
        near(a.delay[5 * env + 4], 3.0 + env as f32);
    }
}

#[test]
fn resets_touch_one_environment() {
    let mut a = arms();
    let stored_ws: Vec<Work> = (0..3)
        .map(|i| {
            let mut w = work();
            w.coords[5] = F(10.0 + i as f32);
            w
        })
        .collect();
    let stored_links = vec![a.links[0], a.links[2], a.links[4]];
    let stored_dofs = [F(1.0), F(2.0), F(3.0), F(4.0)];
    let sizes = ResetSizes { num_batches: 2, links_per_batch: 3, dofs_per_batch: 2, num_resets: 1 };
    let mut values = vec![F(0.0); 4];
    for i in 0..4u32 {
        gpu_mb_env_reset::<F, Dim3>(
            i,
            &stored_ws,
            &stored_links,
            &stored_dofs,
            &mut a.work,
            &mut a.links,
            &mut values,
            &mut a.dofs,
            1,
            &sizes,
        );
    }
    for i in 0..3usize {
        near(a.work[2 * i + 1].coords[5], 10.0 + i as f32);
        near(a.work[2 * i].coords[5], 0.0);
    }
    assert_eq!(values, vec![F(0.0), F(1.0), F(0.0), F(2.0)]);
    near(a.dofs[1], 3.0);
    near(a.dofs[3], 4.0);
    near(a.dofs[0], 0.0);

    let resets = [EnvReset { env: 0, template: 0 }];
    let offsets = [v3(1.0, 2.0, 3.0)];
    for i in 0..4u32 {
        for r in 0..2u32 {
            gpu_mb_env_reset_batch::<F, Dim3>(
                i,
                r,
                &stored_ws,
                &stored_links,
                &stored_dofs,
                &[3, 1, 0],
                &resets,
                &offsets,
                &[F(0.5), F(0.25)],
                &mut a.work,
                &mut a.links,
                &mut values,
                &mut a.dofs,
                &sizes,
            );
        }
    }
    near(a.work[0].coords[0], 1.0);
    near(a.work[0].coords[1], 2.0);
    near(a.work[0].coords[2], 3.0);
    near_v(a.work[0].local_to_parent.translation, 1.0, 2.0, 3.0);
    near(a.work[2].coords[0], 0.0);
    near_v(a.work[2].local_to_world.translation, 1.0, 2.0, 3.0);
    near_v(a.work[2].local_to_parent.translation, 0.0, 0.0, 0.0);
    near_v(a.work[4].local_to_world.translation, 0.0, 0.0, 0.0);
    near(a.work[4].coords[5], 12.0);
    near(values[0], 1.0);
    near(a.dofs[0], 0.5);
    near(a.dofs[2], 0.25);
    near(a.dofs[1], 3.0);

    let poses = [at(1.0, 0.0, 0.0), at(2.0, 0.0, 0.0)];
    let mut moving = still();
    moving.linear = v3(0.0, 0.0, 9.0);
    let mut body_poses = vec![at(0.0, 0.0, 0.0); 4];
    let mut vels = vec![still(); 4];
    for i in 0..3u32 {
        gpu_env_reset_bodies::<F, Dim3>(
            i,
            0,
            &poses,
            &[moving, moving],
            &[1, 0],
            &[EnvReset { env: 1, template: 0 }],
            &offsets,
            &mut body_poses,
            &mut vels,
            2,
            2,
            1,
        );
    }
    near_v(body_poses[0].translation, 0.0, 0.0, 0.0);
    near_v(body_poses[2].translation, 2.0, 2.0, 3.0);
    near_v(body_poses[3].translation, 2.0, 0.0, 0.0);
    near(vels[2].linear.z, 9.0);
    near(vels[1].linear.z, 0.0);
}

#[test]
fn instances_are_prepared() {
    let mut body = at(1.0, 2.0, 3.0);
    body.rotation = quat(0.0, 0.0, 0.5f32.sqrt(), 0.5f32.sqrt());
    let d = RbdInstanceDesc::<F, Dim3> {
        pose_index: 0,
        local_pose: at(1.0, 0.0, 0.0),
        scale: v3(2.0, 3.0, 4.0),
        color: [F(0.1), F(0.2), F(0.3), F(1.0)],
    };
    let mut positions = vec![F(0.0); 3];
    let mut deformations = vec![F(0.0); 9];
    let mut colors = vec![F(0.0); 4];
    for i in 0..2u32 {
        gpu_rbd_prep_render::<F, Dim3>(
            i, &mut positions, &mut deformations, &mut colors, &[body], &[d], 1,
        );
    }
    near(positions[0], 1.0);
    near(positions[1], 3.0);
    near(positions[2], 3.0);
    let want = [0.0, 2.0, 0.0, -3.0, 0.0, 0.0, 0.0, 0.0, 4.0];
    for i in 0..9usize {
        near(deformations[i], want[i]);
    }
    near(colors[1], 0.2);
}

#[test]
fn flat_indices_enumerate_multibodies() {
    let mut ids = arms().ids;
    ids.multibodies_len = 3;
    let mut seen: Vec<(u32, u32)> = Vec::new();
    for flat in 0..6u64 {
        let at = flat_decode(&ids, flat).unwrap();
        assert!(at.0 < 2 && at.1 < 3);
        assert!(!seen.contains(&at));
        seen.push(at);
    }
    assert_eq!(flat_decode(&ids, 6), None);
    assert_eq!(packed_decode(0, 5, 8, &ids), flat_decode(&ids, 5));
    assert_eq!(packed_decode(1, 0, 16, &ids), flat_decode(&ids, 4));
}

#[test]
fn default_parameters_give_known_softness() {
    let p = RbdSimParams::<F>::tgs_soft();
    near(p.inv_dt(), 60.0);
    let w = 30.0 * std::f32::consts::TAU;
    near(p.contact_angular_frequency(), w);
    near(p.contact_erp_inv_dt(), w / (w / 60.0 + 10.0));
    near(p.contact_erp(), w / (w / 60.0 + 10.0) / 60.0);
    near(p.allowed_linear_error(), 0.001);
    near(p.max_corrective_velocity(), 10.0);
    near(p.prediction_distance(), 0.002);
    let e = p.contact_erp().0;
    let k = 1.0 / e - 1.0;
    let cfm = k * k / ((1.0 + k) * 4.0 * 25.0);
    near(p.contact_cfm_factor(), 1.0 / (1.0 + cfm));
    let s = ConstraintSoftness::from_params(&p);
    near(s.erp_inv_dt, p.contact_erp_inv_dt().0);
    near(s.joint_erp_inv_dt, p.joint_erp_inv_dt().0);
    let mut stopped = p;
    stopped.dt = F(0.0);
    near(stopped.inv_dt(), 0.0);
}

#[test]
fn contacts_without_a_free_body_keep_all_bodies() {
    let (mut a, mut cons, jacs, cols) = touching();
    for c in cons.iter_mut() {
        c.free_body_id = NO_FREE_BODY;
    }
    let mut joints = vec![empty_joint_slot(); 8];
    for j in joints.iter_mut() {
        j.kind = MB_JOINT_KIND_INACTIVE;
    }
    let joint_cols = vec![F(0.0); 16];
    let mut vels = vec![still(); 8];
    gpu_mb_solve_constraints::<F, Dim3>(
        0,
        0,
        &a.info,
        &mut joints,
        &joint_cols,
        &mut cons,
        &jacs,
        &cols,
        true,
        &a.ids,
        &mut a.dofs,
        &mut vels,
    );
    assert!(cons[0].impulse.0 > 0.0);
    for v in vels {
        near_v(v.linear, 0.0, 0.0, 0.0);
    }
}

fn heavy() -> WorldMassProperties<F, Dim3> {
    WorldMassProperties {
        inv_inertia: Mat3 {
            x_axis: v3(1.0, 0.0, 0.0),
            y_axis: v3(0.0, 1.0, 0.0),
            z_axis: v3(0.0, 0.0, 1.0),
        },
        inv_mass: v3(0.5, 0.5, 0.5),
        com: v3(0.0, 0.0, 0.0),
    }
}

/// The lower arm presses down on a body below it.
fn pressed(a: &mut Arms) -> (Vec<IndexedManifold<F, Dim3>>, Vec<WorldMassProperties<F, Dim3>>) {
    let point = ContactPoint { pt: v3(0.0, -0.5, 0.0), dist: F(-0.1) };
    let manifold = IndexedManifold {
        contact: ContactManifold { normal_a: v3(0.0, -1.0, 0.0), points_a: [point; 4], len: 1 },
        colliders: [2, 3],
        bodies: [2, 3],
        friction: F(0.5),
    };
    let mut props = vec![heavy(); 8];
    for b in 0..2usize {
        a.poses[4 * b + 3] = at(2.0, -1.0, 0.0);
        for i in 0..4usize {
            props[4 * b + i].com = a.poses[4 * b + i].translation;
        }
        a.dofs[b] = F(-1.0);
    }
    (vec![manifold; 8], props)
}

#[test]
fn contacts_that_are_not_read_may_hold_anything() {
    let mut a = arms();
    a.dynamics(0.0);
    let (mut manifolds, props) = pressed(&mut a);
    for b in 0..2usize {
        // One without points, and one between bodies that are not links.
        manifolds[4 * b].contact.len = 0;
        manifolds[4 * b].bodies = [99, 99];
        manifolds[4 * b].colliders = [99, 99];
        manifolds[4 * b + 1].bodies = [3, 3];
        manifolds[4 * b + 1].colliders = [99, 99];
        manifolds[4 * b + 1].contact.len = 99;
    }
    for flat in 0..2u32 {
        gpu_mb_stash_contacts_len(flat, &mut a.info, &[3, 3], &a.ids);
    }
    let none = [NO_LINK, 0];
    let owners = [[0u32, 0], [0, 1], [0, 2], none, [0, 0], [0, 1], [0, 2], none];
    let mut cons = vec![contact_slot(MB_CONTACT_KIND_INACTIVE, 0); 384];
    let mut jacs = vec![F(0.0); 768];
    for b in 0..2u32 {
        gpu_mb_init_contact_constraints::<F, Dim3>(
            0,
            b,
            &mut a.info,
            &a.jacobians,
            &owners,
            &mut cons,
            &mut jacs,
            softness(),
            &props,
            &a.poses,
            &manifolds,
            &a.ids,
        );
    }
    for b in 0..2usize {
        assert_eq!(a.info[b].contact_constraint_count, 3);
        assert_eq!(cons[192 * b].link_id, 2);
    }
}

#[test]
fn contacts_of_a_link_are_built_finalized_and_sensed() {
    let mut a = arms();
    a.dynamics(0.0);
    let (manifolds, props) = pressed(&mut a);
    a.forces_alone(v3(0.0, 0.0, 0.0));
    for flat in 0..3u32 {
        gpu_mb_stash_contacts_len(flat, &mut a.info, &[1, 1], &a.ids);
    }
    assert_eq!(a.info[0].batch_contacts_len, 1);
    let none = [NO_LINK, 0];
    let owners = [[0u32, 0], [0, 1], [0, 2], none, [0, 0], [0, 1], [0, 2], none];
    let mut cons = vec![contact_slot(MB_CONTACT_KIND_INACTIVE, 0); 384];
    cons[0].impulse = F(5.0);
    let mut jacs = vec![F(0.0); 768];
    let mut cols = vec![F(0.0); 768];
    for flat in 0..2 * 192 {
        gpu_mb_reset_contact_warmstart::<F, Dim3>(flat, &mut cons, &a.ids);
    }
    near(cons[0].impulse, 0.0);
    for b in 0..2u32 {
        gpu_mb_init_contact_constraints::<F, Dim3>(
            0,
            b,
            &mut a.info,
            &a.jacobians,
            &owners,
            &mut cons,
            &mut jacs,
            softness(),
            &props,
            &a.poses,
            &manifolds,
            &a.ids,
        );
    }
    for b in 0..2usize {
        assert_eq!(a.info[b].contact_constraint_count, 3);
        assert_eq!(cons[192 * b].kind, MB_CONTACT_KIND_NORMAL);
        assert_eq!(cons[192 * b + 1].kind, MB_CONTACT_KIND_TANGENT);
        assert_eq!(cons[192 * b + 2].kind, MB_CONTACT_KIND_TANGENT);
        assert_eq!(cons[192 * b].free_body_id, 3);
        assert_eq!(cons[192 * b].link_id, 2);
        // The contact is at x = 2, so the normal sees lever arms 2 and 1.
        near(F(jacs[384 * b].0.abs()), 2.0);
        near(F(jacs[384 * b + 1].0.abs()), 1.0);
    }
    for b in 0..2u32 {
        gpu_mb_finalize_contact_constraints::<F, Dim3>(
            0, b, &a.info, &a.mass, &a.pivots, &mut cons, &jacs, &mut cols, &a.ids,
        );
    }
    for b in 0..2usize {
        // J M^-1 Jt with J = (2, 1), plus the inverse mass of the body.
        let lhs = (4.0 * 3.0 - 4.0 * 5.0 + 12.0) / 11.0 + 0.5;
        near(cons[192 * b].inv_lhs, 1.0 / lhs);
    }
    let mut vels = vec![still(); 8];
    for b in 0..2u32 {
        gpu_mb_warmstart_contact_constraints::<F, Dim3>(
            0, b, &a.info, &cons, &cols, &mut a.dofs, &mut vels, &a.ids,
        );
    }
    // Cold slots change nothing.
    near(a.dofs[0], -1.0);
    let mut joints = vec![empty_joint_slot(); 8];
    for j in joints.iter_mut() {
        j.kind = MB_JOINT_KIND_INACTIVE;
    }
    let joint_cols = vec![F(0.0); 16];
    for b in 0..2u32 {
        gpu_mb_solve_constraints::<F, Dim3>(
            0,
            b,
            &a.info,
            &mut joints,
            &joint_cols,
            &mut cons,
            &jacs,
            &cols,
            false,
            &a.ids,
            &mut a.dofs,
            &mut vels,
        );
    }
    let mut sensed = vec![F(9.0); 8];
    for b in 0..2u32 {
        gpu_mb_sense_contact_impulses::<F, Dim3>(
            0, b, &a.info, &cons, &[2, 1, 7, 7], &mut sensed, &a.ids,
        );
    }
    for b in 0..2usize {
        assert!(cons[192 * b].impulse.0 > 0.0);
        near(sensed[4 * b], cons[192 * b].impulse.0);
        near(sensed[4 * b + 1], 0.0);
        // The body is pushed down.
        assert!(vels[4 * b + 3].linear.y.0 < 0.0);
    }
}

#[test]
fn interleaved_contacts_solve_like_the_others() {
    let (mut a, mut cons, jacs, cols) = touching();
    let mut soa_cons = cons.clone();
    let mut soa_jacs = vec![F(0.0); 768];
    let mut soa_cols = vec![F(0.0); 768];
    for b in 0..2usize {
        for e in 0..384usize {
            soa_jacs[2 * e + b] = jacs[384 * b + e];
            soa_cols[2 * e + b] = cols[384 * b + e];
        }
    }
    // The velocities of a batch are next to each other here.
    let mut soa_dofs = vec![a.dofs[0], a.dofs[2], a.dofs[1], a.dofs[3]];
    let mut joints = vec![empty_joint_slot(); 8];
    for j in joints.iter_mut() {
        j.kind = MB_JOINT_KIND_INACTIVE;
    }
    let joint_cols = vec![F(0.0); 16];
    let mut vels = vec![still(); 8];
    let mut soa_vels = vec![still(); 8];
    for round in 0..2 {
        for t in 0..3u32 {
            if round == 0 {
                gpu_mb_remove_solve_contact_no_bias_soa::<F, Dim3>(
                    t,
                    &a.info,
                    &mut soa_cons,
                    &soa_jacs,
                    &soa_cols,
                    &[3, 3],
                    &mut soa_dofs,
                    &mut soa_vels,
                    &[1, 1],
                    &a.ids,
                );
            } else {
                gpu_mb_solve_contact_constraints_soa::<F, Dim3>(
                    t,
                    &a.info,
                    &mut soa_cons,
                    &soa_jacs,
                    &soa_cols,
                    &[3, 3],
                    &mut soa_dofs,
                    &mut soa_vels,
                    &[1, 1],
                    &a.ids,
                );
            }
        }
        for b in 0..2u32 {
            gpu_mb_solve_constraints::<F, Dim3>(
                0,
                b,
                &a.info,
                &mut joints,
                &joint_cols,
                &mut cons,
                &jacs,
                &cols,
                false,
                &a.ids,
                &mut a.dofs,
                &mut vels,
            );
        }
    }
    for b in 0..2usize {
        near(soa_dofs[2 * b], a.dofs[b].0);
        near(soa_dofs[2 * b + 1], a.dofs[2 + b].0);
        for s in 0..3usize {
            near(soa_cons[192 * b + s].impulse, cons[192 * b + s].impulse.0);
        }
        near(soa_vels[4 * b + 3].linear.y, vels[4 * b + 3].linear.y.0);
    }
}

#[test]
fn factors_are_transposed_tile_by_tile() {
    let a = arms();
    let mat: Vec<F> = (0..8).map(|i| F(i as f32)).collect();
    let mut soa = vec![F(-1.0); 8];
    gpu_mb_transpose_factors_soa(0, 0, &mat, &mut soa, &a.ids);
    for b in 0..2usize {
        for i in 0..4usize {
            near(soa[2 * i + b], (4 * b + i) as f32);
        }
    }
}

fn axis_slot() -> MbImpulseJointConstraint<F> {
    MbImpulseJointConstraint {
        kind: 9,
        joint_id: 0,
        writeback_kind: 0,
        writeback_axis: 0,
        side_a_kind: SIDE_KIND_FIXED,
        side_a_id: 0,
        side_a_link: 0,
        ndofs_a: 0,
        side_b_kind: SIDE_KIND_FIXED,
        side_b_id: 0,
        side_b_link: 0,
        ndofs_b: 0,
        j_id_a: 0,
        j_id_b: 0,
        impulse: F(0.0),
        impulse_lo: F(0.0),
        impulse_hi: F(0.0),
        inv_lhs: F(0.0),
        rhs: F(0.0),
        rhs_wo_bias: F(0.0),
        cfm_coeff: F(0.0),
        cfm_gain: F(0.0),
    }
}

#[test]
fn impulse_joints_hold_a_link_to_a_body() {
    let mut a = arms();
    a.ids.mb_imp_joints_batch_capacity = 2;
    a.ids.mb_imp_joint_constraints_batch_capacity = 12;
    a.ids.mb_imp_joint_jacobians_batch_capacity = 192;
    a.ids.mb_imp_joint_colors_batch_capacity = 1;
    a.dynamics(0.0);
    let (_, props) = pressed(&mut a);
    a.forces_alone(v3(0.0, 0.0, 0.0));
    // The lower arm's centre at (2, 0) is tied to the body's point (0, 1).
    let mut tie = joint(0b000111, 0.0);
    tie.local_frame_b = at(0.0, 1.0, 0.0);
    let held = MbImpulseJointBuilder {
        joint: tie,
        side_a_kind: SIDE_KIND_MB,
        side_a_id: 0,
        side_a_link: 2,
        joint_id: 4,
        side_b_kind: SIDE_KIND_BODY,
        side_b_id: 3,
        side_b_link: 0,
        constraint_id: 0,
        jacobian_offset: 0,
        jacobian_capacity: 192,
    };
    let unused = MbImpulseJointBuilder {
        side_a_kind: SIDE_KIND_FIXED,
        side_b_kind: SIDE_KIND_FIXED,
        side_a_id: SIDE_FIXED,
        side_b_id: SIDE_FIXED,
        ..held
    };
    let builders = [held, unused, held, unused];
    let mut cons = vec![axis_slot(); 24];
    let mut jacs = vec![F(0.0); 384];
    for b in 0..2u32 {
        for x in 0..2u32 {
            gpu_mb_update_impulse_joint_constraints::<F, Dim3>(
                x,
                2,
                b,
                &builders,
                &mut cons,
                &mut jacs,
                softness(),
                &a.info,
                &a.work,
                &a.jacobians,
                &a.poses,
                &props,
                &a.ids,
            );
        }
        for x in 0..2u32 {
            gpu_mb_finalize_impulse_joint_constraints::<F, Dim3>(
                x, 2, b, &builders, &mut cons, &mut jacs, &a.info, &a.mass, &a.pivots, &a.ids,
            );
        }
    }
    for b in 0..2usize {
        for s in 0..12usize {
            assert_eq!(cons[12 * b + s].kind, if s < 3 { 1 } else { 0 });
        }
        // Along y: J = (2, 1) on the arms, a unit mass of 2 on the body.
        near(cons[12 * b + 1].inv_lhs, 1.0 / (4.0 / 11.0 + 0.5));
        near(cons[12 * b + 1].rhs, 0.0);
    }
    let mut vels = vec![still(); 8];
    for _ in 0..10 {
        for b in 0..2u32 {
            gpu_mb_solve_impulse_joint_constraints::<F, Dim3>(
                0,
                b,
                &builders,
                &mut cons,
                &jacs,
                &[1, 1],
                &a.ids,
                0,
                &a.info,
                &mut a.dofs,
                &mut vels,
            );
        }
    }
    for b in 0..2usize {
        let arm = 2.0 * a.dofs[b].0 + a.dofs[2 + b].0;
        near(vels[4 * b + 3].linear.y, arm);
        assert!(arm < 0.0 && arm > -2.0);
    }
    for c in cons.iter_mut() {
        c.rhs = F(3.0);
        c.rhs_wo_bias = F(1.0);
    }
    gpu_mb_remove_impulse_joint_constraint_bias::<F, Dim3>(
        0, 1, 0, &builders, &mut cons, &[1, 1], &a.ids,
    );
    near(cons[0].rhs, 1.0);
    near(cons[12].rhs, 3.0);
}

#[test]
fn joints_within_one_multibody_do_not_see_common_motion() {
    // Both arms turn together: the tie between them has nothing to do.
    let mut a = arms();
    a.ids.mb_imp_joints_batch_capacity = 1;
    a.ids.mb_imp_joint_constraints_batch_capacity = 12;
    a.ids.mb_imp_joint_jacobians_batch_capacity = 96;
    a.ids.mb_imp_joint_colors_batch_capacity = 1;
    a.dynamics(0.0);
    let (_, props) = pressed(&mut a);
    a.forces_alone(v3(0.0, 0.0, 0.0));
    let mut tie = joint(0b100000, 0.0);
    tie.local_frame_a = at(0.5, 0.0, 0.0);
    tie.local_frame_b = at(-0.5, 0.0, 0.0);
    let held = MbImpulseJointBuilder {
        joint: tie,
        side_a_kind: SIDE_KIND_MB,
        side_a_id: 0,
        side_a_link: 1,
        joint_id: 0,
        side_b_kind: SIDE_KIND_MB,
        side_b_id: 0,
        side_b_link: 2,
        constraint_id: 0,
        jacobian_offset: 0,
        jacobian_capacity: 96,
    };
    let builders = [held, held];
    let mut cons = vec![axis_slot(); 24];
    let mut jacs = vec![F(0.0); 192];
    gpu_mb_update_impulse_joint_constraints::<F, Dim3>(
        0,
        1,
        0,
        &builders,
        &mut cons,
        &mut jacs,
        softness(),
        &a.info,
        &a.work,
        &a.jacobians,
        &a.poses,
        &props,
        &a.ids,
    );
    gpu_mb_finalize_impulse_joint_constraints::<F, Dim3>(
        0, 1, 0, &builders, &mut cons, &mut jacs, &a.info, &a.mass, &a.pivots, &a.ids,
    );
    // Only the second joint turns one arm against the other, at 12 / 11. A lock
    // measures the sine of half the angle.
    near(cons[0].inv_lhs, 4.0 * 11.0 / 12.0);
    let mut vels = vec![still(); 8];
    a.dofs[2] = F(0.0);
    gpu_mb_solve_impulse_joint_constraints::<F, Dim3>(
        0, 0, &builders, &mut cons, &jacs, &[1, 1], &a.ids, 0, &a.info, &mut a.dofs, &mut vels,
    );
    near(cons[0].impulse, 0.0);
    a.dofs[2] = F(2.0);
    gpu_mb_solve_impulse_joint_constraints::<F, Dim3>(
        0, 0, &builders, &mut cons, &jacs, &[1, 1], &a.ids, 0, &a.info, &mut a.dofs, &mut vels,
    );
    near(a.dofs[2], 0.0);
}

fn without_coriolis(a: &mut Arms, tier: u32) {
    for flat in 0..2u32 {
        let slots = 64 / tier;
        gpu_mb_compute_dynamics_without_coriolis_pre::<F, Dim3>(
            flat / slots,
            flat % slots,
            tier,
            &a.info,
            &a.links,
            &mut a.work,
            &mut a.poses,
            &mut a.jacobians,
            &mut a.mass,
            &a.dofs,
            F(0.1),
            &a.ids,
        );
    }
}

#[test]
fn the_mass_matrix_gives_the_kinetic_energy() {
    let mut a = arms();
    for b in 0..2usize {
        a.work[4 + b].coords[5] = F(0.7);
        a.work[4 + b].joint_rot = quat(0.0, 0.0, 0.35f32.sin(), 0.35f32.cos());
        a.dofs[b] = F(1.5 - b as f32);
        a.dofs[2 + b] = F(-0.5);
    }
    without_coriolis(&mut a, 8);
    for b in 0..2usize {
        let q = [a.dofs[b].0, a.dofs[2 + b].0];
        let mut form = 0.0;
        for r in 0..2usize {
            for c in 0..2usize {
                form += q[r] * q[c] * a.mass[(c * 2 + r) * 2 + b].0;
            }
        }
        let mut energy = 0.0;
        for k in 1..3usize {
            let v = a.work[2 * k + b].rb_vels;
            energy += 2.0 * (v.linear.x.0.powi(2) + v.linear.y.0.powi(2));
            energy += v.angular.z.0.powi(2);
        }
        near(F(form), energy);
        near(a.mass[2 + b], a.mass[4 + b].0);
    }
}

#[test]
fn chains_give_the_same_mass_matrix() {
    // Both arms hang from the root: neither is on the other's chain.
    let mut dense = arms();
    for b in 0..2usize {
        dense.links[4 + b].parent_link_id = 0;
        dense.dofs[b] = F(1.0);
    }
    let mut chained = arms();
    chained.links = dense.links.clone();
    chained.dofs = dense.dofs.clone();
    without_coriolis(&mut dense, 1);
    without_coriolis(&mut chained, 8);
    for i in 0..8usize {
        near(chained.mass[i], dense.mass[i].0);
    }
    near(dense.mass[0], 3.0);
    near(dense.mass[2], 0.0);
    near(dense.mass[6], 3.0);
    // The second arm does not feel the first joint.
    for r in 0..6usize {
        near(dense.jacobians[(24 + r) * 2], 0.0);
    }
}

#[test]
fn long_chains_reach_the_root() {
    // A root that turns about z, and 65 links fixed to one another; only the last
    // one has mass, at distance 1.
    let links = 66usize;
    let mut ids = arms().ids;
    ids.num_batches = 1;
    ids.links_batch_capacity = links as u32;
    ids.dof_batch_capacity = 1;
    ids.colliders_batch_capacity = links as u32;
    ids.mass_matrix_batch_capacity = 1;
    let mut info = arms().info[0];
    info.num_links = links as u32;
    info.ndofs = 1;
    info.root_is_dynamic = 1;
    let mut stat = vec![link(0, MULTIBODY_ROOT, 0, 1, SPIN_Z, 0.0)];
    for k in 1..links as u32 {
        stat.push(link(k, k - 1, 1, 0, FIXED, if k == 40 { 1.0 } else { 0.0 }));
    }
    for k in 0..links - 1 {
        stat[k].local_mprops.inv_mass = v3(0.0, 0.0, 0.0);
    }
    for tier in [1u32, 8] {
        let mut ws = vec![work(); links];
        let mut poses = vec![at(0.0, 0.0, 0.0); links];
        let mut jacobians = vec![F(0.0); links * 6];
        let mut mass = vec![F(0.0); 1];
        // Velocity, damping, armature.
        let dofs = vec![F(0.0), F(0.5), F(0.25), F(0.0), F(0.0), F(0.0)];
        gpu_mb_compute_dynamics_without_coriolis_pre::<F, Dim3>(
            0,
            0,
            tier,
            &[info],
            &stat,
            &mut ws,
            &mut poses,
            &mut jacobians,
            &mut mass,
            &dofs,
            F(0.5),
            &ids,
        );
        near(poses[links - 1].translation.x, 1.0);
        // 2 * 1^2 + 1, damping over the step, and armature.
        near(mass[0], 3.5);
    }
}

#[test]
fn deep_trees_are_solved() {
    // A chain of 70 unknowns: the last couples to the first, and D is 2.
    let n = 70usize;
    let mut factors = vec![F(0.0); n * n];
    let mut parents = vec![MULTIBODY_ROOT];
    for i in 0..n {
        factors[i * n + i] = F(2.0);
        if i > 0 {
            parents.push(i as u32 - 1);
        }
    }
    factors[n - 1] = F(1.0);
    let mut x = vec![F(2.0); n];
    x[0] = F(6.0);
    x[n - 1] = F(4.0);
    let v = VecView { base: 0, stride: 1, len: n };
    let m = MatView { base: 0, row_stride: 1, col_stride: n, nrows: n, ncols: n };
    ltdl_solve_strided(&factors, m, &mut x, v, &parents, v);
    for y in x {
        near(y, 1.0);
    }
}

#[test]
fn refreshing_rebuilds_at_the_new_coordinates() {
    let mut a = arms();
    for b in 0..2usize {
        for k in 1..3usize {
            let l = &mut a.links[2 * k + b];
            l.data.limit_axes = 1 << 5;
            l.data.limits[5] = JointLimits { min: F(-0.5), max: F(0.5) };
            l.data.motor_axes = 1 << 5;
            l.data.motors[5].stiffness = F(2.0);
            l.data.motors[5].damping = F(1.0);
            l.data.motors[5].target_pos = F(0.25);
        }
    }
    a.dynamics(0.0);
    a.forces_alone(v3(0.0, 0.0, 0.0));
    let mut refreshed = vec![empty_joint_slot(); 8];
    let mut rebuilt = vec![empty_joint_slot(); 8];
    let mut cols = vec![F(0.0); 16];
    let init = |a: &Arms, cons: &mut Vec<MultibodyJointConstraint<F>>, cols: &mut Vec<F>| {
        for b in 0..2u32 {
            gpu_mb_init_joint_constraints::<F, Dim3>(
                0,
                b,
                &a.info,
                &a.links,
                &a.work,
                &a.mass,
                &a.pivots,
                cons,
                cols,
                softness(),
                &a.ids,
            );
        }
    };
    init(&a, &mut refreshed, &mut cols);
    for b in 0..2usize {
        a.work[2 + b].coords[5] = F(0.9);
        a.work[4 + b].coords[5] = F(-0.7);
    }
    init(&a, &mut rebuilt, &mut cols);
    for b in 0..2u32 {
        gpu_mb_refresh_joint_constraints::<F, Dim3>(
            0, b, &a.info, &a.links, &a.work, &mut refreshed, softness(), &a.ids,
        );
    }
    for s in 0..8usize {
        let x = &refreshed[s];
        let y = &rebuilt[s];
        assert_eq!((x.kind, x.dof_id, x.kind_extra), (y.kind, y.dof_id, y.kind_extra));
        assert_eq!(x.rhs, y.rhs);
        assert_eq!(x.inv_lhs, y.inv_lhs);
        assert_eq!(x.cfm_gain, y.cfm_gain);
        assert_eq!(x.impulse_lo, y.impulse_lo);
        assert_eq!(x.impulse_hi, y.impulse_hi);
    }
    assert_eq!(refreshed[0].kind, MB_JOINT_KIND_LIMIT);
    assert_eq!(refreshed[1].kind, MB_JOINT_KIND_MOTOR);
}

#[test]
fn motors_do_not_overshoot_their_limits() {
    let mut m = motor(ACCELERATION_BASED);
    m.target_vel = F(100.0);
    m.damping = F(1.0);
    let l = JointLimits { min: F(-1.0), max: F(1.0) };
    let c = build_motor_constraint(0, 0, 0, F(0.75), F(0.5), &m, Some(l));
    near(c.rhs, -0.5);
    m.target_vel = F(-100.0);
    let c = build_motor_constraint(0, 0, 0, F(0.75), F(0.5), &m, Some(l));
    near(c.rhs, 3.5);
}
