use nexus_rbd::batch::BatchIndices;
use nexus_rbd::joint::{ACCELERATION_BASED, GenericJoint, JointLimits, JointMotor};
use nexus_rbd::multibody::dynamics::gpu_mb_compute_dynamics_pre;
use nexus_rbd::multibody::gravity_and_lu::gpu_mb_gravity_and_lu_t1;
use nexus_rbd::multibody::integrate::gpu_mb_integrate;
use nexus_rbd::multibody::types::{
    LocalMassProperties, MULTIBODY_ROOT, MultibodyInfo, MultibodyLinkStatic, MultibodyLinkWorkspace,
};
use nexus_rbd::prep_render::{RbdInstanceDesc, gpu_rbd_prep_render};
use nexus_rbd::scalar::Scalar;
use nexus_rbd::space::{Dim2, Pose, Rot2, V2, Velocity};

#[derive(Clone, Copy, Debug, PartialEq)]
struct F(f32);

impl Scalar for F {
    fn zero() -> F {
        F(0.0)
    }

    fn one() -> F {
        F(1.0)
    }

    fn dec(m: i32, e: i32) -> F {
        F((m as f64 * 10f64.powi(e)) as f32)
    }

    fn plus(self, o: F) -> F {
        F(self.0 + o.0)
    }

    fn minus(self, o: F) -> F {
        F(self.0 - o.0)
    }

    fn times(self, o: F) -> F {
        F(self.0 * o.0)
    }

    fn over(self, o: F) -> F {
        F(self.0 / o.0)
    }

    fn negate(self) -> F {
        F(-self.0)
    }

    fn sqrt(self) -> F {
        F(self.0.sqrt())
    }

    fn sin(self) -> F {
        F(self.0.sin())
    }

    fn cos(self) -> F {
        F(self.0.cos())
    }

    fn atan2(self, x: F) -> F {
        F(self.0.atan2(x.0))
    }

    fn maximum(self, o: F) -> F {
        F(self.0.max(o.0))
    }

    fn minimum(self, o: F) -> F {
        F(self.0.min(o.0))
    }

    fn lt(self, o: F) -> bool {
        self.0 < o.0
    }

    fn le(self, o: F) -> bool {
        self.0 <= o.0
    }

    fn same(self, o: F) -> bool {
        self.0 == o.0
    }

    fn zero_spec() -> F {
        unreachable!()
    }

    fn one_spec() -> F {
        unreachable!()
    }

    fn dec_spec(_: i32, _: i32) -> F {
        unreachable!()
    }

    fn plus_spec(self, _: F) -> F {
        unreachable!()
    }

    fn minus_spec(self, _: F) -> F {
        unreachable!()
    }

    fn times_spec(self, _: F) -> F {
        unreachable!()
    }

    fn over_spec(self, _: F) -> F {
        unreachable!()
    }

    fn neg_spec(self) -> F {
        unreachable!()
    }

    fn sqrt_spec(self) -> F {
        unreachable!()
    }

    fn sin_spec(self) -> F {
        unreachable!()
    }

    fn cos_spec(self) -> F {
        unreachable!()
    }

    fn atan2_spec(self, _: F) -> F {
        unreachable!()
    }

    fn maximum_spec(self, _: F) -> F {
        unreachable!()
    }

    fn minimum_spec(self, _: F) -> F {
        unreachable!()
    }

    fn lt_spec(self, _: F) -> bool {
        unreachable!()
    }

    fn le_spec(self, _: F) -> bool {
        unreachable!()
    }

    fn same_spec(self, _: F) -> bool {
        unreachable!()
    }
}

fn v2(x: f32, y: f32) -> V2<F> {
    V2 { x: F(x), y: F(y) }
}

fn still() -> Velocity<F, Dim2> {
    Velocity { linear: v2(0.0, 0.0), angular: F(0.0) }
}

fn at(x: f32, y: f32) -> Pose<F, Dim2> {
    Pose { rotation: Rot2 { re: F(1.0), im: F(0.0) }, translation: v2(x, y) }
}

fn near(a: F, b: f32) {
    assert!((a.0 - b).abs() < 1e-4 * (1.0 + b.abs()), "{} is not {}", a.0, b);
}

fn link(rb: u32, parent: u32, ndofs: u32, locked: u32, back: f32) -> MultibodyLinkStatic<F, Dim2> {
    let motor = JointMotor {
        target_pos: F(0.0),
        target_vel: F(0.0),
        stiffness: F(0.0),
        damping: F(0.0),
        max_force: F(0.0),
        model: ACCELERATION_BASED,
    };
    MultibodyLinkStatic {
        rb_id: rb,
        parent_link_id: parent,
        multibody_id: 0,
        assembly_id: 0,
        ndofs: ndofs,
        kinematic: 0,
        data: GenericJoint {
            local_frame_a: at(0.0, 0.0),
            local_frame_b: at(-back, 0.0),
            locked_axes: locked,
            limit_axes: 0,
            motor_axes: 0,
            limits: [JointLimits { min: F(0.0), max: F(0.0) }; 6],
            motors: [motor; 6],
        },
        local_mprops: LocalMassProperties {
            inertia_ref_frame: Rot2 { re: F(1.0), im: F(0.0) },
            inv_principal_inertia: F(1.0),
            inv_mass: v2(0.5, 0.5),
            com: v2(0.0, 0.0),
        },
    }
}

fn work() -> MultibodyLinkWorkspace<F, Dim2> {
    MultibodyLinkWorkspace {
        joint_rot: Rot2 { re: F(1.0), im: F(0.0) },
        coords: [F(0.0); 6],
        local_to_parent: at(0.0, 0.0),
        local_to_world: at(0.0, 0.0),
        shift02: v2(0.0, 0.0),
        shift23: v2(0.0, 0.0),
        joint_velocity: still(),
        rb_vels: still(),
        kinematic_acc: still(),
    }
}

fn ids() -> BatchIndices {
    BatchIndices {
        num_batches: 1,
        multibodies_len: 1,
        links_batch_capacity: 2,
        dof_batch_capacity: 1,
        contacts_batch_capacity: 0,
        colliders_batch_capacity: 2,
        coriolis_batch_capacity: 4,
        multibodies_batch_capacity: 1,
        joint_constraints_batch_capacity: 0,
        colliders_len: 2,
        bodies_len: 2,
        mass_matrix_batch_capacity: 1,
        mb_imp_joints_batch_capacity: 0,
        mb_imp_joint_constraints_batch_capacity: 0,
        mb_imp_joint_jacobians_batch_capacity: 0,
        mb_imp_joint_colors_batch_capacity: 0,
    }
}

#[test]
fn a_plane_pendulum_swings() {
    let ids = ids();
    let mut info = MultibodyInfo::default();
    info.num_links = 2;
    info.ndofs = 1;
    let info = [info];
    let links = [link(0, MULTIBODY_ROOT, 0, 0b111, 0.0), link(1, 0, 1, 0b011, 2.0)];
    let mut ws = [work(), work()];
    ws[1].coords[2] = F(std::f32::consts::FRAC_PI_2);
    ws[1].joint_rot = Rot2 { re: F(0.0), im: F(1.0) };
    let mut poses = [at(0.0, 0.0), at(0.0, 0.0)];
    let mut jacobians = vec![F(0.0); 6];
    let mut mass = vec![F(0.0); 1];
    let mut coriolis = vec![F(0.0); 11];
    // Velocity, damping, armature, one unused section, limits.
    let mut dofs = vec![F(3.0), F(0.0), F(0.5), F(0.0), F(100.0), F(100.0)];
    gpu_mb_compute_dynamics_pre::<F, Dim2>(
        0,
        0,
        1,
        &info,
        &links,
        &mut ws,
        &mut poses,
        &mut jacobians,
        &mut mass,
        &mut coriolis,
        &dofs,
        F(0.0),
        &ids,
    );
    near(poses[1].translation.x, 0.0);
    near(poses[1].translation.y, 2.0);
    // The arm points up: its centre moves to the left.
    near(jacobians[3], -2.0);
    near(jacobians[4], 0.0);
    near(jacobians[5], 1.0);
    near(ws[1].rb_vels.linear.x, -6.0);
    near(ws[1].rb_vels.linear.y, 0.0);
    near(ws[1].rb_vels.angular, 3.0);
    // 2 * 2^2 + 1, and the armature.
    near(mass[0], 9.5);
    let mut forces = vec![F(0.0); 1];
    let mut pivots = vec![0u32; 1];
    let mut delay = vec![F(0.0); 4];
    gpu_mb_gravity_and_lu_t1::<F, Dim2>(
        0,
        &info,
        &links,
        &mut ws,
        &jacobians,
        &mut forces,
        &mut mass,
        &mut pivots,
        &dofs,
        v2(-10.0, 0.0),
        &ids,
        &mut delay,
    );
    // A force of -20 along x at height 2.
    near(forces[0], 40.0 / 9.5);
    gpu_mb_integrate::<F, Dim2>(0, &info, &links, &mut ws, &mut dofs, F(0.5), &ids);
    near(ws[1].coords[2], std::f32::consts::FRAC_PI_2 + 1.5);
    near(ws[1].joint_rot.re, (std::f32::consts::FRAC_PI_2 + 1.5).cos());
    near(ws[1].joint_rot.im, (std::f32::consts::FRAC_PI_2 + 1.5).sin());
}

#[test]
fn blocks_of_massless_plane_links_are_cleared() {
    let ids = ids();
    let mut info = MultibodyInfo::default();
    info.num_links = 2;
    info.ndofs = 1;
    let info = [info];
    let mut links = [link(0, MULTIBODY_ROOT, 0, 0b111, 0.0), link(1, 0, 1, 0b011, 2.0)];
    links[0].local_mprops.inv_mass = v2(0.0, 0.0);
    let mut ws = [work(), work()];
    let mut poses = [at(0.0, 0.0), at(0.0, 0.0)];
    let mut jacobians = vec![F(0.0); 6];
    let mut mass = vec![F(0.0); 1];
    let mut coriolis = vec![F(7.0); 12];
    let dofs = vec![F(3.0), F(0.0), F(0.5), F(0.0), F(100.0), F(100.0)];
    gpu_mb_compute_dynamics_pre::<F, Dim2>(
        0,
        0,
        1,
        &info,
        &links,
        &mut ws,
        &mut poses,
        &mut jacobians,
        &mut mass,
        &mut coriolis,
        &dofs,
        F(0.5),
        &ids,
    );
    // Both rows of both blocks of the root.
    for i in [0usize, 1, 4, 5] {
        near(coriolis[i], 0.0);
    }
    // The centre of the arm turns at distance 2 with velocity 3; both products count.
    near(coriolis[2], -12.0);
    near(coriolis[3], 0.0);
    near(coriolis[6], 0.0);
    // The angular block of the arm has one row, and past the impulses nothing is
    // written.
    near(coriolis[7], 7.0);
    // Mass 2, over a step of 0.5.
    near(coriolis[8], -12.0);
    near(coriolis[9], 0.0);
    near(coriolis[10], 0.0);
    near(coriolis[11], 7.0);
}

#[test]
fn plane_instances_are_prepared() {
    let mut body = at(1.0, 2.0);
    body.rotation = Rot2 { re: F(0.0), im: F(1.0) };
    let d = RbdInstanceDesc::<F, Dim2> {
        pose_index: 0,
        local_pose: at(1.0, 0.0),
        scale: v2(2.0, 3.0),
        color: [F(0.1), F(0.2), F(0.3), F(1.0)],
    };
    let mut positions = vec![F(0.0); 2];
    let mut deformations = vec![F(0.0); 4];
    let mut colors = vec![F(0.0); 4];
    gpu_rbd_prep_render::<F, Dim2>(
        0, &mut positions, &mut deformations, &mut colors, &[body], &[d], 1,
    );
    near(positions[0], 1.0);
    near(positions[1], 3.0);
    let want = [0.0, 2.0, -3.0, 0.0];
    for i in 0..4usize {
        near(deformations[i], want[i]);
    }
}
