use nexus_rbd::batch::BatchIndices;
use nexus_rbd::contact::{ContactManifold, ContactPoint, IndexedManifold};
use nexus_rbd::multibody::types::{LocalMassProperties, WorldMassProperties};
use nexus_rbd::scalar::Scalar;
use nexus_rbd::sim_params::RbdSimParams;
use nexus_rbd::solver::constraint::{
    ConstraintRow, TwoBodyConstraint, TwoBodyConstraintBuilder, TwoBodyConstraintElement,
    TwoBodyConstraintInfo,
};
use nexus_rbd::solver::kernels::{
    gpu_init_solver_bodies, gpu_init_solver_vels_inc, gpu_integrate_linearized,
    gpu_solver_cleanup, gpu_solver_finalize, gpu_solver_inc_color, gpu_solver_init_constraints,
    gpu_solver_reset_color, gpu_warmstart_without_colors, is_fixed,
};
use nexus_rbd::solver::passes::{
    FUSED_SOLVE_MAX_BODIES, gpu_apply_solver_vels_inc, gpu_remove_cfm_and_bias_kernel,
    gpu_solver_update_constraints, gpu_step_gauss_seidel, gpu_step_gauss_seidel_fused,
    gpu_step_gauss_seidel_fused_no_bias, gpu_warmstart, gpu_warmstart_fused,
};
use nexus_rbd::solver::sorting::{gpu_solver_count_constraints, gpu_solver_sort_constraints};
use nexus_rbd::solver::step::{
    remove_cfm_and_bias, solve_constraint_gauss_seidel, update_constraint, warmstart_body,
    warmstart_constraint,
};
use nexus_rbd::solver::utils::{compute_tangent_contact_directions, contact_to_constraint};
use nexus_rbd::solver::warmstart::{gpu_transfer_warmstart_impulses, transfer_warmstart_impulses};
use nexus_rbd::space::{Dim2, Dim3, Pose, Quat, Rot2, Mat3, V2, V3, Velocity};

#[derive(Clone, Copy, Debug, PartialEq)]
struct F(f32);

impl Scalar for F {
    fn zero() -> F {
        F(0.0)
    }

    fn one() -> F {
        F(1.0)
    }

    fn dec(m: i32, e: i32) -> F {
        F((m as f64 * 10f64.powi(e)) as f32)
    }

    fn plus(self, o: F) -> F {
        F(self.0 + o.0)
    }

    fn minus(self, o: F) -> F {
        F(self.0 - o.0)
    }

    fn times(self, o: F) -> F {
        F(self.0 * o.0)
    }

    fn over(self, o: F) -> F {
        F(self.0 / o.0)
    }

    fn negate(self) -> F {
        F(-self.0)
    }

    fn sqrt(self) -> F {
        F(self.0.sqrt())
    }

    fn sin(self) -> F {
        F(self.0.sin())
    }

    fn cos(self) -> F {
        F(self.0.cos())
    }

    fn atan2(self, x: F) -> F {
        F(self.0.atan2(x.0))
    }

    fn maximum(self, o: F) -> F {
        F(self.0.max(o.0))
    }

    fn minimum(self, o: F) -> F {
        F(self.0.min(o.0))
    }

    fn lt(self, o: F) -> bool {
        self.0 < o.0
    }

    fn le(self, o: F) -> bool {
        self.0 <= o.0
    }

    fn same(self, o: F) -> bool {
        self.0 == o.0
    }

    fn zero_spec() -> F {
        unreachable!()
    }

    fn one_spec() -> F {
        unreachable!()
    }

    fn dec_spec(_: i32, _: i32) -> F {
        unreachable!()
    }

    fn plus_spec(self, _: F) -> F {
        unreachable!()
    }

    fn minus_spec(self, _: F) -> F {
        unreachable!()
    }

    fn times_spec(self, _: F) -> F {
        unreachable!()
    }

    fn over_spec(self, _: F) -> F {
        unreachable!()
    }

    fn neg_spec(self) -> F {
        unreachable!()
    }

    fn sqrt_spec(self) -> F {
        unreachable!()
    }

    fn sin_spec(self) -> F {
        unreachable!()
    }

    fn cos_spec(self) -> F {
        unreachable!()
    }

    fn atan2_spec(self, _: F) -> F {
        unreachable!()
    }

    fn maximum_spec(self, _: F) -> F {
        unreachable!()
    }

    fn minimum_spec(self, _: F) -> F {
        unreachable!()
    }

    fn lt_spec(self, _: F) -> bool {
        unreachable!()
    }

    fn le_spec(self, _: F) -> bool {
        unreachable!()
    }

    fn same_spec(self, _: F) -> bool {
        unreachable!()
    }
}

type C3 = TwoBodyConstraint<F, Dim3>;
type C2 = TwoBodyConstraint<F, Dim2>;

fn v3(x: f32, y: f32, z: f32) -> V3<F> {
    V3 { x: F(x), y: F(y), z: F(z) }
}

fn v2(x: f32, y: f32) -> V2<F> {
    V2 { x: F(x), y: F(y) }
}

fn arr(v: V3<F>) -> [f32; 3] {
    [v.x.0, v.y.0, v.z.0]
}

fn near(a: f32, b: f32) -> bool {
    (a - b).abs() < 1.0e-4
}

fn row3() -> ConstraintRow<F, Dim3> {
    ConstraintRow {
        torque_dir_a: v3(0.0, 0.0, 0.0),
        ii_torque_dir_a: v3(0.0, 0.0, 0.0),
        torque_dir_b: v3(0.0, 0.0, 0.0),
        ii_torque_dir_b: v3(0.0, 0.0, 0.0),
        rhs: F(0.0),
        rhs_wo_bias: F(0.0),
        impulse: F(0.0),
        r: F(0.0),
    }
}

fn element3() -> TwoBodyConstraintElement<F, Dim3> {
    TwoBodyConstraintElement {
        normal_part: row3(),
        tangent0: row3(),
        tangent1: row3(),
        tangent_coupling: F(0.0),
    }
}

fn blank3() -> C3 {
    TwoBodyConstraint {
        dir_a: v3(0.0, 0.0, 0.0),
        tangent_a: v3(0.0, 0.0, 0.0),
        im_a: v3(0.0, 0.0, 0.0),
        im_b: v3(0.0, 0.0, 0.0),
        cfm_factor: F(0.0),
        limit: F(0.0),
        solver_body_a: 0,
        solver_body_b: 0,
        elements: [element3(); 4],
        len: 0,
    }
}

fn info3() -> TwoBodyConstraintInfo<F, Dim3> {
    TwoBodyConstraintInfo {
        local_pt_a: v3(0.0, 0.0, 0.0),
        local_pt_b: v3(0.0, 0.0, 0.0),
        dist: F(0.0),
        normal_vel: F(0.0),
    }
}

fn builder3() -> TwoBodyConstraintBuilder<F, Dim3> {
    TwoBodyConstraintBuilder { infos: [info3(); 4] }
}

fn pose3(x: f32, y: f32, z: f32) -> Pose<F, Dim3> {
    Pose {
        rotation: Quat { x: F(0.0), y: F(0.0), z: F(0.0), w: F(1.0) },
        translation: v3(x, y, z),
    }
}

fn vel3(x: f32, y: f32, z: f32) -> Velocity<F, Dim3> {
    Velocity { linear: v3(x, y, z), angular: v3(0.0, 0.0, 0.0) }
}

fn diag(k: f32) -> Mat3<F> {
    Mat3 { x_axis: v3(k, 0.0, 0.0), y_axis: v3(0.0, k, 0.0), z_axis: v3(0.0, 0.0, k) }
}

fn mass3(im: f32, ii: f32) -> WorldMassProperties<F, Dim3> {
    WorldMassProperties { inv_inertia: diag(ii), inv_mass: v3(im, im, im), com: v3(0.0, 0.0, 0.0) }
}

/// A point of body 0, above body 1, with the normal pointing down.
fn manifold3(a: u32, b: u32, len: u32, dist: f32) -> IndexedManifold<F, Dim3> {
    IndexedManifold {
        contact: ContactManifold {
            normal_a: v3(0.0, -1.0, 0.0),
            points_a: [ContactPoint { pt: v3(0.0, -1.0, 0.0), dist: F(dist) }; 4],
            len,
        },
        colliders: [a, b],
        bodies: [a, b],
        friction: F(0.5),
    }
}

fn params() -> RbdSimParams<F> {
    RbdSimParams::tgs_soft()
}

fn sizes(bodies: u32, contacts: u32) -> BatchIndices {
    BatchIndices {
        num_batches: 1,
        multibodies_len: 0,
        links_batch_capacity: 0,
        dof_batch_capacity: 0,
        contacts_batch_capacity: contacts,
        colliders_batch_capacity: bodies,
        coriolis_batch_capacity: 0,
        multibodies_batch_capacity: 0,
        joint_constraints_batch_capacity: 0,
        colliders_len: bodies,
        bodies_len: bodies,
        mass_matrix_batch_capacity: 0,
        mb_imp_joints_batch_capacity: 0,
        mb_imp_joint_constraints_batch_capacity: 0,
        mb_imp_joint_jacobians_batch_capacity: 0,
        mb_imp_joint_colors_batch_capacity: 0,
    }
}

/// A ball of mass 1 that falls on the ground.
fn built(dist: f32, vy: f32) -> (C3, TwoBodyConstraintBuilder<F, Dim3>) {
    let mut c = blank3();
    let mut b = builder3();
    contact_to_constraint(
        &manifold3(0, 1, 1, dist),
        &[mass3(1.0, 0.4), mass3(0.0, 0.0)],
        &[pose3(0.0, 1.0, 0.0), pose3(0.0, 0.0, 0.0)],
        &[pose3(0.0, 1.0, 0.0), pose3(0.0, 0.0, 0.0)],
        &[vel3(0.0, vy, 0.0), vel3(0.0, 0.0, 0.0)],
        &params(),
        &mut c,
        &mut b,
    );
    (c, b)
}

#[test]
fn contacts_become_constraints() {
    let (c, b) = built(-0.01, -2.0);
    assert_eq!(arr(c.dir_a), [0.0, 1.0, 0.0]);
    assert_eq!(arr(c.im_a), [1.0, 1.0, 1.0]);
    assert_eq!(arr(c.im_b), [0.0, 0.0, 0.0]);
    assert_eq!(c.limit, F(0.5));
    assert_eq!((c.solver_body_a, c.solver_body_b, c.len), (0, 1, 1));
    assert_eq!(c.cfm_factor, params().contact_cfm_factor());
    let e = c.elements[0];
    assert_eq!(e.normal_part.r, F(1.0));
    assert_eq!(e.normal_part.impulse, F(0.0));
    assert_eq!(e.normal_part.rhs_wo_bias, F(0.0));
    let erp = params().contact_erp_inv_dt().0;
    assert!(near(e.normal_part.rhs.0, erp * (-0.01 + 0.001)));
    assert!(near(e.tangent0.r.0, 1.0 + 0.4 * 0.995 * 0.995));
    assert!(near(e.tangent1.r.0, 1.0 + 0.4 * 0.995 * 0.995));
    assert!(near(e.tangent_coupling.0, 0.0));
    assert!(near(b.infos[0].local_pt_a.y.0, -1.0 + 0.005));
    assert!(near(b.infos[0].local_pt_b.y.0, 0.005));
    assert_eq!(b.infos[0].dist, F(-0.01));
}

#[test]
fn anchors_meet_midway_between_the_surfaces() {
    let mut tilted = pose3(0.5, 1.25, -0.25);
    tilted.rotation = Quat { x: F(0.6), y: F(0.0), z: F(0.0), w: F(0.8) };
    let mut turned = pose3(-0.5, 0.0, 2.0);
    turned.rotation = Quat { x: F(0.0), y: F(0.36), z: F(0.48), w: F(0.8) };
    let poses = [tilted, turned];
    let mut c = blank3();
    let mut b = builder3();
    contact_to_constraint(
        &manifold3(0, 1, 1, -0.5),
        &[mass3(1.0, 0.4), mass3(1.0, 0.4)],
        &[pose3(0.0, 1.0, 0.0), pose3(0.0, 0.0, 0.0)],
        &poses,
        &[vel3(0.0, 0.0, 0.0), vel3(0.0, 0.0, 0.0)],
        &params(),
        &mut c,
        &mut b,
    );
    let p = arr(tilted.point(b.infos[0].local_pt_a));
    let q = arr(turned.point(b.infos[0].local_pt_b));
    let want = [0.0, 0.25, 0.0];
    for k in 0..3usize {
        assert!(near(p[k], want[k]));
        assert!(near(q[k], want[k]));
    }
    // Where nothing moved, nothing drifted.
    let before = c;
    update_constraint(&mut c, &b, &poses, &params());
    let (x, y) = (c.elements[0], before.elements[0]);
    assert!(near(x.normal_part.rhs_wo_bias.0, y.normal_part.rhs_wo_bias.0));
    assert!(near(x.normal_part.rhs.0, y.normal_part.rhs.0));
    assert!((x.tangent0.rhs.0 - y.tangent0.rhs_wo_bias.0).abs() < 1e-4);
    assert!((x.tangent1.rhs.0 - y.tangent1.rhs_wo_bias.0).abs() < 1e-4);
}

#[test]
fn separated_contacts_allow_closing_in() {
    let (c, _) = built(0.03, -2.0);
    let e = c.elements[0];
    assert!(near(e.normal_part.rhs_wo_bias.0, 0.03 * 60.0));
    assert_eq!(e.normal_part.rhs, e.normal_part.rhs_wo_bias);
}

#[test]
fn corrective_velocity_is_bounded() {
    let (c, _) = built(-1000.0, 0.0);
    assert!(near(c.elements[0].normal_part.rhs.0, -10.0));
}

#[test]
fn tangents_follow_the_slip() {
    let n = v3(0.0, 1.0, 0.0);
    let (t, b) = compute_tangent_contact_directions::<F, Dim3>(n, v3(3.0, 5.0, 0.0), v3(0.0, 0.0, 0.0));
    assert_eq!(arr(t), [1.0, 0.0, 0.0]);
    assert_eq!(arr(b), [0.0, 0.0, -1.0]);
    let (t, _) = compute_tangent_contact_directions::<F, Dim3>(n, v3(0.00001, 5.0, 0.0), v3(0.0, 0.0, 0.0));
    assert_eq!(arr(t), [0.0, 0.0, -1.0]);
    let (t, _) = compute_tangent_contact_directions::<F, Dim2>(v2(0.0, 1.0), v2(3.0, 0.0), v2(0.0, 0.0));
    assert_eq!((t.x.0, t.y.0), (-1.0, 0.0));
}

#[test]
fn solving_stops_a_falling_ball() {
    let (mut c, _) = built(0.0, -2.0);
    c.cfm_factor = F(1.0);
    let mut a = vel3(0.0, -2.0, 0.0);
    let mut b = vel3(0.0, 0.0, 0.0);
    let rhs = c.elements[0].normal_part.rhs.0;
    solve_constraint_gauss_seidel(&mut c, &mut a, &mut b);
    assert!(near(a.linear.y.0, -rhs));
    assert!(near(c.elements[0].normal_part.impulse.0, 2.0 - rhs));
    assert_eq!(arr(b.linear), [0.0, 0.0, 0.0]);
}

#[test]
fn contacts_never_pull() {
    let (mut c, _) = built(0.0, 2.0);
    let mut a = vel3(0.0, 2.0, 0.0);
    let mut b = vel3(0.0, 0.0, 0.0);
    solve_constraint_gauss_seidel(&mut c, &mut a, &mut b);
    assert_eq!(c.elements[0].normal_part.impulse, F(0.0));
    assert_eq!(arr(a.linear), [0.0, 2.0, 0.0]);
}

#[test]
fn friction_stays_in_the_cone() {
    let (mut c, _) = built(0.0, -2.0);
    c.cfm_factor = F(1.0);
    let mut a = vel3(30.0, -2.0, 40.0);
    let mut b = vel3(0.0, 0.0, 0.0);
    solve_constraint_gauss_seidel(&mut c, &mut a, &mut b);
    let e = c.elements[0];
    let x = e.tangent0.impulse.0;
    let y = e.tangent1.impulse.0;
    let limit = 0.5 * e.normal_part.impulse.0;
    assert!(near((x * x + y * y).sqrt(), limit));
}

#[test]
fn solving_conserves_momentum() {
    let mut c = blank3();
    let mut builder = builder3();
    contact_to_constraint(
        &manifold3(0, 1, 1, 0.0),
        &[mass3(0.5, 0.1), mass3(0.25, 0.2)],
        &[pose3(0.3, 1.0, 0.1), pose3(0.0, -1.0, 0.0)],
        &[pose3(0.3, 1.0, 0.1), pose3(0.0, -1.0, 0.0)],
        &[vel3(1.0, -2.0, 0.5), vel3(0.0, 1.0, 0.0)],
        &params(),
        &mut c,
        &mut builder,
    );
    let mut a = vel3(1.0, -2.0, 0.5);
    let mut b = vel3(0.0, 1.0, 0.0);
    solve_constraint_gauss_seidel(&mut c, &mut a, &mut b);
    let before = [2.0 * 1.0, 2.0 * -2.0 + 4.0 * 1.0, 2.0 * 0.5];
    let (x, y) = (arr(a.linear), arr(b.linear));
    for k in 0..3 {
        assert!(near(2.0 * x[k] + 4.0 * y[k], before[k]));
    }
    assert!(c.elements[0].normal_part.impulse.0 > 0.0);
}

#[test]
fn updates_refresh_the_right_hand_sides() {
    let (mut c, b) = built(-0.01, 0.0);
    c.elements[0].normal_part.impulse = F(3.0);
    c.elements[0].tangent0.impulse = F(1.0);
    c.elements[0].tangent1.impulse = F(2.0);
    let mut p = params();
    p.warmstart_coefficient = F(0.5);
    let before = c;
    update_constraint(&mut c, &b, &[pose3(0.0, 1.02, 0.0), pose3(0.0, 0.0, 0.0)], &p);
    let e = c.elements[0];
    let dist = 0.01;
    assert!(near(e.normal_part.rhs_wo_bias.0, dist * 60.0));
    assert_eq!(e.normal_part.impulse, F(1.5));
    assert_eq!(e.tangent0.impulse, F(0.5));
    assert_eq!(e.tangent1.impulse, F(1.0));
    assert_eq!(e.normal_part.r, before.elements[0].normal_part.r);
    update_constraint(&mut c, &b, &[pose3(0.02, 1.0, 0.0), pose3(0.0, 0.0, 0.0)], &p);
    let slide0 = c.elements[0].tangent0.rhs.0;
    let slide1 = c.elements[0].tangent1.rhs.0;
    assert!(near((slide0 * slide0 + slide1 * slide1).sqrt(), 0.02 * 60.0));
}

#[test]
fn bias_is_removed_once() {
    let (mut c, _) = built(-0.01, 0.0);
    let before = c;
    remove_cfm_and_bias(&mut c);
    assert_eq!(c.cfm_factor, F(1.0));
    assert_eq!(c.elements[0].normal_part.rhs, before.elements[0].normal_part.rhs_wo_bias);
    let once = c;
    remove_cfm_and_bias(&mut c);
    assert_eq!(c.elements[0].normal_part.rhs, once.elements[0].normal_part.rhs);
    let mut flat = flat2();
    for k in 0..4 {
        flat.elements[k].normal_part.rhs = F(1.0);
        flat.elements[k].normal_part.rhs_wo_bias = F(2.0);
    }
    remove_cfm_and_bias(&mut flat);
    assert_eq!(flat.elements[1].normal_part.rhs, F(2.0));
    assert_eq!(flat.elements[2].normal_part.rhs, F(1.0));
}

fn row2(r: f32) -> ConstraintRow<F, Dim2> {
    ConstraintRow {
        torque_dir_a: F(0.0),
        ii_torque_dir_a: F(0.0),
        torque_dir_b: F(0.0),
        ii_torque_dir_b: F(0.0),
        rhs: F(0.0),
        rhs_wo_bias: F(0.0),
        impulse: F(0.0),
        r: F(r),
    }
}

fn flat2() -> C2 {
    TwoBodyConstraint {
        dir_a: v2(0.0, 1.0),
        tangent_a: v2(0.0, 0.0),
        im_a: v2(1.0, 1.0),
        im_b: v2(0.0, 0.0),
        cfm_factor: F(1.0),
        limit: F(0.5),
        solver_body_a: 0,
        solver_body_b: 1,
        elements: [TwoBodyConstraintElement {
            normal_part: row2(1.0),
            tangent0: row2(1.0),
            tangent1: row2(7.0),
            tangent_coupling: F(9.0),
        }; 4],
        len: 1,
    }
}

#[test]
fn plane_friction_is_clamped() {
    let mut c = flat2();
    let mut a: Velocity<F, Dim2> = Velocity { linear: v2(10.0, -2.0), angular: F(0.0) };
    let mut b: Velocity<F, Dim2> = Velocity { linear: v2(0.0, 0.0), angular: F(0.0) };
    solve_constraint_gauss_seidel(&mut c, &mut a, &mut b);
    assert_eq!(c.elements[0].normal_part.impulse, F(2.0));
    assert_eq!(c.elements[0].tangent0.impulse, F(1.0));
    assert_eq!(c.elements[0].tangent1.impulse, F(0.0));
    assert_eq!((a.linear.x.0, a.linear.y.0), (9.0, 0.0));
}

#[test]
fn plane_contacts_become_constraints() {
    let mut c = flat2();
    let mut b: TwoBodyConstraintBuilder<F, Dim2> = TwoBodyConstraintBuilder {
        infos: [TwoBodyConstraintInfo {
            local_pt_a: v2(0.0, 0.0),
            local_pt_b: v2(0.0, 0.0),
            dist: F(0.0),
            normal_vel: F(0.0),
        }; 4],
    };
    let im: IndexedManifold<F, Dim2> = IndexedManifold {
        contact: ContactManifold {
            normal_a: v2(0.0, -1.0),
            points_a: [ContactPoint { pt: v2(0.5, -1.0), dist: F(0.0) }; 4],
            len: 1,
        },
        colliders: [0, 1],
        bodies: [0, 1],
        friction: F(0.5),
    };
    let mass = |m: f32, i: f32| WorldMassProperties::<F, Dim2> {
        inv_inertia: F(i),
        inv_mass: v2(m, m),
        com: v2(0.0, 0.0),
    };
    let pose = |y: f32| Pose::<F, Dim2> {
        rotation: Rot2 { re: F(1.0), im: F(0.0) },
        translation: v2(0.0, y),
    };
    let vel = Velocity::<F, Dim2> { linear: v2(0.0, 0.0), angular: F(0.0) };
    contact_to_constraint(
        &im,
        &[mass(1.0, 2.0), mass(0.0, 0.0)],
        &[pose(1.0), pose(0.0)],
        &[pose(1.0), pose(0.0)],
        &[vel, vel],
        &params(),
        &mut c,
        &mut b,
    );
    let e = c.elements[0];
    assert_eq!(e.normal_part.torque_dir_a, F(0.5));
    assert_eq!(e.normal_part.ii_torque_dir_a, F(1.0));
    assert!(near(e.normal_part.r.0, 1.0 / (1.0 + 0.5)));
    assert!(near(e.tangent0.r.0, 1.0 / (1.0 + 2.0)));
    assert_eq!(e.tangent1.r, F(7.0));
    assert_eq!(e.tangent_coupling, F(9.0));
}

#[test]
fn gathering_matches_scattering() {
    let (mut c, _) = built(0.0, 0.0);
    c.elements[0].normal_part.impulse = F(2.0);
    c.elements[0].tangent0.impulse = F(0.5);
    c.elements[0].tangent1.impulse = F(-0.25);
    let mut d = c;
    d.solver_body_a = 2;
    d.solver_body_b = 0;
    d.im_b = v3(0.5, 0.5, 0.5);
    let cs = [c, d];
    let mut vels = [vel3(1.0, 2.0, 3.0), vel3(0.0, 0.0, 0.0), vel3(-1.0, 0.0, 0.0)];
    let mut gathered = vels[0];
    warmstart_body(0, &[2, 2, 2], &[0, 1], &cs, &mut gathered);
    for k in 0..2 {
        let a = cs[k].solver_body_a as usize;
        let b = cs[k].solver_body_b as usize;
        let mut va = vels[a];
        let mut vb = vels[b];
        warmstart_constraint(&cs[k], &mut va, &mut vb);
        vels[a] = va;
        vels[b] = vb;
    }
    assert_eq!(arr(gathered.linear), arr(vels[0].linear));
    assert_eq!(arr(gathered.angular), arr(vels[0].angular));
    assert!(near(gathered.linear.y.0, 2.0 + 2.0 - 1.0));
}

#[test]
fn warmstart_without_colors_reads_the_lists() {
    let (mut c, _) = built(0.0, 0.0);
    c.elements[0].normal_part.impulse = F(2.0);
    let ids = sizes(2, 1);
    let mut vels = [vel3(0.0, 0.0, 0.0), vel3(0.0, 0.0, 0.0)];
    for x in 0..64 {
        gpu_warmstart_without_colors(x, 64, 0, &[1, 1], &[0, 0], &[c], &mut vels, &ids);
    }
    assert_eq!(arr(vels[0].linear), [0.0, 2.0, 0.0]);
    assert_eq!(arr(vels[1].linear), [0.0, 0.0, 0.0]);
}

#[test]
fn colors_count_from_one() {
    let mut color = 7;
    gpu_solver_reset_color(&mut color);
    assert_eq!(color, 1);
    gpu_solver_inc_color(&mut color);
    assert_eq!(color, 2);
}

#[test]
fn bodies_without_inverse_mass_are_fixed() {
    assert!(is_fixed::<F, Dim3>(v3(0.0, 0.0, 0.0)));
    assert!(!is_fixed::<F, Dim3>(v3(0.0, 0.0, 1.0)));
    assert!(is_fixed::<F, Dim2>(v2(0.0, 0.0)));
    assert!(!is_fixed::<F, Dim2>(v2(0.0, 1.0)));
}

#[test]
fn init_skips_empty_slots() {
    let ids = sizes(2, 3);
    let mut cs = [blank3(); 3];
    let mut bs = [builder3(); 3];
    let contacts = [manifold3(0, 1, 1, 0.0), manifold3(0, 1, 0, 0.0), manifold3(0, 1, 1, 0.0)];
    for x in 0..2 {
        gpu_solver_init_constraints(
            x,
            2,
            0,
            &contacts,
            &mut cs,
            &mut bs,
            &[pose3(0.0, 1.0, 0.0), pose3(0.0, 0.0, 0.0)],
            &[pose3(0.0, 1.0, 0.0), pose3(0.0, 0.0, 0.0)],
            &[vel3(0.0, 0.0, 0.0), vel3(0.0, 0.0, 0.0)],
            &[mass3(1.0, 0.4), mass3(0.0, 0.0)],
            &[params()],
            &ids,
        );
    }
    assert_eq!(cs[0].len, 1);
    assert_eq!(cs[1].len, 0);
    assert_eq!(cs[2].len, 0);
}

#[test]
fn counting_and_sorting_list_the_contacts_of_each_body() {
    let ids = sizes(4, 3);
    let mprops = [mass3(1.0, 1.0), mass3(0.0, 0.0), mass3(1.0, 1.0), mass3(0.0, 0.0)];
    let groups = [0, 1, 2, 2];
    let contacts = [
        manifold3(0, 1, 1, 0.0),
        manifold3(0, 2, 1, 0.0),
        manifold3(3, 0, 1, 0.0),
    ];
    let mut counts = [0u32; 4];
    for x in 0..64 {
        gpu_solver_count_constraints(x, 64, 0, &contacts, &mut counts, &groups, &mprops, &ids);
    }
    assert_eq!(counts, [3, 0, 2, 0]);
    let mut starts = [0, 3, 3, 5];
    let mut list = [9u32; 6];
    for x in [1, 0] {
        gpu_solver_sort_constraints(
            x, 2, 0, &mut starts, &mprops, &contacts, &[3], &mut list, &groups, &ids,
        );
    }
    assert_eq!(starts, [3, 3, 5, 5]);
    let mut first = [list[0], list[1], list[2]];
    first.sort();
    assert_eq!(first, [0, 1, 2]);
    let mut third = [list[3], list[4]];
    third.sort();
    assert_eq!(third, [1, 2]);
    assert_eq!(list[5], 9);
}

#[test]
fn counters_wrap() {
    let ids = sizes(2, 1);
    let mut counts = [u32::MAX, 5];
    gpu_solver_count_constraints(
        0,
        64,
        0,
        &[manifold3(0, 1, 1, 0.0)],
        &mut counts,
        &[0, 1],
        &[mass3(1.0, 1.0), mass3(0.0, 0.0)],
        &ids,
    );
    assert_eq!(counts, [0, 5]);
}

#[test]
fn cleanup_starts_a_step() {
    let ids = sizes(3, 1);
    let mut counts = [4, 5, 6];
    let mut solver = [vel3(9.0, 9.0, 9.0); 3];
    let vels = [vel3(1.0, 0.0, 0.0), vel3(2.0, 0.0, 0.0), vel3(3.0, 0.0, 0.0)];
    let mprops = [mass3(1.0, 1.0), mass3(0.0, 0.0), mass3(1.0, 1.0)];
    for x in 0..2 {
        gpu_solver_cleanup(x, 2, 0, &mut counts, &mut solver, &vels, &mprops, &ids);
    }
    assert_eq!(counts, [0, 0, 0]);
    assert_eq!(arr(solver[0].linear), [1.0, 0.0, 0.0]);
    assert_eq!(arr(solver[1].linear), [0.0, 0.0, 0.0]);
    assert_eq!(arr(solver[2].linear), [3.0, 0.0, 0.0]);
}

#[test]
fn gravity_acts_on_movable_bodies() {
    let ids = sizes(2, 1);
    let mut inc = [vel3(9.0, 9.0, 9.0); 2];
    let mprops = [mass3(1.0, 1.0), mass3(0.0, 0.0)];
    for i in 0..3 {
        gpu_init_solver_vels_inc(i, 0, &mut inc, &mprops, &[params()], &ids);
    }
    assert!(near(inc[0].linear.y.0, -9.81 / 60.0));
    assert_eq!(arr(inc[1].linear), [0.0, 0.0, 0.0]);
    let mut vels = [vel3(1.0, 1.0, 1.0); 2];
    for i in 0..3 {
        gpu_apply_solver_vels_inc(i, 0, &mut vels, &inc, &ids);
    }
    assert!(near(vels[0].linear.y.0, 1.0 - 9.81 / 60.0));
    assert_eq!(arr(vels[1].linear), [1.0, 1.0, 1.0]);
}

/// Three contacts in a row: 0-1, 1-2 and 3-4, so that the first two need colors of
/// their own.
fn chain() -> ([C3; 3], [u32; 3]) {
    let (mut c, _) = built(0.0, 0.0);
    c.im_b = v3(1.0, 1.0, 1.0);
    c.elements[0].normal_part.r = F(0.5);
    c.cfm_factor = F(1.0);
    let mut d = c;
    d.solver_body_a = 1;
    d.solver_body_b = 2;
    let mut e = c;
    e.solver_body_a = 3;
    e.solver_body_b = 4;
    ([c, d, e], [1, 2, 1])
}

fn fall() -> [Velocity<F, Dim3>; 5] {
    [
        vel3(0.0, -3.0, 0.0),
        vel3(0.0, 0.0, 0.0),
        vel3(0.0, 0.0, 0.0),
        vel3(0.0, -2.0, 0.0),
        vel3(0.0, 0.0, 0.0),
    ]
}

#[test]
fn fused_passes_match_color_by_color() {
    assert_eq!(FUSED_SOLVE_MAX_BODIES, 64);
    let ids = sizes(5, 3);
    let (mut cs, colors) = chain();
    let mut vels = fall();
    let (mut fused, _) = chain();
    let mut fused_vels = fall();
    let mut color = 0;
    gpu_solver_reset_color(&mut color);
    for _ in 0..2 {
        for x in [1, 0] {
            gpu_step_gauss_seidel(x, 2, 0, &mut cs, &mut vels, &colors, &[9], color, &ids);
        }
        gpu_solver_inc_color(&mut color);
    }
    gpu_step_gauss_seidel_fused(0, &mut fused, &mut fused_vels, &colors, &[9], 2, &ids);
    for k in 0..5 {
        assert_eq!(arr(vels[k].linear), arr(fused_vels[k].linear));
    }
    for k in 0..3 {
        assert_eq!(cs[k].elements[0].normal_part.impulse, fused[k].elements[0].normal_part.impulse);
    }
    assert_eq!(cs[0].elements[0].normal_part.impulse, F(1.5));
    assert_eq!(cs[2].elements[0].normal_part.impulse, F(1.0));
}

#[test]
fn fused_passes_without_bias() {
    let ids = sizes(5, 3);
    let (mut cs, colors) = chain();
    cs[0].elements[0].normal_part.rhs = F(4.0);
    let mut vels = fall();
    let (mut twin, _) = chain();
    twin[0].elements[0].normal_part.rhs = F(4.0);
    let mut twin_vels = fall();
    gpu_step_gauss_seidel_fused_no_bias(0, &mut cs, &mut vels, &colors, &[3], 2, &ids);
    for i in 0..4 {
        gpu_remove_cfm_and_bias_kernel(i, 0, &mut twin, &[3], &ids);
    }
    gpu_step_gauss_seidel_fused(0, &mut twin, &mut twin_vels, &colors, &[3], 2, &ids);
    for k in 0..5 {
        assert_eq!(arr(vels[k].linear), arr(twin_vels[k].linear));
    }
    assert_eq!(cs[0].elements[0].normal_part.rhs, F(0.0));
}

#[test]
fn contacts_without_a_color_change_nothing() {
    let ids = sizes(5, 3);
    let (mut cs, _) = chain();
    let mut vels = fall();
    // Colors 1 and 2 run: one contact has no color, one a color past the last.
    gpu_step_gauss_seidel_fused(0, &mut cs, &mut vels, &[0, 1, 3], &[3], 2, &ids);
    let start = fall();
    for k in [0usize, 3, 4] {
        assert_eq!(arr(vels[k].linear), arr(start[k].linear));
    }
    assert_eq!(cs[0].elements[0].normal_part.impulse, F(0.0));
    assert_eq!(cs[2].elements[0].normal_part.impulse, F(0.0));
}

#[test]
fn fused_warmstart_absorbs_its_parts() {
    let ids = sizes(5, 3);
    let (mut cs, colors) = chain();
    for c in cs.iter_mut() {
        c.elements[0].normal_part.impulse = F(1.0);
    }
    let mut twin = cs;
    let mut vels = fall();
    let mut twin_vels = fall();
    let inc = [vel3(0.5, 0.0, 0.0); 5];
    let builders = [builder3(); 3];
    let poses = [pose3(0.0, 0.0, 0.0); 5];
    gpu_warmstart_fused(
        0, &mut cs, &mut vels, &colors, &[3], 2, &ids, &inc, &builders, &poses, &[params()],
    );
    for i in 0..5 {
        gpu_apply_solver_vels_inc(i, 0, &mut twin_vels, &inc, &ids);
    }
    for x in 0..2 {
        gpu_solver_update_constraints(x, 2, 0, &mut twin, &builders, &[3], &poses, &[params()], &ids);
    }
    for color in 1..=2 {
        for x in 0..2 {
            gpu_warmstart(x, 2, 0, &twin, &mut twin_vels, &colors, &[3], color, &ids);
        }
    }
    for k in 0..5 {
        assert_eq!(arr(vels[k].linear), arr(twin_vels[k].linear));
    }
    assert_eq!(arr(vels[0].linear), [0.5, -2.0, 0.0]);
}

#[test]
fn fused_warmstart_increments_bodies_of_the_batch() {
    let mut ids = sizes(5, 3);
    ids.colliders_len = 4;
    ids.bodies_len = 5;
    let (mut cs, colors) = chain();
    let mut vels = fall();
    let inc = [vel3(0.5, 0.0, 0.0); 5];
    let builders = [builder3(); 3];
    let poses = [pose3(0.0, 0.0, 0.0); 5];
    gpu_warmstart_fused(
        0, &mut cs, &mut vels, &colors, &[3], 0, &ids, &inc, &builders, &poses, &[params()],
    );
    for k in 0..5 {
        assert_eq!(vels[k].linear.x, if k < 4 { F(0.5) } else { F(0.0) });
    }
}

#[test]
fn solver_poses_come_back() {
    let ids = sizes(1, 1);
    let mprops = [LocalMassProperties::<F, Dim3> {
        inertia_ref_frame: Quat { x: F(0.0), y: F(0.0), z: F(0.0), w: F(1.0) },
        inv_principal_inertia: v3(1.0, 1.0, 1.0),
        inv_mass: v3(1.0, 1.0, 1.0),
        com: v3(0.0, 0.5, 0.0),
    }];
    let mut body = [pose3(1.0, 2.0, 3.0)];
    let mut solver = [pose3(0.0, 0.0, 0.0)];
    let vels_in = [vel3(3.0, 0.0, 0.0)];
    let mut vels = [vel3(0.0, 0.0, 0.0)];
    gpu_init_solver_bodies(0, 0, &body, &mprops, &mut solver, &ids);
    assert_eq!(arr(solver[0].translation), [1.0, 2.5, 3.0]);
    gpu_integrate_linearized(0, 0, &mut solver, &vels_in, &[params()], &ids);
    assert!(near(solver[0].translation.x.0, 1.0 + 3.0 / 60.0));
    gpu_solver_finalize(0, 0, &mut vels, &vels_in, &mut body, &solver, &mprops, &ids);
    assert!(near(body[0].translation.x.0, 1.05));
    assert!(near(body[0].translation.y.0, 2.0));
    assert_eq!(arr(vels[0].linear), [3.0, 0.0, 0.0]);
}

fn old_frame() -> ([C3; 2], [TwoBodyConstraintBuilder<F, Dim3>; 2]) {
    let mut c = blank3();
    c.solver_body_a = 0;
    c.solver_body_b = 1;
    c.len = 2;
    c.elements[0].normal_part.impulse = F(5.0);
    c.elements[0].tangent0.impulse = F(1.0);
    c.elements[0].tangent1.impulse = F(2.0);
    c.elements[1].normal_part.impulse = F(6.0);
    let mut d = c;
    d.solver_body_a = 0;
    d.solver_body_b = 2;
    d.elements[0].normal_part.impulse = F(8.0);
    let mut b = builder3();
    b.infos[1].local_pt_a = v3(1.0, 0.0, 0.0);
    b.infos[1].local_pt_b = v3(1.0, 0.0, 0.0);
    ([c, d], [b, b])
}

#[test]
fn impulses_carry_over() {
    let (cs, bs) = old_frame();
    let mut new = blank3();
    new.solver_body_a = 0;
    new.solver_body_b = 1;
    new.len = 3;
    let mut nb = builder3();
    nb.infos[0].local_pt_a = v3(1.05, 0.0, 0.0);
    nb.infos[0].local_pt_b = v3(1.05, 0.0, 0.0);
    nb.infos[1].local_pt_a = v3(0.05, 0.0, 0.0);
    nb.infos[1].local_pt_b = v3(0.0, 0.05, 0.0);
    nb.infos[2].local_pt_a = v3(0.0, 0.0, 0.0);
    nb.infos[2].local_pt_b = v3(0.5, 0.0, 0.0);
    let mut news = [new];
    transfer_warmstart_impulses(0, &[2, 3, 4], &[1, 0, 0, 1], &cs, &bs, &mut news, &[nb]);
    assert_eq!(news[0].elements[0].normal_part.impulse, F(6.0));
    assert_eq!(news[0].elements[1].normal_part.impulse, F(5.0));
    assert_eq!(news[0].elements[1].tangent0.impulse, F(1.0));
    assert_eq!(news[0].elements[1].tangent1.impulse, F(2.0));
    assert_eq!(news[0].elements[2].normal_part.impulse, F(0.0));
}

#[test]
fn fixed_bodies_have_no_list_to_search() {
    let (cs, bs) = old_frame();
    let mut new = blank3();
    new.solver_body_a = 0;
    new.solver_body_b = 1;
    new.len = 1;
    let mut news = [new];
    transfer_warmstart_impulses(0, &[2, 2, 3], &[1, 0, 1], &cs, &bs, &mut news, &[builder3()]);
    assert_eq!(news[0].elements[0].normal_part.impulse, F(5.0));
}

#[test]
fn first_match_wins() {
    let (cs, mut bs) = old_frame();
    bs[0].infos[1] = bs[0].infos[0];
    let mut new = blank3();
    new.solver_body_a = 0;
    new.solver_body_b = 1;
    new.len = 1;
    let mut news = [new, blank3()];
    let builders = [builder3(), builder3()];
    let counts = [2, 3, 4];
    let list = [1, 0, 0, 1];
    gpu_transfer_warmstart_impulses(
        0, 0, &counts, &list, &cs, &bs, &mut news, &builders, &[9], 2, 3,
    );
    assert_eq!(news[0].elements[0].normal_part.impulse, F(5.0));
    gpu_transfer_warmstart_impulses(
        2, 0, &counts, &list, &cs, &bs, &mut news, &builders, &[9], 2, 3,
    );
    assert_eq!(news[1].elements[0].normal_part.impulse, F(0.0));
}
