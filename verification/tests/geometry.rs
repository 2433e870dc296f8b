use glamx::{Quat as GQuat, Rot2 as GRot2, Vec2, Vec3};
use nexus_rbd::scalar::Scalar;
use nexus_rbd::space::{
    Dim2, Dim3, Pose, Quat, Rot2, Space, V2, V3, Velocity, cross_matrix, mat_vec, quat_dot,
    rotation_angle, rotation_diff_conj1_2, rotation_from_angle, rotation_from_scaled_axis,
    rotation_imag, rotation_renormalize_fast, rotation_to_matrix,
};

#[derive(Clone, Copy, Debug, PartialEq)]
struct F(f32);

impl Scalar for F {
    fn zero() -> F {
        F(0.0)
    }

    fn one() -> F {
        F(1.0)
    }

    fn dec(m: i32, e: i32) -> F {
        F((m as f64 * 10f64.powi(e)) as f32)
    }

    fn plus(self, o: F) -> F {
        F(self.0 + o.0)
    }

    fn minus(self, o: F) -> F {
        F(self.0 - o.0)
    }

    fn times(self, o: F) -> F {
        F(self.0 * o.0)
    }

    fn over(self, o: F) -> F {
        F(self.0 / o.0)
    }

    fn negate(self) -> F {
        F(-self.0)
    }

    fn sqrt(self) -> F {
        F(self.0.sqrt())
    }

    fn sin(self) -> F {
        F(self.0.sin())
    }

    fn cos(self) -> F {
        F(self.0.cos())
    }

    fn atan2(self, x: F) -> F {
        F(self.0.atan2(x.0))
    }

    fn maximum(self, o: F) -> F {
        F(self.0.max(o.0))
    }

    fn minimum(self, o: F) -> F {
        F(self.0.min(o.0))
    }

    fn lt(self, o: F) -> bool {
        self.0 < o.0
    }

    fn le(self, o: F) -> bool {
        self.0 <= o.0
    }

    fn same(self, o: F) -> bool {
        self.0 == o.0
    }

    fn zero_spec() -> F {
        unreachable!()
    }

    fn one_spec() -> F {
        unreachable!()
    }

    fn dec_spec(_: i32, _: i32) -> F {
        unreachable!()
    }

    fn plus_spec(self, _: F) -> F {
        unreachable!()
    }

    fn minus_spec(self, _: F) -> F {
        unreachable!()
    }

    fn times_spec(self, _: F) -> F {
        unreachable!()
    }

    fn over_spec(self, _: F) -> F {
        unreachable!()
    }

    fn neg_spec(self) -> F {
        unreachable!()
    }

    fn sqrt_spec(self) -> F {
        unreachable!()
    }

    fn sin_spec(self) -> F {
        unreachable!()
    }

    fn cos_spec(self) -> F {
        unreachable!()
    }

    fn atan2_spec(self, _: F) -> F {
        unreachable!()
    }

    fn maximum_spec(self, _: F) -> F {
        unreachable!()
    }

    fn minimum_spec(self, _: F) -> F {
        unreachable!()
    }

    fn lt_spec(self, _: F) -> bool {
        unreachable!()
    }

    fn le_spec(self, _: F) -> bool {
        unreachable!()
    }

    fn same_spec(self, _: F) -> bool {
        unreachable!()
    }
}

fn v3(x: f32, y: f32, z: f32) -> V3<F> {
    V3 { x: F(x), y: F(y), z: F(z) }
}

fn v2(x: f32, y: f32) -> V2<F> {
    V2 { x: F(x), y: F(y) }
}

fn quat(q: GQuat) -> Quat<F> {
    Quat { x: F(q.x), y: F(q.y), z: F(q.z), w: F(q.w) }
}

fn near(a: f32, b: f32) -> bool {
    (a - b).abs() < 1.0e-5
}

fn near3(a: V3<F>, b: Vec3) -> bool {
    near(a.x.0, b.x) && near(a.y.0, b.y) && near(a.z.0, b.z)
}

fn sample() -> GQuat {
    GQuat::from_scaled_axis(Vec3::new(0.3, -0.7, 1.1))
}

#[test]
fn quaternions_turn_vectors() {
    let q = sample();
    let x = Vec3::new(1.5, -2.0, 0.25);
    let r = <Dim3 as Space<F>>::rapply(quat(q), v3(x.x, x.y, x.z));
    assert!(near3(r, q * x));
    let m = mat_vec(rotation_to_matrix(quat(q)), v3(x.x, x.y, x.z));
    assert!(near3(m, q * x));
}

#[test]
fn quaternions_multiply() {
    let a = sample();
    let b = GQuat::from_scaled_axis(Vec3::new(-1.0, 0.2, 0.4));
    let r = <Dim3 as Space<F>>::rmul(quat(a), quat(b));
    let g = a * b;
    assert!(near(r.x.0, g.x) && near(r.y.0, g.y) && near(r.z.0, g.z) && near(r.w.0, g.w));
    assert!(near(quat_dot(quat(a), quat(b)).0, a.dot(b)));
    let im = rotation_imag(quat(a));
    assert_eq!((im.x.0, im.y.0, im.z.0), (a.x, a.y, a.z));
}

#[test]
fn scaled_axes_become_rotations() {
    let axis = Vec3::new(0.3, -0.7, 1.1);
    let r = rotation_from_scaled_axis(v3(axis.x, axis.y, axis.z));
    let g = GQuat::from_scaled_axis(axis);
    assert!(near(r.x.0, g.x) && near(r.y.0, g.y) && near(r.z.0, g.z) && near(r.w.0, g.w));
    let id = rotation_from_scaled_axis(v3(0.0, 0.0, 0.0));
    assert_eq!((id.x.0, id.y.0, id.z.0, id.w.0), (0.0, 0.0, 0.0, 1.0));
}

#[test]
fn rotations_are_renormalized() {
    let q = Quat { x: F(2.0), y: F(-1.0), z: F(0.5), w: F(3.0) };
    let r = rotation_renormalize_fast(q);
    let g = GQuat::from_xyzw(2.0, -1.0, 0.5, 3.0).normalize();
    assert!(near(r.x.0, g.x) && near(r.y.0, g.y) && near(r.z.0, g.z) && near(r.w.0, g.w));
}

#[test]
fn plane_rotations() {
    let r = rotation_from_angle(F(0.6));
    let g = GRot2::new(0.6);
    assert!(near(r.re.0, g.re) && near(r.im.0, g.im));
    assert!(near(rotation_angle(r).0, 0.6));
    let p = <Dim2 as Space<F>>::rapply(r, v2(2.0, -1.0));
    let gp = g * Vec2::new(2.0, -1.0);
    assert!(near(p.x.0, gp.x) && near(p.y.0, gp.y));
    let small = <Dim2 as Space<F>>::rnormalize(Rot2 { re: F(0.0), im: F(0.0) });
    assert_eq!((small.re.0, small.im.0), (1.0, 0.0));
}

#[test]
fn products_of_vectors() {
    let a = Vec3::new(1.0, 2.0, 3.0);
    let b = Vec3::new(-2.0, 0.5, 4.0);
    let c = <Dim3 as Space<F>>::gcross(v3(1.0, 2.0, 3.0), v3(-2.0, 0.5, 4.0));
    assert!(near3(c, a.cross(b)));
    let m = mat_vec(cross_matrix(v3(1.0, 2.0, 3.0)), v3(-2.0, 0.5, 4.0));
    assert!(near3(m, a.cross(b)));
    let w = <Dim2 as Space<F>>::gcross(v2(1.0, 2.0), v2(3.0, 4.0));
    assert_eq!(w.0, -2.0);
    let p = <Dim2 as Space<F>>::gcross_av(F(2.0), v2(3.0, 4.0));
    assert_eq!((p.x.0, p.y.0), (-8.0, 6.0));
    assert_eq!(<Dim3 as Space<F>>::gdot(v3(1.0, 2.0, 3.0), v3(4.0, 5.0, 6.0)).0, 32.0);
}

#[test]
fn tangents_are_orthogonal() {
    for n in [(0.0, 0.0, 1.0), (0.0, 0.0, -1.0), (0.6, 0.0, 0.8), (0.0, 1.0, 0.0)] {
        let n = v3(n.0, n.1, n.2);
        let t = <Dim3 as Space<F>>::ortho(n);
        let b = <Dim3 as Space<F>>::bitangent(n, t);
        assert!(near(<Dim3 as Space<F>>::vdot(n, t).0, 0.0));
        assert!(near(<Dim3 as Space<F>>::vdot(t, t).0, 1.0));
        assert!(near(<Dim3 as Space<F>>::vdot(n, b).0, 0.0));
        assert!(near(<Dim3 as Space<F>>::vdot(b, b).0, 1.0));
    }
    let t = <Dim2 as Space<F>>::ortho(v2(0.6, 0.8));
    assert_eq!((t.x.0, t.y.0), (-0.8, 0.6));
}

#[test]
fn rotation_differences() {
    let id = quat(GQuat::IDENTITY);
    let d = rotation_diff_conj1_2(id, id);
    assert!(near3(d.x_axis, Vec3::new(0.5, 0.0, 0.0)));
    assert!(near3(d.y_axis, Vec3::new(0.0, 0.5, 0.0)));
    assert!(near3(d.z_axis, Vec3::new(0.0, 0.0, 0.5)));
    let q = sample();
    let d = rotation_diff_conj1_2(quat(q), quat(q));
    let r = q.conjugate();
    assert!(near3(d.x_axis, 0.5 * (r * Vec3::X)));
    assert!(near3(d.y_axis, 0.5 * (r * Vec3::Y)));
    assert!(near3(d.z_axis, 0.5 * (r * Vec3::Z)));
}

#[test]
fn poses_compose_and_invert() {
    let q = sample();
    let p: Pose<F, Dim3> = Pose { rotation: quat(q), translation: v3(1.0, -2.0, 0.5) };
    let x = v3(0.3, 0.4, -0.9);
    let there = p.point(x);
    let g = q * Vec3::new(0.3, 0.4, -0.9) + Vec3::new(1.0, -2.0, 0.5);
    assert!(near3(there, g));
    assert!(near3(p.inv_point(there), Vec3::new(0.3, 0.4, -0.9)));
    let id = p.after(p.inverse());
    assert!(near3(id.point(x), Vec3::new(0.3, 0.4, -0.9)));
}

#[test]
fn centring_at_the_mass_and_back() {
    let p: Pose<F, Dim3> = Pose { rotation: quat(sample()), translation: v3(1.0, -2.0, 0.5) };
    let com = v3(0.25, 0.5, -1.0);
    let there = p.prepend_translation(com);
    assert!(near3(there.translation, {
        let q = sample();
        q * Vec3::new(0.25, 0.5, -1.0) + Vec3::new(1.0, -2.0, 0.5)
    }));
    let back = there.prepend_translation(<Dim3 as Space<F>>::vneg(com));
    assert!(near3(back.translation, Vec3::new(1.0, -2.0, 0.5)));
    let r: Pose<F, Dim2> = Pose { rotation: rotation_from_angle(F(0.4)), translation: v2(1.0, 2.0) };
    let b = r.prepend_translation(v2(3.0, -1.0)).prepend_translation(v2(-3.0, 1.0));
    assert!(near(b.translation.x.0, 1.0) && near(b.translation.y.0, 2.0));
}

#[test]
fn velocities_move_poses() {
    let mut p: Pose<F, Dim3> = Pose { rotation: quat(GQuat::IDENTITY), translation: v3(0.0, 1.0, 0.0) };
    let v: Velocity<F, Dim3> = Velocity { linear: v3(2.0, 0.0, 0.0), angular: v3(0.0, 0.0, 1.0) };
    v.integrate_linearized(F(0.5), &mut p.translation, &mut p.rotation);
    assert!(near3(p.translation, Vec3::new(1.0, 1.0, 0.0)));
    let g = GQuat::from_xyzw(0.0, 0.0, 0.25, 1.0).normalize();
    assert!(near(p.rotation.z.0, g.z) && near(p.rotation.w.0, g.w));
    let mut r: Pose<F, Dim2> = Pose { rotation: rotation_from_angle(F(0.0)), translation: v2(0.0, 0.0) };
    let w: Velocity<F, Dim2> = Velocity { linear: v2(0.0, 4.0), angular: F(1.0) };
    w.integrate_linearized(F(0.25), &mut r.translation, &mut r.rotation);
    let n = (1.0f32 + 0.0625).sqrt();
    assert!(near(r.rotation.re.0, 1.0 / n) && near(r.rotation.im.0, 0.25 / n));
    assert!(near(r.translation.y.0, 1.0));
}
