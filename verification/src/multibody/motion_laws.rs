//! How a step moves coordinates and rotations, when the arithmetic is exact.
use super::integrate::{accelerated_by, link_moved};
use super::jacobian_laws::{
    angular_value, lemma_rank, lemma_rapply, r3_turned, unit_length, vector_value,
};
use super::kinematics::nth_free;
use super::space_laws::along;
use super::turn_laws::{lemma_rmul, lemma_signs, quat_value, space_rotations_compose};
use super::types::{MultibodyLinkStatic, MultibodyLinkWorkspace};
use super::unit_laws::products_stay_unit;
use crate::exact::{
    exact, exact_roots, lemma_commute, lemma_factor, lemma_square, lemma_zero, ordered,
};
use crate::joint::{free_axes, has_axis, lemma_free_axes_bound};
use crate::quaternions::{
    h_conj, h_mul, h_norm, h_vec, lemma_associate, lemma_times_one, lemma_unit_conj,
};
use crate::real_vectors::{
    lemma_minus_right, lemma_move_right, lemma_one, lemma_right, r3_add, r3_cross, r3_dot, r3_scale,
};
use crate::scalar::{Scalar, half_spec, two_spec};
use crate::space::{Dim2, Dim3, Quat, Rot2, Space, V3, rotation_angle_spec};
use vstd::prelude::*;

verus! {

// ---- coordinates ----

/// In exact arithmetic, every free linear coordinate of a link changes in a step by
/// its own velocity times the length of the step, and so does every free angle of a
/// joint with one or three of them. The other coordinates stay.
pub proof fn coordinates_follow_their_velocities<S: Scalar, D: Space<S>>(
    v: spec_fn(S) -> real,
    stat: MultibodyLinkStatic<S, D>,
    w0: MultibodyLinkWorkspace<S, D>,
    vel: Seq<S>,
    dt: S,
    w1: MultibodyLinkWorkspace<S, D>,
    i: int,
)
    requires
        exact(v),
        link_moved(stat, w0, vel, dt, w1),
        0 <= i < D::dimension_spec().spatial_spec(),
    ensures
        ({
            let dim = D::dimension_spec();
            let locked = stat.data.locked_axes;
            let dof = stat.assembly_id + free_axes(locked, 0, i);
            let angles = free_axes(locked, dim.lin_spec(), dim.spatial_spec());
            let change = v(w1.coords@[i]) - v(w0.coords@[i]);
            &&& has_axis(locked, i) ==> w1.coords@[i] == w0.coords@[i]
            &&& !has_axis(locked, i) && i < dim.lin_spec() ==> change == v(vel[dof]) * v(dt)
            &&& !has_axis(locked, i) && dim.lin_spec() <= i && (angles == 1 || angles == 3)
                ==> change == v(vel[dof]) * v(dt)
            &&& dim.lin_spec() <= i && angles == 2 ==> w1.coords@[i] == w0.coords@[i]
        }),
{
    assert(w0.coords@.len() == 6);
}

/// In exact arithmetic, every velocity changes in a step by its own acceleration
/// times the length of the step.
pub proof fn velocities_follow_their_accelerations<S: Scalar>(
    v: spec_fn(S) -> real,
    vel: Seq<S>,
    acc: Seq<S>,
    dt: S,
    i: int,
)
    requires
        exact(v),
        0 <= i < vel.len(),
    ensures
        v(accelerated_by(vel, acc, dt)[i]) - v(vel[i]) == v(acc[i]) * v(dt),
{
}

// ---- angles ----

/// Under the reading `v`, sines and cosines are the functions `sn` and `cs` of real
/// numbers, with their symmetries and their double-angle formulas.
pub open spec fn exact_angles<S: Scalar>(
    v: spec_fn(S) -> real,
    sn: spec_fn(real) -> real,
    cs: spec_fn(real) -> real,
) -> bool {
    &&& forall|a: S| v(#[trigger] a.sin_spec()) == sn(v(a))
    &&& forall|a: S| v(#[trigger] a.cos_spec()) == cs(v(a))
    &&& forall|x: real| #[trigger] sn(-x) == -sn(x)
    &&& forall|x: real| #[trigger] cs(-x) == cs(x)
    &&& forall|x: real| #[trigger] sn(x) * sn(x) + cs(x) * cs(x) == 1real
    &&& forall|x: real| #[trigger] sn(x + x) == 2real * (sn(x) * cs(x))
    &&& forall|x: real| #[trigger] cs(x + x) == cs(x) * cs(x) - sn(x) * sn(x)
}

/// In exact arithmetic, the rotation of the plane by the angle `a` turns the first
/// axis by `a` towards the second one, and the second axis with it.
pub proof fn plane_rotations_turn_by_their_angle<S: Scalar>(
    v: spec_fn(S) -> real,
    sn: spec_fn(real) -> real,
    cs: spec_fn(real) -> real,
    a: S,
)
    requires
        exact(v),
        exact_angles(v, sn, cs),
    ensures
        ({
            let r = <Dim2 as Space<S>>::rexp_spec(a);
            let e0 = <Dim2 as Space<S>>::vaxis_spec(0, S::one_spec());
            let e1 = <Dim2 as Space<S>>::vaxis_spec(1, S::one_spec());
            &&& vector_value::<S, Dim2>(v, <Dim2 as Space<S>>::rapply_spec(r, e0)) == (V3 {
                x: cs(v(a)),
                y: sn(v(a)),
                z: 0real,
            })
            &&& vector_value::<S, Dim2>(v, <Dim2 as Space<S>>::rapply_spec(r, e1)) == (V3 {
                x: -sn(v(a)),
                y: cs(v(a)),
                z: 0real,
            })
        }),
{
    let c = v(a.cos_spec());
    let s = v(a.sin_spec());
    lemma_one(c);
    lemma_one(s);
    lemma_zero(c);
    lemma_zero(s);
}

/// A turn by the quaternion of half the angle `n` about the axis `u n`.
proof fn lemma_half_turn(c: real, s: real, n: real, u: V3<real>, x: V3<real>)
    requires
        r3_dot(u, u) == 1real,
    ensures
        r3_turned(c, r3_scale(u, s), 2real, x) == r3_add(
            r3_add(
                r3_scale(x, c * c - s * s),
                r3_scale(u, r3_dot(x, u) * (2real * (s * s))),
            ),
            r3_scale(r3_cross(u, x), 2real * (s * c)),
        ),
{
    let b = r3_scale(u, s);
    assert(r3_dot(b, b) == s * s) by {
        assert((u.x * s) * (u.x * s) == (u.x * u.x) * (s * s)) by (nonlinear_arith);
        assert((u.y * s) * (u.y * s) == (u.y * u.y) * (s * s)) by (nonlinear_arith);
        assert((u.z * s) * (u.z * s) == (u.z * u.z) * (s * s)) by (nonlinear_arith);
        lemma_right(u.x * u.x, u.y * u.y, s * s);
        lemma_right(u.x * u.x + u.y * u.y, u.z * u.z, s * s);
        lemma_one(s * s);
    }
    let d = r3_dot(x, u);
    assert(r3_dot(x, b) == d * s) by {
        lemma_move_right(u.x, s, x.x);
        lemma_move_right(u.y, s, x.y);
        lemma_move_right(u.z, s, x.z);
        lemma_right(x.x * u.x, x.y * u.y, s);
        lemma_right(x.x * u.x + x.y * u.y, x.z * u.z, s);
    }
    let k = r3_cross(u, x);
    assert(r3_cross(b, x) == r3_scale(k, s)) by {
        super::turn_laws::lemma_cross_scaled(u, s, x);
    }
    lemma_regroup(u.x, s, d, c, k.x);
    lemma_regroup(u.y, s, d, c, k.y);
    lemma_regroup(u.z, s, d, c, k.z);
}

proof fn lemma_regroup(u: real, s: real, d: real, c: real, k: real)
    ensures
        (u * s) * ((d * s) * 2real) == u * (d * (2real * (s * s))),
        (k * s) * (c * 2real) == k * (2real * (s * c)),
{
    assert((d * s) * 2real == 2real * (d * s)) by (nonlinear_arith);
    assert((u * s) * (2real * (d * s)) == 2real * ((u * s) * (d * s))) by (nonlinear_arith);
    assert((u * s) * (d * s) == (u * d) * (s * s)) by (nonlinear_arith);
    assert(u * (d * (2real * (s * s))) == (u * d) * (2real * (s * s))) by (nonlinear_arith);
    let ud = u * d;
    let ss = s * s;
    assert(ud * (2real * ss) == 2real * (ud * ss)) by (nonlinear_arith);
    assert((k * s) * (c * 2real) == 2real * ((k * s) * c)) by (nonlinear_arith);
    assert((k * s) * c == k * (s * c)) by (nonlinear_arith);
    let sc = s * c;
    assert(k * (2real * sc) == 2real * (k * sc)) by (nonlinear_arith);
}

/// In exact arithmetic, the rotation of space by the angular displacement `w` turns
/// by the length of `w` about `w`, counterclockwise: it is the identity for zero, it
/// moves no vector along `w`, and it turns a vector `x` across `w` by that angle
/// towards `w x`.
pub proof fn space_rotations_turn_about_their_axis<S: Scalar>(
    v: spec_fn(S) -> real,
    sn: spec_fn(real) -> real,
    cs: spec_fn(real) -> real,
    w: V3<S>,
    x: V3<S>,
    n: real,
)
    requires
        exact(v),
        exact_roots(v),
        exact_angles(v, sn, cs),
        v(two_spec::<S>()) == 2real,
        v(half_spec::<S>()) == 1real / 2real,
        0real <= n,
        n * n == r3_dot(angular_value::<S, Dim3>(v, w), angular_value::<S, Dim3>(v, w)),
    ensures
        ({
            let axis = angular_value::<S, Dim3>(v, w);
            let y = vector_value::<S, Dim3>(v, x);
            let r = <Dim3 as Space<S>>::rexp_spec(w);
            let turned = vector_value::<S, Dim3>(v, <Dim3 as Space<S>>::rapply_spec(r, x));
            &&& unit_length(v, r)
            &&& n == 0real ==> turned == y
            &&& n != 0real && r3_dot(y, axis) == 0real ==> turned == r3_add(
                r3_scale(y, cs(n)),
                r3_scale(r3_cross(axis, y), sn(n) / n),
            )
            &&& n != 0real && y == axis ==> turned == y
        }),
{
    let axis = angular_value::<S, Dim3>(v, w);
    let y = vector_value::<S, Dim3>(v, x);
    let r = <Dim3 as Space<S>>::rexp_spec(w);
    let sq = w.x.times_spec(w.x).plus_spec(w.y.times_spec(w.y)).plus_spec(w.z.times_spec(w.z));
    let len = sq.sqrt_spec();
    lemma_square(n);
    assert(v(sq) == n * n);
    lemma_root_unique(v(len), n);
    lemma_rapply(v, r, x);
    lemma_square(axis.x);
    lemma_square(axis.y);
    lemma_square(axis.z);
    if n == 0real {
        super::space_laws::lemma_identity_turn(y, 2real);
        lemma_one(1real);
        lemma_zero(0real);
    } else {
        let h = n * (1real / 2real);
        assert(h + h == n) by (nonlinear_arith)
            requires
                h == n * (1real / 2real),
        ;
        let s = sn(h);
        let c = cs(h);
        let i = 1real / n;
        assert(i * n == 1real && n * i == 1real) by (nonlinear_arith)
            requires
                i == 1real / n,
                n != 0real,
        ;
        let u = r3_scale(axis, i);
        lemma_over(axis.x, n, i);
        lemma_over(axis.y, n, i);
        lemma_over(axis.z, n, i);
        assert(V3 { x: v(r.x), y: v(r.y), z: v(r.z) } == r3_scale(u, s));
        assert(v(r.w) == c);
        // The axis is a unit vector.
        assert(r3_dot(u, u) == 1real) by {
            let p = axis.x * axis.x;
            let q = axis.y * axis.y;
            let o = axis.z * axis.z;
            let ii = i * i;
            assert((axis.x * i) * (axis.x * i) == p * ii) by (nonlinear_arith)
                requires
                    p == axis.x * axis.x,
                    ii == i * i,
            ;
            assert((axis.y * i) * (axis.y * i) == q * ii) by (nonlinear_arith)
                requires
                    q == axis.y * axis.y,
                    ii == i * i,
            ;
            assert((axis.z * i) * (axis.z * i) == o * ii) by (nonlinear_arith)
                requires
                    o == axis.z * axis.z,
                    ii == i * i,
            ;
            lemma_right(p, q, ii);
            lemma_right(p + q, o, ii);
            assert((n * n) * (i * i) == (n * i) * (n * i)) by (nonlinear_arith);
            lemma_one(1real);
        }
        lemma_half_turn(c, s, n, u, y);
        assert(unit_length(v, r)) by {
            let a = u.x * u.x;
            let b = u.y * u.y;
            let d = u.z * u.z;
            let ss = s * s;
            assert((u.x * s) * (u.x * s) == a * ss) by (nonlinear_arith)
                requires
                    a == u.x * u.x,
                    ss == s * s,
            ;
            assert((u.y * s) * (u.y * s) == b * ss) by (nonlinear_arith)
                requires
                    b == u.y * u.y,
                    ss == s * s,
            ;
            assert((u.z * s) * (u.z * s) == d * ss) by (nonlinear_arith)
                requires
                    d == u.z * u.z,
                    ss == s * s,
            ;
            lemma_right(a, b, ss);
            lemma_right(a + b, d, ss);
            lemma_one(ss);
            assert(s * s + c * c == 1real);
        }
        assert(sn(h + h) == 2real * (s * c));
        assert(cs(h + h) == c * c - s * s);
        let k = r3_cross(axis, y);
        super::turn_laws::lemma_cross_scaled(axis, i, y);
        let d = r3_dot(y, u);
        assert(d == r3_dot(y, axis) * i) by {
            lemma_move_right(axis.x, i, y.x);
            lemma_move_right(axis.y, i, y.y);
            lemma_move_right(axis.z, i, y.z);
            lemma_right(y.x * axis.x, y.y * axis.y, i);
            lemma_right(y.x * axis.x + y.y * axis.y, y.z * axis.z, i);
        }
        if r3_dot(y, axis) == 0real {
            lemma_zero(i);
            lemma_zero(2real * (s * s));
            lemma_zero(u.x);
            lemma_zero(u.y);
            lemma_zero(u.z);
            let m = sn(n);
            lemma_over(m, n, i);
            assert((k.x * i) * m == k.x * (m * i)) by (nonlinear_arith);
            assert((k.y * i) * m == k.y * (m * i)) by (nonlinear_arith);
            assert((k.z * i) * m == k.z * (m * i)) by (nonlinear_arith);
        }
        if y == axis {
            crate::solver::anchor_laws::lemma_cross_orthogonal(axis, axis);
            lemma_zero(i);
            lemma_zero(2real * (s * c));
            assert(d == n) by {
                assert((n * n) * i == n * (n * i)) by (nonlinear_arith);
                lemma_one(n);
            }
            let t = 2real * (s * s);
            lemma_back_along(axis.x, i, n, t);
            lemma_back_along(axis.y, i, n, t);
            lemma_back_along(axis.z, i, n, t);
            let e = c * c - s * s;
            assert(e + t == 1real);
            lemma_factor(axis.x, e, t);
            lemma_factor(axis.y, e, t);
            lemma_factor(axis.z, e, t);
            lemma_one(axis.x);
            lemma_one(axis.y);
            lemma_one(axis.z);
        }
    }
}

proof fn lemma_back_along(a: real, i: real, n: real, t: real)
    requires
        i * n == 1real,
    ensures
        (a * i) * (n * t) == a * t,
{
    let nt = n * t;
    assert((a * i) * nt == a * (i * nt)) by (nonlinear_arith);
    assert(i * (n * t) == (i * n) * t) by (nonlinear_arith);
    lemma_one(t);
}

proof fn lemma_over(a: real, n: real, i: real)
    requires
        n != 0real,
        i == 1real / n,
    ensures
        a / n == a * i,
{
    assert(a / n == a * i) by (nonlinear_arith)
        requires
            n != 0real,
            i == 1real / n,
    ;
}

proof fn lemma_root_unique(a: real, b: real)
    requires
        0real <= a,
        0real <= b,
        a * a == b * b,
    ensures
        a == b,
{
    if a < b {
        assert(a * a < b * b) by (nonlinear_arith)
            requires
                0real <= a,
                a < b,
        ;
    } else if b < a {
        assert(b * b < a * a) by (nonlinear_arith)
            requires
                0real <= b,
                b < a,
        ;
    }
}


/// In exact arithmetic, the rotation of space by the angle `a` about axis `i` turns
/// what lies across that axis counterclockwise by `a`.
pub proof fn space_hinges_turn_by_their_angle<S: Scalar>(
    v: spec_fn(S) -> real,
    sn: spec_fn(real) -> real,
    cs: spec_fn(real) -> real,
    i: int,
    a: S,
    x: V3<S>,
)
    requires
        exact(v),
        exact_roots(v),
        exact_angles(v, sn, cs),
        v(two_spec::<S>()) == 2real,
        v(half_spec::<S>()) == 1real / 2real,
        0 <= i < 3,
        r3_dot(vector_value::<S, Dim3>(v, x), along(i, 1real)) == 0real,
    ensures
        ({
            let y = vector_value::<S, Dim3>(v, x);
            let r = <Dim3 as Space<S>>::rexp_spec(<Dim3 as Space<S>>::aaxis_spec(i, a));
            vector_value::<S, Dim3>(v, <Dim3 as Space<S>>::rapply_spec(r, x)) == r3_add(
                r3_scale(y, cs(v(a))),
                r3_scale(r3_cross(along(i, 1real), y), sn(v(a))),
            )
        }),
{
    let w = <Dim3 as Space<S>>::aaxis_spec(i, a);
    let y = vector_value::<S, Dim3>(v, x);
    let axis = angular_value::<S, Dim3>(v, w);
    let t = v(a);
    let e = along(i, 1real);
    let n = if t < 0real {
        -t
    } else {
        t
    };
    lemma_signs(t, t);
    assert((-t) * (-t) == t * t) by (nonlinear_arith);
    lemma_zero(0real);
    lemma_zero(t);
    lemma_one(t);
    assert(axis == r3_scale(e, t));
    assert(r3_dot(axis, axis) == t * t);
    space_rotations_turn_about_their_axis(v, sn, cs, w, x, n);
    super::turn_laws::lemma_cross_scaled(e, t, y);
    let k = r3_cross(e, y);
    assert(r3_dot(y, axis) == r3_dot(y, e) * t) by {
        lemma_move_right(e.x, t, y.x);
        lemma_move_right(e.y, t, y.y);
        lemma_move_right(e.z, t, y.z);
        lemma_right(y.x * e.x, y.y * e.y, t);
        lemma_right(y.x * e.x + y.y * e.y, y.z * e.z, t);
    }
    if n == 0real {
        let s0 = sn(0real);
        let c0 = cs(0real);
        assert(sn(-0real) == -sn(0real));
        assert(-0real == 0real);
        assert(0real + 0real == 0real);
        assert(cs(0real + 0real) == c0 * c0 - s0 * s0);
        assert(s0 == 0real);
        assert(c0 == 1real);
        super::space_laws::lemma_unscaled(y);
        lemma_zero(k.x);
        lemma_zero(k.y);
        lemma_zero(k.z);
    } else {
        let m = sn(n);
        let q = m / n;
        assert(t * q == sn(t)) by {
            if t < 0real {
                assert(sn(-t) == -sn(t));
                assert(t * q == -m) by (nonlinear_arith)
                    requires
                        q == m / n,
                        n == -t,
                        t < 0real,
                ;
            } else {
                assert(t * q == m) by (nonlinear_arith)
                    requires
                        q == m / n,
                        n == t,
                        0real < t,
                ;
            }
        }
        assert(cs(-t) == cs(t));
        assert((k.x * t) * q == k.x * (t * q)) by (nonlinear_arith);
        assert((k.y * t) * q == k.y * (t * q)) by (nonlinear_arith);
        assert((k.z * t) * q == k.z * (t * q)) by (nonlinear_arith);
    }
}

/// In exact arithmetic, a step turns a hinge of the plane by its angle: its old angle
/// plus its angular velocity times the length of the step.
pub proof fn plane_hinges_follow_their_velocity<S: Scalar>(
    v: spec_fn(S) -> real,
    sn: spec_fn(real) -> real,
    cs: spec_fn(real) -> real,
    stat: MultibodyLinkStatic<S, Dim2>,
    w0: MultibodyLinkWorkspace<S, Dim2>,
    vel: Seq<S>,
    dt: S,
    w1: MultibodyLinkWorkspace<S, Dim2>,
)
    requires
        exact(v),
        exact_angles(v, sn, cs),
        link_moved(stat, w0, vel, dt, w1),
        !has_axis(stat.data.locked_axes, 2),
    ensures
        ({
            let dof = stat.assembly_id + free_axes(stat.data.locked_axes, 0, 2);
            let angle = v(w0.coords@[2]) + v(vel[dof]) * v(dt);
            let e0 = <Dim2 as Space<S>>::vaxis_spec(0, S::one_spec());
            vector_value::<S, Dim2>(v, <Dim2 as Space<S>>::rapply_spec(w1.joint_rot, e0)) == (V3 {
                x: cs(angle),
                y: sn(angle),
                z: 0real,
            })
        }),
{
    let locked = stat.data.locked_axes;
    assert(w0.coords@.len() == 6);
    reveal_with_fuel(free_axes, 2);
    reveal_with_fuel(nth_free, 2);
    assert(free_axes(locked, 2, 3) == 1);
    assert(nth_free(locked, 2, 3, 0) == 2);
    coordinates_follow_their_velocities(v, stat, w0, vel, dt, w1, 2);
    plane_rotations_turn_by_their_angle(v, sn, cs, w1.coords@[2]);
}

/// In exact arithmetic, a step turns a hinge of space by its angle: its old angle plus
/// its angular velocity times the length of the step, about its one free axis.
pub proof fn space_hinges_follow_their_velocity<S: Scalar>(
    v: spec_fn(S) -> real,
    sn: spec_fn(real) -> real,
    cs: spec_fn(real) -> real,
    stat: MultibodyLinkStatic<S, Dim3>,
    w0: MultibodyLinkWorkspace<S, Dim3>,
    vel: Seq<S>,
    dt: S,
    w1: MultibodyLinkWorkspace<S, Dim3>,
    i: int,
    x: V3<S>,
)
    requires
        exact(v),
        exact_roots(v),
        exact_angles(v, sn, cs),
        v(two_spec::<S>()) == 2real,
        v(half_spec::<S>()) == 1real / 2real,
        link_moved(stat, w0, vel, dt, w1),
        free_axes(stat.data.locked_axes, 3, 6) == 1,
        3 <= i < 6,
        !has_axis(stat.data.locked_axes, i),
        r3_dot(vector_value::<S, Dim3>(v, x), along(i - 3, 1real)) == 0real,
    ensures
        ({
            let dof = stat.assembly_id + free_axes(stat.data.locked_axes, 0, i);
            let angle = v(w0.coords@[i]) + v(vel[dof]) * v(dt);
            let y = vector_value::<S, Dim3>(v, x);
            vector_value::<S, Dim3>(v, <Dim3 as Space<S>>::rapply_spec(w1.joint_rot, x))
                == r3_add(
                r3_scale(y, cs(angle)),
                r3_scale(r3_cross(along(i - 3, 1real), y), sn(angle)),
            )
        }),
{
    let locked = stat.data.locked_axes;
    assert(w0.coords@.len() == 6);
    lemma_rank(locked, 3, 6, i);
    lemma_free_axes_bound(locked, 3, i);
    assert(nth_free(locked, 3, 6, 0) == i);
    coordinates_follow_their_velocities(v, stat, w0, vel, dt, w1, i);
    space_hinges_turn_by_their_angle(v, sn, cs, i - 3, w1.coords@[i], x);
}

// ---- short turns ----

/// In exact arithmetic, a body of the plane that turns at the rate `w` for a short
/// time `dt` turns from where it is by the angle whose tangent is `w dt`.
pub proof fn plane_short_turns<S: Scalar>(
    v: spec_fn(S) -> real,
    q: Rot2<S>,
    w: S,
    dt: S,
)
    requires
        exact(v),
        ordered(v),
        exact_roots(v),
        v(q.re) * v(q.re) + v(q.im) * v(q.im) == 1real,
        v(S::dec_spec(119209290, (-15) as i32)) < 1real,
    ensures
        ({
            let r = <Dim2 as Space<S>>::radvance_spec(q, w, dt);
            let turn = <Dim2 as Space<S>>::rmul_spec(r, <Dim2 as Space<S>>::rinv_spec(q));
            &&& 0real < v(turn.re)
            &&& v(turn.im) == (v(w) * v(dt)) * v(turn.re)
            &&& v(r.re) * v(r.re) + v(r.im) * v(r.im) == 1real
        }),
{
    let c = v(q.re);
    let s = v(q.im);
    let d = v(w) * v(dt);
    let a = c - d * s;
    let b = s + d * c;
    let dn = w.times_spec(dt);
    let p = Rot2 {
        re: q.re.minus_spec(dn.times_spec(q.im)),
        im: q.im.plus_spec(dn.times_spec(q.re)),
    };
    assert(v(p.re) == a && v(p.im) == b);
    // a c + b s == 1, b c - a s == d, and a a + b b == 1 + d d.
    lemma_minus_right(c, d * s, c);
    lemma_minus_right(c, d * s, s);
    lemma_right(s, d * c, s);
    lemma_right(s, d * c, c);
    assert((d * s) * c == (d * c) * s) by (nonlinear_arith);
    assert((d * s) * s == d * (s * s)) by (nonlinear_arith);
    assert((d * c) * c == d * (c * c)) by (nonlinear_arith);
    lemma_factor(d, c * c, s * s);
    lemma_one(d);
    lemma_commute(c, s);
    assert(a * c + b * s == 1real);
    assert(b * c - a * s == d);
    let aa = a * a + b * b;
    assert(aa == 1real + d * d) by {
        assert(a * a == a * c - a * (d * s)) by (nonlinear_arith)
            requires
                a == c - d * s,
        ;
        lemma_factor(b, s, d * c);
        assert(b * b == b * (s + d * c));
        assert(a * (d * s) == d * (a * s)) by (nonlinear_arith);
        assert(b * (d * c) == d * (b * c)) by (nonlinear_arith);
        let bc = b * c;
        let az = a * s;
        assert(d * bc - d * az == d * (bc - az)) by (nonlinear_arith);
    }
    lemma_square(d);
    let sq = p.re.times_spec(p.re).plus_spec(p.im.times_spec(p.im));
    let n = v(sq.sqrt_spec());
    assert(v(sq) == aa);
    assert(1real <= n) by {
        if n < 1real {
            assert(n * n < 1real) by (nonlinear_arith)
                requires
                    0real <= n,
                    n < 1real,
            ;
        }
    }
    let i = 1real / n;
    lemma_over(a, n, i);
    lemma_over(b, n, i);
    assert(n * i == 1real && 0real < i) by (nonlinear_arith)
        requires
            i == 1real / n,
            1real <= n,
    ;
    let r = <Dim2 as Space<S>>::radvance_spec(q, w, dt);
    assert(v(r.re) == a * i && v(r.im) == b * i);
    lemma_signs(b * i, s);
    lemma_signs(a * i, s);
    lemma_move_right(a, i, c);
    lemma_move_right(a, i, s);
    lemma_move_right(b, i, c);
    lemma_move_right(b, i, s);
    lemma_right(a * c, b * s, i);
    lemma_minus_right(b * c, a * s, i);
    lemma_one(i);
    assert((a * i) * (a * i) == (a * a) * (i * i)) by (nonlinear_arith);
    assert((b * i) * (b * i) == (b * b) * (i * i)) by (nonlinear_arith);
    lemma_right(a * a, b * b, i * i);
    assert((n * n) * (i * i) == (n * i) * (n * i)) by (nonlinear_arith);
    lemma_one(1real);
}

/// In exact arithmetic, a body of space that turns at the angular velocity `w` for a
/// short time `dt` turns from where it is about `w`, counterclockwise, by the angle
/// whose half has the tangent `|w| dt / 2`.
pub proof fn space_short_turns<S: Scalar>(
    v: spec_fn(S) -> real,
    q: Quat<S>,
    w: V3<S>,
    dt: S,
)
    requires
        exact(v),
        exact_roots(v),
        v(half_spec::<S>()) == 1real / 2real,
        unit_length(v, q),
    ensures
        ({
            let r = <Dim3 as Space<S>>::radvance_spec(q, w, dt);
            let turn = h_mul(quat_value(v, r), h_conj(quat_value(v, q)));
            &&& 0real < turn.w
            &&& h_vec(turn) == r3_scale(
                r3_scale(angular_value::<S, Dim3>(v, w), v(dt) * (1real / 2real)),
                turn.w,
            )
            &&& unit_length(v, r)
        }),
{
    let half_step = dt.times_spec(half_spec());
    let h = V3 {
        x: w.x.times_spec(half_step),
        y: w.y.times_spec(half_step),
        z: w.z.times_spec(half_step),
    };
    let first = Quat { x: h.x, y: h.y, z: h.z, w: S::one_spec() };
    let p = <Dim3 as Space<S>>::rmul_spec(first, q);
    let f = quat_value(v, first);
    let qv = quat_value(v, q);
    let pv = quat_value(v, p);
    lemma_rmul(v, first, q);
    assert(pv == h_mul(f, qv));
    // Undoing `q` leaves the first factor.
    lemma_unit_conj(qv);
    lemma_associate(f, qv, h_conj(qv));
    lemma_times_one(f);
    assert(h_mul(pv, h_conj(qv)) == f);
    // The length of the product.
    let sq = p.x.times_spec(p.x).plus_spec(p.y.times_spec(p.y)).plus_spec(
        p.z.times_spec(p.z),
    ).plus_spec(p.w.times_spec(p.w));
    lemma_square(pv.x);
    lemma_square(pv.y);
    lemma_square(pv.z);
    lemma_square(pv.w);
    assert(v(sq) == h_norm(pv));
    if h_norm(pv) == 0real {
        assert(pv.x == 0real && pv.y == 0real && pv.z == 0real && pv.w == 0real);
        let c = h_conj(qv);
        lemma_zero(c.x);
        lemma_zero(c.y);
        lemma_zero(c.z);
        lemma_zero(c.w);
        assert(h_mul(pv, c).w == 0real);
    }
    let n = v(sq.sqrt_spec());
    assert(0real < n) by {
        lemma_zero(0real);
    }
    let k = 1real / n;
    assert(k * n == 1real && 0real < k) by (nonlinear_arith)
        requires
            k == 1real / n,
            0real < n,
    ;
    let r = <Dim3 as Space<S>>::radvance_spec(q, w, dt);
    let rv = quat_value(v, r);
    assert(rv == h_scaled(pv, k));
    lemma_scaled_product(pv, k, h_conj(qv));
    lemma_one(k);
    lemma_commute(k, h_vec(f).x);
    assert(h_mul(rv, h_conj(qv)) == h_scaled(f, k));
    // The result is a unit.
    assert((pv.x * k) * (pv.x * k) == (pv.x * pv.x) * (k * k)) by (nonlinear_arith);
    assert((pv.y * k) * (pv.y * k) == (pv.y * pv.y) * (k * k)) by (nonlinear_arith);
    assert((pv.z * k) * (pv.z * k) == (pv.z * pv.z) * (k * k)) by (nonlinear_arith);
    assert((pv.w * k) * (pv.w * k) == (pv.w * pv.w) * (k * k)) by (nonlinear_arith);
    let xx = pv.x * pv.x;
    let yy = pv.y * pv.y;
    let zz = pv.z * pv.z;
    let ww = pv.w * pv.w;
    lemma_right(xx, yy, k * k);
    lemma_right(xx + yy, zz, k * k);
    lemma_right(xx + yy + zz, ww, k * k);
    assert((n * n) * (k * k) == (k * n) * (k * n)) by (nonlinear_arith);
    lemma_one(1real);
}

spec fn h_scaled(a: Quat<real>, k: real) -> Quat<real> {
    Quat { x: a.x * k, y: a.y * k, z: a.z * k, w: a.w * k }
}

proof fn lemma_scaled_product(a: Quat<real>, k: real, b: Quat<real>)
    ensures
        h_mul(h_scaled(a, k), b) == h_scaled(h_mul(a, b), k),
{
    lemma_move_right(a.x, k, b.x);
    lemma_move_right(a.x, k, b.y);
    lemma_move_right(a.x, k, b.z);
    lemma_move_right(a.x, k, b.w);
    lemma_move_right(a.y, k, b.x);
    lemma_move_right(a.y, k, b.y);
    lemma_move_right(a.y, k, b.z);
    lemma_move_right(a.y, k, b.w);
    lemma_move_right(a.z, k, b.x);
    lemma_move_right(a.z, k, b.y);
    lemma_move_right(a.z, k, b.z);
    lemma_move_right(a.z, k, b.w);
    lemma_move_right(a.w, k, b.x);
    lemma_move_right(a.w, k, b.y);
    lemma_move_right(a.w, k, b.z);
    lemma_move_right(a.w, k, b.w);
    lemma_sum4(a.w * b.x, a.x * b.w, a.y * b.z, -(a.z * b.y), k);
    lemma_sum4(a.w * b.y, -(a.x * b.z), a.y * b.w, a.z * b.x, k);
    lemma_sum4(a.w * b.z, a.x * b.y, -(a.y * b.x), a.z * b.w, k);
    lemma_sum4(a.w * b.w, -(a.x * b.x), -(a.y * b.y), -(a.z * b.z), k);
    lemma_signs(a.z * b.y, k);
    lemma_signs(a.x * b.z, k);
    lemma_signs(a.y * b.x, k);
    lemma_signs(a.x * b.x, k);
    lemma_signs(a.y * b.y, k);
    lemma_signs(a.z * b.z, k);
}

proof fn lemma_sum4(a: real, b: real, c: real, d: real, k: real)
    ensures
        (a + b + c + d) * k == a * k + b * k + c * k + d * k,
{
    lemma_right(a, b, k);
    lemma_right(a + b, c, k);
    lemma_right(a + b + c, d, k);
}

/// In exact arithmetic, a step turns a ball joint of space, whose rotation is a unit, by
/// the rotation of its angular velocity times the length of the step, after the
/// rotation that it had.
pub proof fn space_balls_follow_their_velocity<S: Scalar>(
    v: spec_fn(S) -> real,
    sn: spec_fn(real) -> real,
    cs: spec_fn(real) -> real,
    stat: MultibodyLinkStatic<S, Dim3>,
    w0: MultibodyLinkWorkspace<S, Dim3>,
    vel: Seq<S>,
    dt: S,
    w1: MultibodyLinkWorkspace<S, Dim3>,
    x: V3<S>,
)
    requires
        exact(v),
        exact_roots(v),
        exact_angles(v, sn, cs),
        v(two_spec::<S>()) == 2real,
        v(half_spec::<S>()) == 1real / 2real,
        link_moved(stat, w0, vel, dt, w1),
        free_axes(stat.data.locked_axes, 3, 6) == 3,
        unit_length(v, w0.joint_rot),
    ensures
        ({
            let at = stat.assembly_id + free_axes(stat.data.locked_axes, 0, 3);
            let w = V3 {
                x: vel[at].times_spec(dt),
                y: vel[at + 1].times_spec(dt),
                z: vel[at + 2].times_spec(dt),
            };
            &&& unit_length(v, w1.joint_rot)
            &&& vector_value::<S, Dim3>(v, <Dim3 as Space<S>>::rapply_spec(w1.joint_rot, x))
                == vector_value::<S, Dim3>(
                v,
                <Dim3 as Space<S>>::rapply_spec(
                    <Dim3 as Space<S>>::rexp_spec(w),
                    <Dim3 as Space<S>>::rapply_spec(w0.joint_rot, x),
                ),
            )
        }),
{
    let at = stat.assembly_id + free_axes(stat.data.locked_axes, 0, 3);
    let w = V3 {
        x: vel[at].times_spec(dt),
        y: vel[at + 1].times_spec(dt),
        z: vel[at + 2].times_spec(dt),
    };
    let wv = angular_value::<S, Dim3>(v, w);
    let sq = w.x.times_spec(w.x).plus_spec(w.y.times_spec(w.y)).plus_spec(w.z.times_spec(w.z));
    lemma_square(wv.x);
    lemma_square(wv.y);
    lemma_square(wv.z);
    space_rotations_turn_about_their_axis(v, sn, cs, w, x, v(sq.sqrt_spec()));
    let e = <Dim3 as Space<S>>::rexp_spec(w);
    let m = <Dim3 as Space<S>>::rmul_spec(e, w0.joint_rot);
    products_stay_unit(v, e, w0.joint_rot);
    space_rotations_compose(v);
    let r = w1.joint_rot;
    assert(r == <Dim3 as Space<S>>::rnormalize_spec(m));
    let len = m.x.times_spec(m.x).plus_spec(m.y.times_spec(m.y)).plus_spec(
        m.z.times_spec(m.z),
    ).plus_spec(m.w.times_spec(m.w));
    assert(v(len) == 1real);
    lemma_one(1real);
    lemma_root_unique(v(len.sqrt_spec()), 1real);
    assert(1real / 1real == 1real) by (nonlinear_arith);
    lemma_one(v(m.x));
    lemma_one(v(m.y));
    lemma_one(v(m.z));
    lemma_one(v(m.w));
    assert(quat_value(v, r) == quat_value(v, m));
    lemma_rapply(v, r, x);
    lemma_rapply(v, m, x);
    assert(vector_value::<S, Dim3>(v, <Dim3 as Space<S>>::rapply_spec(m, x)) == vector_value::<
        S,
        Dim3,
    >(
        v,
        <Dim3 as Space<S>>::rapply_spec(e, <Dim3 as Space<S>>::rapply_spec(w0.joint_rot, x)),
    ));
}

/// Where the arc tangent of two numbers gives back the angle that they are the sine
/// and the cosine of, a rotation of the plane gives back the angle it was made from.
pub proof fn plane_angles_come_back<S: Scalar>(v: spec_fn(S) -> real, a: S)
    requires
        v(a.sin_spec().atan2_spec(a.cos_spec())) == v(a),
    ensures
        v(rotation_angle_spec(<Dim2 as Space<S>>::rexp_spec(a))) == v(a),
{
}

} // verus!
