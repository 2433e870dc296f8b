//! Where the anchors of a freshly built contact lie.
use super::constraint::{TwoBodyConstraintElement, TwoBodyConstraintInfo};
use super::step::refreshed_element;
use super::utils::{BodyScene, built_infos, manifold_ok, manifold_point};
use crate::contact::IndexedManifold;
use crate::exact::{exact, lemma_factor, lemma_zero, ordered};
use crate::multibody::jacobian_laws::{
    geometric, lemma_rapply, lemma_turned_linear, r3_turned, unit_length, vector_value,
};
use crate::multibody::mass_laws::inertial;
use crate::real_vectors::{
    lemma_dot_zero, lemma_minus_right, lemma_right, r3_add, r3_cross, r3_dot,
    r3_scale, r3_zero,
};
use crate::scalar::{Scalar, clamp_spec, two_spec};
use crate::sim_params::RbdSimParams;
use crate::space::{Dim2, Dim3, Dimension, Pose, Quat, Rot2, Space, V2, V3};
use vstd::prelude::*;

verus! {

// ---- turning there and back ----

/// Under the reading `v`, the rotation undoes its inverse.
pub open spec fn turns_back<S: Scalar, D: Space<S>>(v: spec_fn(S) -> real, r: D::R) -> bool {
    forall|p: D::V|
        vector_value::<S, D>(
            v,
            #[trigger] D::rapply_spec(r, D::rapply_spec(D::rinv_spec(r), p)),
        ) == vector_value::<S, D>(v, p)
}

/// In exact arithmetic a unit complex number undoes its inverse.
pub proof fn unit_numbers_turn_back<S: Scalar>(v: spec_fn(S) -> real, r: Rot2<S>)
    requires
        exact(v),
        v(r.re) * v(r.re) + v(r.im) * v(r.im) == 1real,
    ensures
        turns_back::<S, Dim2>(v, r),
{
    let c = v(r.re);
    let s = v(r.im);
    assert forall|p: V2<S>|
        vector_value::<S, Dim2>(
            v,
            #[trigger] <Dim2 as Space<S>>::rapply_spec(
                r,
                <Dim2 as Space<S>>::rapply_spec(<Dim2 as Space<S>>::rinv_spec(r), p),
            ),
        ) == vector_value::<S, Dim2>(v, p) by {
        let x = v(p.x);
        let y = v(p.y);
        assert((-s) * y == -(s * y)) by (nonlinear_arith);
        assert((-s) * x == -(s * x)) by (nonlinear_arith);
        let a = c * x + s * y;
        let b = c * y - s * x;
        lemma_factor(c, c * x, s * y);
        lemma_factor(s, c * y, -(s * x));
        lemma_factor(s, c * x, s * y);
        lemma_factor(c, c * y, -(s * x));
        assert(s * -(s * x) == -(s * (s * x))) by (nonlinear_arith);
        assert(c * -(s * x) == -(c * (s * x))) by (nonlinear_arith);
        assert(c * (s * y) == s * (c * y)) by (nonlinear_arith);
        assert(c * (s * x) == s * (c * x)) by (nonlinear_arith);
        assert(c * (c * x) == x * (c * c)) by (nonlinear_arith);
        assert(s * (s * x) == x * (s * s)) by (nonlinear_arith);
        assert(c * (c * y) == y * (c * c)) by (nonlinear_arith);
        assert(s * (s * y) == y * (s * s)) by (nonlinear_arith);
        lemma_factor(x, c * c, s * s);
        lemma_factor(y, c * c, s * s);
        assert(x * 1real == x) by (nonlinear_arith);
        assert(y * 1real == y) by (nonlinear_arith);
        assert(c * a - s * b == x);
        assert(s * a + c * b == y);
    }
}

/// One component of the product of `(a, b, c)` with its product with `(p, q, r)`.
proof fn lemma_triple(a: real, b: real, c: real, p: real, q: real, r: real)
    ensures
        b * (a * q - p * b) - (c * p - r * a) * c == a * (p * a + q * b + r * c) - p * (a * a + b
            * b + c * c),
{
    assert(b * (a * q - p * b) == b * (a * q) - b * (p * b)) by (nonlinear_arith);
    assert((c * p - r * a) * c == (c * p) * c - (r * a) * c) by (nonlinear_arith);
    lemma_factor(a, p * a + q * b, r * c);
    lemma_factor(a, p * a, q * b);
    lemma_factor(p, a * a + b * b, c * c);
    lemma_factor(p, a * a, b * b);
    assert(b * (a * q) == a * (q * b)) by (nonlinear_arith);
    assert(b * (p * b) == p * (b * b)) by (nonlinear_arith);
    assert((c * p) * c == p * (c * c)) by (nonlinear_arith);
    assert((r * a) * c == a * (r * c)) by (nonlinear_arith);
    assert(a * (p * a) == p * (a * a)) by (nonlinear_arith);
}

pub(crate) proof fn lemma_cross_twice(b: V3<real>, p: V3<real>)
    ensures
        r3_cross(b, r3_cross(b, p)) == r3_add(
            r3_scale(b, r3_dot(p, b)),
            r3_scale(p, -r3_dot(b, b)),
        ),
{
    let d = r3_dot(p, b);
    let n = r3_dot(b, b);
    lemma_triple(b.x, b.y, b.z, p.x, p.y, p.z);
    lemma_triple(b.y, b.z, b.x, p.y, p.z, p.x);
    lemma_triple(b.z, b.x, b.y, p.z, p.x, p.y);
    assert(p.x * -n == -(p.x * n)) by (nonlinear_arith);
    assert(p.y * -n == -(p.y * n)) by (nonlinear_arith);
    assert(p.z * -n == -(p.z * n)) by (nonlinear_arith);
}

pub(crate) proof fn lemma_cross_orthogonal(b: V3<real>, p: V3<real>)
    ensures
        r3_dot(r3_cross(b, p), b) == 0real,
        r3_cross(b, b) == r3_zero(),
{
    let x = b.x;
    let y = b.y;
    let z = b.z;
    lemma_minus_right(y * p.z, p.y * z, x);
    lemma_minus_right(z * p.x, p.z * x, y);
    lemma_minus_right(x * p.y, p.x * y, z);
    assert((y * p.z) * x == (p.z * x) * y) by (nonlinear_arith);
    assert((p.y * z) * x == (x * p.y) * z) by (nonlinear_arith);
    assert((z * p.x) * y == (p.x * y) * z) by (nonlinear_arith);
}

/// One component of what turning back and forth gives.
proof fn lemma_there_and_back(p: real, b: real, c: real, d: real, w: real, n: real)
    requires
        w * w + n == 1real,
    ensures
        ({
            let k = w * w - n;
            let e = b * d + p * -n;
            (((p * k + b * (d * 2real)) + c * (w * 2real)) * k + b * (d * 2real)) + (c * k + e * (w
                * 2real)) * -(w * 2real) == p
        }),
{
    let ww = w * w;
    let k = ww - n;
    let q = w * 2real;
    let e = b * d + p * -n;
    assert(k == 2real * ww - 1real);
    assert(q * q == 4real * ww) by (nonlinear_arith)
        requires
            q == w * 2real,
            ww == w * w,
    ;
    lemma_right(p * k + b * (d * 2real), c * q, k);
    lemma_right(p * k, b * (d * 2real), k);
    lemma_right(c * k, e * q, -q);
    assert((c * k) * -q == -((c * q) * k)) by (nonlinear_arith);
    assert((e * q) * -q == -(e * (q * q))) by (nonlinear_arith);
    let bd = b * d;
    assert(b * (d * 2real) == 2real * bd) by (nonlinear_arith)
        requires
            bd == b * d,
    ;
    assert((p * k) * k == p * (k * k)) by (nonlinear_arith);
    assert(p * -n == p * ww - p) by (nonlinear_arith)
        requires
            n == 1real - ww,
    ;
    let s = ww * ww;
    assert(k * k == 4real * s - 4real * ww + 1real) by (nonlinear_arith)
        requires
            k == 2real * ww - 1real,
            s == ww * ww,
    ;
    let pw = p * ww;
    let ps = p * s;
    assert(p * (k * k) == 4real * ps - 4real * pw + p) by (nonlinear_arith)
        requires
            k * k == 4real * s - 4real * ww + 1real,
            pw == p * ww,
            ps == p * s,
    ;
    assert((2real * bd) * k == 4real * (bd * ww) - 2real * bd) by (nonlinear_arith)
        requires
            k == 2real * ww - 1real,
    ;
    assert(e == bd + pw - p);
    assert(pw * ww == ps) by (nonlinear_arith)
        requires
            pw == p * ww,
            ps == p * s,
            s == ww * ww,
    ;
    assert(e * (q * q) == 4real * (bd * ww) + 4real * (pw * ww) - 4real * (p * ww))
        by (nonlinear_arith)
        requires
            q * q == 4real * ww,
            e == bd + pw - p,
    ;
}

/// Turning by the conjugate and then by the unit quaternion changes nothing.
proof fn lemma_turned_back(w: real, b: V3<real>, p: V3<real>)
    requires
        w * w + r3_dot(b, b) == 1real,
    ensures
        r3_turned(w, b, 2real, r3_turned(w, V3 { x: -b.x, y: -b.y, z: -b.z }, 2real, p)) == p,
{
    let m = V3 { x: -b.x, y: -b.y, z: -b.z };
    let n = r3_dot(b, b);
    let d = r3_dot(p, b);
    let k = w * w - n;
    let c = r3_cross(b, p);
    let q = w * 2real;
    assert(r3_dot(m, m) == n) by {
        assert((-b.x) * (-b.x) == b.x * b.x) by (nonlinear_arith);
        assert((-b.y) * (-b.y) == b.y * b.y) by (nonlinear_arith);
        assert((-b.z) * (-b.z) == b.z * b.z) by (nonlinear_arith);
    }
    assert(r3_dot(p, m) == -d) by {
        assert(p.x * (-b.x) == -(p.x * b.x)) by (nonlinear_arith);
        assert(p.y * (-b.y) == -(p.y * b.y)) by (nonlinear_arith);
        assert(p.z * (-b.z) == -(p.z * b.z)) by (nonlinear_arith);
    }
    assert(r3_scale(m, (-d) * 2real) == r3_scale(b, d * 2real)) by {
        assert((-b.x) * ((-d) * 2real) == b.x * (d * 2real)) by (nonlinear_arith);
        assert((-b.y) * ((-d) * 2real) == b.y * (d * 2real)) by (nonlinear_arith);
        assert((-b.z) * ((-d) * 2real) == b.z * (d * 2real)) by (nonlinear_arith);
    }
    assert(r3_scale(r3_cross(m, p), q) == r3_scale(c, -q)) by {
        assert(((-b.y) * p.z - p.y * (-b.z)) * q == (b.y * p.z - p.y * b.z) * -q)
            by (nonlinear_arith);
        assert(((-b.z) * p.x - p.z * (-b.x)) * q == (b.z * p.x - p.z * b.x) * -q)
            by (nonlinear_arith);
        assert(((-b.x) * p.y - p.x * (-b.y)) * q == (b.x * p.y - p.x * b.y) * -q)
            by (nonlinear_arith);
    }
    let u = r3_turned(w, m, 2real, p);
    let head = r3_add(r3_scale(p, k), r3_scale(b, d * 2real));
    assert(u == r3_add(head, r3_scale(c, -q)));
    lemma_turned_linear(w, b, 2real, head, c, -q);
    lemma_turned_linear(w, b, 2real, r3_scale(p, k), b, d * 2real);
    lemma_turned_linear(w, b, 2real, r3_zero(), p, k);
    assert(r3_add(r3_zero(), r3_scale(p, k)) == r3_scale(p, k));
    lemma_cross_orthogonal(b, p);
    lemma_cross_twice(b, p);
    let rp = r3_turned(w, b, 2real, p);
    let rb = r3_turned(w, b, 2real, b);
    let rc = r3_turned(w, b, 2real, c);
    let rz = r3_turned(w, b, 2real, r3_zero());
    assert(rz == r3_zero()) by {
        lemma_zero(k);
        lemma_zero(q);
        lemma_zero(b.x);
        lemma_zero(b.y);
        lemma_zero(b.z);
        lemma_zero(2real);
    }
    assert(rb == b) by {
        lemma_zero(q);
        lemma_factor(b.x, k, n * 2real);
        lemma_factor(b.y, k, n * 2real);
        lemma_factor(b.z, k, n * 2real);
        assert(k + n * 2real == 1real);
        assert(b.x * 1real == b.x) by (nonlinear_arith);
        assert(b.y * 1real == b.y) by (nonlinear_arith);
        assert(b.z * 1real == b.z) by (nonlinear_arith);
    }
    assert(rc == r3_add(r3_scale(c, k), r3_scale(r3_cross(b, c), q))) by {
        lemma_zero(2real);
        lemma_zero(b.x);
        lemma_zero(b.y);
        lemma_zero(b.z);
    }
    lemma_there_and_back(p.x, b.x, c.x, d, w, n);
    lemma_there_and_back(p.y, b.y, c.y, d, w, n);
    lemma_there_and_back(p.z, b.z, c.z, d, w, n);
}

/// In exact arithmetic a unit quaternion undoes its inverse.
pub proof fn unit_quaternions_turn_back<S: Scalar>(v: spec_fn(S) -> real, q: Quat<S>)
    requires
        exact(v),
        v(two_spec::<S>()) == 2real,
        unit_length(v, q),
    ensures
        turns_back::<S, Dim3>(v, q),
{
    assert forall|p: V3<S>|
        vector_value::<S, Dim3>(
            v,
            #[trigger] <Dim3 as Space<S>>::rapply_spec(
                q,
                <Dim3 as Space<S>>::rapply_spec(<Dim3 as Space<S>>::rinv_spec(q), p),
            ),
        ) == vector_value::<S, Dim3>(v, p) by {
        let i = <Dim3 as Space<S>>::rinv_spec(q);
        lemma_rapply(v, i, p);
        lemma_rapply(v, q, <Dim3 as Space<S>>::rapply_spec(i, p));
        lemma_turned_back(
            v(q.w),
            V3 { x: v(q.x), y: v(q.y), z: v(q.z) },
            vector_value::<S, Dim3>(v, p),
        );
    }
}

// ---- anchors ----

proof fn lemma_point_comes_back<S: Scalar, D: Space<S>>(
    v: spec_fn(S) -> real,
    pose: Pose<S, D>,
    pt: D::V,
)
    requires
        geometric::<S, D>(v),
        turns_back::<S, D>(v, pose.rotation),
    ensures
        vector_value::<S, D>(v, pose.point_spec(pose.inv_point_spec(pt))) == vector_value::<S, D>(
            v,
            pt,
        ),
{
    let p = D::vsub_spec(pt, pose.translation);
    let t = D::rapply_spec(pose.rotation, D::rapply_spec(D::rinv_spec(pose.rotation), p));
    assert(vector_value::<S, D>(v, t) == vector_value::<S, D>(v, p));
}

/// In exact arithmetic both anchors of a freshly built contact are the point midway
/// between the two surfaces, and the contact keeps the distance of its manifold.
pub proof fn anchors_meet<S: Scalar, D: Space<S>>(
    v: spec_fn(S) -> real,
    im: IndexedManifold<S, D>,
    sc: BodyScene<S, D>,
    params: RbdSimParams<S>,
    before: Seq<TwoBodyConstraintInfo<S, D>>,
    k: int,
)
    requires
        geometric::<S, D>(v),
        manifold_ok(im, sc),
        turns_back::<S, D>(v, sc.solver_poses[im.colliders[0] as int].rotation),
        turns_back::<S, D>(v, sc.solver_poses[im.colliders[1] as int].rotation),
        0 <= k < im.contact.len,
    ensures
        ({
            let info = built_infos(im, sc, params, before)[k];
            let pose1 = sc.solver_poses[im.colliders[0] as int];
            let pose2 = sc.solver_poses[im.colliders[1] as int];
            let pt = manifold_point(im, sc.collider_poses[im.colliders[0] as int], k);
            &&& vector_value::<S, D>(v, pose1.point_spec(info.local_pt_a)) == vector_value::<
                S,
                D,
            >(v, pt)
            &&& vector_value::<S, D>(v, pose2.point_spec(info.local_pt_b)) == vector_value::<
                S,
                D,
            >(v, pt)
            &&& info.dist == im.contact.points_a[k].dist
        }),
{
    let pt = manifold_point(im, sc.collider_poses[im.colliders[0] as int], k);
    lemma_point_comes_back(v, sc.solver_poses[im.colliders[0] as int], pt);
    lemma_point_comes_back(v, sc.solver_poses[im.colliders[1] as int], pt);
}

/// The normal right-hand side without bias at distance `dist`.
pub open spec fn unbiased_rhs<S: Scalar>(normal_vel: S, dist: S, params: RbdSimParams<S>) -> S {
    normal_vel.plus_spec(dist.maximum_spec(S::zero_spec()).times_spec(params.inv_dt_spec()))
}

/// The penetration bias at distance `dist`.
pub open spec fn penetration_bias<S: Scalar>(dist: S, params: RbdSimParams<S>) -> S {
    clamp_spec(
        dist.plus_spec(params.allowed_linear_error_spec()).times_spec(
            params.contact_erp_inv_dt_spec(),
        ),
        params.max_corrective_velocity_spec().neg_spec(),
        S::zero_spec(),
    )
}

/// In exact arithmetic, refreshing a freshly built contact with its bodies where they
/// were sees no drift: the normal row is that of the manifold's own distance, and the
/// tangent rows gain nothing.
pub proof fn fresh_contacts_do_not_drift<S: Scalar, D: Space<S>>(
    v: spec_fn(S) -> real,
    im: IndexedManifold<S, D>,
    sc: BodyScene<S, D>,
    params: RbdSimParams<S>,
    before: Seq<TwoBodyConstraintInfo<S, D>>,
    k: int,
    e: TwoBodyConstraintElement<S, D>,
    dir: D::V,
    tangent0: D::V,
)
    requires
        exact(v),
        ordered(v),
        geometric::<S, D>(v),
        inertial::<S, D>(v),
        manifold_ok(im, sc),
        turns_back::<S, D>(v, sc.solver_poses[im.colliders[0] as int].rotation),
        turns_back::<S, D>(v, sc.solver_poses[im.colliders[1] as int].rotation),
        0 <= k < im.contact.len,
    ensures
        ({
            let info = built_infos(im, sc, params, before)[k];
            let r = refreshed_element(
                e,
                info,
                sc.solver_poses[im.colliders[0] as int],
                sc.solver_poses[im.colliders[1] as int],
                dir,
                tangent0,
                params,
            );
            let dist = im.contact.points_a[k].dist;
            &&& v(r.normal_part.rhs_wo_bias) == v(unbiased_rhs(info.normal_vel, dist, params))
            &&& v(r.normal_part.rhs) == v(r.normal_part.rhs_wo_bias) + v(
                penetration_bias(dist, params),
            )
            &&& v(r.tangent0.rhs) == v(e.tangent0.rhs_wo_bias)
            &&& D::dimension_spec() == Dimension::Three ==> v(r.tangent1.rhs) == v(
                e.tangent1.rhs_wo_bias,
            )
        }),
{
    anchors_meet(v, im, sc, params, before, k);
    let info = built_infos(im, sc, params, before)[k];
    let pose1 = sc.solver_poses[im.colliders[0] as int];
    let pose2 = sc.solver_poses[im.colliders[1] as int];
    let gap = D::vsub_spec(pose1.point_spec(info.local_pt_a), pose2.point_spec(info.local_pt_b));
    assert(vector_value::<S, D>(v, gap) == r3_zero());
    lemma_dot_zero(vector_value::<S, D>(v, dir));
    lemma_dot_zero(vector_value::<S, D>(v, tangent0));
    lemma_dot_zero(vector_value::<S, D>(v, D::bitangent_spec(dir, tangent0)));
    assert(v(D::vdot_spec(gap, dir)) == 0real);
    assert(v(D::vdot_spec(gap, tangent0)) == 0real);
    assert(v(D::vdot_spec(gap, D::bitangent_spec(dir, tangent0))) == 0real);
    lemma_zero(v(params.inv_dt_spec()));
    let dist = info.dist.plus_spec(D::vdot_spec(gap, dir));
    assert(v(dist) == v(info.dist));
    assert(v(dist.maximum_spec(S::zero_spec())) == v(info.dist.maximum_spec(S::zero_spec())));
    assert(v(penetration_bias(dist, params)) == v(penetration_bias(info.dist, params)));
}

} // verus!
