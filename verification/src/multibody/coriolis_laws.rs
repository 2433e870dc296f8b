//! What the Coriolis terms add to the mass matrix when the arithmetic is exact.
use super::drive_laws::space_gyroscopic_inertia;
use super::dynamics::{
    MassOptions, cor_col, coriolis_impulse, mass_entry, quad_entry, spatial_product,
};
use super::gravity::{has_mass, link_world_inertia_spec};
use super::jacobian_laws::{angular_value, vector_value};
use super::kinematics::jac_col;
use super::mass_laws::{inertia_value, inertial, plane_is_inertial, space_is_inertial};
use super::space_laws::{plane_is_spatial, space_is_spatial, spatial};
use super::types::{MultibodyLinkStatic, MultibodyLinkWorkspace};
use crate::exact::{exact, lemma_commute, lemma_factor, lemma_zero};
use crate::real_vectors::{
    lemma_dot_sum, r3_add, r3_cross, r3_dot, r3_image, r3_scale, r3_zero,
};
use crate::scalar::Scalar;
use crate::space::{Dim2, Dim3, Mat3, Space, V3, Velocity};
use vstd::prelude::*;

verus! {

/// Under the reading `v`, an inertia with its gyroscopic terms over the time step `dt`
/// gives the change of the angular momentum, and what the turning adds to it.
pub open spec fn gyroscopic<S: Scalar, D: Space<S>>(v: spec_fn(S) -> real) -> bool {
    forall|m: D::I, w: D::A, dt: S, x: D::A|
        angular_value::<S, D>(v, #[trigger] D::imul_spec(D::igyro_spec(m, w, dt), x)) == r3_add(
            r3_image(inertia_value::<S, D>(v, m), angular_value::<S, D>(v, x)),
            r3_scale(
                r3_add(
                    r3_cross(
                        angular_value::<S, D>(v, w),
                        r3_image(inertia_value::<S, D>(v, m), angular_value::<S, D>(v, x)),
                    ),
                    r3_cross(
                        angular_value::<S, D>(v, x),
                        r3_image(inertia_value::<S, D>(v, m), angular_value::<S, D>(v, w)),
                    ),
                ),
                v(dt),
            ),
        )
}

/// In exact arithmetic, turning in the plane adds nothing to the angular momentum.
pub proof fn plane_is_gyroscopic<S: Scalar>(v: spec_fn(S) -> real)
    requires
        exact(v),
    ensures
        gyroscopic::<S, Dim2>(v),
{
    assert forall|m: S, w: S, dt: S, x: S|
        angular_value::<S, Dim2>(
            v,
            #[trigger] <Dim2 as Space<S>>::imul_spec(<Dim2 as Space<S>>::igyro_spec(m, w, dt), x),
        ) == r3_add(
            r3_image(inertia_value::<S, Dim2>(v, m), angular_value::<S, Dim2>(v, x)),
            r3_scale(
                r3_add(
                    r3_cross(
                        angular_value::<S, Dim2>(v, w),
                        r3_image(inertia_value::<S, Dim2>(v, m), angular_value::<S, Dim2>(v, x)),
                    ),
                    r3_cross(
                        angular_value::<S, Dim2>(v, x),
                        r3_image(inertia_value::<S, Dim2>(v, m), angular_value::<S, Dim2>(v, w)),
                    ),
                ),
                v(dt),
            ),
        ) by {
        plane_is_inertial(v);
        let im = inertia_value::<S, Dim2>(v, m);
        let xv = angular_value::<S, Dim2>(v, x);
        let wv = angular_value::<S, Dim2>(v, w);
        let a = angular_value::<S, Dim2>(v, <Dim2 as Space<S>>::imul_spec(m, x));
        let b = angular_value::<S, Dim2>(v, <Dim2 as Space<S>>::imul_spec(m, w));
        assert(a == r3_image(im, xv));
        assert(b == r3_image(im, wv));
        lemma_zero(a.z);
        lemma_zero(b.z);
        lemma_zero(xv.z);
        lemma_zero(wv.z);
        lemma_zero(v(dt));
        assert(r3_cross(wv, a) == r3_zero());
        assert(r3_cross(xv, b) == r3_zero());
    }
}

/// In exact arithmetic, the gyroscopic terms of space are the torques of turning.
pub proof fn space_is_gyroscopic<S: Scalar>(v: spec_fn(S) -> real)
    requires
        exact(v),
    ensures
        gyroscopic::<S, Dim3>(v),
{
    assert forall|m: Mat3<S>, w: V3<S>, dt: S, x: V3<S>|
        angular_value::<S, Dim3>(
            v,
            #[trigger] <Dim3 as Space<S>>::imul_spec(<Dim3 as Space<S>>::igyro_spec(m, w, dt), x),
        ) == r3_add(
            r3_image(inertia_value::<S, Dim3>(v, m), angular_value::<S, Dim3>(v, x)),
            r3_scale(
                r3_add(
                    r3_cross(
                        angular_value::<S, Dim3>(v, w),
                        r3_image(inertia_value::<S, Dim3>(v, m), angular_value::<S, Dim3>(v, x)),
                    ),
                    r3_cross(
                        angular_value::<S, Dim3>(v, x),
                        r3_image(inertia_value::<S, Dim3>(v, m), angular_value::<S, Dim3>(v, w)),
                    ),
                ),
                v(dt),
            ),
        ) by {
        space_gyroscopic_inertia(v, m, w, dt, x);
    }
}

/// The power, along degree of freedom `i`, of the inertial force and torque that link
/// `k` needs for what a velocity of degree of freedom `j` adds to its acceleration and
/// to the turning of its angular momentum.
pub open spec fn inertial_power<S: Scalar, D: Space<S>>(
    v: spec_fn(S) -> real,
    st: Seq<MultibodyLinkStatic<S, D>>,
    ws: Seq<MultibodyLinkWorkspace<S, D>>,
    k: int,
    i: int,
    j: int,
) -> real {
    let ji = jac_col(st, ws, k, i);
    let jj = jac_col(st, ws, k, j);
    let cor = cor_col(st, ws, k, j);
    let mass = v(S::one_spec().over_spec(D::vget_spec(st[k].local_mprops.inv_mass, 0)));
    let im = inertia_value::<S, D>(v, link_world_inertia_spec(ws[k], st[k].local_mprops));
    let w = angular_value::<S, D>(v, ws[k].rb_vels.angular);
    let push = r3_scale(vector_value::<S, D>(v, cor.linear), mass);
    let twist = r3_image(im, angular_value::<S, D>(v, cor.angular));
    let jw = angular_value::<S, D>(v, jj.angular);
    let swing = r3_add(r3_cross(w, r3_image(im, jw)), r3_cross(jw, r3_image(im, w)));
    r3_dot(vector_value::<S, D>(v, ji.linear), push) + r3_dot(
        angular_value::<S, D>(v, ji.angular),
        twist,
    ) + r3_dot(angular_value::<S, D>(v, ji.angular), swing)
}

/// The inertial power of the first `n` links, of those that have mass.
pub open spec fn inertial_powers<S: Scalar, D: Space<S>>(
    v: spec_fn(S) -> real,
    st: Seq<MultibodyLinkStatic<S, D>>,
    ws: Seq<MultibodyLinkWorkspace<S, D>>,
    n: int,
    i: int,
    j: int,
) -> real
    decreases n,
{
    if n <= 0 {
        0real
    } else {
        inertial_powers(v, st, ws, n - 1, i, j) + if has_mass(st[n - 1].local_mprops) {
            inertial_power(v, st, ws, n - 1, i, j)
        } else {
            0real
        }
    }
}

proof fn lemma_scaled_dot(d: V3<real>, a: V3<real>, k: real)
    ensures
        r3_dot(d, r3_scale(a, k)) == r3_dot(d, a) * k,
{
    lemma_dot_sum(d, r3_zero(), a, k);
    assert(r3_add(r3_zero(), r3_scale(a, k)) == r3_scale(a, k));
    lemma_zero(d.x);
    lemma_zero(d.y);
    lemma_zero(d.z);
}

proof fn lemma_quad_gain<S: Scalar, D: Space<S>>(
    v: spec_fn(S) -> real,
    ji: Velocity<S, D>,
    jj: Velocity<S, D>,
    mass: S,
    inertia: D::I,
    w: D::A,
    dt: S,
)
    requires
        exact(v),
        inertial::<S, D>(v),
        gyroscopic::<S, D>(v),
    ensures
        ({
            let im = inertia_value::<S, D>(v, inertia);
            let jw = angular_value::<S, D>(v, jj.angular);
            let wv = angular_value::<S, D>(v, w);
            let swing = r3_add(r3_cross(wv, r3_image(im, jw)), r3_cross(jw, r3_image(im, wv)));
            v(quad_entry(ji, jj, mass, D::igyro_spec(inertia, w, dt))) == v(
                quad_entry(ji, jj, mass, inertia),
            ) + r3_dot(angular_value::<S, D>(v, ji.angular), swing) * v(dt)
        }),
{
    let im = inertia_value::<S, D>(v, inertia);
    let jw = angular_value::<S, D>(v, jj.angular);
    let wv = angular_value::<S, D>(v, w);
    let swing = r3_add(r3_cross(wv, r3_image(im, jw)), r3_cross(jw, r3_image(im, wv)));
    lemma_dot_sum(angular_value::<S, D>(v, ji.angular), r3_image(im, jw), swing, v(dt));
    assert(angular_value::<S, D>(
        v,
        D::imul_spec(D::igyro_spec(inertia, w, dt), jj.angular),
    ) == r3_add(r3_image(im, jw), r3_scale(swing, v(dt))));
    assert(angular_value::<S, D>(v, D::imul_spec(inertia, jj.angular)) == r3_image(im, jw));
}

proof fn lemma_coriolis_product<S: Scalar, D: Space<S>>(
    v: spec_fn(S) -> real,
    st: Seq<MultibodyLinkStatic<S, D>>,
    ws: Seq<MultibodyLinkWorkspace<S, D>>,
    dt: S,
    k: int,
    j: int,
    ji: Velocity<S, D>,
)
    requires
        exact(v),
        spatial::<S, D>(v),
        inertial::<S, D>(v),
    ensures
        ({
            let cor = cor_col(st, ws, k, j);
            let mass = v(S::one_spec().over_spec(D::vget_spec(st[k].local_mprops.inv_mass, 0)));
            let im = inertia_value::<S, D>(v, link_world_inertia_spec(ws[k], st[k].local_mprops));
            let push = r3_scale(vector_value::<S, D>(v, cor.linear), mass);
            let twist = r3_image(im, angular_value::<S, D>(v, cor.angular));
            v(spatial_product(ji, coriolis_impulse(st, ws, dt, k, j))) == r3_dot(
                vector_value::<S, D>(v, ji.linear),
                push,
            ) * v(dt) + r3_dot(angular_value::<S, D>(v, ji.angular), twist) * v(dt)
        }),
{
    let cor = cor_col(st, ws, k, j);
    let mass = S::one_spec().over_spec(D::vget_spec(st[k].local_mprops.inv_mass, 0));
    let inertia = link_world_inertia_spec(ws[k], st[k].local_mprops);
    let im = inertia_value::<S, D>(v, inertia);
    let cl = vector_value::<S, D>(v, cor.linear);
    let jl = vector_value::<S, D>(v, ji.linear);
    let m = v(mass);
    let t = v(dt);
    let twist = r3_image(im, angular_value::<S, D>(v, cor.angular));
    lemma_scaled_dot(jl, cl, m * t);
    lemma_scaled_dot(jl, cl, m);
    let x = r3_dot(jl, cl);
    assert(x * (m * t) == (x * m) * t) by (nonlinear_arith);
    lemma_scaled_dot(angular_value::<S, D>(v, ji.angular), twist, t);
    assert(angular_value::<S, D>(v, D::imul_spec(inertia, cor.angular)) == twist);
    assert(vector_value::<S, D>(v, D::vscale_spec(cor.linear, mass.times_spec(dt))) == r3_scale(
        cl,
        m * t,
    ));
}

proof fn lemma_powers<S: Scalar, D: Space<S>>(
    v: spec_fn(S) -> real,
    st: Seq<MultibodyLinkStatic<S, D>>,
    ws: Seq<MultibodyLinkWorkspace<S, D>>,
    dt: S,
    n: int,
    i: int,
    j: int,
)
    requires
        exact(v),
        spatial::<S, D>(v),
        inertial::<S, D>(v),
        gyroscopic::<S, D>(v),
    ensures
        v(mass_entry(st, ws, (MassOptions { dt, coriolis: true, chain: false }), n, i, j)) == v(
            mass_entry(st, ws, (MassOptions { dt, coriolis: false, chain: false }), n, i, j),
        ) + v(dt) * inertial_powers(v, st, ws, n, i, j),
    decreases n,
{
    let t = v(dt);
    lemma_zero(t);
    if n > 0 {
        let k = n - 1;
        lemma_powers(v, st, ws, dt, k, i, j);
        let old = inertial_powers(v, st, ws, k, i, j);
        lemma_factor(t, old, inertial_power(v, st, ws, k, i, j));
        lemma_factor(t, old, 0real);
        if has_mass(st[k].local_mprops) {
            let ji = jac_col(st, ws, k, i);
            let jj = jac_col(st, ws, k, j);
            let mass = S::one_spec().over_spec(D::vget_spec(st[k].local_mprops.inv_mass, 0));
            let inertia = link_world_inertia_spec(ws[k], st[k].local_mprops);
            lemma_quad_gain(v, ji, jj, mass, inertia, ws[k].rb_vels.angular, dt);
            lemma_coriolis_product(v, st, ws, dt, k, j, ji);
            let im = inertia_value::<S, D>(v, inertia);
            let cor = cor_col(st, ws, k, j);
            let push = r3_scale(vector_value::<S, D>(v, cor.linear), v(mass));
            let twist = r3_image(im, angular_value::<S, D>(v, cor.angular));
            let jw = angular_value::<S, D>(v, jj.angular);
            let w = angular_value::<S, D>(v, ws[k].rb_vels.angular);
            let swing = r3_add(r3_cross(w, r3_image(im, jw)), r3_cross(jw, r3_image(im, w)));
            let p = r3_dot(vector_value::<S, D>(v, ji.linear), push);
            let q = r3_dot(angular_value::<S, D>(v, ji.angular), twist);
            let r = r3_dot(angular_value::<S, D>(v, ji.angular), swing);
            lemma_factor(t, p + q, r);
            lemma_factor(t, p, q);
            lemma_commute(t, p);
            lemma_commute(t, q);
            lemma_commute(t, r);
        }
    }
}

/// In the plane, when the arithmetic is exact, the Coriolis terms add to each entry of the mass
/// matrix the time step times the inertial power of the links: the velocities that the
/// matrix is solved for pay, over the step, for the forces that turn and bend the
/// motion of the links.
pub proof fn plane_coriolis_terms_are_inertial_powers<S: Scalar>(
    v: spec_fn(S) -> real,
    st: Seq<MultibodyLinkStatic<S, Dim2>>,
    ws: Seq<MultibodyLinkWorkspace<S, Dim2>>,
    dt: S,
    n: int,
    i: int,
    j: int,
)
    requires
        exact(v),
    ensures
        v(mass_entry(st, ws, (MassOptions { dt, coriolis: true, chain: false }), n, i, j)) == v(
            mass_entry(st, ws, (MassOptions { dt, coriolis: false, chain: false }), n, i, j),
        ) + v(dt) * inertial_powers(v, st, ws, n, i, j),
{
    plane_is_spatial(v);
    plane_is_inertial(v);
    plane_is_gyroscopic(v);
    lemma_powers(v, st, ws, dt, n, i, j);
}

/// In space, when the arithmetic is exact, the Coriolis terms add to each entry of the mass
/// matrix the time step times the inertial power of the links: the velocities that the
/// matrix is solved for pay, over the step, for the forces that turn and bend the
/// motion of the links.
pub proof fn space_coriolis_terms_are_inertial_powers<S: Scalar>(
    v: spec_fn(S) -> real,
    st: Seq<MultibodyLinkStatic<S, Dim3>>,
    ws: Seq<MultibodyLinkWorkspace<S, Dim3>>,
    dt: S,
    n: int,
    i: int,
    j: int,
)
    requires
        exact(v),
    ensures
        v(mass_entry(st, ws, (MassOptions { dt, coriolis: true, chain: false }), n, i, j)) == v(
            mass_entry(st, ws, (MassOptions { dt, coriolis: false, chain: false }), n, i, j),
        ) + v(dt) * inertial_powers(v, st, ws, n, i, j),
{
    space_is_spatial(v);
    space_is_inertial(v);
    space_is_gyroscopic(v);
    lemma_powers(v, st, ws, dt, n, i, j);
}

} // verus!
