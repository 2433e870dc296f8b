//! What the mass matrix means when the arithmetic is exact.
use super::dynamics::{
    MassOptions, chain_dofs, mass_entry, mass_matrix, quad_entry, touches,
};
use super::gravity::{has_mass, link_world_inertia_spec, parents_first};
use super::jacobian_laws::{
    angular_value, frames_are_unit, geometric, jacobian_angular, jacobian_linear,
    plane_is_geometric, plane_jacobians_give_velocities, root_upright, space_is_geometric,
    space_jacobians_give_velocities, vector_value,
};
use super::kinematics::{
    dofs_in_range, jac_col, joint_dof, joint_frame_rot, moving, placed,
};
use super::types::{MultibodyLinkStatic, MultibodyLinkWorkspace};
use crate::exact::{exact, lemma_commute, lemma_factor, lemma_zero};
use crate::joint::{free_axes, lemma_free_axes_bound, lemma_free_axes_split};
use crate::real_vectors::{
    combination, lemma_combined_image, lemma_combined_scale, lemma_cross_zero, lemma_dot_sum, lemma_dot_zero,
    lemma_image_zero, lemma_move_right, lemma_one, lemma_right, r3_add, r3_dot, r3_image, r3_scale, r3_zero,
};
use crate::scalar::{Scalar, two_spec};
use crate::space::{Dim2, Dim3, Mat3, Pose, Quat, Rot2, Space, V2, V3, Velocity, quat_matrix_spec};
use vstd::prelude::*;

verus! {

// ---- inertias ----

/// The matrix of an inertia, by columns.
pub open spec fn inertia_value<S: Scalar, D: Space<S>>(
    v: spec_fn(S) -> real,
    m: D::I,
) -> Mat3<real> {
    Mat3 {
        x_axis: angular_value::<S, D>(v, D::imul_spec(m, D::aaxis_spec(0, S::one_spec()))),
        y_axis: angular_value::<S, D>(v, D::imul_spec(m, D::aaxis_spec(1, S::one_spec()))),
        z_axis: angular_value::<S, D>(v, D::imul_spec(m, D::aaxis_spec(2, S::one_spec()))),
    }
}

/// Under the reading `v`, dot products, multiples and inertias are those of space,
/// and the inertia of a body is symmetric.
pub open spec fn inertial<S: Scalar, D: Space<S>>(v: spec_fn(S) -> real) -> bool {
    &&& forall|a: D::V, b: D::V|
        v(#[trigger] D::vdot_spec(a, b)) == r3_dot(
            vector_value::<S, D>(v, a),
            vector_value::<S, D>(v, b),
        )
    &&& forall|a: D::A, b: D::A|
        v(#[trigger] D::gdot_spec(a, b)) == r3_dot(
            angular_value::<S, D>(v, a),
            angular_value::<S, D>(v, b),
        )
    &&& forall|a: D::V, k: S|
        vector_value::<S, D>(v, #[trigger] D::vscale_spec(a, k)) == r3_scale(
            vector_value::<S, D>(v, a),
            v(k),
        )
    &&& forall|m: D::I, a: D::A|
        angular_value::<S, D>(v, #[trigger] D::imul_spec(m, a)) == r3_image(
            inertia_value::<S, D>(v, m),
            angular_value::<S, D>(v, a),
        )
    &&& forall|r: D::R, p: D::A, a: D::A, b: D::A|
        v(#[trigger] D::gdot_spec(a, D::imul_spec(D::ifrom_spec(r, p), b))) == v(
            D::gdot_spec(b, D::imul_spec(D::ifrom_spec(r, p), a)),
        )
}

// ---- sums ----

/// The sum of `f(c)` weighted by entry `c` of `q`, over the first `n` entries.
pub open spec fn weighted<S>(
    v: spec_fn(S) -> real,
    q: Seq<S>,
    f: spec_fn(int) -> real,
    n: int,
) -> real
    decreases n,
{
    if n <= 0 {
        0real
    } else {
        weighted(v, q, f, n - 1) + f(n - 1) * v(q[n - 1])
    }
}

/// The quadratic form of the entries `f(i, j)`, applied to `q`.
pub open spec fn quadratic<S>(
    v: spec_fn(S) -> real,
    q: Seq<S>,
    f: spec_fn(int, int) -> real,
) -> real {
    let n = q.len() as int;
    weighted(v, q, |i: int| weighted(v, q, |j: int| f(i, j), n), n)
}

pub proof fn lemma_weighted_same<S>(
    v: spec_fn(S) -> real,
    q: Seq<S>,
    f: spec_fn(int) -> real,
    g: spec_fn(int) -> real,
    n: int,
)
    requires
        forall|c: int| 0 <= c < n ==> #[trigger] f(c) == g(c),
    ensures
        weighted(v, q, f, n) == weighted(v, q, g, n),
    decreases n,
{
    if n > 0 {
        lemma_weighted_same(v, q, f, g, n - 1);
        assert(f(n - 1) == g(n - 1));
    }
}

pub proof fn lemma_weighted_add<S>(
    v: spec_fn(S) -> real,
    q: Seq<S>,
    f: spec_fn(int) -> real,
    g: spec_fn(int) -> real,
    h: spec_fn(int) -> real,
    n: int,
)
    requires
        forall|c: int| 0 <= c < n ==> #[trigger] h(c) == f(c) + g(c),
    ensures
        weighted(v, q, h, n) == weighted(v, q, f, n) + weighted(v, q, g, n),
    decreases n,
{
    if n > 0 {
        lemma_weighted_add(v, q, f, g, h, n - 1);
        assert(h(n - 1) == f(n - 1) + g(n - 1));
        lemma_right(f(n - 1), g(n - 1), v(q[n - 1]));
    }
}

/// A weighted sum of dot products is the dot product with the combination.
pub proof fn lemma_weighted_dot<S>(
    v: spec_fn(S) -> real,
    q: Seq<S>,
    x: V3<real>,
    f: spec_fn(int) -> V3<real>,
    left: spec_fn(int) -> real,
    right: spec_fn(int) -> real,
    n: int,
)
    requires
        forall|c: int| 0 <= c < n ==> #[trigger] left(c) == r3_dot(f(c), x),
        forall|c: int| 0 <= c < n ==> #[trigger] right(c) == r3_dot(x, f(c)),
    ensures
        weighted(v, q, left, n) == r3_dot(combination(v, q, f, 0, n), x),
        weighted(v, q, right, n) == r3_dot(x, combination(v, q, f, 0, n)),
    decreases n,
{
    if n > 0 {
        lemma_weighted_dot(v, q, x, f, left, right, n - 1);
        let c = n - 1;
        assert(left(c) == r3_dot(f(c), x));
        assert(right(c) == r3_dot(x, f(c)));
        lemma_dot_sum(x, combination(v, q, f, 0, c), f(c), v(q[c]));
    } else {
        lemma_dot_zero(x);
    }
}

pub proof fn lemma_weighted_none<S>(
    v: spec_fn(S) -> real,
    q: Seq<S>,
    f: spec_fn(int) -> real,
    n: int,
)
    requires
        forall|c: int| 0 <= c < n ==> #[trigger] f(c) == 0real,
    ensures
        weighted(v, q, f, n) == 0real,
    decreases n,
{
    if n > 0 {
        lemma_weighted_none(v, q, f, n - 1);
        assert(f(n - 1) == 0real);
        lemma_zero(v(q[n - 1]));
    }
}

/// A weighted sum with one term.
proof fn lemma_weighted_one<S>(
    v: spec_fn(S) -> real,
    q: Seq<S>,
    f: spec_fn(int) -> real,
    i: int,
    n: int,
)
    requires
        forall|c: int| 0 <= c < n && c != i ==> #[trigger] f(c) == 0real,
    ensures
        weighted(v, q, f, n) == (if 0 <= i < n {
            f(i) * v(q[i])
        } else {
            0real
        }),
    decreases n,
{
    if n > 0 {
        lemma_weighted_one(v, q, f, i, n - 1);
        if n - 1 != i {
            assert(f(n - 1) == 0real);
            lemma_zero(v(q[n - 1]));
        }
    }
}

proof fn lemma_quadratic_add<S>(
    v: spec_fn(S) -> real,
    q: Seq<S>,
    f: spec_fn(int, int) -> real,
    g: spec_fn(int, int) -> real,
    h: spec_fn(int, int) -> real,
)
    requires
        forall|i: int, j: int|
            0 <= i < q.len() && 0 <= j < q.len() ==> #[trigger] h(i, j) == f(i, j) + g(i, j),
    ensures
        quadratic(v, q, h) == quadratic(v, q, f) + quadratic(v, q, g),
{
    let n = q.len() as int;
    let rf = |i: int| weighted(v, q, |j: int| f(i, j), n);
    let rg = |i: int| weighted(v, q, |j: int| g(i, j), n);
    let rh = |i: int| weighted(v, q, |j: int| h(i, j), n);
    assert forall|i: int| 0 <= i < n implies #[trigger] rh(i) == rf(i) + rg(i) by {
        let a = |j: int| f(i, j);
        let b = |j: int| g(i, j);
        let c = |j: int| h(i, j);
        assert forall|j: int| 0 <= j < n implies #[trigger] c(j) == a(j) + b(j) by {
            assert(h(i, j) == f(i, j) + g(i, j));
        }
        lemma_weighted_add(v, q, a, b, c, n);
    }
    lemma_weighted_add(v, q, rf, rg, rh, n);
}

proof fn lemma_quadratic_same<S>(
    v: spec_fn(S) -> real,
    q: Seq<S>,
    f: spec_fn(int, int) -> real,
    g: spec_fn(int, int) -> real,
)
    requires
        forall|i: int, j: int|
            0 <= i < q.len() && 0 <= j < q.len() ==> #[trigger] f(i, j) == g(i, j),
    ensures
        quadratic(v, q, f) == quadratic(v, q, g),
{
    let n = q.len() as int;
    let rf = |i: int| weighted(v, q, |j: int| f(i, j), n);
    let rg = |i: int| weighted(v, q, |j: int| g(i, j), n);
    assert forall|i: int| 0 <= i < n implies #[trigger] rf(i) == rg(i) by {
        let a = |j: int| f(i, j);
        let b = |j: int| g(i, j);
        assert forall|j: int| 0 <= j < n implies #[trigger] a(j) == b(j) by {
            assert(f(i, j) == g(i, j));
        }
        lemma_weighted_same(v, q, a, b, n);
    }
    lemma_weighted_same(v, q, rf, rg, n);
}

// ---- one link ----

proof fn lemma_quad_value<S: Scalar, D: Space<S>>(
    v: spec_fn(S) -> real,
    a: Velocity<S, D>,
    b: Velocity<S, D>,
    mass: S,
    inertia: D::I,
)
    requires
        exact(v),
        inertial::<S, D>(v),
    ensures
        v(quad_entry(a, b, mass, inertia)) == r3_dot(
            vector_value::<S, D>(v, a.linear),
            r3_scale(vector_value::<S, D>(v, b.linear), v(mass)),
        ) + r3_dot(
            angular_value::<S, D>(v, a.angular),
            r3_image(
                inertia_value::<S, D>(v, inertia),
                angular_value::<S, D>(v, b.angular),
            ),
        ),
{
}

/// The share of one link in the quadratic form of the mass matrix.
proof fn lemma_link_form<S: Scalar, D: Space<S>>(
    v: spec_fn(S) -> real,
    st: Seq<MultibodyLinkStatic<S, D>>,
    ws: Seq<MultibodyLinkWorkspace<S, D>>,
    q: Seq<S>,
    k: int,
    vel: Velocity<S, D>,
    mass: S,
    inertia: D::I,
)
    requires
        exact(v),
        inertial::<S, D>(v),
        jacobian_linear(v, st, ws, k, q) == vector_value::<S, D>(v, vel.linear),
        jacobian_angular(v, st, ws, k, q) == angular_value::<S, D>(v, vel.angular),
    ensures
        quadratic(
            v,
            q,
            |i: int, j: int|
                v(quad_entry(jac_col(st, ws, k, i), jac_col(st, ws, k, j), mass, inertia)),
        ) == v(quad_entry(vel, vel, mass, inertia)),
{
    let n = q.len() as int;
    let m = v(mass);
    let mat = inertia_value::<S, D>(v, inertia);
    let l = |c: int| vector_value::<S, D>(v, jac_col(st, ws, k, c).linear);
    let a = |c: int| angular_value::<S, D>(v, jac_col(st, ws, k, c).angular);
    let lm = |c: int| r3_scale(l(c), m);
    let am = |c: int| r3_image(mat, a(c));
    let ll = vector_value::<S, D>(v, vel.linear);
    let aa = angular_value::<S, D>(v, vel.angular);
    lemma_combined_scale(v, q, l, m, lm, n);
    lemma_combined_image(v, q, a, mat, am, n);
    assert(combination(v, q, l, 0, n) == ll);
    assert(combination(v, q, a, 0, n) == aa);
    let entry = |i: int, j: int|
        v(quad_entry(jac_col(st, ws, k, i), jac_col(st, ws, k, j), mass, inertia));
    let row = |i: int| weighted(v, q, |j: int| entry(i, j), n);
    let left = |i: int| r3_dot(l(i), r3_scale(ll, m));
    let right = |i: int| r3_dot(a(i), r3_image(mat, aa));
    assert forall|i: int| 0 <= i < n implies #[trigger] row(i) == left(i) + right(i) by {
        let e = |j: int| entry(i, j);
        let x = |j: int| r3_dot(l(i), lm(j));
        let y = |j: int| r3_dot(a(i), am(j));
        assert forall|j: int| 0 <= j < n implies #[trigger] e(j) == x(j) + y(j) by {
            lemma_quad_value(v, jac_col(st, ws, k, i), jac_col(st, ws, k, j), mass, inertia);
        }
        lemma_weighted_add(v, q, x, y, e, n);
        lemma_weighted_dot(v, q, l(i), lm, |j: int| r3_dot(lm(j), l(i)), x, n);
        lemma_weighted_dot(v, q, a(i), am, |j: int| r3_dot(am(j), a(i)), y, n);
    }
    lemma_weighted_add(v, q, left, right, row, n);
    let x = r3_scale(ll, m);
    let y = r3_image(mat, aa);
    lemma_weighted_dot(v, q, x, l, left, |i: int| r3_dot(x, l(i)), n);
    lemma_weighted_dot(v, q, y, a, right, |i: int| r3_dot(y, a(i)), n);
    lemma_quad_value(v, vel, vel, mass, inertia);
}

// ---- all links ----

/// Twice the kinetic energy of the first `k` links.
pub open spec fn double_energy<S: Scalar, D: Space<S>>(
    v: spec_fn(S) -> real,
    st: Seq<MultibodyLinkStatic<S, D>>,
    ws: Seq<MultibodyLinkWorkspace<S, D>>,
    k: int,
) -> real
    decreases k,
{
    if k <= 0 {
        0real
    } else {
        let lmp = st[k - 1].local_mprops;
        double_energy(v, st, ws, k - 1) + if has_mass(lmp) {
            v(
                quad_entry(
                    ws[k - 1].rb_vels,
                    ws[k - 1].rb_vels,
                    S::one_spec().over_spec(D::vget_spec(lmp.inv_mass, 0)),
                    link_world_inertia_spec(ws[k - 1], lmp),
                ),
            )
        } else {
            0real
        }
    }
}

/// The jacobians of the links map `q` to the velocities of the links.
pub open spec fn jacobians_fit<S: Scalar, D: Space<S>>(
    v: spec_fn(S) -> real,
    st: Seq<MultibodyLinkStatic<S, D>>,
    ws: Seq<MultibodyLinkWorkspace<S, D>>,
    q: Seq<S>,
    k: int,
) -> bool {
    &&& jacobian_linear(v, st, ws, k, q) == vector_value::<S, D>(v, ws[k].rb_vels.linear)
    &&& jacobian_angular(v, st, ws, k, q) == angular_value::<S, D>(v, ws[k].rb_vels.angular)
}

proof fn lemma_energy<S: Scalar, D: Space<S>>(
    v: spec_fn(S) -> real,
    st: Seq<MultibodyLinkStatic<S, D>>,
    ws: Seq<MultibodyLinkWorkspace<S, D>>,
    dt: S,
    q: Seq<S>,
    k: int,
)
    requires
        exact(v),
        inertial::<S, D>(v),
        0 <= k <= st.len(),
        forall|a: int| 0 <= a < k ==> #[trigger] jacobians_fit(v, st, ws, q, a),
    ensures
        quadratic(
            v,
            q,
            |i: int, j: int|
                v(
                    mass_entry(
                        st,
                        ws,
                        MassOptions { dt: dt, coriolis: false, chain: false },
                        k,
                        i,
                        j,
                    ),
                ),
        ) == double_energy(v, st, ws, k),
    decreases k,
{
    let opt = MassOptions { dt: dt, coriolis: false, chain: false };
    let n = q.len() as int;
    let h = |i: int, j: int| v(mass_entry(st, ws, opt, k, i, j));
    if k == 0 {
        let row = |i: int| weighted(v, q, |j: int| h(i, j), n);
        assert forall|i: int| 0 <= i < n implies #[trigger] row(i) == 0real by {
            lemma_weighted_none(v, q, |j: int| h(i, j), n);
        }
        lemma_weighted_none(v, q, row, n);
    } else {
        lemma_energy(v, st, ws, dt, q, k - 1);
        assert(jacobians_fit(v, st, ws, q, k - 1));
        let f = |i: int, j: int| v(mass_entry(st, ws, opt, k - 1, i, j));
        let lmp = st[k - 1].local_mprops;
        if has_mass(lmp) {
            let mass = S::one_spec().over_spec(D::vget_spec(lmp.inv_mass, 0));
            let inertia = link_world_inertia_spec(ws[k - 1], lmp);
            let g = |i: int, j: int|
                v(
                    quad_entry(
                        jac_col(st, ws, k - 1, i),
                        jac_col(st, ws, k - 1, j),
                        mass,
                        inertia,
                    ),
                );
            assert forall|i: int, j: int| 0 <= i < n && 0 <= j < n implies #[trigger] h(i, j)
                == f(i, j) + g(i, j) by {}
            lemma_quadratic_add(v, q, f, g, h);
            lemma_link_form(v, st, ws, q, k - 1, ws[k - 1].rb_vels, mass, inertia);
        } else {
            lemma_quadratic_same(v, q, h, f);
        }
    }
}

// ---- chains ----

/// Every joint has as many degrees of freedom as free axes.
pub open spec fn dofs_counted<S: Scalar, D: Space<S>>(
    st: Seq<MultibodyLinkStatic<S, D>>,
) -> bool {
    forall|k: int|
        0 <= k < st.len() ==> (#[trigger] st[k]).ndofs == free_axes(
            st[k].data.locked_axes,
            0,
            D::dimension_spec().spatial_spec(),
        )
}

proof fn lemma_outside_joint<S: Scalar, D: Space<S>>(locked: u32, rot: D::R, c: int)
    requires
        c < 0 || free_axes(locked, 0, D::dimension_spec().spatial_spec()) <= c,
    ensures
        joint_dof::<S, D>(locked, rot, c) == (None::<D::V>, None::<D::A>),
{
    let dim = D::dimension_spec().lin_spec();
    let sd = D::dimension_spec().spatial_spec();
    lemma_free_axes_split(locked, 0, dim, sd);
    lemma_free_axes_bound(locked, 0, dim);
    lemma_free_axes_bound(locked, dim, sd);
}

proof fn lemma_off_chain<S: Scalar, D: Space<S>>(
    v: spec_fn(S) -> real,
    st: Seq<MultibodyLinkStatic<S, D>>,
    ws: Seq<MultibodyLinkWorkspace<S, D>>,
    k: int,
    c: u32,
    fuel: int,
)
    requires
        geometric::<S, D>(v),
        0 <= k < st.len(),
        parents_first(st),
        dofs_counted(st),
        k < fuel,
        !chain_dofs(st, k, fuel).contains(c),
    ensures
        vector_value::<S, D>(v, jac_col(st, ws, k, c as int).linear) == r3_zero(),
        angular_value::<S, D>(v, jac_col(st, ws, k, c as int).angular) == r3_zero(),
    decreases k,
{
    let p = st[k].parent_link_id as int;
    let own = Seq::new(st[k].ndofs as nat, |i: int| (st[k].assembly_id + i) as u32);
    let d = c - st[k].assembly_id;
    if 0 <= d < st[k].ndofs {
        assert(own[d] == c);
        assert(chain_dofs(st, k, fuel)[d] == c);
    }
    lemma_outside_joint::<S, D>(
        st[k].data.locked_axes,
        joint_frame_rot(st, ws, k),
        d,
    );
    lemma_cross_zero(vector_value::<S, D>(v, ws[k].shift23));
    if k > 0 {
        assert(st[k].parent_link_id < k);
        let rest = chain_dofs(st, p, fuel - 1);
        if rest.contains(c) {
            let i = choose|i: int| 0 <= i < rest.len() && rest[i] == c;
            assert((own + rest)[own.len() + i] == c);
            assert(false);
        }
        lemma_off_chain(v, st, ws, p, c, fuel - 1);
        lemma_cross_zero(vector_value::<S, D>(v, ws[k].shift02));
    }
}

/// In exact arithmetic, a link's jacobian is zero in every degree of freedom off the
/// link's chain to the root.
pub proof fn columns_off_the_chain_are_zero<S: Scalar, D: Space<S>>(
    v: spec_fn(S) -> real,
    st: Seq<MultibodyLinkStatic<S, D>>,
    ws: Seq<MultibodyLinkWorkspace<S, D>>,
    k: int,
    c: u32,
)
    requires
        geometric::<S, D>(v),
        0 <= k < st.len(),
        parents_first(st),
        dofs_counted(st),
        !chain_dofs(st, k, st.len() as int).contains(c),
    ensures
        vector_value::<S, D>(v, jac_col(st, ws, k, c as int).linear) == r3_zero(),
        angular_value::<S, D>(v, jac_col(st, ws, k, c as int).angular) == r3_zero(),
{
    lemma_off_chain(v, st, ws, k, c, st.len() as int);
}

/// In exact arithmetic, restricting each link's terms to its chain does not change
/// the mass matrix.
pub proof fn chains_keep_the_mass_matrix<S: Scalar, D: Space<S>>(
    v: spec_fn(S) -> real,
    st: Seq<MultibodyLinkStatic<S, D>>,
    ws: Seq<MultibodyLinkWorkspace<S, D>>,
    opt: MassOptions<S>,
    k: int,
    i: u32,
    j: u32,
)
    requires
        exact(v),
        geometric::<S, D>(v),
        inertial::<S, D>(v),
        0 <= k <= st.len(),
        parents_first(st),
        dofs_counted(st),
    ensures
        v(mass_entry(st, ws, (MassOptions { chain: true, ..opt }), k, i as int, j as int)) == v(
            mass_entry(st, ws, (MassOptions { chain: false, ..opt }), k, i as int, j as int),
        ),
    decreases k,
{
    if k > 0 {
        chains_keep_the_mass_matrix(v, st, ws, opt, k - 1, i, j);
        let a = k - 1;
        if !touches(st, true, a, i as int, j as int) {
            let lmp = st[a].local_mprops;
            let mass = S::one_spec().over_spec(D::vget_spec(lmp.inv_mass, 0));
            let inertia = link_world_inertia_spec(ws[a], lmp);
            let full = if opt.coriolis {
                D::igyro_spec(inertia, ws[a].rb_vels.angular, opt.dt)
            } else {
                inertia
            };
            let ji = jac_col(st, ws, a, i as int);
            let jj = jac_col(st, ws, a, j as int);
            let mat = inertia_value::<S, D>(v, full);
            lemma_quad_value(v, ji, jj, mass, full);
            if !chain_dofs(st, a, a + 1).contains(i) {
                lemma_off_chain(v, st, ws, a, i, a + 1);
                lemma_dot_zero(r3_scale(vector_value::<S, D>(v, jj.linear), v(mass)));
                lemma_dot_zero(r3_image(mat, angular_value::<S, D>(v, jj.angular)));
            } else {
                lemma_off_chain(v, st, ws, a, j, a + 1);
                lemma_zero(v(mass));
                lemma_image_zero(mat);
                lemma_dot_zero(vector_value::<S, D>(v, ji.linear));
                lemma_dot_zero(angular_value::<S, D>(v, ji.angular));
            }
            assert(v(quad_entry(ji, jj, mass, full)) == 0real);
        }
    }
}

// ---- the sum ----

/// The sum over the first `k` links with mass of `Jᵀ diag(m, I) J`, entry `(i, j)`.
pub open spec fn link_sum<S: Scalar, D: Space<S>>(
    v: spec_fn(S) -> real,
    st: Seq<MultibodyLinkStatic<S, D>>,
    ws: Seq<MultibodyLinkWorkspace<S, D>>,
    k: int,
    i: int,
    j: int,
) -> real
    decreases k,
{
    if k <= 0 {
        0real
    } else {
        let lmp = st[k - 1].local_mprops;
        link_sum(v, st, ws, k - 1, i, j) + if has_mass(lmp) {
            let ji = jac_col(st, ws, k - 1, i);
            let jj = jac_col(st, ws, k - 1, j);
            r3_dot(
                vector_value::<S, D>(v, ji.linear),
                r3_scale(
                    vector_value::<S, D>(v, jj.linear),
                    v(S::one_spec().over_spec(D::vget_spec(lmp.inv_mass, 0))),
                ),
            ) + r3_dot(
                angular_value::<S, D>(v, ji.angular),
                r3_image(
                    inertia_value::<S, D>(v, link_world_inertia_spec(ws[k - 1], lmp)),
                    angular_value::<S, D>(v, jj.angular),
                ),
            )
        } else {
            0real
        }
    }
}

proof fn lemma_link_sum<S: Scalar, D: Space<S>>(
    v: spec_fn(S) -> real,
    st: Seq<MultibodyLinkStatic<S, D>>,
    ws: Seq<MultibodyLinkWorkspace<S, D>>,
    opt: MassOptions<S>,
    k: int,
    i: int,
    j: int,
)
    requires
        exact(v),
        inertial::<S, D>(v),
        !opt.coriolis,
        !opt.chain,
    ensures
        v(mass_entry(st, ws, opt, k, i, j)) == link_sum(v, st, ws, k, i, j),
    decreases k,
{
    if k > 0 {
        lemma_link_sum(v, st, ws, opt, k - 1, i, j);
        let lmp = st[k - 1].local_mprops;
        lemma_quad_value(
            v,
            jac_col(st, ws, k - 1, i),
            jac_col(st, ws, k - 1, j),
            S::one_spec().over_spec(D::vget_spec(lmp.inv_mass, 0)),
            link_world_inertia_spec(ws[k - 1], lmp),
        );
    }
}

/// In exact arithmetic, the mass matrix without Coriolis terms is the sum over the
/// links with mass of `Jᵀ diag(m, I) J`, plus damping over the time step and armature
/// on the diagonal, for any number of links.
pub proof fn mass_matrix_sums_the_links<S: Scalar, D: Space<S>>(
    v: spec_fn(S) -> real,
    st: Seq<MultibodyLinkStatic<S, D>>,
    ws: Seq<MultibodyLinkWorkspace<S, D>>,
    opt: MassOptions<S>,
    damping: Seq<S>,
    armature: Seq<S>,
    i: int,
    j: int,
)
    requires
        exact(v),
        geometric::<S, D>(v),
        inertial::<S, D>(v),
        parents_first(st),
        !opt.coriolis,
        opt.chain ==> chains_complete(st, damping.len() as int),
        0 <= i < damping.len(),
        0 <= j < damping.len(),
    ensures
        v(mass_matrix(st, ws, opt, damping, armature)[i][j]) == link_sum(
            v,
            st,
            ws,
            st.len() as int,
            i,
            j,
        ) + (if i == j {
            v(damping[i]) * v(opt.dt) + v(armature[i])
        } else {
            0real
        }),
{
    let n = st.len() as int;
    let plain = MassOptions { chain: false, ..opt };
    lemma_link_sum(v, st, ws, plain, n, i, j);
    if opt.chain {
        chains_keep_the_mass_matrix(v, st, ws, opt, n, i as u32, j as u32);
        assert(opt == (MassOptions { chain: true, ..opt }));
    } else {
        assert(opt == plain);
    }
}

// ---- symmetry ----

proof fn lemma_entry_symmetric<S: Scalar, D: Space<S>>(
    v: spec_fn(S) -> real,
    st: Seq<MultibodyLinkStatic<S, D>>,
    ws: Seq<MultibodyLinkWorkspace<S, D>>,
    opt: MassOptions<S>,
    k: int,
    i: int,
    j: int,
)
    requires
        exact(v),
        inertial::<S, D>(v),
        !opt.coriolis,
    ensures
        v(mass_entry(st, ws, opt, k, i, j)) == v(mass_entry(st, ws, opt, k, j, i)),
    decreases k,
{
    if k > 0 {
        lemma_entry_symmetric(v, st, ws, opt, k - 1, i, j);
        let a = k - 1;
        let lmp = st[a].local_mprops;
        let mass = S::one_spec().over_spec(D::vget_spec(lmp.inv_mass, 0));
        let inertia = link_world_inertia_spec(ws[a], lmp);
        let ji = jac_col(st, ws, a, i);
        let jj = jac_col(st, ws, a, j);
        assert(v(D::gdot_spec(ji.angular, D::imul_spec(inertia, jj.angular))) == v(
            D::gdot_spec(jj.angular, D::imul_spec(inertia, ji.angular)),
        ));
        lemma_scaled_dot(
            vector_value::<S, D>(v, ji.linear),
            vector_value::<S, D>(v, jj.linear),
            v(mass),
        );
        assert(touches(st, opt.chain, a, i, j) == touches(st, opt.chain, a, j, i));
    }
}

proof fn lemma_scaled_dot(a: V3<real>, b: V3<real>, m: real)
    ensures
        r3_dot(a, r3_scale(b, m)) == r3_dot(b, r3_scale(a, m)),
{
    lemma_swap_outer(a.x, b.x, m);
    lemma_swap_outer(a.y, b.y, m);
    lemma_swap_outer(a.z, b.z, m);
}

proof fn lemma_swap_outer(a: real, b: real, m: real)
    ensures
        a * (b * m) == b * (a * m),
        (a * m) * b == (b * m) * a,
{
    assert(a * (b * m) == b * (a * m)) by (nonlinear_arith);
    assert((a * m) * b == (b * m) * a) by (nonlinear_arith);
}

/// In exact arithmetic, the mass matrix without Coriolis terms is symmetric.
pub proof fn mass_matrix_is_symmetric<S: Scalar, D: Space<S>>(
    v: spec_fn(S) -> real,
    st: Seq<MultibodyLinkStatic<S, D>>,
    ws: Seq<MultibodyLinkWorkspace<S, D>>,
    opt: MassOptions<S>,
    damping: Seq<S>,
    armature: Seq<S>,
    i: int,
    j: int,
)
    requires
        exact(v),
        inertial::<S, D>(v),
        !opt.coriolis,
        0 <= i < damping.len(),
        0 <= j < damping.len(),
    ensures
        v(mass_matrix(st, ws, opt, damping, armature)[i][j]) == v(
            mass_matrix(st, ws, opt, damping, armature)[j][i],
        ),
{
    lemma_entry_symmetric(v, st, ws, opt, st.len() as int, i, j);
}

// ---- the plane and space ----

/// Exact arithmetic makes the inertias of the plane those of space.
pub proof fn plane_is_inertial<S: Scalar>(v: spec_fn(S) -> real)
    requires
        exact(v),
    ensures
        inertial::<S, Dim2>(v),
{
    lemma_zero(0real);
    assert forall|a: V2<S>, k: S|
        vector_value::<S, Dim2>(v, #[trigger] <Dim2 as Space<S>>::vscale_spec(a, k)) == r3_scale(
            vector_value::<S, Dim2>(v, a),
            v(k),
        ) by {
        lemma_zero(v(k));
    }
    assert forall|m: S, a: S|
        angular_value::<S, Dim2>(v, #[trigger] <Dim2 as Space<S>>::imul_spec(m, a)) == r3_image(
            inertia_value::<S, Dim2>(v, m),
            angular_value::<S, Dim2>(v, a),
        ) by {
        lemma_one(v(m));
        lemma_zero(v(m));
        lemma_zero(v(a));
    }
    assert forall|r: Rot2<S>, p: S, a: S, b: S|
        v(
            #[trigger] <Dim2 as Space<S>>::gdot_spec(
                a,
                <Dim2 as Space<S>>::imul_spec(<Dim2 as Space<S>>::ifrom_spec(r, p), b),
            ),
        ) == v(
            <Dim2 as Space<S>>::gdot_spec(
                b,
                <Dim2 as Space<S>>::imul_spec(<Dim2 as Space<S>>::ifrom_spec(r, p), a),
            ),
        ) by {
        lemma_commute(v(p), v(b));
        lemma_commute(v(p), v(a));
        lemma_swap_outer(v(a), v(b), v(p));
    }
}

/// A matrix is its own transpose.
pub open spec fn r3_symmetric(m: Mat3<real>) -> bool {
    &&& m.x_axis.y == m.y_axis.x
    &&& m.x_axis.z == m.z_axis.x
    &&& m.y_axis.z == m.z_axis.y
}

proof fn lemma_dot_of_scale(a: V3<real>, c: V3<real>, k: real)
    ensures
        r3_dot(a, r3_scale(c, k)) == (a.x * c.x) * k + (a.y * c.y) * k + (a.z * c.z) * k,
{
    lemma_move_right(c.x, k, a.x);
    lemma_move_right(c.y, k, a.y);
    lemma_move_right(c.z, k, a.z);
}

proof fn lemma_dot_of_sum(a: V3<real>, b: V3<real>, c: V3<real>)
    ensures
        r3_dot(a, r3_add(b, c)) == r3_dot(a, b) + r3_dot(a, c),
{
    lemma_factor(a.x, b.x, c.x);
    lemma_factor(a.y, b.y, c.y);
    lemma_factor(a.z, b.z, c.z);
}

proof fn lemma_dot_of_image(m: Mat3<real>, a: V3<real>, b: V3<real>)
    ensures
        r3_dot(a, r3_image(m, b)) == r3_dot(a, r3_scale(m.x_axis, b.x)) + r3_dot(
            a,
            r3_scale(m.y_axis, b.y),
        ) + r3_dot(a, r3_scale(m.z_axis, b.z)),
{
    let x = r3_scale(m.x_axis, b.x);
    let y = r3_scale(m.y_axis, b.y);
    let z = r3_scale(m.z_axis, b.z);
    lemma_dot_of_sum(a, x, y);
    lemma_dot_of_sum(a, r3_add(x, y), z);
}

proof fn lemma_symmetric_image(m: Mat3<real>, a: V3<real>, b: V3<real>)
    requires
        r3_symmetric(m),
    ensures
        r3_dot(a, r3_image(m, b)) == r3_dot(b, r3_image(m, a)),
{
    lemma_dot_of_image(m, a, b);
    lemma_dot_of_image(m, b, a);
    lemma_dot_of_scale(a, m.x_axis, b.x);
    lemma_dot_of_scale(a, m.y_axis, b.y);
    lemma_dot_of_scale(a, m.z_axis, b.z);
    lemma_dot_of_scale(b, m.x_axis, a.x);
    lemma_dot_of_scale(b, m.y_axis, a.y);
    lemma_dot_of_scale(b, m.z_axis, a.z);
    lemma_swap_outer(a.x, b.x, m.x_axis.x);
    lemma_swap_outer(a.x, b.y, m.x_axis.y);
    lemma_swap_outer(a.x, b.z, m.x_axis.z);
    lemma_swap_outer(a.y, b.x, m.x_axis.y);
    lemma_swap_outer(a.y, b.y, m.y_axis.y);
    lemma_swap_outer(a.y, b.z, m.y_axis.z);
    lemma_swap_outer(a.z, b.x, m.x_axis.z);
    lemma_swap_outer(a.z, b.y, m.y_axis.z);
    lemma_swap_outer(a.z, b.z, m.z_axis.z);
}

proof fn lemma_inertia_columns<S: Scalar>(v: spec_fn(S) -> real, m: Mat3<S>)
    requires
        exact(v),
    ensures
        inertia_value::<S, Dim3>(v, m) == (Mat3 {
            x_axis: vector_value::<S, Dim3>(v, m.x_axis),
            y_axis: vector_value::<S, Dim3>(v, m.y_axis),
            z_axis: vector_value::<S, Dim3>(v, m.z_axis),
        }),
{
    lemma_one(v(m.x_axis.x));
    lemma_one(v(m.x_axis.y));
    lemma_one(v(m.x_axis.z));
    lemma_one(v(m.y_axis.x));
    lemma_one(v(m.y_axis.y));
    lemma_one(v(m.y_axis.z));
    lemma_one(v(m.z_axis.x));
    lemma_one(v(m.z_axis.y));
    lemma_one(v(m.z_axis.z));
    lemma_zero(v(m.x_axis.x));
    lemma_zero(v(m.x_axis.y));
    lemma_zero(v(m.x_axis.z));
    lemma_zero(v(m.y_axis.x));
    lemma_zero(v(m.y_axis.y));
    lemma_zero(v(m.y_axis.z));
    lemma_zero(v(m.z_axis.x));
    lemma_zero(v(m.z_axis.y));
    lemma_zero(v(m.z_axis.z));
}

/// A turned diagonal matrix is symmetric.
proof fn lemma_turned_diagonal<S: Scalar>(v: spec_fn(S) -> real, r: Quat<S>, p: V3<S>)
    requires
        exact(v),
    ensures
        r3_symmetric(inertia_value::<S, Dim3>(v, <Dim3 as Space<S>>::ifrom_spec(r, p))),
{
    let m = quat_matrix_spec(r);
    lemma_inertia_columns(v, <Dim3 as Space<S>>::ifrom_spec(r, p));
    lemma_swap_outer(v(m.x_axis.y), v(m.x_axis.x), v(p.x));
    lemma_swap_outer(v(m.y_axis.y), v(m.y_axis.x), v(p.y));
    lemma_swap_outer(v(m.z_axis.y), v(m.z_axis.x), v(p.z));
    lemma_swap_outer(v(m.x_axis.z), v(m.x_axis.x), v(p.x));
    lemma_swap_outer(v(m.y_axis.z), v(m.y_axis.x), v(p.y));
    lemma_swap_outer(v(m.z_axis.z), v(m.z_axis.x), v(p.z));
    lemma_swap_outer(v(m.x_axis.z), v(m.x_axis.y), v(p.x));
    lemma_swap_outer(v(m.y_axis.z), v(m.y_axis.y), v(p.y));
    lemma_swap_outer(v(m.z_axis.z), v(m.z_axis.y), v(p.z));
}

/// Exact arithmetic makes the inertias of space those of geometry.
pub proof fn space_is_inertial<S: Scalar>(v: spec_fn(S) -> real)
    requires
        exact(v),
    ensures
        inertial::<S, Dim3>(v),
{
    assert forall|m: Mat3<S>, a: V3<S>|
        angular_value::<S, Dim3>(v, #[trigger] <Dim3 as Space<S>>::imul_spec(m, a)) == r3_image(
            inertia_value::<S, Dim3>(v, m),
            angular_value::<S, Dim3>(v, a),
        ) by {
        lemma_inertia_columns(v, m);
    }
    assert forall|r: Quat<S>, p: V3<S>, a: V3<S>, b: V3<S>|
        v(
            #[trigger] <Dim3 as Space<S>>::gdot_spec(
                a,
                <Dim3 as Space<S>>::imul_spec(<Dim3 as Space<S>>::ifrom_spec(r, p), b),
            ),
        ) == v(
            <Dim3 as Space<S>>::gdot_spec(
                b,
                <Dim3 as Space<S>>::imul_spec(<Dim3 as Space<S>>::ifrom_spec(r, p), a),
            ),
        ) by {
        let m = <Dim3 as Space<S>>::ifrom_spec(r, p);
        let x = <Dim3 as Space<S>>::imul_spec(m, a);
        let y = <Dim3 as Space<S>>::imul_spec(m, b);
        lemma_turned_diagonal(v, r, p);
        lemma_symmetric_image(
            inertia_value::<S, Dim3>(v, m),
            angular_value::<S, Dim3>(v, a),
            angular_value::<S, Dim3>(v, b),
        );
        assert(angular_value::<S, Dim3>(v, x) == r3_image(
            inertia_value::<S, Dim3>(v, m),
            angular_value::<S, Dim3>(v, a),
        ));
        assert(angular_value::<S, Dim3>(v, y) == r3_image(
            inertia_value::<S, Dim3>(v, m),
            angular_value::<S, Dim3>(v, b),
        ));
    }
}

// ---- kinetic energy ----

/// What damping over a time step and armature add to the quadratic form of the mass
/// matrix.
pub open spec fn diagonal_form<S: Scalar>(
    v: spec_fn(S) -> real,
    q: Seq<S>,
    damping: Seq<S>,
    armature: Seq<S>,
    dt: S,
) -> real {
    weighted(
        v,
        q,
        |i: int| (v(damping[i]) * v(dt) + v(armature[i])) * v(q[i]),
        q.len() as int,
    )
}

/// The chain of a link lists every degree of freedom of its joints.
pub open spec fn chains_complete<S: Scalar, D: Space<S>>(
    st: Seq<MultibodyLinkStatic<S, D>>,
    ndofs: int,
) -> bool {
    ndofs <= u32::MAX && dofs_counted(st)
}

proof fn lemma_matrix_energy<S: Scalar, D: Space<S>>(
    v: spec_fn(S) -> real,
    st: Seq<MultibodyLinkStatic<S, D>>,
    ws: Seq<MultibodyLinkWorkspace<S, D>>,
    opt: MassOptions<S>,
    damping: Seq<S>,
    armature: Seq<S>,
    q: Seq<S>,
)
    requires
        exact(v),
        geometric::<S, D>(v),
        inertial::<S, D>(v),
        parents_first(st),
        !opt.coriolis,
        opt.chain ==> chains_complete(st, q.len() as int),
        damping.len() == q.len(),
        forall|k: int| 0 <= k < st.len() ==> #[trigger] jacobians_fit(v, st, ws, q, k),
    ensures
        quadratic(
            v,
            q,
            |i: int, j: int| v(mass_matrix(st, ws, opt, damping, armature)[i][j]),
        ) == double_energy(v, st, ws, st.len() as int) + diagonal_form(
            v,
            q,
            damping,
            armature,
            opt.dt,
        ),
{
    let n = q.len() as int;
    let k = st.len() as int;
    let plain = MassOptions { dt: opt.dt, coriolis: false, chain: false };
    let f = |i: int, j: int| v(mass_entry(st, ws, plain, k, i, j));
    let diag = |i: int| v(damping[i]) * v(opt.dt) + v(armature[i]);
    let g = |i: int, j: int|
        if i == j {
            diag(i)
        } else {
            0real
        };
    let h = |i: int, j: int| v(mass_matrix(st, ws, opt, damping, armature)[i][j]);
    assert forall|i: int, j: int| 0 <= i < n && 0 <= j < n implies #[trigger] h(i, j) == f(i, j)
        + g(i, j) by {
        if opt.chain {
            chains_keep_the_mass_matrix(v, st, ws, plain, k, i as u32, j as u32);
            assert(opt == (MassOptions { chain: true, ..plain }));
        } else {
            assert(opt == plain);
        }
    }
    lemma_quadratic_add(v, q, f, g, h);
    lemma_energy(v, st, ws, opt.dt, q, k);
    let row = |i: int| weighted(v, q, |j: int| g(i, j), n);
    let want = |i: int| diag(i) * v(q[i]);
    assert forall|i: int| 0 <= i < n implies #[trigger] row(i) == want(i) by {
        lemma_weighted_one(v, q, |j: int| g(i, j), i, n);
    }
    lemma_weighted_same(v, q, row, want, n);
    lemma_weighted_same(
        v,
        q,
        want,
        |i: int| (v(damping[i]) * v(opt.dt) + v(armature[i])) * v(q[i]),
        n,
    );
}

/// In exact arithmetic, the quadratic form of the mass matrix of a multibody of the
/// plane is twice the kinetic energy of its links, plus the shares of damping and
/// armature.
pub proof fn plane_mass_matrix_gives_energy<S: Scalar>(
    v: spec_fn(S) -> real,
    st: Seq<MultibodyLinkStatic<S, Dim2>>,
    ws: Seq<MultibodyLinkWorkspace<S, Dim2>>,
    root: Pose<S, Dim2>,
    opt: MassOptions<S>,
    damping: Seq<S>,
    armature: Seq<S>,
    q: Seq<S>,
)
    requires
        exact(v),
        st.len() > 0,
        ws.len() == st.len(),
        parents_first(st),
        dofs_in_range(st, q.len() as int),
        root_upright(v, st, ws),
        !opt.coriolis,
        opt.chain ==> chains_complete(st, q.len() as int),
        damping.len() == q.len(),
    ensures
        ({
            let n = st.len() as int;
            let w = moving(st, placed(st, ws, root, n), q, n);
            quadratic(
                v,
                q,
                |i: int, j: int| v(mass_matrix(st, w, opt, damping, armature)[i][j]),
            ) == double_energy(v, st, w, n) + diagonal_form(v, q, damping, armature, opt.dt)
        }),
{
    plane_is_geometric(v);
    plane_is_inertial(v);
    let n = st.len() as int;
    let w = moving(st, placed(st, ws, root, n), q, n);
    assert forall|k: int| 0 <= k < n implies #[trigger] jacobians_fit(v, st, w, q, k) by {
        plane_jacobians_give_velocities(v, st, ws, root, q, k);
    }
    lemma_matrix_energy(v, st, w, opt, damping, armature, q);
}

/// In exact arithmetic, the quadratic form of the mass matrix of a multibody of space
/// is twice the kinetic energy of its links, plus the shares of damping and armature.
pub proof fn space_mass_matrix_gives_energy<S: Scalar>(
    v: spec_fn(S) -> real,
    st: Seq<MultibodyLinkStatic<S, Dim3>>,
    ws: Seq<MultibodyLinkWorkspace<S, Dim3>>,
    root: Pose<S, Dim3>,
    opt: MassOptions<S>,
    damping: Seq<S>,
    armature: Seq<S>,
    q: Seq<S>,
)
    requires
        exact(v),
        v(two_spec::<S>()) == 2real,
        st.len() > 0,
        ws.len() == st.len(),
        parents_first(st),
        dofs_in_range(st, q.len() as int),
        root_upright(v, st, ws),
        frames_are_unit(v, st, placed(st, ws, root, st.len() as int)),
        !opt.coriolis,
        opt.chain ==> chains_complete(st, q.len() as int),
        damping.len() == q.len(),
    ensures
        ({
            let n = st.len() as int;
            let w = moving(st, placed(st, ws, root, n), q, n);
            quadratic(
                v,
                q,
                |i: int, j: int| v(mass_matrix(st, w, opt, damping, armature)[i][j]),
            ) == double_energy(v, st, w, n) + diagonal_form(v, q, damping, armature, opt.dt)
        }),
{
    space_is_geometric(v);
    space_is_inertial(v);
    let n = st.len() as int;
    let w = moving(st, placed(st, ws, root, n), q, n);
    assert forall|k: int| 0 <= k < n implies #[trigger] jacobians_fit(v, st, w, q, k) by {
        space_jacobians_give_velocities(v, st, ws, root, q, k);
    }
    lemma_matrix_energy(v, st, w, opt, damping, armature, q);
}

} // verus!
