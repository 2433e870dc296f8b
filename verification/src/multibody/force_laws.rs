//! What the generalized forces mean when the arithmetic is exact.
use super::gravity::{assembled, has_mass, kin_acc, link_force, parents_first, spatial_dot};
use super::jacobian_laws::{
    angular_value, frames_are_unit, plane_jacobians_give_velocities, root_upright,
    space_jacobians_give_velocities, vector_value,
};
use super::kinematics::{dofs_in_range, jac_col, moving, placed};
use super::mass_laws::{
    jacobians_fit, lemma_weighted_add, lemma_weighted_dot, lemma_weighted_none,
    lemma_weighted_same, weighted,
};
use super::types::{MultibodyLinkStatic, MultibodyLinkWorkspace};
use crate::columns::col_of;
use crate::exact::{exact, lemma_zero};
use crate::real_vectors::{combination, r3_dot};
use crate::scalar::{Scalar, two_spec};
use crate::space::{Dim2, Dim3, Pose, Space, Velocity};
use vstd::prelude::*;

verus! {

/// The power of a force and torque at a velocity.
pub open spec fn power<S: Scalar, D: Space<S>>(
    v: spec_fn(S) -> real,
    f: Velocity<S, D>,
    vel: Velocity<S, D>,
) -> real {
    r3_dot(vector_value::<S, D>(v, vel.linear), vector_value::<S, D>(v, f.linear)) + r3_dot(
        angular_value::<S, D>(v, vel.angular),
        angular_value::<S, D>(v, f.angular),
    )
}

/// Under the reading `v`, a spatial column times a force is the power of the force at
/// the column.
pub open spec fn columns_work<S: Scalar, D: Space<S>>(v: spec_fn(S) -> real) -> bool {
    forall|m: Seq<Seq<S>>, c: int, f: Velocity<S, D>|
        v(#[trigger] spatial_dot::<S, D>(m, c, f, D::dimension_spec().spatial_spec())) == power(
            v,
            f,
            col_of::<S, D>(m, c),
        )
}

/// Exact arithmetic makes the columns of the plane work as forces do.
pub proof fn plane_columns_work<S: Scalar>(v: spec_fn(S) -> real)
    requires
        exact(v),
    ensures
        columns_work::<S, Dim2>(v),
{
    assert forall|m: Seq<Seq<S>>, c: int, f: Velocity<S, Dim2>|
        v(#[trigger] spatial_dot::<S, Dim2>(m, c, f, 3)) == power(
            v,
            f,
            col_of::<S, Dim2>(m, c),
        ) by {
        reveal_with_fuel(spatial_dot, 4);
        lemma_zero(0real);
    }
}

/// Exact arithmetic makes the columns of space work as forces do.
pub proof fn space_columns_work<S: Scalar>(v: spec_fn(S) -> real)
    requires
        exact(v),
    ensures
        columns_work::<S, Dim3>(v),
{
    assert forall|m: Seq<Seq<S>>, c: int, f: Velocity<S, Dim3>|
        v(#[trigger] spatial_dot::<S, Dim3>(m, c, f, 6)) == power(
            v,
            f,
            col_of::<S, Dim3>(m, c),
        ) by {
        reveal_with_fuel(spatial_dot, 7);
    }
}

/// The power of the forces on the first `k` links.
pub open spec fn links_power<S: Scalar, D: Space<S>>(
    v: spec_fn(S) -> real,
    st: Seq<MultibodyLinkStatic<S, D>>,
    ws: Seq<MultibodyLinkWorkspace<S, D>>,
    g: D::V,
    k: int,
) -> real
    decreases k,
{
    if k <= 0 {
        0real
    } else {
        let lmp = st[k - 1].local_mprops;
        links_power(v, st, ws, g, k - 1) + if has_mass(lmp) {
            power(
                v,
                link_force(ws[k - 1], lmp, kin_acc(st, ws, k - 1), g),
                ws[k - 1].rb_vels,
            )
        } else {
            0real
        }
    }
}

/// The matrix `m` holds the jacobian of link `k`.
pub open spec fn holds_jacobian<S: Scalar, D: Space<S>>(
    m: Seq<Seq<S>>,
    st: Seq<MultibodyLinkStatic<S, D>>,
    ws: Seq<MultibodyLinkWorkspace<S, D>>,
    ndofs: int,
    k: int,
) -> bool {
    forall|c: int| 0 <= c < ndofs ==> #[trigger] col_of::<S, D>(m, c) == jac_col(st, ws, k, c)
}

proof fn lemma_power<S: Scalar, D: Space<S>>(
    v: spec_fn(S) -> real,
    st: Seq<MultibodyLinkStatic<S, D>>,
    ws: Seq<MultibodyLinkWorkspace<S, D>>,
    jac: spec_fn(int) -> Seq<Seq<S>>,
    g: D::V,
    q: Seq<S>,
    k: int,
)
    requires
        exact(v),
        columns_work::<S, D>(v),
        0 <= k <= st.len(),
        forall|a: int| 0 <= a < k ==> #[trigger] jacobians_fit(v, st, ws, q, a),
        forall|a: int|
            0 <= a < k ==> holds_jacobian(#[trigger] jac(a), st, ws, q.len() as int, a),
    ensures
        assembled(st, ws, jac, g, q.len() as int, k).len() == q.len(),
        weighted(
            v,
            q,
            |c: int| v(assembled(st, ws, jac, g, q.len() as int, k)[c]),
            q.len() as int,
        ) == links_power(v, st, ws, g, k),
    decreases k,
{
    let n = q.len() as int;
    let h = |c: int| v(assembled(st, ws, jac, g, n, k)[c]);
    if k == 0 {
        lemma_weighted_none(v, q, h, n);
    } else {
        lemma_power(v, st, ws, jac, g, q, k - 1);
        let a = k - 1;
        assert(jacobians_fit(v, st, ws, q, a));
        assert(holds_jacobian(jac(a), st, ws, n, a));
        let p = |c: int| v(assembled(st, ws, jac, g, n, a)[c]);
        let lmp = st[a].local_mprops;
        if has_mass(lmp) {
            let f = link_force(ws[a], lmp, kin_acc(st, ws, a), g);
            let fl = vector_value::<S, D>(v, f.linear);
            let fa = angular_value::<S, D>(v, f.angular);
            let l = |c: int| vector_value::<S, D>(v, jac_col(st, ws, a, c).linear);
            let w = |c: int| angular_value::<S, D>(v, jac_col(st, ws, a, c).angular);
            let x = |c: int| r3_dot(l(c), fl);
            let y = |c: int| r3_dot(w(c), fa);
            let xy = |c: int| x(c) + y(c);
            assert forall|c: int| 0 <= c < n implies #[trigger] h(c) == p(c) + xy(c) by {
                assert(col_of::<S, D>(jac(a), c) == jac_col(st, ws, a, c));
                assert(v(
                    spatial_dot::<S, D>(jac(a), c, f, D::dimension_spec().spatial_spec()),
                ) == power(v, f, col_of::<S, D>(jac(a), c)));
            }
            lemma_weighted_add(v, q, p, xy, h, n);
            lemma_weighted_add(v, q, x, y, xy, n);
            lemma_weighted_dot(v, q, fl, l, x, |c: int| r3_dot(fl, l(c)), n);
            lemma_weighted_dot(v, q, fa, w, y, |c: int| r3_dot(fa, w(c)), n);
            assert(combination(v, q, l, 0, n) == vector_value::<S, D>(v, ws[a].rb_vels.linear));
            assert(combination(v, q, w, 0, n) == angular_value::<S, D>(v, ws[a].rb_vels.angular));
        } else {
            lemma_weighted_same(v, q, h, p, n);
        }
    }
}

/// In exact arithmetic, the generalized forces of a multibody of the plane have the
/// power of the forces on its links.
pub proof fn plane_forces_keep_their_power<S: Scalar>(
    v: spec_fn(S) -> real,
    st: Seq<MultibodyLinkStatic<S, Dim2>>,
    ws: Seq<MultibodyLinkWorkspace<S, Dim2>>,
    root: Pose<S, Dim2>,
    jac: spec_fn(int) -> Seq<Seq<S>>,
    g: <Dim2 as Space<S>>::V,
    q: Seq<S>,
)
    requires
        exact(v),
        st.len() > 0,
        ws.len() == st.len(),
        parents_first(st),
        dofs_in_range(st, q.len() as int),
        root_upright(v, st, ws),
        forall|a: int|
            0 <= a < st.len() ==> holds_jacobian(
                #[trigger] jac(a),
                st,
                moving(st, placed(st, ws, root, st.len() as int), q, st.len() as int),
                q.len() as int,
                a,
            ),
    ensures
        ({
            let n = st.len() as int;
            let w = moving(st, placed(st, ws, root, n), q, n);
            weighted(
                v,
                q,
                |c: int| v(assembled(st, w, jac, g, q.len() as int, n)[c]),
                q.len() as int,
            ) == links_power(v, st, w, g, n)
        }),
{
    plane_columns_work(v);
    let n = st.len() as int;
    let w = moving(st, placed(st, ws, root, n), q, n);
    assert forall|k: int| 0 <= k < n implies #[trigger] jacobians_fit(v, st, w, q, k) by {
        plane_jacobians_give_velocities(v, st, ws, root, q, k);
    }
    lemma_power(v, st, w, jac, g, q, n);
}

/// In exact arithmetic, the generalized forces of a multibody of space have the power
/// of the forces on its links.
pub proof fn space_forces_keep_their_power<S: Scalar>(
    v: spec_fn(S) -> real,
    st: Seq<MultibodyLinkStatic<S, Dim3>>,
    ws: Seq<MultibodyLinkWorkspace<S, Dim3>>,
    root: Pose<S, Dim3>,
    jac: spec_fn(int) -> Seq<Seq<S>>,
    g: <Dim3 as Space<S>>::V,
    q: Seq<S>,
)
    requires
        exact(v),
        v(two_spec::<S>()) == 2real,
        st.len() > 0,
        ws.len() == st.len(),
        parents_first(st),
        dofs_in_range(st, q.len() as int),
        root_upright(v, st, ws),
        frames_are_unit(v, st, placed(st, ws, root, st.len() as int)),
        forall|a: int|
            0 <= a < st.len() ==> holds_jacobian(
                #[trigger] jac(a),
                st,
                moving(st, placed(st, ws, root, st.len() as int), q, st.len() as int),
                q.len() as int,
                a,
            ),
    ensures
        ({
            let n = st.len() as int;
            let w = moving(st, placed(st, ws, root, n), q, n);
            weighted(
                v,
                q,
                |c: int| v(assembled(st, w, jac, g, q.len() as int, n)[c]),
                q.len() as int,
            ) == links_power(v, st, w, g, n)
        }),
{
    space_columns_work(v);
    let n = st.len() as int;
    let w = moving(st, placed(st, ws, root, n), q, n);
    assert forall|k: int| 0 <= k < n implies #[trigger] jacobians_fit(v, st, w, q, k) by {
        space_jacobians_give_velocities(v, st, ws, root, q, k);
    }
    lemma_power(v, st, w, jac, g, q, n);
}

} // verus!
