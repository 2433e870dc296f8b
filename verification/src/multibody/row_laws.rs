//! What the rows of joint constraints respond with when the arithmetic is exact.
use super::contact_constraints::mb_jacobians;
use super::contact_laws::{columns_angular, columns_linear};
use super::impulse_joint_constraints::{JointScene, SideCtx, closes_loop, joint_rows};
use super::impulse_joint_jacobians::{body_row, link_row, raw_relative_row, spatial_row};
use super::jacobian_laws::{angular_value, vector_value};
use super::joint_constraints::finalized;
use super::joint_laws::{plane_body_rows_work, space_body_rows_work, space_link_rows_work};
use super::sweeps::dot_fold;
use super::turn_laws::lemma_dot_commutes;
use super::types::{MB_JOINT_KIND_INACTIVE, MultibodyJointConstraint, WorldMassProperties};
use crate::exact::exact;
use crate::real_vectors::{lemma_minus_right, r3_dot};
use crate::scalar::Scalar;
use crate::space::{Dim2, Dim3, Space, Velocity};
use vstd::prelude::*;

verus! {

/// In exact arithmetic, an active constraint on a degree of freedom that yields by
/// `lhs` to an impulse of one, once finalized, is softer by the given share of `lhs`
/// and by its own gain, and its effective mass undoes what an impulse of one then
/// changes.
pub proof fn finalized_constraints_undo_their_response<S: Scalar>(
    v: spec_fn(S) -> real,
    c: MultibodyJointConstraint<S>,
    lhs: S,
)
    requires
        exact(v),
        c.kind != MB_JOINT_KIND_INACTIVE,
        v(lhs) + v(lhs) * v(c.cfm_coeff) + v(c.cfm_gain) != 0real,
    ensures
        ({
            let f = finalized(c, lhs);
            &&& v(f.cfm_gain) == v(lhs) * v(c.cfm_coeff) + v(c.cfm_gain)
            &&& v(f.inv_lhs) * (v(lhs) + v(f.cfm_gain)) == 1real
            &&& f.rhs == c.rhs
            &&& f.impulse == c.impulse
        }),
{
    let f = finalized(c, lhs);
    let sum = v(lhs) + v(f.cfm_gain);
    let i = 1real / sum;
    assert(i * sum == 1real) by (nonlinear_arith)
        requires
            i == 1real / sum,
            sum != 0real,
    ;
}

proof fn lemma_difference<S: Scalar>(
    v: spec_fn(S) -> real,
    x: Seq<S>,
    y: Seq<S>,
    z: Seq<S>,
    q: Seq<S>,
    n: int,
)
    requires
        exact(v),
        forall|k: int| 0 <= k < n ==> v(#[trigger] z[k]) == v(x[k]) - v(y[k]),
    ensures
        v(dot_fold(z, q, n)) == v(dot_fold(x, q, n)) - v(dot_fold(y, q, n)),
    decreases n,
{
    if n > 0 {
        lemma_difference(v, x, y, z, q, n - 1);
        assert(v(z[n - 1]) == v(x[n - 1]) - v(y[n - 1]));
        lemma_minus_right(v(x[n - 1]), v(y[n - 1]), v(q[n - 1]));
    }
}

/// In exact arithmetic, the row of a joint between two links of one multibody of space
/// compares the links: the velocity along it is the power of the second force on the
/// second link less that of the first force on the first one. Where what is left is
/// within the noise of the two, the row is empty of it.
pub proof fn space_loops_compare_their_links<S: Scalar>(
    v: spec_fn(S) -> real,
    sc: JointScene<S, Dim3>,
    a: SideCtx,
    b: SideCtx,
    f: (Velocity<S, Dim3>, Velocity<S, Dim3>),
    q: Seq<S>,
)
    requires
        exact(v),
        closes_loop::<S, Dim3>(a, b),
        q.len() == b.mb.ndofs,
    ensures
        ({
            let jacs = mb_jacobians::<S, Dim3>(sc.ids, sc.b, b.mb, sc.body_jacobians);
            let row = joint_rows(sc, a, b, f).1.jac;
            let first = jacs(a.side_link as int);
            let second = jacs(b.side_link as int);
            ||| row == Seq::new(q.len(), |k: int| S::zero_spec())
            ||| v(dot_fold(row, q, q.len() as int)) == r3_dot(
                columns_linear::<S, Dim3>(v, second, q),
                vector_value::<S, Dim3>(v, f.1.linear),
            ) + r3_dot(
                columns_angular::<S, Dim3>(v, second, q),
                angular_value::<S, Dim3>(v, f.1.angular),
            ) - (r3_dot(
                columns_linear::<S, Dim3>(v, first, q),
                vector_value::<S, Dim3>(v, f.0.linear),
            ) + r3_dot(
                columns_angular::<S, Dim3>(v, first, q),
                angular_value::<S, Dim3>(v, f.0.angular),
            ))
        }),
{
    let n = q.len() as int;
    let jacs = mb_jacobians::<S, Dim3>(sc.ids, sc.b, b.mb, sc.body_jacobians);
    let first = jacs(a.side_link as int);
    let second = jacs(b.side_link as int);
    let row = joint_rows(sc, a, b, f).1.jac;
    let raw = raw_relative_row(first, f.0, second, f.1, n);
    if row == raw {
        space_link_rows_work(v, first, f.0, q);
        space_link_rows_work(v, second, f.1, q);
        lemma_difference(v, link_row(second, f.1, n), link_row(first, f.0, n), raw, q, n);
    }
}

/// In exact arithmetic, the response of a row on a free body of the plane is what an impulse of
/// one along the row does: along the row itself it yields by the force times the
/// velocity that the force gives the mass, and by the torque times that which the
/// torque gives the inertia.
pub proof fn plane_body_rows_respond<S: Scalar>(
    v: spec_fn(S) -> real,
    f: Velocity<S, Dim2>,
    mp: WorldMassProperties<S, Dim2>,
)
    requires
        exact(v),
    ensures
        v(
            dot_fold(
                body_row(f, mp).jac,
                body_row(f, mp).response,
                <Dim2 as Space<S>>::dimension_spec().spatial_spec(),
            ),
        ) == r3_dot(
            vector_value::<S, Dim2>(v, f.linear),
            vector_value::<S, Dim2>(v, <Dim2 as Space<S>>::vmul_spec(mp.inv_mass, f.linear)),
        ) + r3_dot(
            angular_value::<S, Dim2>(v, f.angular),
            angular_value::<S, Dim2>(v, <Dim2 as Space<S>>::imul_spec(mp.inv_inertia, f.angular)),
        ),
{
    let w: Velocity<S, Dim2> = Velocity {
        linear: <Dim2 as Space<S>>::vmul_spec(mp.inv_mass, f.linear),
        angular: <Dim2 as Space<S>>::imul_spec(mp.inv_inertia, f.angular),
    };
    plane_body_rows_work(v, f, mp, w);
    assert(body_row(f, mp).response == spatial_row(w));
    lemma_dot_commutes(
        vector_value::<S, Dim2>(v, f.linear),
        vector_value::<S, Dim2>(v, w.linear),
    );
    lemma_dot_commutes(
        angular_value::<S, Dim2>(v, f.angular),
        angular_value::<S, Dim2>(v, w.angular),
    );
}

/// In exact arithmetic, the response of a row on a free body of space is what an impulse of
/// one along the row does: along the row itself it yields by the force times the
/// velocity that the force gives the mass, and by the torque times that which the
/// torque gives the inertia.
pub proof fn space_body_rows_respond<S: Scalar>(
    v: spec_fn(S) -> real,
    f: Velocity<S, Dim3>,
    mp: WorldMassProperties<S, Dim3>,
)
    requires
        exact(v),
    ensures
        v(
            dot_fold(
                body_row(f, mp).jac,
                body_row(f, mp).response,
                <Dim3 as Space<S>>::dimension_spec().spatial_spec(),
            ),
        ) == r3_dot(
            vector_value::<S, Dim3>(v, f.linear),
            vector_value::<S, Dim3>(v, <Dim3 as Space<S>>::vmul_spec(mp.inv_mass, f.linear)),
        ) + r3_dot(
            angular_value::<S, Dim3>(v, f.angular),
            angular_value::<S, Dim3>(v, <Dim3 as Space<S>>::imul_spec(mp.inv_inertia, f.angular)),
        ),
{
    let w: Velocity<S, Dim3> = Velocity {
        linear: <Dim3 as Space<S>>::vmul_spec(mp.inv_mass, f.linear),
        angular: <Dim3 as Space<S>>::imul_spec(mp.inv_inertia, f.angular),
    };
    space_body_rows_work(v, f, mp, w);
    assert(body_row(f, mp).response == spatial_row(w));
    lemma_dot_commutes(
        vector_value::<S, Dim3>(v, f.linear),
        vector_value::<S, Dim3>(v, w.linear),
    );
    lemma_dot_commutes(
        angular_value::<S, Dim3>(v, f.angular),
        angular_value::<S, Dim3>(v, w.angular),
    );
}

} // verus!
