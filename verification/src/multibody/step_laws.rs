//! What one step of the solver does to the velocity along its constraint, when the
//! arithmetic is exact.
use super::contact_constraints::with_response;
use super::impulse_joint_finalize::{block, dot_onto};
use super::impulse_joint_jacobians::spatial_component_spec;
use super::impulse_joint_solve::{
    JOINT_LANES, JointPlaces, JointSolve, axis_impulse, axis_solved, dofs_nudged, nudged,
    side_applied, side_term, side_velocity,
};
use super::lu_exact::{is_pow2, tree_sum_is_sum};
use super::sweep_laws::lemma_dot_axpy;
use super::sweeps::{
    ContactSweep, contact_apply, contact_impulse, contact_velocity, dot_fold, has_free,
};
use super::types::{
    MbImpulseJointConstraint, MultibodyContactConstraint, SIDE_KIND_BODY, SIDE_KIND_FIXED,
    SIDE_KIND_MB,
};
use crate::batch::mbi_spec;
use crate::exact::{exact, lemma_commute, lemma_factor, lemma_zero, linear_space, ordered, real_sum};
use crate::real_vectors::lemma_one;
use crate::scalar::Scalar;
use crate::space::{Dim2, Dim3, Space, Velocity};
use vstd::prelude::*;

verus! {

// ---- contacts of a multibody ----

/// How a unit impulse along a contact constraint changes the velocity along it.
pub open spec fn contact_mobility<S: Scalar, D: Space<S>>(
    v: spec_fn(S) -> real,
    c: MultibodyContactConstraint<S, D>,
    jac: Seq<S>,
    col: Seq<S>,
) -> real {
    v(dot_fold(jac, col, jac.len() as int)) + if has_free(c) {
        v(c.free_body_im) * v(D::vdot_spec(c.lin_jac, c.lin_jac)) + v(
            D::gdot_spec(c.ang_jac, c.ii_ang_jac),
        )
    } else {
        0real
    }
}

/// In exact arithmetic, an impulse along a contact constraint of a multibody changes the
/// velocity along it by the impulse times the constraint's mobility: a positive one
/// parts the sides.
pub proof fn contact_impulses_push_along<S: Scalar, D: Space<S>>(
    v: spec_fn(S) -> real,
    c: MultibodyContactConstraint<S, D>,
    jac: Seq<S>,
    col: Seq<S>,
    s: int,
    imp: S,
    delta: S,
    st: ContactSweep<S, D>,
)
    requires
        exact(v),
        linear_space::<S, D>(v),
        jac.len() == st.dofv.len(),
        has_free(c) ==> c.free_body_id < st.frees.len(),
    ensures
        ({
            let after = contact_apply(c, col, s, imp, delta, st);
            v(contact_velocity(c, jac, after.dofv, after.frees)) == v(
                contact_velocity(c, jac, st.dofv, st.frees),
            ) + v(delta) * contact_mobility(v, c, jac, col)
        }),
{
    let after = contact_apply(c, col, s, imp, delta, st);
    let n = st.dofv.len() as int;
    let d = v(delta);
    lemma_zero(contact_mobility(v, c, jac, col));
    if d != 0real {
        lemma_dot_axpy(v, jac, st.dofv, delta, col, n);
        let own = v(dot_fold(jac, col, n));
        if has_free(c) {
            let free = st.frees[c.free_body_id as int];
            let k = c.free_body_im.times_spec(delta);
            let ll = v(D::vdot_spec(c.lin_jac, c.lin_jac));
            let aa = v(D::gdot_spec(c.ang_jac, c.ii_ang_jac));
            assert(v(
                D::vdot_spec(
                    c.lin_jac,
                    D::vadd_spec(free.linear, D::vscale_spec(c.lin_jac, k)),
                ),
            ) == v(D::vdot_spec(c.lin_jac, free.linear)) + v(k) * ll);
            assert(v(
                D::gdot_spec(
                    c.ang_jac,
                    D::aadd_spec(free.angular, D::ascale_spec(c.ii_ang_jac, delta)),
                ),
            ) == v(D::gdot_spec(c.ang_jac, free.angular)) + d * aa);
            let im = v(c.free_body_im);
            assert((im * d) * ll == d * (im * ll)) by (nonlinear_arith);
            lemma_factor(d, own, im * ll + aa);
            lemma_factor(d, im * ll, aa);
        }
    }
}

/// In exact arithmetic, a step on a contact constraint of a multibody that nothing
/// clamps or softens ends at the velocity that the constraint asks for.
pub proof fn contact_steps_meet_their_target<S: Scalar, D: Space<S>>(
    v: spec_fn(S) -> real,
    c0: MultibodyContactConstraint<S, D>,
    jac: Seq<S>,
    col: Seq<S>,
    s: int,
    rhs: S,
    normal_impulse: S,
    st: ContactSweep<S, D>,
)
    requires
        exact(v),
        ordered(v),
        linear_space::<S, D>(v),
        jac.len() == st.dofv.len(),
        has_free(c0) ==> c0.free_body_id < st.frees.len(),
        v(D::vdot_spec(c0.lin_jac, c0.lin_jac)) == 1real,
        0real < contact_mobility(v, c0, jac, col),
        ({
            let c = with_response(c0, jac, col);
            let x = contact_velocity(c, jac, st.dofv, st.frees).plus_spec(rhs);
            let raw = v(st.imps[s]) - v(c.inv_lhs) * v(x);
            v(contact_impulse(c, st.imps[s], x, normal_impulse)) == raw
        }),
    ensures
        ({
            let c = with_response(c0, jac, col);
            let x = contact_velocity(c, jac, st.dofv, st.frees).plus_spec(rhs);
            let imp = contact_impulse(c, st.imps[s], x, normal_impulse);
            let after = contact_apply(c, col, s, imp, imp.minus_spec(st.imps[s]), st);
            v(contact_velocity(c, jac, after.dofv, after.frees)) == -v(rhs)
        }),
{
    let c = with_response(c0, jac, col);
    let u = contact_velocity(c, jac, st.dofv, st.frees);
    let x = u.plus_spec(rhs);
    let imp = contact_impulse(c, st.imps[s], x, normal_impulse);
    let delta = imp.minus_spec(st.imps[s]);
    contact_impulses_push_along(v, c, jac, col, s, imp, delta, st);
    let m = contact_mobility(v, c0, jac, col);
    assert(contact_mobility(v, c, jac, col) == m);
    lemma_one(v(c0.free_body_im));
    let i = v(c.inv_lhs);
    assert(i == 1real / m);
    assert(i * m == 1real) by (nonlinear_arith)
        requires
            i == 1real / m,
            0real < m,
    ;
    let e = v(x);
    assert((-(i * e)) * m == -e) by (nonlinear_arith)
        requires
            i * m == 1real,
    ;
}

// ---- impulse joints ----

/// Under the reading `v`, a nudge adds to each component of a velocity.
pub open spec fn nudges_add<S: Scalar, D: Space<S>>(v: spec_fn(S) -> real) -> bool {
    forall|vel: Velocity<S, D>, k: S, w: Seq<S>, l: int|
        0 <= l < D::dimension_spec().spatial_spec() ==> v(
            #[trigger] spatial_component_spec(nudged(vel, k, w), l),
        ) == v(spatial_component_spec(vel, l)) + v(k) * v(w[l])
}

/// Exact arithmetic makes nudges of the plane add.
pub proof fn plane_nudges_add<S: Scalar>(v: spec_fn(S) -> real)
    requires
        exact(v),
    ensures
        nudges_add::<S, Dim2>(v),
{
}

/// Exact arithmetic makes nudges of space add.
pub proof fn space_nudges_add<S: Scalar>(v: spec_fn(S) -> real)
    requires
        exact(v),
    ensures
        nudges_add::<S, Dim3>(v),
{
}

/// One side of a joint constraint.
pub struct JointSide {
    /// First degree of freedom of the multibody.
    pub dof: int,
    pub kind: u32,
    pub j_id: u32,
    pub ndofs: u32,
    pub id: u32,
}

/// Side A of a constraint.
pub open spec fn side_a<S: Scalar>(pl: JointPlaces, c: MbImpulseJointConstraint<S>) -> JointSide {
    JointSide {
        dof: pl.dof_a,
        kind: c.side_a_kind,
        j_id: c.j_id_a,
        ndofs: c.ndofs_a,
        id: c.side_a_id,
    }
}

/// Side B of a constraint.
pub open spec fn side_b<S: Scalar>(pl: JointPlaces, c: MbImpulseJointConstraint<S>) -> JointSide {
    JointSide {
        dof: pl.dof_b,
        kind: c.side_b_kind,
        j_id: c.j_id_b,
        ndofs: c.ndofs_b,
        id: c.side_b_id,
    }
}

/// What a side names exists, and the lanes cover it.
pub open spec fn side_fits<S: Scalar, D: Space<S>>(
    pl: JointPlaces,
    s: JointSide,
    st: JointSolve<S, D>,
) -> bool {
    &&& 0 <= pl.b < pl.nb
    &&& 0 <= s.dof
    &&& s.kind <= SIDE_KIND_FIXED
    &&& s.kind == SIDE_KIND_BODY ==> s.ndofs == D::dimension_spec().spatial_spec() && 0 <= pl.bodies
        + s.id < st.vels.len()
    &&& s.kind == SIDE_KIND_MB ==> s.ndofs <= JOINT_LANES && forall|l: int|
        0 <= l < s.ndofs ==> 0 <= #[trigger] mbi_spec(pl.nb, pl.b, s.dof + l) < st.dofs.len()
    &&& s.kind == SIDE_KIND_FIXED ==> s.ndofs == 0
}

/// The two sides of a constraint move nothing in common.
pub open spec fn sides_apart(a: JointSide, b: JointSide) -> bool {
    &&& a.kind == SIDE_KIND_BODY && b.kind == SIDE_KIND_BODY ==> a.id != b.id
    &&& a.kind == SIDE_KIND_MB && b.kind == SIDE_KIND_MB ==> a.dof + a.ndofs <= b.dof || b.dof
        + b.ndofs <= a.dof
}

/// The velocity of a side along its row.
pub open spec fn along_side<S: Scalar, D: Space<S>>(
    pl: JointPlaces,
    s: JointSide,
    jacs: Seq<S>,
    st: JointSolve<S, D>,
) -> S {
    side_velocity(pl, s.dof, s.kind, s.j_id, s.ndofs, s.id, jacs, st.dofs, st.vels)
}

/// The row of a side times its response.
pub open spec fn side_mobility<S: Scalar>(
    v: spec_fn(S) -> real,
    s: JointSide,
    jacs: Seq<S>,
    n: int,
) -> real
    decreases n,
{
    if n <= 0 {
        0real
    } else {
        side_mobility(v, s, jacs, n - 1) + v(jacs[s.j_id + n - 1]) * v(
            jacs[s.j_id + s.ndofs + n - 1],
        )
    }
}

proof fn lemma_index(nb: int, b: int, i: int, j: int)
    requires
        0 <= b < nb,
        i != j,
    ensures
        mbi_spec(nb, b, i) != mbi_spec(nb, b, j),
{
    assert(i * nb != j * nb) by (nonlinear_arith)
        requires
            0 < nb,
            i != j,
    ;
}

proof fn lemma_nudged_dofs<S: Scalar>(
    v: spec_fn(S) -> real,
    pl: JointPlaces,
    dof: int,
    dofs: Seq<S>,
    k: S,
    w: Seq<S>,
    n: int,
    i: int,
)
    requires
        exact(v),
        0 <= pl.b < pl.nb,
        0 <= n,
        0 <= mbi_spec(pl.nb, pl.b, i) < dofs.len(),
        forall|l: int| 0 <= l < n ==> 0 <= #[trigger] mbi_spec(pl.nb, pl.b, dof + l) < dofs.len(),
    ensures
        dofs_nudged(pl, dof, dofs, k, w, n).len() == dofs.len(),
        v(dofs_nudged(pl, dof, dofs, k, w, n)[mbi_spec(pl.nb, pl.b, i)]) == v(
            dofs[mbi_spec(pl.nb, pl.b, i)],
        ) + (if dof <= i < dof + n {
            v(k) * v(w[i - dof])
        } else {
            0real
        }),
    decreases n,
{
    if n > 0 {
        lemma_nudged_dofs(v, pl, dof, dofs, k, w, n - 1, i);
        let at = mbi_spec(pl.nb, pl.b, dof + (n - 1));
        assert(0 <= at < dofs.len());
        assert(dof + n - 1 == dof + (n - 1));
        if i != dof + n - 1 {
            lemma_index(pl.nb, pl.b, i, dof + n - 1);
        }
    }
}

/// The terms of the lanes of a side.
spec fn lanes<S: Scalar, D: Space<S>>(
    pl: JointPlaces,
    s: JointSide,
    jacs: Seq<S>,
    st: JointSolve<S, D>,
) -> Seq<S> {
    Seq::new(
        JOINT_LANES as nat,
        |l: int| side_term(pl, s.dof, s.kind, s.j_id, s.ndofs, s.id, jacs, st.dofs, st.vels, l),
    )
}

/// Sums whose terms differ by multiples of the products of a row and its response.
proof fn lemma_lanes<S: Scalar>(
    v: spec_fn(S) -> real,
    s: JointSide,
    jacs: Seq<S>,
    p0: Seq<S>,
    p1: Seq<S>,
    x: real,
    n: int,
)
    requires
        s.ndofs <= JOINT_LANES,
        0 <= n <= JOINT_LANES,
        forall|l: int|
            0 <= l < n ==> v(#[trigger] p1[l]) == v(p0[l]) + (if l < s.ndofs {
                x * (v(jacs[s.j_id + l]) * v(jacs[s.j_id + s.ndofs + l]))
            } else {
                0real
            }),
    ensures
        real_sum(v, p1, n) == real_sum(v, p0, n) + x * side_mobility(
            v,
            s,
            jacs,
            if n < s.ndofs {
                n
            } else {
                s.ndofs as int
            },
        ),
    decreases n,
{
    if n > 0 {
        lemma_lanes(v, s, jacs, p0, p1, x, n - 1);
        assert(v(p1[n - 1]) == v(p0[n - 1]) + (if n - 1 < s.ndofs {
            x * (v(jacs[s.j_id + (n - 1)]) * v(jacs[s.j_id + s.ndofs + (n - 1)]))
        } else {
            0real
        }));
        if n <= s.ndofs {
            let m = side_mobility(v, s, jacs, n - 1);
            lemma_factor(x, m, v(jacs[s.j_id + n - 1]) * v(jacs[s.j_id + s.ndofs + n - 1]));
        }
    } else {
        lemma_zero(x);
    }
}

/// What an impulse change does to the velocity of its own side.
proof fn lemma_own_side<S: Scalar, D: Space<S>>(
    v: spec_fn(S) -> real,
    pl: JointPlaces,
    s: JointSide,
    k: S,
    delta: S,
    jacs: Seq<S>,
    st: JointSolve<S, D>,
)
    requires
        exact(v),
        nudges_add::<S, D>(v),
        side_fits(pl, s, st),
    ensures
        ({
            let after = side_applied(
                pl,
                s.dof,
                s.kind,
                s.j_id,
                s.ndofs,
                s.id,
                k,
                delta,
                jacs,
                st,
            );
            &&& v(along_side(pl, s, jacs, after)) == v(along_side(pl, s, jacs, st)) + (v(k) * v(
                delta,
            )) * side_mobility(v, s, jacs, s.ndofs as int)
            &&& side_fits(pl, s, after)
            &&& after.dofs.len() == st.dofs.len()
            &&& after.vels.len() == st.vels.len()
            &&& after.cons == st.cons
        }),
{
    let after = side_applied(pl, s.dof, s.kind, s.j_id, s.ndofs, s.id, k, delta, jacs, st);
    let p0 = lanes(pl, s, jacs, st);
    let p1 = lanes(pl, s, jacs, after);
    assert(is_pow2(64)) by {
        reveal_with_fuel(is_pow2, 8);
    }
    tree_sum_is_sum(v, p0, 64);
    tree_sum_is_sum(v, p1, 64);
    let kd = k.times_spec(delta);
    let x = v(k) * v(delta);
    let n = s.ndofs as int;
    if s.kind == SIDE_KIND_FIXED || v(delta) == 0real {
        lemma_zero(v(k));
        lemma_zero(side_mobility(v, s, jacs, n));
        if s.kind == SIDE_KIND_FIXED {
            lemma_zero(x);
        }
    } else {
        assert forall|l: int| 0 <= l < 64 implies v(#[trigger] p1[l]) == v(p0[l]) + (if l
            < s.ndofs {
            x * (v(jacs[s.j_id + l]) * v(jacs[s.j_id + s.ndofs + l]))
        } else {
            0real
        }) by {
            if l < n {
                let a = v(jacs[s.j_id + l]);
                let w = v(jacs[s.j_id + s.ndofs + l]);
                if s.kind == SIDE_KIND_BODY {
                    let resp = block(jacs, s.j_id + n, D::dimension_spec().spatial_spec());
                    let at = pl.bodies + s.id;
                    assert(after.vels[at] == nudged(st.vels[at], kd, resp));
                    let c0 = v(spatial_component_spec(st.vels[at], l));
                    assert(v(spatial_component_spec(nudged(st.vels[at], kd, resp), l)) == c0 + v(
                        kd,
                    ) * v(resp[l]));
                    lemma_factor(a, c0, x * w);
                    assert(a * (x * w) == x * (a * w)) by (nonlinear_arith);
                } else {
                    let resp = block(jacs, s.j_id + n, n);
                    assert(0 <= mbi_spec(pl.nb, pl.b, s.dof + l) < st.dofs.len());
                    lemma_nudged_dofs(v, pl, s.dof, st.dofs, kd, resp, n, s.dof + l);
                    let c0 = v(st.dofs[mbi_spec(pl.nb, pl.b, s.dof + l)]);
                    lemma_factor(a, c0, x * w);
                    assert(a * (x * w) == x * (a * w)) by (nonlinear_arith);
                }
            }
        }
        lemma_lanes(v, s, jacs, p0, p1, x, 64);
        if s.kind == SIDE_KIND_MB && n > 0 {
            assert(0 <= mbi_spec(pl.nb, pl.b, s.dof + 0) < st.dofs.len());
            lemma_nudged_dofs(
                v,
                pl,
                s.dof,
                st.dofs,
                kd,
                block(jacs, s.j_id + n, n),
                n,
                s.dof + 0,
            );
        }
    }
}

/// An impulse change on one side does not move the other.
proof fn lemma_other_side<S: Scalar, D: Space<S>>(
    v: spec_fn(S) -> real,
    pl: JointPlaces,
    s: JointSide,
    o: JointSide,
    k: S,
    delta: S,
    jacs: Seq<S>,
    st: JointSolve<S, D>,
)
    requires
        exact(v),
        side_fits(pl, s, st),
        side_fits(pl, o, st),
        sides_apart(s, o),
    ensures
        ({
            let after = side_applied(
                pl,
                s.dof,
                s.kind,
                s.j_id,
                s.ndofs,
                s.id,
                k,
                delta,
                jacs,
                st,
            );
            v(along_side(pl, o, jacs, after)) == v(along_side(pl, o, jacs, st))
        }),
{
    let after = side_applied(pl, s.dof, s.kind, s.j_id, s.ndofs, s.id, k, delta, jacs, st);
    let p0 = lanes(pl, o, jacs, st);
    let p1 = lanes(pl, o, jacs, after);
    assert(is_pow2(64)) by {
        reveal_with_fuel(is_pow2, 8);
    }
    tree_sum_is_sum(v, p0, 64);
    tree_sum_is_sum(v, p1, 64);
    assert forall|l: int| 0 <= l < 64 implies v(#[trigger] p1[l]) == v(p0[l]) by {
        if s.kind == SIDE_KIND_MB && o.kind == SIDE_KIND_MB && l < o.ndofs {
            let n = s.ndofs as int;
            assert(0 <= mbi_spec(pl.nb, pl.b, o.dof + l) < st.dofs.len());
            lemma_nudged_dofs(
                v,
                pl,
                s.dof,
                st.dofs,
                k.times_spec(delta),
                block(jacs, s.j_id + n, n),
                n,
                o.dof + l,
            );
            let a = v(jacs[o.j_id + l]);
        }
    }
    lemma_same_sum(v, p0, p1, 64);
}

proof fn lemma_same_sum<S: Scalar>(v: spec_fn(S) -> real, p0: Seq<S>, p1: Seq<S>, n: int)
    requires
        forall|l: int| 0 <= l < n ==> v(#[trigger] p1[l]) == v(p0[l]),
    ensures
        real_sum(v, p1, n) == real_sum(v, p0, n),
    decreases n,
{
    if n > 0 {
        lemma_same_sum(v, p0, p1, n - 1);
        assert(v(p1[n - 1]) == v(p0[n - 1]));
    }
}

/// The rows of a constraint times their responses, by sides.
proof fn lemma_dot_onto<S: Scalar>(
    v: spec_fn(S) -> real,
    acc: S,
    s: JointSide,
    jacs: Seq<S>,
    n: int,
)
    requires
        exact(v),
        0 <= n <= s.ndofs,
    ensures
        v(
            dot_onto(
                acc,
                block(jacs, s.j_id as int, s.ndofs as int),
                block(jacs, s.j_id + s.ndofs, s.ndofs as int),
                n,
            ),
        ) == v(acc) + side_mobility(v, s, jacs, n),
    decreases n,
{
    if n > 0 {
        lemma_dot_onto(v, acc, s, jacs, n - 1);
        let a = block(jacs, s.j_id as int, s.ndofs as int);
        let w = block(jacs, s.j_id + s.ndofs, s.ndofs as int);
        assert(a[n - 1] == jacs[s.j_id + n - 1]);
        assert(w[n - 1] == jacs[s.j_id + s.ndofs + n - 1]);
    }
}

proof fn lemma_axis_step<S: Scalar, D: Space<S>>(
    v: spec_fn(S) -> real,
    pl: JointPlaces,
    jacs: Seq<S>,
    st: JointSolve<S, D>,
    e: int,
    c0: MbImpulseJointConstraint<S>,
)
    requires
        exact(v),
        nudges_add::<S, D>(v),
        0 <= e < st.cons.len(),
        st.cons[e] == c0.finalized_spec(jacs),
        c0.kind != 0,
        side_fits(pl, side_a(pl, c0), st),
        side_fits(pl, side_b(pl, c0), st),
        sides_apart(side_a(pl, c0), side_b(pl, c0)),
        sides_apart(side_b(pl, c0), side_a(pl, c0)),
        ({
            let c = st.cons[e];
            let x = along_side(pl, side_b(pl, c), jacs, st).minus_spec(
                along_side(pl, side_a(pl, c), jacs, st),
            );
            &&& v(c0.dot_j_wj_spec(jacs)) + v(c.cfm_gain) != 0real
            &&& v(axis_impulse(c, x)) == v(c.impulse) + v(c.inv_lhs) * (v(c.rhs) + v(x) - v(
                c.cfm_gain,
            ) * v(c.impulse))
        }),
    ensures
        ({
            let c = st.cons[e];
            let after = axis_solved(pl, jacs, st, e);
            v(along_side(pl, side_b(pl, c), jacs, after)) - v(
                along_side(pl, side_a(pl, c), jacs, after),
            ) + v(c.rhs) == v(c.cfm_gain) * v(after.cons[e].impulse)
        }),
{
    let c = st.cons[e];
    let a = side_a(pl, c);
    let b = side_b(pl, c);
    let x = along_side(pl, b, jacs, st).minus_spec(along_side(pl, a, jacs, st));
    let imp = axis_impulse(c, x);
    let delta = imp.minus_spec(c.impulse);
    let st1 = JointSolve {
        cons: st.cons.update(e, MbImpulseJointConstraint { impulse: imp, ..c }),
        dofs: st.dofs,
        vels: st.vels,
    };
    let one = S::one_spec();
    let st2 = side_applied(
        pl,
        a.dof,
        a.kind,
        a.j_id,
        a.ndofs,
        a.id,
        one,
        delta,
        jacs,
        st1,
    );
    lemma_own_side(v, pl, a, one, delta, jacs, st1);
    lemma_other_side(v, pl, a, b, one, delta, jacs, st1);
    assert(side_fits(pl, b, st2));
    lemma_own_side(v, pl, b, one.neg_spec(), delta, jacs, st2);
    assert(side_fits(pl, a, st2));
    lemma_other_side(v, pl, b, a, one.neg_spec(), delta, jacs, st2);
    let ma = side_mobility(v, a, jacs, a.ndofs as int);
    let mb = side_mobility(v, b, jacs, b.ndofs as int);
    let inner = dot_onto(
        S::zero_spec(),
        block(jacs, a.j_id as int, a.ndofs as int),
        block(jacs, a.j_id + a.ndofs, a.ndofs as int),
        a.ndofs as int,
    );
    lemma_dot_onto(v, S::zero_spec(), a, jacs, a.ndofs as int);
    lemma_dot_onto(v, inner, b, jacs, b.ndofs as int);
    let m = v(c0.dot_j_wj_spec(jacs));
    assert(m == ma + mb);
    let d = v(delta);
    let g = v(c.cfm_gain);
    let p = v(c.impulse);
    let i = v(c.inv_lhs);
    let r = v(c.rhs) + v(x) - g * p;
    assert(i == 1real / (m + g));
    assert(i * (m + g) == 1real) by (nonlinear_arith)
        requires
            i == 1real / (m + g),
            m + g != 0real,
    ;
    assert(d == i * r);
    assert(d * m + d * g == r) by {
        lemma_factor(d, m, g);
        assert((i * r) * (m + g) == (i * (m + g)) * r) by (nonlinear_arith);
        lemma_one(r);
    }
    lemma_one(d);
    assert((-1real) * d == -d) by (nonlinear_arith);
    assert((-d) * mb == -(d * mb)) by (nonlinear_arith);
    lemma_factor(d, ma, mb);
    lemma_commute(d, g);
    lemma_factor(g, p, d);
}

/// In exact arithmetic, a step on a constraint of an impulse joint of the plane that its bounds
/// do not clamp takes away its velocity error: the velocity of side B less that of
/// side A along their rows, plus what the constraint asks for, is what its softness
/// leaves. A rigid constraint ends at the velocity that it asks for.
pub proof fn plane_axis_steps_meet_their_target<S: Scalar>(
    v: spec_fn(S) -> real,
    pl: JointPlaces,
    jacs: Seq<S>,
    st: JointSolve<S, Dim2>,
    e: int,
    c0: MbImpulseJointConstraint<S>,
)
    requires
        exact(v),
        0 <= e < st.cons.len(),
        st.cons[e] == c0.finalized_spec(jacs),
        c0.kind != 0,
        side_fits(pl, side_a(pl, c0), st),
        side_fits(pl, side_b(pl, c0), st),
        sides_apart(side_a(pl, c0), side_b(pl, c0)),
        ({
            let c = st.cons[e];
            let x = along_side(pl, side_b(pl, c), jacs, st).minus_spec(
                along_side(pl, side_a(pl, c), jacs, st),
            );
            &&& v(c0.dot_j_wj_spec(jacs)) + v(c.cfm_gain) != 0real
            &&& v(axis_impulse(c, x)) == v(c.impulse) + v(c.inv_lhs) * (v(c.rhs) + v(x) - v(
                c.cfm_gain,
            ) * v(c.impulse))
        }),
    ensures
        ({
            let c = st.cons[e];
            let after = axis_solved(pl, jacs, st, e);
            v(along_side(pl, side_b(pl, c), jacs, after)) - v(
                along_side(pl, side_a(pl, c), jacs, after),
            ) + v(c.rhs) == v(c.cfm_gain) * v(after.cons[e].impulse)
        }),
{
    plane_nudges_add(v);
    lemma_axis_step::<S, Dim2>(v, pl, jacs, st, e, c0);
}

/// In exact arithmetic, a step on a constraint of an impulse joint of space that its bounds
/// do not clamp takes away its velocity error: the velocity of side B less that of
/// side A along their rows, plus what the constraint asks for, is what its softness
/// leaves. A rigid constraint ends at the velocity that it asks for.
pub proof fn space_axis_steps_meet_their_target<S: Scalar>(
    v: spec_fn(S) -> real,
    pl: JointPlaces,
    jacs: Seq<S>,
    st: JointSolve<S, Dim3>,
    e: int,
    c0: MbImpulseJointConstraint<S>,
)
    requires
        exact(v),
        0 <= e < st.cons.len(),
        st.cons[e] == c0.finalized_spec(jacs),
        c0.kind != 0,
        side_fits(pl, side_a(pl, c0), st),
        side_fits(pl, side_b(pl, c0), st),
        sides_apart(side_a(pl, c0), side_b(pl, c0)),
        ({
            let c = st.cons[e];
            let x = along_side(pl, side_b(pl, c), jacs, st).minus_spec(
                along_side(pl, side_a(pl, c), jacs, st),
            );
            &&& v(c0.dot_j_wj_spec(jacs)) + v(c.cfm_gain) != 0real
            &&& v(axis_impulse(c, x)) == v(c.impulse) + v(c.inv_lhs) * (v(c.rhs) + v(x) - v(
                c.cfm_gain,
            ) * v(c.impulse))
        }),
    ensures
        ({
            let c = st.cons[e];
            let after = axis_solved(pl, jacs, st, e);
            v(along_side(pl, side_b(pl, c), jacs, after)) - v(
                along_side(pl, side_a(pl, c), jacs, after),
            ) + v(c.rhs) == v(c.cfm_gain) * v(after.cons[e].impulse)
        }),
{
    space_nudges_add(v);
    lemma_axis_step::<S, Dim3>(v, pl, jacs, st, e, c0);
}

} // verus!
