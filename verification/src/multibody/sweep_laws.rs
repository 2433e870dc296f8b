//! What the sweeps guarantee.
use super::contact_constraints::{ContactGeometry, contact_row};
use super::contact_constraints_soa::{
    lemma_soa_sweep_len, soa_impulse, soa_sweep, sweep_constraints,
};
use super::solve_constraints::contact_velocities;
use super::sweeps::{
    ContactSweep, DelassusSweep, axpy, column, contact_apply, contact_clamped, contact_impulse,
    contact_sweep, contact_velocity, contacts_ok, delassus_entry, delassus_sweep, dot_fold,
    free_active, free_velocity, has_free, joint_active, joint_impulse, joint_sweep,
    keeps_estimate, lemma_contact_sweep_len, lemma_delassus_sweep_len, live_rhs, pushed,
    swept_rhs,
};
use super::types::{
    MB_CONTACT_KIND_INACTIVE, MB_CONTACT_KIND_TANGENT, MultibodyContactConstraint,
    MultibodyJointConstraint,
};
use crate::sim_params::ConstraintSoftness;
use crate::exact::{
    clamp_stays_in_range, exact, lemma_distribute, lemma_factor, lemma_swap, lemma_swap_left,
    lemma_zero, linear_space, ordered,
};
use crate::scalar::Scalar;
use crate::space::{Space, Velocity};
use vstd::prelude::*;

verus! {

// ---- joints ----

proof fn lemma_joint_slot<S: Scalar>(
    cons: Seq<MultibodyJointConstraint<S>>,
    cols: Seq<Seq<S>>,
    dofv: Seq<S>,
    use_bias: bool,
    k: int,
    s: int,
)
    requires
        0 <= s < cons.len(),
        0 <= k <= cons.len(),
    ensures
        joint_sweep(cons, cols, dofv, use_bias, k).cons.len() == cons.len(),
        s >= k ==> joint_sweep(cons, cols, dofv, use_bias, k).cons[s] == cons[s],
        s < k && joint_active(cons[s]) ==> joint_sweep(cons, cols, dofv, use_bias, k).cons[s].impulse
            == joint_impulse(
            cons[s],
            joint_sweep(cons, cols, dofv, use_bias, s).dofv[cons[s].dof_id as int],
            use_bias,
        ),
    decreases k,
{
    if k > 0 {
        lemma_joint_slot(cons, cols, dofv, use_bias, k - 1, s);
        lemma_joint_slot(cons, cols, dofv, use_bias, k - 1, k - 1);
    }
}

/// A sweep leaves the impulse of every limit and motor within its bounds.
pub proof fn joint_impulses_stay_in_bounds<S: Scalar>(
    v: spec_fn(S) -> real,
    cons: Seq<MultibodyJointConstraint<S>>,
    cols: Seq<Seq<S>>,
    dofv: Seq<S>,
    use_bias: bool,
    s: int,
)
    requires
        ordered(v),
        0 <= s < cons.len(),
        joint_active(cons[s]),
        v(cons[s].impulse_lo) <= v(cons[s].impulse_hi),
    ensures
        ({
            let c = joint_sweep(cons, cols, dofv, use_bias, cons.len() as int).cons[s];
            v(cons[s].impulse_lo) <= v(c.impulse) <= v(cons[s].impulse_hi)
        }),
{
    lemma_joint_slot(cons, cols, dofv, use_bias, cons.len() as int, s);
    let c = cons[s];
    let at = joint_sweep(cons, cols, dofv, use_bias, s).dofv[c.dof_id as int];
    let rhs = if use_bias {
        c.rhs
    } else {
        c.rhs_wo_bias
    };
    clamp_stays_in_range(
        v,
        c.impulse.plus_spec(
            c.inv_lhs.times_spec(
                at.plus_spec(rhs).minus_spec(c.cfm_gain.times_spec(c.impulse)),
            ),
        ),
        c.impulse_lo,
        c.impulse_hi,
    );
}

// ---- contacts ----

/// What the bounds of a contact impulse say: a normal never pulls, and a tangent
/// stays within the friction coefficient times the normal impulse.
pub open spec fn in_friction_box<S: Scalar, D: Space<S>>(
    v: spec_fn(S) -> real,
    c: MultibodyContactConstraint<S, D>,
    impulse: S,
    normal_impulse: S,
) -> bool {
    if c.kind == MB_CONTACT_KIND_TANGENT {
        let limit = v(c.friction_coeff.times_spec(normal_impulse));
        -limit <= v(impulse) <= limit
    } else {
        0real <= v(impulse)
    }
}

proof fn lemma_clamped<S: Scalar, D: Space<S>>(
    v: spec_fn(S) -> real,
    c: MultibodyContactConstraint<S, D>,
    raw: S,
    normal_impulse: S,
)
    requires
        ordered(v),
        c.kind == MB_CONTACT_KIND_TANGENT ==> 0real <= v(c.friction_coeff) && 0real <= v(
            normal_impulse,
        ),
    ensures
        in_friction_box(v, c, contact_clamped(c, raw, normal_impulse), normal_impulse),
{
}

proof fn lemma_contact_slot<S: Scalar, D: Space<S>>(
    cons: Seq<MultibodyContactConstraint<S, D>>,
    jacs: Seq<Seq<S>>,
    cols: Seq<Seq<S>>,
    use_bias: bool,
    st0: ContactSweep<S, D>,
    k: int,
    s: int,
)
    requires
        0 <= k <= cons.len(),
        0 <= s < cons.len(),
        st0.imps.len() == cons.len(),
        contacts_ok(cons, st0.frees.len() as int),
    ensures
        contact_sweep(cons, jacs, cols, use_bias, st0, k).imps.len() == cons.len(),
        s >= k ==> contact_sweep(cons, jacs, cols, use_bias, st0, k).imps[s] == st0.imps[s],
        s < k ==> contact_sweep(cons, jacs, cols, use_bias, st0, k).imps[s] == contact_sweep(
            cons,
            jacs,
            cols,
            use_bias,
            st0,
            s + 1,
        ).imps[s],
    decreases k,
{
    if k > 0 {
        lemma_contact_slot(cons, jacs, cols, use_bias, st0, k - 1, s);
    }
}

/// A sweep leaves every normal impulse at zero or more, and every tangent impulse
/// of a point whose normal comes first within the friction coefficient times the
/// normal impulse.
pub proof fn contact_impulses_stay_in_friction_box<S: Scalar, D: Space<S>>(
    v: spec_fn(S) -> real,
    cons: Seq<MultibodyContactConstraint<S, D>>,
    jacs: Seq<Seq<S>>,
    cols: Seq<Seq<S>>,
    use_bias: bool,
    st0: ContactSweep<S, D>,
    s: int,
)
    requires
        ordered(v),
        st0.imps.len() == cons.len(),
        contacts_ok(cons, st0.frees.len() as int),
        0 <= s < cons.len(),
        cons[s].kind == MB_CONTACT_KIND_TANGENT ==> {
            &&& 0real <= v(cons[s].friction_coeff)
            &&& cons[s].normal_constraint_slot < s
            &&& cons[cons[s].normal_constraint_slot as int].kind != MB_CONTACT_KIND_TANGENT
        },
    ensures
        ({
            let out = contact_sweep(cons, jacs, cols, use_bias, st0, cons.len() as int).imps;
            in_friction_box(v, cons[s], out[s], out[cons[s].normal_constraint_slot as int])
        }),
{
    let n = cons[s].normal_constraint_slot as int;
    let all = cons.len() as int;
    assert(cons[s].normal_constraint_slot < cons.len());
    lemma_contact_slot(cons, jacs, cols, use_bias, st0, all, s);
    lemma_contact_slot(cons, jacs, cols, use_bias, st0, s, s);
    lemma_contact_step(v, cons, jacs, cols, use_bias, st0, s);
    if cons[s].kind == MB_CONTACT_KIND_TANGENT {
        lemma_contact_slot(cons, jacs, cols, use_bias, st0, all, n);
        lemma_contact_slot(cons, jacs, cols, use_bias, st0, s, n);
        lemma_contact_step(v, cons, jacs, cols, use_bias, st0, n);
        let raw_limit = contact_sweep(cons, jacs, cols, use_bias, st0, s).imps[n];
        lemma_contact_step(v, cons, jacs, cols, use_bias, st0, s);
    }
}

/// The step of slot `s`, given what its bound rests on.
proof fn lemma_contact_step<S: Scalar, D: Space<S>>(
    v: spec_fn(S) -> real,
    cons: Seq<MultibodyContactConstraint<S, D>>,
    jacs: Seq<Seq<S>>,
    cols: Seq<Seq<S>>,
    use_bias: bool,
    st0: ContactSweep<S, D>,
    s: int,
)
    requires
        ordered(v),
        st0.imps.len() == cons.len(),
        contacts_ok(cons, st0.frees.len() as int),
        0 <= s < cons.len(),
    ensures
        ({
            let before = contact_sweep(cons, jacs, cols, use_bias, st0, s).imps;
            let n = cons[s].normal_constraint_slot as int;
            let guard = cons[s].kind == MB_CONTACT_KIND_TANGENT ==> 0real <= v(
                cons[s].friction_coeff,
            ) && 0real <= v(before[n]);
            guard ==> in_friction_box(
                v,
                cons[s],
                contact_sweep(cons, jacs, cols, use_bias, st0, s + 1).imps[s],
                before[n],
            )
        }),
{
    lemma_contact_sweep_len(cons, jacs, cols, use_bias, st0, s);
    let st = contact_sweep(cons, jacs, cols, use_bias, st0, s);
    let c = cons[s];
    let normal = st.imps[c.normal_constraint_slot as int];
    let rhs = if use_bias {
        c.rhs
    } else {
        c.rhs_wo_bias
    };
    let at = contact_velocity(c, column(jacs, s), st.dofv, st.frees);
    let stiff = st.imps[s].minus_spec(c.inv_lhs.times_spec(at.plus_spec(rhs)));
    let raw = if c.kind == MB_CONTACT_KIND_TANGENT {
        stiff
    } else {
        c.cfm_factor.times_spec(stiff)
    };
    if c.kind == MB_CONTACT_KIND_TANGENT ==> 0real <= v(c.friction_coeff) && 0real <= v(normal) {
        lemma_clamped(v, c, raw, normal);
    }
}

// ---- constraint space ----

/// The velocity along every constraint, as the constraint-space sweep follows it,
/// is the velocity along it.
pub open spec fn tracks<S: Scalar, D: Space<S>>(
    v: spec_fn(S) -> real,
    cons: Seq<MultibodyContactConstraint<S, D>>,
    jacs: Seq<Seq<S>>,
    p: DelassusSweep<S, D>,
) -> bool {
    forall|j: int|
        0 <= j < cons.len() ==> v(#[trigger] p.a[j]) == v(
            contact_velocity(cons[j], column(jacs, j), p.st.dofv, p.st.frees),
        )
}

/// `d` is the Delassus matrix of the constraints.
pub open spec fn is_delassus<S: Scalar, D: Space<S>>(
    cons: Seq<MultibodyContactConstraint<S, D>>,
    jacs: Seq<Seq<S>>,
    cols: Seq<Seq<S>>,
    d: Seq<Seq<S>>,
) -> bool {
    forall|s: int, j: int|
        0 <= s < cons.len() && 0 <= j < cons.len() ==> #[trigger] d[s][j] == delassus_entry(
            cons,
            jacs,
            cols,
            s,
            j,
        )
}

pub(crate) proof fn lemma_dot_axpy<S: Scalar>(
    v: spec_fn(S) -> real,
    a: Seq<S>,
    x: Seq<S>,
    k: S,
    col: Seq<S>,
    n: int,
)
    requires
        exact(v),
        0 <= n <= x.len(),
    ensures
        v(dot_fold(a, axpy(x, k, col), n)) == v(dot_fold(a, x, n)) + v(k) * v(dot_fold(a, col, n)),
    decreases n,
{
    if n > 0 {
        lemma_dot_axpy(v, a, x, k, col, n - 1);
        let p = v(dot_fold(a, x, n - 1));
        let q = v(dot_fold(a, col, n - 1));
        let ai = v(a[n - 1]);
        let xi = v(x[n - 1]);
        let ci = v(col[n - 1]);
        let kk = v(k);
        lemma_distribute(ai, xi, kk, ci);
        lemma_factor(kk, q, ai * ci);
        lemma_swap(ai, kk, ci);
    } else {
        lemma_zero(v(k));
    }
}

/// In exact arithmetic the constraint-space sweep follows the velocity along every
/// constraint: after it, as before it, each entry of `a` is the velocity along its
/// constraint.
pub proof fn constraint_space_tracks_velocities<S: Scalar, D: Space<S>>(
    v: spec_fn(S) -> real,
    cons: Seq<MultibodyContactConstraint<S, D>>,
    jacs: Seq<Seq<S>>,
    cols: Seq<Seq<S>>,
    d: Seq<Seq<S>>,
    use_bias: bool,
    st0: DelassusSweep<S, D>,
    k: int,
)
    requires
        exact(v),
        linear_space::<S, D>(v),
        0 <= k <= cons.len(),
        st0.a.len() == cons.len(),
        st0.st.imps.len() == cons.len(),
        st0.st.dofv.len() == jacs.len(),
        jacs.len() == cols.len(),
        contacts_ok(cons, st0.st.frees.len() as int),
        is_delassus(cons, jacs, cols, d),
        tracks(v, cons, jacs, st0),
    ensures
        tracks(v, cons, jacs, delassus_sweep(cons, cols, d, use_bias, st0, k)),
    decreases k,
{
    if k > 0 {
        constraint_space_tracks_velocities(v, cons, jacs, cols, d, use_bias, st0, k - 1);
        lemma_delassus_sweep_len(cons, cols, d, use_bias, st0, k - 1);
        let p = delassus_sweep(cons, cols, d, use_bias, st0, k - 1);
        let q = delassus_sweep(cons, cols, d, use_bias, st0, k);
        let s = k - 1;
        let c = cons[s];
        let imp = contact_impulse(
            c,
            p.st.imps[s],
            p.a[s].plus_spec(live_rhs(c, use_bias)),
            p.st.imps[c.normal_constraint_slot as int],
        );
        let delta = imp.minus_spec(p.st.imps[s]);
        if !delta.same_spec(S::zero_spec()) {
            assert forall|j: int| 0 <= j < cons.len() implies v(#[trigger] q.a[j]) == v(
                contact_velocity(cons[j], column(jacs, j), q.st.dofv, q.st.frees),
            ) by {
                let n = jacs.len() as int;
                let cj = cons[j];
                let jac = column(jacs, j);
                let col = column(cols, s);
                lemma_dot_axpy(v, jac, p.st.dofv, delta, col, n);
                assert(v(p.a[j]) == v(contact_velocity(cj, jac, p.st.dofv, p.st.frees)));
                assert(d[s][j] == delassus_entry(cons, jacs, cols, s, j));
                assert(has_free(cons[s]) ==> cons[s].free_body_id < p.st.frees.len());
                assert(has_free(cons[j]) ==> cons[j].free_body_id < p.st.frees.len());
                lemma_push_along(v, c, cj, p.st.frees, delta);
                let own = v(dot_fold(jac, col, n));
                let dd = v(delta);
                let free = if has_free(c) && c.free_body_id == cj.free_body_id {
                    v(c.free_body_im) * v(D::vdot_spec(cj.lin_jac, c.lin_jac)) + v(
                        D::gdot_spec(cj.ang_jac, c.ii_ang_jac),
                    )
                } else {
                    0real
                };
                lemma_factor(dd, own, free);
                assert(v(d[s][j]) == own + free);
            }
        }
    }
}

/// How an impulse of `c` changes the free body's share of the velocity along `cj`.
proof fn lemma_push_along<S: Scalar, D: Space<S>>(
    v: spec_fn(S) -> real,
    c: MultibodyContactConstraint<S, D>,
    cj: MultibodyContactConstraint<S, D>,
    frees: Seq<Velocity<S, D>>,
    delta: S,
)
    requires
        exact(v),
        linear_space::<S, D>(v),
        has_free(c) ==> c.free_body_id < frees.len(),
        has_free(cj) ==> cj.free_body_id < frees.len(),
    ensures
        ({
            let after = if free_active(c) {
                frees.update(
                    c.free_body_id as int,
                    pushed(c, frees[c.free_body_id as int], delta),
                )
            } else {
                frees
            };
            let free = if has_free(c) && c.free_body_id == cj.free_body_id {
                v(c.free_body_im) * v(D::vdot_spec(cj.lin_jac, c.lin_jac)) + v(
                    D::gdot_spec(cj.ang_jac, c.ii_ang_jac),
                )
            } else {
                0real
            };
            has_free(cj) ==> v(free_velocity(cj, after[cj.free_body_id as int])) == v(
                free_velocity(cj, frees[cj.free_body_id as int]),
            ) + v(delta) * free
        }),
{
    if has_free(cj) {
        let f = frees[cj.free_body_id as int];
        let dd = v(delta);
        let lin = v(D::vdot_spec(cj.lin_jac, c.lin_jac));
        let ang = v(D::gdot_spec(cj.ang_jac, c.ii_ang_jac));
        let im = v(c.free_body_im);
        if has_free(c) && c.free_body_id == cj.free_body_id {
            if free_active(c) {
                let k = c.free_body_im.times_spec(delta);
                assert(v(
                    D::vdot_spec(
                        cj.lin_jac,
                        D::vadd_spec(f.linear, D::vscale_spec(c.lin_jac, k)),
                    ),
                ) == v(D::vdot_spec(cj.lin_jac, f.linear)) + v(k) * lin);
                assert(v(
                    D::gdot_spec(
                        cj.ang_jac,
                        D::aadd_spec(f.angular, D::ascale_spec(c.ii_ang_jac, delta)),
                    ),
                ) == v(D::gdot_spec(cj.ang_jac, f.angular)) + dd * ang);
                lemma_swap_left(im, dd, lin);
                lemma_factor(dd, im * lin, ang);
            } else {
                assert(im == 0real);
                assert(ang == 0real);
                lemma_zero(lin);
                lemma_zero(dd);
            }
        } else {
            lemma_zero(dd);
        }
    }
}

/// In exact arithmetic a constraint-space sweep that starts from the velocities
/// along the constraints ends with the velocities along them.
pub proof fn constraint_space_sweep_ends_in_velocities<S: Scalar, D: Space<S>>(
    v: spec_fn(S) -> real,
    cons: Seq<MultibodyContactConstraint<S, D>>,
    jacs: Seq<Seq<S>>,
    cols: Seq<Seq<S>>,
    d: Seq<Seq<S>>,
    use_bias: bool,
    st: ContactSweep<S, D>,
    j: int,
)
    requires
        exact(v),
        linear_space::<S, D>(v),
        st.imps.len() == cons.len(),
        st.dofv.len() == jacs.len(),
        jacs.len() == cols.len(),
        contacts_ok(cons, st.frees.len() as int),
        is_delassus(cons, jacs, cols, d),
        0 <= j < cons.len(),
    ensures
        ({
            let st0 = DelassusSweep {
                a: contact_velocities(cons, jacs, st.dofv, st.frees),
                st: st,
            };
            let out = delassus_sweep(cons, cols, d, use_bias, st0, cons.len() as int);
            v(out.a[j]) == v(
                contact_velocities(cons, jacs, out.st.dofv, out.st.frees)[j],
            )
        }),
{
    let st0 = DelassusSweep { a: contact_velocities(cons, jacs, st.dofv, st.frees), st: st };
    constraint_space_tracks_velocities(
        v,
        cons,
        jacs,
        cols,
        d,
        use_bias,
        st0,
        cons.len() as int,
    );
}

// ---- one sweep, three ways ----

/// Two lists of body velocities read the same along every direction.
pub open spec fn same_bodies<S: Scalar, D: Space<S>>(
    v: spec_fn(S) -> real,
    f: Seq<Velocity<S, D>>,
    g: Seq<Velocity<S, D>>,
) -> bool {
    &&& f.len() == g.len()
    &&& forall|i: int, x: D::V|
        0 <= i < f.len() ==> v(#[trigger] D::vdot_spec(x, f[i].linear)) == v(
            D::vdot_spec(x, g[i].linear),
        )
    &&& forall|i: int, x: D::A|
        0 <= i < f.len() ==> v(#[trigger] D::gdot_spec(x, f[i].angular)) == v(
            D::gdot_spec(x, g[i].angular),
        )
}

/// Two lists of numbers read the same.
pub open spec fn same_numbers<S: Scalar>(v: spec_fn(S) -> real, a: Seq<S>, b: Seq<S>) -> bool {
    &&& a.len() == b.len()
    &&& forall|i: int| 0 <= i < a.len() ==> v(#[trigger] a[i]) == v(b[i])
}

/// Two states of a contact sweep read the same: impulses, generalized velocities
/// and the velocities of the free bodies.
pub open spec fn same_sweep<S: Scalar, D: Space<S>>(
    v: spec_fn(S) -> real,
    p: ContactSweep<S, D>,
    q: ContactSweep<S, D>,
) -> bool {
    &&& same_numbers(v, p.dofv, q.dofv)
    &&& same_numbers(v, p.imps, q.imps)
    &&& same_bodies(v, p.frees, q.frees)
}

proof fn lemma_dot_same<S: Scalar>(
    v: spec_fn(S) -> real,
    a: Seq<S>,
    x: Seq<S>,
    y: Seq<S>,
    n: int,
)
    requires
        exact(v),
        0 <= n <= x.len(),
        same_numbers(v, x, y),
    ensures
        v(dot_fold(a, x, n)) == v(dot_fold(a, y, n)),
    decreases n,
{
    if n > 0 {
        lemma_dot_same(v, a, x, y, n - 1);
        assert(v(x[n - 1]) == v(y[n - 1]));
    }
}

proof fn lemma_velocity_same<S: Scalar, D: Space<S>>(
    v: spec_fn(S) -> real,
    c: MultibodyContactConstraint<S, D>,
    jac: Seq<S>,
    p: ContactSweep<S, D>,
    q: ContactSweep<S, D>,
)
    requires
        exact(v),
        same_sweep(v, p, q),
        has_free(c) ==> c.free_body_id < p.frees.len(),
    ensures
        v(contact_velocity(c, jac, p.dofv, p.frees)) == v(
            contact_velocity(c, jac, q.dofv, q.frees),
        ),
{
    lemma_dot_same(v, jac, p.dofv, q.dofv, p.dofv.len() as int);
    if has_free(c) {
        let i = c.free_body_id as int;
        assert(v(D::vdot_spec(c.lin_jac, p.frees[i].linear)) == v(
            D::vdot_spec(c.lin_jac, q.frees[i].linear),
        ));
        assert(v(D::gdot_spec(c.ang_jac, p.frees[i].angular)) == v(
            D::gdot_spec(c.ang_jac, q.frees[i].angular),
        ));
    }
}

/// Clamping goes by the readings of its arguments.
proof fn lemma_clamped_same<S: Scalar, D: Space<S>>(
    v: spec_fn(S) -> real,
    c: MultibodyContactConstraint<S, D>,
    e: MultibodyContactConstraint<S, D>,
    x: S,
    y: S,
    n: S,
    m: S,
)
    requires
        exact(v),
        ordered(v),
        c.kind == e.kind,
        c.friction_coeff == e.friction_coeff,
        v(x) == v(y),
        v(n) == v(m),
    ensures
        v(contact_clamped(c, x, n)) == v(contact_clamped(e, y, m)),
{
}

/// The same impulse change does the same to states that read the same.
proof fn lemma_apply_same<S: Scalar, D: Space<S>>(
    v: spec_fn(S) -> real,
    c: MultibodyContactConstraint<S, D>,
    col: Seq<S>,
    s: int,
    imp: S,
    imp2: S,
    delta: S,
    delta2: S,
    p: ContactSweep<S, D>,
    q: ContactSweep<S, D>,
)
    requires
        exact(v),
        linear_space::<S, D>(v),
        same_sweep(v, p, q),
        0 <= s < p.imps.len(),
        has_free(c) ==> c.free_body_id < p.frees.len(),
        v(imp) == v(imp2),
        v(delta) == v(delta2),
    ensures
        same_sweep(
            v,
            contact_apply(c, col, s, imp, delta, p),
            contact_apply(c, col, s, imp2, delta2, q),
        ),
{
    let a = contact_apply(c, col, s, imp, delta, p);
    let b = contact_apply(c, col, s, imp2, delta2, q);
    let moved = v(delta) != 0real;
    assert forall|i: int| 0 <= i < a.dofv.len() implies v(#[trigger] a.dofv[i]) == v(b.dofv[i]) by {
        assert(v(p.dofv[i]) == v(q.dofv[i]));
    }
    assert forall|i: int| 0 <= i < a.imps.len() implies v(#[trigger] a.imps[i]) == v(b.imps[i]) by {
        assert(v(p.imps[i]) == v(q.imps[i]));
    }
    let t = c.free_body_id as int;
    let k = c.free_body_im.times_spec(delta);
    let k2 = c.free_body_im.times_spec(delta2);
    assert(v(k) == v(k2));
    assert forall|i: int, x: D::V| 0 <= i < a.frees.len() implies v(
        #[trigger] D::vdot_spec(x, a.frees[i].linear),
    ) == v(D::vdot_spec(x, b.frees[i].linear)) by {
        assert(v(D::vdot_spec(x, p.frees[i].linear)) == v(D::vdot_spec(x, q.frees[i].linear)));
        if moved && has_free(c) && i == t {
            assert(a.frees[i].linear == D::vadd_spec(
                p.frees[i].linear,
                D::vscale_spec(c.lin_jac, k),
            ));
            assert(b.frees[i].linear == D::vadd_spec(
                q.frees[i].linear,
                D::vscale_spec(c.lin_jac, k2),
            ));
        }
    }
    assert forall|i: int, x: D::A| 0 <= i < a.frees.len() implies v(
        #[trigger] D::gdot_spec(x, a.frees[i].angular),
    ) == v(D::gdot_spec(x, b.frees[i].angular)) by {
        assert(v(D::gdot_spec(x, p.frees[i].angular)) == v(D::gdot_spec(x, q.frees[i].angular)));
        if moved && has_free(c) && i == t {
            assert(a.frees[i].angular == D::aadd_spec(
                p.frees[i].angular,
                D::ascale_spec(c.ii_ang_jac, delta),
            ));
            assert(b.frees[i].angular == D::aadd_spec(
                q.frees[i].angular,
                D::ascale_spec(c.ii_ang_jac, delta2),
            ));
        }
    }
}

/// A constraint-space step leaves out what would change nothing: an impulse change
/// of zero, and a push on a body that cannot move.
proof fn lemma_step_is_apply<S: Scalar, D: Space<S>>(
    v: spec_fn(S) -> real,
    cons: Seq<MultibodyContactConstraint<S, D>>,
    cols: Seq<Seq<S>>,
    d: Seq<Seq<S>>,
    use_bias: bool,
    st0: DelassusSweep<S, D>,
    k: int,
)
    requires
        exact(v),
        linear_space::<S, D>(v),
        0 < k <= cons.len(),
        st0.st.imps.len() == cons.len(),
        contacts_ok(cons, st0.st.frees.len() as int),
    ensures
        ({
            let p = delassus_sweep(cons, cols, d, use_bias, st0, k - 1);
            let c = cons[k - 1];
            let imp = contact_impulse(
                c,
                p.st.imps[k - 1],
                p.a[k - 1].plus_spec(live_rhs(c, use_bias)),
                p.st.imps[c.normal_constraint_slot as int],
            );
            same_sweep(
                v,
                delassus_sweep(cons, cols, d, use_bias, st0, k).st,
                contact_apply(
                    c,
                    column(cols, k - 1),
                    k - 1,
                    imp,
                    imp.minus_spec(p.st.imps[k - 1]),
                    p.st,
                ),
            )
        }),
{
    lemma_delassus_sweep_len(cons, cols, d, use_bias, st0, k - 1);
    let p = delassus_sweep(cons, cols, d, use_bias, st0, k - 1);
    let c = cons[k - 1];
    let imp = contact_impulse(
        c,
        p.st.imps[k - 1],
        p.a[k - 1].plus_spec(live_rhs(c, use_bias)),
        p.st.imps[c.normal_constraint_slot as int],
    );
    let delta = imp.minus_spec(p.st.imps[k - 1]);
    let a = delassus_sweep(cons, cols, d, use_bias, st0, k).st;
    let b = contact_apply(c, column(cols, k - 1), k - 1, imp, delta, p.st);
    assert(has_free(c) ==> c.free_body_id < p.st.frees.len());
    let t = c.free_body_id as int;
    let w = c.free_body_im.times_spec(delta);
    if has_free(c) && !free_active(c) {
        lemma_zero(v(delta));
        assert(v(w) == 0real);
        assert forall|x: D::V| v(
            #[trigger] D::vdot_spec(
                x,
                D::vadd_spec(p.st.frees[t].linear, D::vscale_spec(c.lin_jac, w)),
            ),
        ) == v(D::vdot_spec(x, p.st.frees[t].linear)) by {
            lemma_zero(v(D::vdot_spec(x, c.lin_jac)));
        }
        assert forall|x: D::A| v(
            #[trigger] D::gdot_spec(
                x,
                D::aadd_spec(p.st.frees[t].angular, D::ascale_spec(c.ii_ang_jac, delta)),
            ),
        ) == v(D::gdot_spec(x, p.st.frees[t].angular)) by {
            assert(v(D::gdot_spec(x, c.ii_ang_jac)) == 0real);
        }
    }
    assert(a.dofv =~= b.dofv);
}

proof fn lemma_same_sweep_trans<S: Scalar, D: Space<S>>(
    v: spec_fn(S) -> real,
    p: ContactSweep<S, D>,
    q: ContactSweep<S, D>,
    r: ContactSweep<S, D>,
)
    requires
        same_sweep(v, p, q),
        same_sweep(v, q, r),
    ensures
        same_sweep(v, p, r),
{
    assert forall|i: int, x: D::V| 0 <= i < p.frees.len() implies v(
        #[trigger] D::vdot_spec(x, p.frees[i].linear),
    ) == v(D::vdot_spec(x, r.frees[i].linear)) by {
        assert(v(D::vdot_spec(x, q.frees[i].linear)) == v(D::vdot_spec(x, r.frees[i].linear)));
    }
    assert forall|i: int, x: D::A| 0 <= i < p.frees.len() implies v(
        #[trigger] D::gdot_spec(x, p.frees[i].angular),
    ) == v(D::gdot_spec(x, r.frees[i].angular)) by {
        assert(v(D::gdot_spec(x, q.frees[i].angular)) == v(D::gdot_spec(x, r.frees[i].angular)));
    }
    assert forall|i: int| 0 <= i < p.dofv.len() implies v(#[trigger] p.dofv[i]) == v(r.dofv[i]) by {
        assert(v(q.dofv[i]) == v(r.dofv[i]));
    }
    assert forall|i: int| 0 <= i < p.imps.len() implies v(#[trigger] p.imps[i]) == v(r.imps[i]) by {
        assert(v(q.imps[i]) == v(r.imps[i]));
    }
}

/// In exact arithmetic the constraint-space sweep is the sweep in velocity space:
/// with the Delassus matrix of its constraints, and started from the velocities
/// along them, it ends in the same impulses, generalized velocities and velocities
/// of the free bodies. The constraints are those whose live right-hand side is the
/// one of the sweep, such as those that keep no estimate.
pub proof fn constraint_space_sweep_is_the_sweep<S: Scalar, D: Space<S>>(
    v: spec_fn(S) -> real,
    cons: Seq<MultibodyContactConstraint<S, D>>,
    jacs: Seq<Seq<S>>,
    cols: Seq<Seq<S>>,
    d: Seq<Seq<S>>,
    use_bias: bool,
    st: ContactSweep<S, D>,
    k: int,
)
    requires
        exact(v),
        ordered(v),
        linear_space::<S, D>(v),
        0 <= k <= cons.len(),
        st.imps.len() == cons.len(),
        st.dofv.len() == jacs.len(),
        jacs.len() == cols.len(),
        contacts_ok(cons, st.frees.len() as int),
        is_delassus(cons, jacs, cols, d),
        forall|s: int|
            0 <= s < cons.len() ==> v(live_rhs(#[trigger] cons[s], use_bias)) == v(
                swept_rhs(cons[s], use_bias),
            ),
    ensures
        same_sweep(
            v,
            delassus_sweep(
                cons,
                cols,
                d,
                use_bias,
                (DelassusSweep {
                    a: contact_velocities(cons, jacs, st.dofv, st.frees),
                    st: st,
                }),
                k,
            ).st,
            contact_sweep(cons, jacs, cols, use_bias, st, k),
        ),
    decreases k,
{
    let st0 = DelassusSweep { a: contact_velocities(cons, jacs, st.dofv, st.frees), st: st };
    if k > 0 {
        constraint_space_sweep_is_the_sweep(v, cons, jacs, cols, d, use_bias, st, k - 1);
        constraint_space_tracks_velocities(v, cons, jacs, cols, d, use_bias, st0, k - 1);
        lemma_delassus_sweep_len(cons, cols, d, use_bias, st0, k - 1);
        lemma_contact_sweep_len(cons, jacs, cols, use_bias, st, k - 1);
        lemma_step_is_apply(v, cons, cols, d, use_bias, st0, k);
        let s = k - 1;
        let c = cons[s];
        let p = delassus_sweep(cons, cols, d, use_bias, st0, s);
        let q = contact_sweep(cons, jacs, cols, use_bias, st, s);
        let n = c.normal_constraint_slot as int;
        assert(c.normal_constraint_slot < cons.len());
        assert(has_free(c) ==> c.free_body_id < st.frees.len());
        lemma_velocity_same(v, c, column(jacs, s), p.st, q);
        let at = contact_velocity(c, column(jacs, s), q.dofv, q.frees);
        assert(v(p.a[s]) == v(
            contact_velocity(cons[s], column(jacs, s), p.st.dofv, p.st.frees),
        ));
        let rp = p.a[s].plus_spec(live_rhs(c, use_bias));
        let rq = at.plus_spec(swept_rhs(c, use_bias));
        assert(v(live_rhs(cons[s], use_bias)) == v(swept_rhs(cons[s], use_bias)));
        assert(v(rp) == v(rq));
        assert(v(p.st.imps[s]) == v(q.imps[s]));
        assert(v(p.st.imps[n]) == v(q.imps[n]));
        lemma_impulse_same(v, c, p.st.imps[s], rp, p.st.imps[n], q.imps[s], rq, q.imps[n]);
        let ip = contact_impulse(c, p.st.imps[s], rp, p.st.imps[n]);
        let iq = contact_impulse(c, q.imps[s], rq, q.imps[n]);
        let col = column(cols, s);
        let dp = ip.minus_spec(p.st.imps[s]);
        let dq = iq.minus_spec(q.imps[s]);
        lemma_apply_same(v, c, col, s, ip, iq, dp, dq, p.st, q);
        lemma_same_sweep_trans(
            v,
            delassus_sweep(cons, cols, d, use_bias, st0, k).st,
            contact_apply(c, col, s, ip, dp, p.st),
            contact_apply(c, col, s, iq, dq, q),
        );
    }
}

/// A step goes by the readings of what it starts from.
proof fn lemma_impulse_same<S: Scalar, D: Space<S>>(
    v: spec_fn(S) -> real,
    c: MultibodyContactConstraint<S, D>,
    i1: S,
    r1: S,
    n1: S,
    i2: S,
    r2: S,
    n2: S,
)
    requires
        exact(v),
        ordered(v),
        v(i1) == v(i2),
        v(r1) == v(r2),
        v(n1) == v(n2),
    ensures
        v(contact_impulse(c, i1, r1, n1)) == v(contact_impulse(c, i2, r2, n2)),
{
    let s1 = i1.minus_spec(c.inv_lhs.times_spec(r1));
    let s2 = i2.minus_spec(c.inv_lhs.times_spec(r2));
    assert(v(s1) == v(s2));
    if c.kind == MB_CONTACT_KIND_TANGENT {
        lemma_clamped_same(v, c, c, s1, s2, n1, n2);
    } else {
        lemma_clamped_same(
            v,
            c,
            c,
            c.cfm_factor.times_spec(s1),
            c.cfm_factor.times_spec(s2),
            n1,
            n2,
        );
    }
}

/// The compliance of a constraint is the same in both of its forms: a factor, and a
/// coefficient of which it is the damping. Friction is rigid.
pub open spec fn soft_alike<S: Scalar, D: Space<S>>(
    v: spec_fn(S) -> real,
    c: MultibodyContactConstraint<S, D>,
) -> bool {
    &&& v(c.cfm_gain) == 0real
    &&& if c.kind == MB_CONTACT_KIND_TANGENT {
        v(c.cfm_coeff) == 0real
    } else {
        v(c.cfm_factor) * (1real + v(c.cfm_coeff)) == 1real
    }
}

proof fn lemma_over(x: real, f: real, d: real)
    requires
        f * d == 1real,
    ensures
        d != 0real,
        x / d == f * x,
{
    if d == 0real {
        lemma_zero(f);
    }
    assert(x / d == f * x) by (nonlinear_arith)
        requires
            f * d == 1real,
            d != 0real,
    ;
}

/// A step of the interleaved sweep is a step of the sweep.
proof fn lemma_soa_impulse<S: Scalar, D: Space<S>>(
    v: spec_fn(S) -> real,
    c: MultibodyContactConstraint<S, D>,
    e: MultibodyContactConstraint<S, D>,
    i1: S,
    r1: S,
    n1: S,
    i2: S,
    r2: S,
    n2: S,
)
    requires
        exact(v),
        ordered(v),
        soft_alike(v, c),
        e.kind == c.kind,
        e.friction_coeff == c.friction_coeff,
        e.inv_lhs == c.inv_lhs,
        e.cfm_coeff == c.cfm_coeff,
        e.cfm_gain == c.cfm_gain,
        v(i1) == v(i2),
        v(r1) == v(r2),
        v(n1) == v(n2),
    ensures
        v(soa_impulse(e, i1, r1, n1)) == v(contact_impulse(c, i2, r2, n2)),
{
    let gain = c.cfm_gain.times_spec(i1);
    let s1 = i1.minus_spec(c.inv_lhs.times_spec(r1.plus_spec(gain)));
    let s2 = i2.minus_spec(c.inv_lhs.times_spec(r2));
    lemma_zero(v(i1));
    assert(v(r1.plus_spec(gain)) == v(r2));
    assert(v(s1) == v(s2));
    let one = S::one_spec().plus_spec(c.cfm_coeff);
    if c.kind == MB_CONTACT_KIND_TANGENT {
        lemma_over(v(s1), 1real, 1real);
        assert(v(s1.over_spec(one)) == v(s2));
        lemma_clamped_same(v, e, c, s1.over_spec(one), s2, n1, n2);
    } else {
        lemma_over(v(s1), v(c.cfm_factor), v(one));
        let soft = c.cfm_factor.times_spec(s2);
        assert(v(s1.over_spec(one)) == v(soft));
        lemma_clamped_same(v, e, c, s1.over_spec(one), soft, n1, n2);
    }
}

/// In exact arithmetic the interleaved sweep is the sweep: over active constraints
/// whose compliance is the same in both forms, it ends in the same impulses,
/// generalized velocities and velocities of the free bodies. Removing the bias
/// first gives the sweep without bias.
pub proof fn interleaved_sweep_is_the_sweep<S: Scalar, D: Space<S>>(
    v: spec_fn(S) -> real,
    cons: Seq<MultibodyContactConstraint<S, D>>,
    jacs: Seq<Seq<S>>,
    cols: Seq<Seq<S>>,
    use_bias: bool,
    st: ContactSweep<S, D>,
    k: int,
)
    requires
        exact(v),
        ordered(v),
        linear_space::<S, D>(v),
        0 <= k <= cons.len(),
        st.imps.len() == cons.len(),
        contacts_ok(cons, st.frees.len() as int),
        forall|s: int|
            0 <= s < cons.len() ==> soft_alike(v, #[trigger] cons[s]) && cons[s].kind
                != MB_CONTACT_KIND_INACTIVE,
    ensures
        same_sweep(
            v,
            soa_sweep(sweep_constraints(cons, !use_bias), jacs, cols, st, k),
            contact_sweep(cons, jacs, cols, use_bias, st, k),
        ),
    decreases k,
{
    let own = sweep_constraints(cons, !use_bias);
    if k > 0 {
        interleaved_sweep_is_the_sweep(v, cons, jacs, cols, use_bias, st, k - 1);
        assert(contacts_ok(own, st.frees.len() as int)) by {
            assert forall|s: int| 0 <= s < own.len() implies (#[trigger] own[s]).normal_constraint_slot
                < own.len() && (has_free(own[s]) ==> own[s].free_body_id < st.frees.len()) by {
                assert(cons[s].normal_constraint_slot < cons.len());
            }
        }
        lemma_soa_sweep_len(own, jacs, cols, st, k - 1);
        lemma_contact_sweep_len(cons, jacs, cols, use_bias, st, k - 1);
        let s = k - 1;
        let c = cons[s];
        let e = own[s];
        assert(soft_alike(v, cons[s]));
        assert(e == (MultibodyContactConstraint { rhs: swept_rhs(c, use_bias), ..c }));
        let p = soa_sweep(own, jacs, cols, st, s);
        let q = contact_sweep(cons, jacs, cols, use_bias, st, s);
        let n = c.normal_constraint_slot as int;
        assert(c.normal_constraint_slot < cons.len());
        assert(has_free(c) ==> c.free_body_id < st.frees.len());
        let jac = column(jacs, s);
        lemma_velocity_same(v, c, jac, p, q);
        let ap = contact_velocity(e, jac, p.dofv, p.frees);
        assert(ap == contact_velocity(c, jac, p.dofv, p.frees));
        let aq = contact_velocity(c, jac, q.dofv, q.frees);
        let rp = ap.plus_spec(e.rhs);
        let rq = aq.plus_spec(swept_rhs(c, use_bias));
        assert(v(rp) == v(rq));
        assert(v(p.imps[s]) == v(q.imps[s]));
        assert(v(p.imps[n]) == v(q.imps[n]));
        lemma_soa_impulse(v, c, e, p.imps[s], rp, p.imps[n], q.imps[s], rq, q.imps[n]);
        let ip = soa_impulse(e, p.imps[s], rp, p.imps[n]);
        let iq = contact_impulse(c, q.imps[s], rq, q.imps[n]);
        let col = column(cols, s);
        let dp = ip.minus_spec(p.imps[s]);
        let dq = iq.minus_spec(q.imps[s]);
        lemma_apply_same(v, c, col, s, ip, iq, dp, dq, p, q);
        assert(contact_apply(e, col, s, ip, dp, p) == contact_apply(c, col, s, ip, dp, p));
    }
}

/// A constraint as it is built keeps no estimate, so that the constraint-space sweep
/// solves it for the right-hand side of the sweep, and its compliance is the same in
/// both forms. Its finalized inverse and its impulse do not matter.
pub proof fn built_contacts_are_swept_alike<S: Scalar, D: Space<S>>(
    v: spec_fn(S) -> real,
    soft: ConstraintSoftness<S>,
    mb_idx: u32,
    ndofs: int,
    jac: spec_fn(int) -> Seq<Seq<S>>,
    g: ContactGeometry<S, D>,
    pt: D::V,
    dist: S,
    normal_slot: u32,
    i: int,
    inv_lhs: S,
    impulse: S,
    use_bias: bool,
)
    requires
        exact(v),
    ensures
        ({
            let c = MultibodyContactConstraint {
                inv_lhs: inv_lhs,
                impulse: impulse,
                ..contact_row(soft, mb_idx, ndofs, jac, g, pt, dist, normal_slot, i).cons
            };
            &&& !keeps_estimate(c)
            &&& live_rhs(c, use_bias) == swept_rhs(c, use_bias)
            &&& c.kind != MB_CONTACT_KIND_INACTIVE
            &&& v(soft.cfm_factor) != 0real ==> soft_alike(v, c)
        }),
{
    let f = v(soft.cfm_factor);
    if f != 0real {
        assert(f * (1real / f) == 1real) by (nonlinear_arith)
            requires
                f != 0real,
        ;
        assert(1real + (1real / f - 1real) == 1real / f);
    }
}

} // verus!
