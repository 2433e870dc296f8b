//! Projected Gauss-Seidel sweeps over the constraints of one multibody.
//!
//! A sweep visits the constraints in slot order. Each step moves one impulse
//! towards the value that cancels the constraint's velocity error, keeps it
//! inside its bounds, and applies the change to the velocities that the next
//! step reads.
use super::types::{
    MB_CONTACT_KIND_NORMAL, MB_CONTACT_KIND_TANGENT, MB_JOINT_KIND_LIMIT, MB_JOINT_KIND_MOTOR,
    MultibodyContactConstraint, MultibodyJointConstraint, NO_FREE_BODY,
};
use crate::scalar::{Scalar, clamp, clamp_spec};
use crate::space::{Dimension, Space, Velocity};
use crate::views::{
    MatView, VecView, mat_get, mat_of, same_outside_mat, same_outside_vec, vec_get, vec_of, vec_set,
};
use vstd::prelude::*;

verus! {

/// Column `c` of a matrix.
pub open spec fn column<S>(m: Seq<Seq<S>>, c: int) -> Seq<S> {
    Seq::new(m.len(), |r: int| m[r][c])
}

/// Column `c` of a matrix view, as a vector view.
pub open spec fn column_view(m: MatView, c: int) -> VecView {
    VecView {
        base: (m.base + c * m.col_stride) as usize,
        stride: m.row_stride,
        len: m.nrows,
    }
}

/// A change inside one column leaves the other columns, and everything
/// outside the matrix, alone.
pub proof fn lemma_column_change<S>(before: Seq<S>, after: Seq<S>, m: MatView, c: int)
    requires
        m.fits(before.len() as int),
        0 <= c < m.ncols,
        same_outside_vec(before, after, column_view(m, c)),
    ensures
        m.nrows > 0 ==> column_view(m, c).base == m.base + c * m.col_stride,
        m.nrows > 0 ==> 0 <= c * m.col_stride <= usize::MAX,
        column_view(m, c).fits(before.len() as int),
        vec_of(after, column_view(m, c)) == column(mat_of(after, m), c),
        vec_of(before, column_view(m, c)) == column(mat_of(before, m), c),
        forall|j: int|
            0 <= j < m.ncols && j != c ==> #[trigger] column(mat_of(after, m), j) == column(
                mat_of(before, m),
                j,
            ),
        same_outside_mat(before, after, m),
{
    let v = column_view(m, c);
    let n = before.len() as int;
    if m.nrows > 0 {
        m.lemma_idx(n, 0, c);
        m.lemma_idx(n, m.nrows - 1, c);
        assert(v.base == m.base + c * m.col_stride);
        assert forall|i: int| 0 <= i < m.nrows implies #[trigger] v.idx_spec(i) == m.idx_spec(
            i,
            c,
        ) by {}
        assert(v.idx_spec(m.nrows - 1) == m.idx_spec(m.nrows - 1, c));
    }
    assert(vec_of(after, v) =~= column(mat_of(after, m), c));
    assert(vec_of(before, v) =~= column(mat_of(before, m), c));
    assert forall|j: int| 0 <= j < m.ncols && j != c implies #[trigger] column(
        mat_of(after, m),
        j,
    ) == column(mat_of(before, m), j) by {
        assert forall|r: int| 0 <= r < m.nrows implies #[trigger] mat_of(after, m)[r][j]
            == mat_of(before, m)[r][j] by {
            m.lemma_idx(n, r, j);
            let e = m.idx_spec(r, j);
            if v.holds(e) {
                let i = choose|i: int| 0 <= i < v.len && #[trigger] v.idx_spec(i) == e;
                assert(m.idx_spec(i, c) == e);
                m.lemma_distinct(n, r, j, i, c);
            }
            assert(before[e] == after[e]);
        }
        assert(column(mat_of(after, m), j) =~= column(mat_of(before, m), j));
    }
    assert forall|e: int| 0 <= e < n && !m.holds(e) implies #[trigger] before[e] == after[e] by {
        if v.holds(e) {
            let i = choose|i: int| 0 <= i < v.len && #[trigger] v.idx_spec(i) == e;
            assert(m.idx_spec(i, c) == e);
        }
    }
}

/// `x + k col`, entry by entry.
pub open spec fn axpy<S: Scalar>(x: Seq<S>, k: S, col: Seq<S>) -> Seq<S> {
    Seq::new(x.len(), |i: int| x[i].plus_spec(k.times_spec(col[i])))
}

/// `x - k col`, entry by entry.
pub open spec fn axmy<S: Scalar>(x: Seq<S>, k: S, col: Seq<S>) -> Seq<S> {
    Seq::new(x.len(), |i: int| x[i].minus_spec(k.times_spec(col[i])))
}

/// The dot product of the first `n` entries, added from the left.
pub open spec fn dot_fold<S: Scalar>(a: Seq<S>, b: Seq<S>, n: int) -> S
    decreases n,
{
    if n <= 0 {
        S::zero_spec()
    } else {
        dot_fold(a, b, n - 1).plus_spec(a[n - 1].times_spec(b[n - 1]))
    }
}

pub(crate) fn add_column<S: Scalar>(x: &mut Vec<S>, k: S, buf: &[S], m: MatView, c: usize)
    requires
        m.fits(buf@.len() as int),
        m.nrows == old(x)@.len(),
        c < m.ncols,
    ensures
        final(x)@ == axpy(old(x)@, k, column(mat_of(buf@, m), c as int)),
{
    let ghost x0 = x@;
    let ghost out = axpy(x0, k, column(mat_of(buf@, m), c as int));
    let n: usize = x.len();
    let mut i: usize = 0;
    while i < n
        invariant
            m.fits(buf@.len() as int),
            m.nrows == n,
            n == x@.len(),
            x0.len() == n,
            c < m.ncols,
            i <= n,
            out == axpy(x0, k, column(mat_of(buf@, m), c as int)),
            forall|j: int|
                0 <= j < n ==> #[trigger] x@[j] == (if j < i {
                    out[j]
                } else {
                    x0[j]
                }),
        decreases n - i,
    {
        let v = x[i].plus(k.times(mat_get(buf, m, i, c)));
        x.set(i, v);
        i = i + 1;
    }
    assert(x@ =~= out);
}

pub(crate) fn sub_column<S: Scalar>(x: &mut Vec<S>, k: S, buf: &[S], m: MatView, c: usize)
    requires
        m.fits(buf@.len() as int),
        m.nrows == old(x)@.len(),
        c < m.ncols,
    ensures
        final(x)@ == axmy(old(x)@, k, column(mat_of(buf@, m), c as int)),
{
    let ghost x0 = x@;
    let ghost out = axmy(x0, k, column(mat_of(buf@, m), c as int));
    let n: usize = x.len();
    let mut i: usize = 0;
    while i < n
        invariant
            m.fits(buf@.len() as int),
            m.nrows == n,
            n == x@.len(),
            x0.len() == n,
            c < m.ncols,
            i <= n,
            out == axmy(x0, k, column(mat_of(buf@, m), c as int)),
            forall|j: int|
                0 <= j < n ==> #[trigger] x@[j] == (if j < i {
                    out[j]
                } else {
                    x0[j]
                }),
        decreases n - i,
    {
        let v = x[i].minus(k.times(mat_get(buf, m, i, c)));
        x.set(i, v);
        i = i + 1;
    }
    assert(x@ =~= out);
}

pub(crate) fn dot_column<S: Scalar>(x: &Vec<S>, buf: &[S], m: MatView, c: usize) -> (r: S)
    requires
        m.fits(buf@.len() as int),
        m.nrows == x@.len(),
        c < m.ncols,
    ensures
        r == dot_fold(column(mat_of(buf@, m), c as int), x@, x@.len() as int),
{
    let n: usize = x.len();
    let mut acc = S::zero();
    let mut i: usize = 0;
    while i < n
        invariant
            m.fits(buf@.len() as int),
            m.nrows == n,
            n == x@.len(),
            c < m.ncols,
            i <= n,
            acc == dot_fold(column(mat_of(buf@, m), c as int), x@, i as int),
        decreases n - i,
    {
        acc = acc.plus(mat_get(buf, m, i, c).times(x[i]));
        i = i + 1;
    }
    acc
}

/// The dot product of two columns, added from the left.
pub(crate) fn dot_columns<S: Scalar>(
    a: &[S],
    am: MatView,
    ac: usize,
    b: &[S],
    bm: MatView,
    bc: usize,
) -> (r: S)
    requires
        am.fits(a@.len() as int),
        bm.fits(b@.len() as int),
        am.nrows == bm.nrows,
        ac < am.ncols,
        bc < bm.ncols,
    ensures
        r == dot_fold(
            column(mat_of(a@, am), ac as int),
            column(mat_of(b@, bm), bc as int),
            am.nrows as int,
        ),
{
    let mut acc = S::zero();
    let mut i: usize = 0;
    while i < am.nrows
        invariant
            am.fits(a@.len() as int),
            bm.fits(b@.len() as int),
            am.nrows == bm.nrows,
            ac < am.ncols,
            bc < bm.ncols,
            i <= am.nrows,
            acc == dot_fold(
                column(mat_of(a@, am), ac as int),
                column(mat_of(b@, bm), bc as int),
                i as int,
            ),
        decreases am.nrows - i,
    {
        acc = acc.plus(mat_get(a, am, i, ac).times(mat_get(b, bm, i, bc)));
        i = i + 1;
    }
    acc
}

// ---- joint sweep ----

/// Whether a joint constraint takes part in the sweep.
pub open spec fn joint_active<S: Scalar>(c: MultibodyJointConstraint<S>) -> bool {
    c.kind == MB_JOINT_KIND_LIMIT || c.kind == MB_JOINT_KIND_MOTOR
}

/// The impulse of a joint constraint after a step at velocity `v`.
pub open spec fn joint_impulse<S: Scalar>(
    c: MultibodyJointConstraint<S>,
    v: S,
    use_bias: bool,
) -> S {
    let rhs = if use_bias {
        c.rhs
    } else {
        c.rhs_wo_bias
    };
    clamp_spec(
        c.impulse.plus_spec(
            c.inv_lhs.times_spec(
                v.plus_spec(rhs).minus_spec(c.cfm_gain.times_spec(c.impulse)),
            ),
        ),
        c.impulse_lo,
        c.impulse_hi,
    )
}

/// Constraints and velocities during a joint sweep.
pub struct JointSweep<S: Scalar> {
    pub cons: Seq<MultibodyJointConstraint<S>>,
    pub dofv: Seq<S>,
}

/// The state after the first `k` joint constraints; column `s` of `cols` is
/// the response of the velocities to a unit impulse of constraint `s`.
pub open spec fn joint_sweep<S: Scalar>(
    cons: Seq<MultibodyJointConstraint<S>>,
    cols: Seq<Seq<S>>,
    dofv: Seq<S>,
    use_bias: bool,
    k: int,
) -> JointSweep<S>
    decreases k,
{
    if k <= 0 {
        JointSweep { cons: cons, dofv: dofv }
    } else {
        let st = joint_sweep(cons, cols, dofv, use_bias, k - 1);
        let c = st.cons[k - 1];
        if joint_active(c) {
            let imp = joint_impulse(c, st.dofv[c.dof_id as int], use_bias);
            let delta = imp.minus_spec(c.impulse);
            JointSweep {
                cons: st.cons.update(k - 1, MultibodyJointConstraint { impulse: imp, ..c }),
                dofv: axmy(st.dofv, delta, column(cols, k - 1)),
            }
        } else {
            st
        }
    }
}

/// The constrained degrees of freedom exist.
pub open spec fn joint_dofs_ok<S: Scalar>(
    cons: Seq<MultibodyJointConstraint<S>>,
    ndofs: int,
) -> bool {
    forall|s: int| 0 <= s < cons.len() && joint_active(#[trigger] cons[s]) ==> cons[s].dof_id < ndofs
}

/// The sweep changes impulses only, and keeps every length.
pub proof fn lemma_joint_sweep_frame<S: Scalar>(
    cons: Seq<MultibodyJointConstraint<S>>,
    cols: Seq<Seq<S>>,
    dofv: Seq<S>,
    use_bias: bool,
    k: int,
)
    requires
        0 <= k <= cons.len(),
    ensures
        joint_sweep(cons, cols, dofv, use_bias, k).cons.len() == cons.len(),
        joint_sweep(cons, cols, dofv, use_bias, k).dofv.len() == dofv.len(),
        forall|s: int|
            k <= s < cons.len() ==> #[trigger] joint_sweep(
                cons,
                cols,
                dofv,
                use_bias,
                k,
            ).cons[s] == cons[s],
    decreases k,
{
    if k > 0 {
        lemma_joint_sweep_frame(cons, cols, dofv, use_bias, k - 1);
    }
}

/// One sweep over the joint constraints.
pub fn run_joint_sweep<S: Scalar>(
    cons: &mut [MultibodyJointConstraint<S>],
    cv: VecView,
    cols: &[S],
    colv: MatView,
    dofv: &mut Vec<S>,
    use_bias: bool,
)
    requires
        cv.fits(old(cons)@.len() as int),
        colv.fits(cols@.len() as int),
        colv.ncols == cv.len,
        colv.nrows == old(dofv)@.len(),
        joint_dofs_ok(vec_of(old(cons)@, cv), old(dofv)@.len() as int),
    ensures
        ({
            let st = joint_sweep(
                vec_of(old(cons)@, cv),
                mat_of(cols@, colv),
                old(dofv)@,
                use_bias,
                cv.len as int,
            );
            &&& vec_of(final(cons)@, cv) == st.cons
            &&& final(dofv)@ == st.dofv
        }),
        same_outside_vec(old(cons)@, final(cons)@, cv),
{
    let ghost c0 = vec_of(cons@, cv);
    let ghost v0 = dofv@;
    let ghost m = mat_of(cols@, colv);
    let mut s: usize = 0;
    while s < cv.len
        invariant
            cv.fits(old(cons)@.len() as int),
            colv.fits(cols@.len() as int),
            colv.ncols == cv.len,
            colv.nrows == v0.len(),
            c0 == vec_of(old(cons)@, cv),
            m == mat_of(cols@, colv),
            joint_dofs_ok(c0, v0.len() as int),
            s <= cv.len,
            vec_of(cons@, cv) == joint_sweep(c0, m, v0, use_bias, s as int).cons,
            dofv@ == joint_sweep(c0, m, v0, use_bias, s as int).dofv,
            same_outside_vec(old(cons)@, cons@, cv),
        decreases cv.len - s,
    {
        proof {
            lemma_joint_sweep_frame(c0, m, v0, use_bias, s as int);
        }
        let mut c = vec_get(cons, cv, s);
        assert(c == c0[s as int]);
        if c.kind == MB_JOINT_KIND_LIMIT || c.kind == MB_JOINT_KIND_MOTOR {
            let rhs = if use_bias {
                c.rhs
            } else {
                c.rhs_wo_bias
            };
            let v = dofv[c.dof_id as usize];
            let imp = clamp(
                c.impulse.plus(c.inv_lhs.times(v.plus(rhs).minus(c.cfm_gain.times(c.impulse)))),
                c.impulse_lo,
                c.impulse_hi,
            );
            let delta = imp.minus(c.impulse);
            c.impulse = imp;
            vec_set(cons, cv, s, c);
            sub_column(dofv, delta, cols, colv, s);
        }
        s = s + 1;
    }
}

// ---- contact sweep ----

/// The bounded impulse of a contact constraint. A normal pushes only; a
/// tangent stays within the friction coefficient times the normal impulse.
pub open spec fn contact_clamped<S: Scalar, D: Space<S>>(
    c: MultibodyContactConstraint<S, D>,
    raw: S,
    normal_impulse: S,
) -> S {
    if c.kind == MB_CONTACT_KIND_TANGENT {
        let limit = c.friction_coeff.times_spec(normal_impulse);
        if limit.lt_spec(raw) {
            limit
        } else if raw.lt_spec(limit.neg_spec()) {
            limit.neg_spec()
        } else {
            raw
        }
    } else if raw.lt_spec(S::zero_spec()) {
        S::zero_spec()
    } else {
        raw
    }
}

/// The impulse of a contact constraint after a step. Only normals are soft.
pub open spec fn contact_impulse<S: Scalar, D: Space<S>>(
    c: MultibodyContactConstraint<S, D>,
    impulse: S,
    rhs_total: S,
    normal_impulse: S,
) -> S {
    let stiff = impulse.minus_spec(c.inv_lhs.times_spec(rhs_total));
    contact_clamped(
        c,
        if c.kind == MB_CONTACT_KIND_TANGENT {
            stiff
        } else {
            c.cfm_factor.times_spec(stiff)
        },
        normal_impulse,
    )
}

fn contact_impulse_exec<S: Scalar, D: Space<S>>(
    c: &MultibodyContactConstraint<S, D>,
    impulse: S,
    rhs_total: S,
    normal_impulse: S,
) -> (r: S)
    ensures
        r == contact_impulse(*c, impulse, rhs_total, normal_impulse),
{
    let stiff = impulse.minus(c.inv_lhs.times(rhs_total));
    if c.kind == MB_CONTACT_KIND_TANGENT {
        let limit = c.friction_coeff.times(normal_impulse);
        if limit.lt(stiff) {
            limit
        } else if stiff.lt(limit.negate()) {
            limit.negate()
        } else {
            stiff
        }
    } else {
        let raw = c.cfm_factor.times(stiff);
        if raw.lt(S::zero()) {
            S::zero()
        } else {
            raw
        }
    }
}

/// Whether the other side of a contact is a free body.
pub open spec fn has_free<S: Scalar, D: Space<S>>(c: MultibodyContactConstraint<S, D>) -> bool {
    c.free_body_id != NO_FREE_BODY
}

/// The free body's share of the velocity along a constraint.
pub open spec fn free_velocity<S: Scalar, D: Space<S>>(
    c: MultibodyContactConstraint<S, D>,
    free: Velocity<S, D>,
) -> S {
    D::vdot_spec(c.lin_jac, free.linear).plus_spec(D::gdot_spec(c.ang_jac, free.angular))
}

/// The velocity along constraint `c`: the multibody's share, then the free
/// body's.
pub open spec fn contact_velocity<S: Scalar, D: Space<S>>(
    c: MultibodyContactConstraint<S, D>,
    jac: Seq<S>,
    dofv: Seq<S>,
    frees: Seq<Velocity<S, D>>,
) -> S {
    let own = dot_fold(jac, dofv, dofv.len() as int);
    if has_free(c) {
        own.plus_spec(free_velocity(c, frees[c.free_body_id as int]))
    } else {
        own
    }
}

/// A free body's velocity after an impulse along a constraint.
pub open spec fn pushed<S: Scalar, D: Space<S>>(
    c: MultibodyContactConstraint<S, D>,
    free: Velocity<S, D>,
    delta: S,
) -> Velocity<S, D> {
    Velocity {
        linear: D::vadd_spec(
            free.linear,
            D::vscale_spec(c.lin_jac, c.free_body_im.times_spec(delta)),
        ),
        angular: D::aadd_spec(free.angular, D::ascale_spec(c.ii_ang_jac, delta)),
    }
}

pub(crate) fn push_free<S: Scalar, D: Space<S>>(
    c: &MultibodyContactConstraint<S, D>,
    free: Velocity<S, D>,
    delta: S,
) -> (r: Velocity<S, D>)
    ensures
        r == pushed(*c, free, delta),
{
    Velocity {
        linear: D::vadd(free.linear, D::vscale(c.lin_jac, c.free_body_im.times(delta))),
        angular: D::aadd(free.angular, D::ascale(c.ii_ang_jac, delta)),
    }
}

/// Velocities and impulses during a contact sweep.
pub struct ContactSweep<S: Scalar, D: Space<S>> {
    pub dofv: Seq<S>,
    pub imps: Seq<S>,
    pub frees: Seq<Velocity<S, D>>,
}

/// What an impulse change `delta` of constraint `s` does to the velocities.
pub open spec fn contact_apply<S: Scalar, D: Space<S>>(
    c: MultibodyContactConstraint<S, D>,
    col: Seq<S>,
    s: int,
    imp: S,
    delta: S,
    st: ContactSweep<S, D>,
) -> ContactSweep<S, D> {
    let moved = !delta.same_spec(S::zero_spec());
    ContactSweep {
        dofv: if moved {
            axpy(st.dofv, delta, col)
        } else {
            st.dofv
        },
        imps: st.imps.update(s, imp),
        frees: if moved && has_free(c) {
            st.frees.update(
                c.free_body_id as int,
                pushed(c, st.frees[c.free_body_id as int], delta),
            )
        } else {
            st.frees
        },
    }
}

/// The state after the first `k` contact constraints.
pub open spec fn contact_sweep<S: Scalar, D: Space<S>>(
    cons: Seq<MultibodyContactConstraint<S, D>>,
    jacs: Seq<Seq<S>>,
    cols: Seq<Seq<S>>,
    use_bias: bool,
    st0: ContactSweep<S, D>,
    k: int,
) -> ContactSweep<S, D>
    decreases k,
{
    if k <= 0 {
        st0
    } else {
        let st = contact_sweep(cons, jacs, cols, use_bias, st0, k - 1);
        let s = k - 1;
        let c = cons[s];
        let v = contact_velocity(c, column(jacs, s), st.dofv, st.frees);
        let imp = contact_impulse(
            c,
            st.imps[s],
            v.plus_spec(swept_rhs(c, use_bias)),
            st.imps[c.normal_constraint_slot as int],
        );
        contact_apply(c, column(cols, s), s, imp, imp.minus_spec(st.imps[s]), st)
    }
}

/// The slots and bodies that the constraints name exist.
pub open spec fn contacts_ok<S: Scalar, D: Space<S>>(
    cons: Seq<MultibodyContactConstraint<S, D>>,
    bodies: int,
) -> bool {
    forall|s: int|
        0 <= s < cons.len() ==> (#[trigger] cons[s]).normal_constraint_slot < cons.len() && (
        has_free(cons[s]) ==> cons[s].free_body_id < bodies)
}

pub proof fn lemma_contact_sweep_len<S: Scalar, D: Space<S>>(
    cons: Seq<MultibodyContactConstraint<S, D>>,
    jacs: Seq<Seq<S>>,
    cols: Seq<Seq<S>>,
    use_bias: bool,
    st0: ContactSweep<S, D>,
    k: int,
)
    requires
        0 <= k <= cons.len(),
        st0.imps.len() == cons.len(),
        contacts_ok(cons, st0.frees.len() as int),
    ensures
        contact_sweep(cons, jacs, cols, use_bias, st0, k).dofv.len() == st0.dofv.len(),
        contact_sweep(cons, jacs, cols, use_bias, st0, k).imps.len() == st0.imps.len(),
        contact_sweep(cons, jacs, cols, use_bias, st0, k).frees.len() == st0.frees.len(),
    decreases k,
{
    if k > 0 {
        lemma_contact_sweep_len(cons, jacs, cols, use_bias, st0, k - 1);
        let c = cons[k - 1];
        assert(has_free(c) ==> c.free_body_id < st0.frees.len());
    }
}

/// One sweep over the contact constraints, in velocity space.
pub fn run_contact_sweep<S: Scalar, D: Space<S>>(
    cons: &[MultibodyContactConstraint<S, D>],
    cv: VecView,
    jacs: &[S],
    jacv: MatView,
    cols: &[S],
    colv: MatView,
    use_bias: bool,
    dofv: &mut Vec<S>,
    imps: &mut Vec<S>,
    frees: &mut [Velocity<S, D>],
    fv: VecView,
)
    requires
        cv.fits(cons@.len() as int),
        jacv.fits(jacs@.len() as int),
        colv.fits(cols@.len() as int),
        fv.fits(old(frees)@.len() as int),
        jacv.ncols == cv.len,
        colv.ncols == cv.len,
        jacv.nrows == old(dofv)@.len(),
        colv.nrows == old(dofv)@.len(),
        old(imps)@.len() == cv.len,
        contacts_ok(vec_of(cons@, cv), fv.len as int),
    ensures
        ({
            let st = contact_sweep(
                vec_of(cons@, cv),
                mat_of(jacs@, jacv),
                mat_of(cols@, colv),
                use_bias,
                ContactSweep {
                    dofv: old(dofv)@,
                    imps: old(imps)@,
                    frees: vec_of(old(frees)@, fv),
                },
                cv.len as int,
            );
            &&& final(dofv)@ == st.dofv
            &&& final(imps)@ == st.imps
            &&& vec_of(final(frees)@, fv) == st.frees
        }),
        same_outside_vec(old(frees)@, final(frees)@, fv),
{
    let ghost cs = vec_of(cons@, cv);
    let ghost jm = mat_of(jacs@, jacv);
    let ghost cm = mat_of(cols@, colv);
    let ghost st0 = ContactSweep {
        dofv: dofv@,
        imps: imps@,
        frees: vec_of(frees@, fv),
    };
    let mut s: usize = 0;
    while s < cv.len
        invariant
            cv.fits(cons@.len() as int),
            jacv.fits(jacs@.len() as int),
            colv.fits(cols@.len() as int),
            fv.fits(old(frees)@.len() as int),
            jacv.ncols == cv.len,
            colv.ncols == cv.len,
            jacv.nrows == st0.dofv.len(),
            colv.nrows == st0.dofv.len(),
            st0.imps.len() == cv.len,
            st0.frees.len() == fv.len,
            contacts_ok(cs, fv.len as int),
            cs == vec_of(cons@, cv),
            jm == mat_of(jacs@, jacv),
            cm == mat_of(cols@, colv),
            s <= cv.len,
            dofv@ == contact_sweep(cs, jm, cm, use_bias, st0, s as int).dofv,
            imps@ == contact_sweep(cs, jm, cm, use_bias, st0, s as int).imps,
            vec_of(frees@, fv) == contact_sweep(cs, jm, cm, use_bias, st0, s as int).frees,
            same_outside_vec(old(frees)@, frees@, fv),
        decreases cv.len - s,
    {
        proof {
            lemma_contact_sweep_len(cs, jm, cm, use_bias, st0, s as int);
        }
        let c = vec_get(cons, cv, s);
        assert(c == cs[s as int]);
        let is_self = c.free_body_id == NO_FREE_BODY;
        let mut v = dot_column(dofv, jacs, jacv, s);
        if !is_self {
            let free = vec_get(frees, fv, c.free_body_id as usize);
            v = v.plus(D::vdot(c.lin_jac, free.linear).plus(D::gdot(c.ang_jac, free.angular)));
        }
        let rhs = if use_bias {
            c.rhs
        } else {
            c.rhs_wo_bias
        };
        let impulse = imps[s];
        let imp = contact_impulse_exec(
            &c,
            impulse,
            v.plus(rhs),
            imps[c.normal_constraint_slot as usize],
        );
        let delta = imp.minus(impulse);
        imps.set(s, imp);
        if !delta.same(S::zero()) {
            if !is_self {
                let free = vec_get(frees, fv, c.free_body_id as usize);
                vec_set(frees, fv, c.free_body_id as usize, push_free(&c, free, delta));
            }
            add_column(dofv, delta, cols, colv, s);
        }
        s = s + 1;
    }
}

// ---- constraint-space sweep ----

/// `D[s][j]`: the change of the velocity along `j` per unit impulse of `s`.
pub open spec fn delassus_entry<S: Scalar, D: Space<S>>(
    cons: Seq<MultibodyContactConstraint<S, D>>,
    jacs: Seq<Seq<S>>,
    cols: Seq<Seq<S>>,
    s: int,
    j: int,
) -> S {
    let own = dot_fold(column(jacs, j), column(cols, s), jacs.len() as int);
    if has_free(cons[s]) && cons[s].free_body_id == cons[j].free_body_id {
        own.plus_spec(
            cons[s].free_body_im.times_spec(D::vdot_spec(cons[j].lin_jac, cons[s].lin_jac)).plus_spec(
                D::gdot_spec(cons[j].ang_jac, cons[s].ii_ang_jac),
            ),
        )
    } else {
        own
    }
}

/// Whether a constraint keeps a live estimate of its slip or depth.
pub open spec fn keeps_estimate<S: Scalar, D: Space<S>>(
    c: MultibodyContactConstraint<S, D>,
) -> bool {
    D::dimension_spec() == Dimension::Three && !c.drift_gain.same_spec(S::zero_spec())
}

/// The right-hand side of a sweep: with the positional bias, or without.
pub open spec fn swept_rhs<S: Scalar, D: Space<S>>(
    c: MultibodyContactConstraint<S, D>,
    use_bias: bool,
) -> S {
    if use_bias {
        c.rhs
    } else {
        c.rhs_wo_bias
    }
}

/// The right-hand side of the constraint-space sweep. Where a constraint keeps a
/// live estimate, the biased sweep corrects slip and depth from it.
pub open spec fn live_rhs<S: Scalar, D: Space<S>>(
    c: MultibodyContactConstraint<S, D>,
    use_bias: bool,
) -> S {
    let mc = c.max_corrective;
    if !use_bias || !keeps_estimate(c) {
        swept_rhs(c, use_bias)
    } else if c.kind == MB_CONTACT_KIND_TANGENT {
        let b = c.drift.times_spec(c.drift_gain);
        c.rhs.plus_spec(
            if mc.lt_spec(b) {
                mc
            } else if b.lt_spec(mc.neg_spec()) {
                mc.neg_spec()
            } else {
                b
            },
        )
    } else if c.kind == MB_CONTACT_KIND_NORMAL {
        let b = c.drift.times_spec(c.friction_coeff);
        c.rhs_wo_bias.plus_spec(
            if b.lt_spec(mc.neg_spec()) {
                mc.neg_spec()
            } else if S::zero_spec().lt_spec(b) {
                S::zero_spec()
            } else {
                b
            },
        )
    } else {
        c.rhs
    }
}

fn live_rhs_exec<S: Scalar, D: Space<S>>(
    c: &MultibodyContactConstraint<S, D>,
    use_bias: bool,
) -> (r: S)
    ensures
        r == live_rhs(*c, use_bias),
{
    if !use_bias {
        return c.rhs_wo_bias;
    }
    let in_space = match D::dimension() {
        Dimension::Two => false,
        Dimension::Three => true,
    };
    if !in_space || c.drift_gain.same(S::zero()) {
        return c.rhs;
    }
    let mc = c.max_corrective;
    if c.kind == MB_CONTACT_KIND_TANGENT {
        let b = c.drift.times(c.drift_gain);
        let bias = if mc.lt(b) {
            mc
        } else if b.lt(mc.negate()) {
            mc.negate()
        } else {
            b
        };
        c.rhs.plus(bias)
    } else if c.kind == MB_CONTACT_KIND_NORMAL {
        let b = c.drift.times(c.friction_coeff);
        let bias = if b.lt(mc.negate()) {
            mc.negate()
        } else if S::zero().lt(b) {
            S::zero()
        } else {
            b
        };
        c.rhs_wo_bias.plus(bias)
    } else {
        c.rhs
    }
}

/// Whether an impulse moves the free body of a contact at all.
pub open spec fn free_active<S: Scalar, D: Space<S>>(c: MultibodyContactConstraint<S, D>) -> bool {
    has_free(c) && (!c.free_body_im.same_spec(S::zero_spec()) || !D::gdot_spec(
        c.ii_ang_jac,
        c.ii_ang_jac,
    ).same_spec(S::zero_spec()))
}

/// Velocities along the constraints, beside the state of a contact sweep.
pub struct DelassusSweep<S: Scalar, D: Space<S>> {
    pub a: Seq<S>,
    pub st: ContactSweep<S, D>,
}

/// The state after the first `k` constraints of a constraint-space sweep:
/// `a[j]` follows the velocity along `j` through row `s` of `d`.
pub open spec fn delassus_sweep<S: Scalar, D: Space<S>>(
    cons: Seq<MultibodyContactConstraint<S, D>>,
    cols: Seq<Seq<S>>,
    d: Seq<Seq<S>>,
    use_bias: bool,
    st0: DelassusSweep<S, D>,
    k: int,
) -> DelassusSweep<S, D>
    decreases k,
{
    if k <= 0 {
        st0
    } else {
        let p = delassus_sweep(cons, cols, d, use_bias, st0, k - 1);
        let s = k - 1;
        let c = cons[s];
        let imp = contact_impulse(
            c,
            p.st.imps[s],
            p.a[s].plus_spec(live_rhs(c, use_bias)),
            p.st.imps[c.normal_constraint_slot as int],
        );
        let delta = imp.minus_spec(p.st.imps[s]);
        if delta.same_spec(S::zero_spec()) {
            p
        } else {
            DelassusSweep {
                a: axpy(p.a, delta, d[s]),
                st: ContactSweep {
                    dofv: axpy(p.st.dofv, delta, column(cols, s)),
                    imps: p.st.imps.update(s, imp),
                    frees: if free_active(c) {
                        p.st.frees.update(
                            c.free_body_id as int,
                            pushed(c, p.st.frees[c.free_body_id as int], delta),
                        )
                    } else {
                        p.st.frees
                    },
                },
            }
        }
    }
}

pub proof fn lemma_delassus_sweep_len<S: Scalar, D: Space<S>>(
    cons: Seq<MultibodyContactConstraint<S, D>>,
    cols: Seq<Seq<S>>,
    d: Seq<Seq<S>>,
    use_bias: bool,
    st0: DelassusSweep<S, D>,
    k: int,
)
    requires
        0 <= k <= cons.len(),
        st0.st.imps.len() == cons.len(),
        contacts_ok(cons, st0.st.frees.len() as int),
    ensures
        delassus_sweep(cons, cols, d, use_bias, st0, k).a.len() == st0.a.len(),
        delassus_sweep(cons, cols, d, use_bias, st0, k).st.dofv.len() == st0.st.dofv.len(),
        delassus_sweep(cons, cols, d, use_bias, st0, k).st.imps.len() == st0.st.imps.len(),
        delassus_sweep(cons, cols, d, use_bias, st0, k).st.frees.len() == st0.st.frees.len(),
    decreases k,
{
    if k > 0 {
        lemma_delassus_sweep_len(cons, cols, d, use_bias, st0, k - 1);
        let c = cons[k - 1];
        assert(has_free(c) ==> c.free_body_id < st0.st.frees.len());
    }
}

/// One sweep over the contact constraints, in constraint space. Row `s` of
/// the Delassus matrix is column `s` of the view `dv`.
pub fn run_delassus_sweep<S: Scalar, D: Space<S>>(
    cons: &[MultibodyContactConstraint<S, D>],
    cv: VecView,
    cols: &[S],
    colv: MatView,
    delassus: &[S],
    dv: MatView,
    use_bias: bool,
    a: &mut Vec<S>,
    dofv: &mut Vec<S>,
    imps: &mut Vec<S>,
    frees: &mut [Velocity<S, D>],
    fv: VecView,
)
    requires
        cv.fits(cons@.len() as int),
        colv.fits(cols@.len() as int),
        dv.fits(delassus@.len() as int),
        fv.fits(old(frees)@.len() as int),
        colv.ncols == cv.len,
        dv.ncols == cv.len,
        dv.nrows == cv.len,
        colv.nrows == old(dofv)@.len(),
        old(imps)@.len() == cv.len,
        old(a)@.len() == cv.len,
        contacts_ok(vec_of(cons@, cv), fv.len as int),
    ensures
        ({
            let m = mat_of(delassus@, dv);
            let p = delassus_sweep(
                vec_of(cons@, cv),
                mat_of(cols@, colv),
                Seq::new(cv.len as nat, |s: int| column(m, s)),
                use_bias,
                DelassusSweep {
                    a: old(a)@,
                    st: ContactSweep {
                        dofv: old(dofv)@,
                        imps: old(imps)@,
                        frees: vec_of(old(frees)@, fv),
                    },
                },
                cv.len as int,
            );
            &&& final(a)@ == p.a
            &&& final(dofv)@ == p.st.dofv
            &&& final(imps)@ == p.st.imps
            &&& vec_of(final(frees)@, fv) == p.st.frees
        }),
        same_outside_vec(old(frees)@, final(frees)@, fv),
{
    let ghost cs = vec_of(cons@, cv);
    let ghost cm = mat_of(cols@, colv);
    let ghost dm = Seq::new(cv.len as nat, |s: int| column(mat_of(delassus@, dv), s));
    let ghost st0 = DelassusSweep {
        a: a@,
        st: ContactSweep { dofv: dofv@, imps: imps@, frees: vec_of(frees@, fv) },
    };
    let mut s: usize = 0;
    while s < cv.len
        invariant
            cv.fits(cons@.len() as int),
            colv.fits(cols@.len() as int),
            dv.fits(delassus@.len() as int),
            fv.fits(old(frees)@.len() as int),
            colv.ncols == cv.len,
            dv.ncols == cv.len,
            dv.nrows == cv.len,
            colv.nrows == st0.st.dofv.len(),
            st0.st.imps.len() == cv.len,
            st0.a.len() == cv.len,
            st0.st.frees.len() == fv.len,
            contacts_ok(cs, fv.len as int),
            cs == vec_of(cons@, cv),
            cm == mat_of(cols@, colv),
            dm == Seq::new(cv.len as nat, |s: int| column(mat_of(delassus@, dv), s)),
            s <= cv.len,
            a@ == delassus_sweep(cs, cm, dm, use_bias, st0, s as int).a,
            dofv@ == delassus_sweep(cs, cm, dm, use_bias, st0, s as int).st.dofv,
            imps@ == delassus_sweep(cs, cm, dm, use_bias, st0, s as int).st.imps,
            vec_of(frees@, fv) == delassus_sweep(cs, cm, dm, use_bias, st0, s as int).st.frees,
            same_outside_vec(old(frees)@, frees@, fv),
        decreases cv.len - s,
    {
        proof {
            lemma_delassus_sweep_len(cs, cm, dm, use_bias, st0, s as int);
        }
        let c = vec_get(cons, cv, s);
        assert(c == cs[s as int]);
        let impulse = imps[s];
        let imp = contact_impulse_exec(
            &c,
            impulse,
            a[s].plus(live_rhs_exec(&c, use_bias)),
            imps[c.normal_constraint_slot as usize],
        );
        let delta = imp.minus(impulse);
        if !delta.same(S::zero()) {
            imps.set(s, imp);
            let active = c.free_body_id != NO_FREE_BODY && (!c.free_body_im.same(S::zero())
                || !D::gdot(c.ii_ang_jac, c.ii_ang_jac).same(S::zero()));
            if active {
                let free = vec_get(frees, fv, c.free_body_id as usize);
                vec_set(frees, fv, c.free_body_id as usize, push_free(&c, free, delta));
            }
            add_column(a, delta, delassus, dv, s);
            add_column(dofv, delta, cols, colv, s);
        }
        s = s + 1;
    }
}

/// The estimate of slip or depth after a sweep: the unbiased sweep of three
/// dimensions adds the distance covered at the final velocity.
pub open spec fn drifted<S: Scalar, D: Space<S>>(
    c: MultibodyContactConstraint<S, D>,
    use_bias: bool,
    a: S,
) -> S {
    if D::dimension_spec() == Dimension::Three && !use_bias && (c.kind == MB_CONTACT_KIND_TANGENT
        || c.kind == MB_CONTACT_KIND_NORMAL) && S::zero_spec().lt_spec(c.drift_gain) {
        c.drift.plus_spec(a.over_spec(c.drift_gain))
    } else {
        c.drift
    }
}

pub fn update_drift<S: Scalar, D: Space<S>>(
    c: &MultibodyContactConstraint<S, D>,
    use_bias: bool,
    a: S,
) -> (r: S)
    ensures
        r == drifted(*c, use_bias, a),
{
    match D::dimension() {
        Dimension::Two => c.drift,
        Dimension::Three => {
            if !use_bias && (c.kind == MB_CONTACT_KIND_TANGENT || c.kind == MB_CONTACT_KIND_NORMAL)
                && S::zero().lt(c.drift_gain) {
                c.drift.plus(a.over(c.drift_gain))
            } else {
                c.drift
            }
        },
    }
}

} // verus!
