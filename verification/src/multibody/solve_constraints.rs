//! Constraint solves of one multibody: joint limits and motors, then contacts.
use super::gravity_and_lu::{mb_at, mb_at_spec, mb_listed};
use super::sweeps::{
    ContactSweep, DelassusSweep, column, contact_sweep, contact_velocity, contacts_ok,
    delassus_entry, delassus_sweep, dot_column, dot_columns, drifted, joint_dofs_ok, joint_sweep,
    run_contact_sweep, run_delassus_sweep, run_joint_sweep, update_drift,
};
use super::types::{
    MultibodyContactConstraint, MultibodyInfo, MultibodyJointConstraint, NO_FREE_BODY,
    max_mb_contact_constraints, max_mb_contact_constraints_spec,
};
use crate::batch::{BatchIndices, ivec_spec, room};
use crate::scalar::Scalar;
use crate::space::{Dimension, Space, Velocity};
use crate::views::{
    MatView, VecView, load_vec, mat_of, mat_set, same_outside_mat, same_outside_vec, store_vec,
    vec_get, vec_of, vec_set,
};
use vstd::prelude::*;

verus! {

// ---- where the constraints of one multibody live ----

/// The joint constraints of multibody `mb`.
pub open spec fn joint_cons_view(ids: BatchIndices, b: int, mb: MultibodyInfo) -> VecView {
    VecView {
        base: (b * ids.joint_constraints_batch_capacity + mb.first_constraint) as usize,
        stride: 1,
        len: mb.max_constraints as usize,
    }
}

/// The columns of the joint constraints: one column per constraint.
pub open spec fn joint_cols_view(ids: BatchIndices, b: int, mb: MultibodyInfo) -> MatView {
    MatView {
        base: ((b * ids.joint_constraints_batch_capacity + mb.first_constraint)
            * ids.dof_batch_capacity) as usize,
        row_stride: 1,
        col_stride: ids.dof_batch_capacity as usize,
        nrows: mb.ndofs as usize,
        ncols: mb.max_constraints as usize,
    }
}

/// The rank of multibody `i` of batch `b` among all banks of contacts.
pub open spec fn bank(ids: BatchIndices, b: int, i: int) -> int {
    b * ids.multibodies_batch_capacity + i
}

/// The first `count` contact constraints of a bank.
pub open spec fn contact_cons_view(dim: Dimension, bank: int, count: int) -> VecView {
    VecView {
        base: (bank * max_mb_contact_constraints_spec(dim)) as usize,
        stride: 1,
        len: count as usize,
    }
}

/// The jacobians, or the responses, of the first `count` contact constraints
/// of a bank: one column per constraint.
pub open spec fn contact_cols_view(
    dim: Dimension,
    ids: BatchIndices,
    bank: int,
    ndofs: int,
    count: int,
) -> MatView {
    MatView {
        base: (bank * max_mb_contact_constraints_spec(dim) * ids.dof_batch_capacity) as usize,
        row_stride: 1,
        col_stride: ids.dof_batch_capacity as usize,
        nrows: ndofs as usize,
        ncols: count as usize,
    }
}

/// The Delassus block of a bank: column `s` is the effect of constraint `s`.
pub open spec fn delassus_view(dim: Dimension, bank: int, count: int) -> MatView {
    MatView {
        base: (bank * max_mb_contact_constraints_spec(dim) * max_mb_contact_constraints_spec(
            dim,
        )) as usize,
        row_stride: 1,
        col_stride: max_mb_contact_constraints_spec(dim) as usize,
        nrows: count as usize,
        ncols: count as usize,
    }
}

/// The joint constraints of multibody `mb` and their columns are there.
pub open spec fn joint_room<S: Scalar>(
    ids: BatchIndices,
    b: int,
    mb: MultibodyInfo,
    cons: Seq<MultibodyJointConstraint<S>>,
    cols: Seq<S>,
) -> bool {
    let end = b * ids.joint_constraints_batch_capacity + mb.first_constraint + mb.max_constraints;
    &&& end <= cons.len() <= usize::MAX
    &&& end * ids.dof_batch_capacity <= cols.len() <= usize::MAX
    &&& mb.ndofs <= ids.dof_batch_capacity
}

/// The contact constraints of a bank are there.
pub open spec fn contact_cons_room<S: Scalar, D: Space<S>>(
    bank: int,
    count: int,
    cons: Seq<MultibodyContactConstraint<S, D>>,
) -> bool {
    let max = max_mb_contact_constraints_spec(D::dimension_spec());
    &&& 0 <= count <= max
    &&& (bank + 1) * max <= cons.len() <= usize::MAX
}

/// The columns of a bank's contact constraints are there.
pub open spec fn contact_cols_room(
    dim: Dimension,
    ids: BatchIndices,
    bank: int,
    ndofs: int,
    n: int,
) -> bool {
    &&& 0 <= ndofs <= ids.dof_batch_capacity
    &&& (bank + 1) * max_mb_contact_constraints_spec(dim) * ids.dof_batch_capacity <= n
    &&& n <= usize::MAX
}

pub(crate) proof fn lemma_cols_fit(first: int, count: int, stride: int, ndofs: int, n: int, m: MatView)
    requires
        0 <= first,
        0 <= count,
        0 <= ndofs <= stride,
        (first + count) * stride <= n,
        n <= usize::MAX,
        m.base == first * stride,
        m.row_stride == 1,
        m.col_stride == stride,
        m.nrows == ndofs,
        m.ncols == count,
    ensures
        m.fits(n),
{
    if ndofs > 0 && count > 0 {
        assert(first * stride + (ndofs - 1) * 1 + (count - 1) * stride < (first + count) * stride)
            by (nonlinear_arith)
            requires
                0 < ndofs <= stride,
        ;
    }
}

pub(crate) fn joint_views<S: Scalar>(
    ids: &BatchIndices,
    b: u32,
    mb: &MultibodyInfo,
    cons: &[MultibodyJointConstraint<S>],
    cols: &[S],
) -> (r: (VecView, MatView))
    requires
        joint_room(*ids, b as int, *mb, cons@, cols@),
    ensures
        r.0 == joint_cons_view(*ids, b as int, *mb),
        r.1 == joint_cols_view(*ids, b as int, *mb),
        r.0.fits(cons@.len() as int),
        r.1.fits(cols@.len() as int),
        r.0.len == mb.max_constraints,
        r.1.ncols == mb.max_constraints,
        r.1.nrows == mb.ndofs,
{
    let n: usize = cons.len();
    let m: usize = cols.len();
    let ghost first = b * ids.joint_constraints_batch_capacity + mb.first_constraint;
    let ghost stride = ids.dof_batch_capacity as int;
    proof {
        assert(0 <= b * ids.joint_constraints_batch_capacity) by (nonlinear_arith)
            requires
                b >= 0,
                ids.joint_constraints_batch_capacity >= 0,
        ;
        assert(0 <= first * stride <= (first + mb.max_constraints) * stride) by (nonlinear_arith)
            requires
                first >= 0,
                stride >= 0,
                mb.max_constraints >= 0,
        ;
    }
    let start: usize = b as usize * ids.joint_constraints_batch_capacity as usize
        + mb.first_constraint as usize;
    let cv = VecView { base: start, stride: 1, len: mb.max_constraints as usize };
    let mv = MatView {
        base: start * ids.dof_batch_capacity as usize,
        row_stride: 1,
        col_stride: ids.dof_batch_capacity as usize,
        nrows: mb.ndofs as usize,
        ncols: mb.max_constraints as usize,
    };
    proof {
        lemma_cols_fit(first, mb.max_constraints as int, stride, mb.ndofs as int, m as int, mv);
    }
    (cv, mv)
}

proof fn lemma_bank_bounds(bank: int, max: int, stride: int, n: int)
    requires
        0 <= bank,
        0 < max,
        0 <= stride,
        (bank + 1) * max * stride <= n,
    ensures
        0 <= bank * max,
        0 <= bank * max * stride,
        bank * max * stride + max * stride <= n,
        (bank * max + max) * stride <= n,
        stride > 0 ==> bank * max <= n,
{
    assert(0 <= bank * max) by (nonlinear_arith)
        requires
            bank >= 0,
            max >= 0,
    ;
    let p = bank * max;
    assert((bank + 1) * max == p + max) by (nonlinear_arith)
        requires
            p == bank * max,
    ;
    assert((p + max) * stride == p * stride + max * stride && 0 <= p * stride && 0 <= max * stride)
        by (nonlinear_arith)
        requires
            p >= 0,
            stride >= 0,
            max >= 0,
    ;
    if stride > 0 {
        assert(p <= p * stride) by (nonlinear_arith)
            requires
                p >= 0,
                stride >= 1,
        ;
    }
}

pub proof fn lemma_bank_in_range(ids: BatchIndices, b: int, i: int, max: int, n: int)
    requires
        0 <= b,
        0 <= i,
        1 <= max,
        (bank(ids, b, i) + 1) * max <= n,
    ensures
        0 <= bank(ids, b, i) <= n,
        0 <= bank(ids, b, i) * max <= n,
{
    let k = bank(ids, b, i);
    assert(0 <= b * ids.multibodies_batch_capacity) by (nonlinear_arith)
        requires
            b >= 0,
            ids.multibodies_batch_capacity >= 0,
    ;
    assert(k <= k * max && k * max <= (k + 1) * max) by (nonlinear_arith)
        requires
            k >= 0,
            max >= 1,
    ;
}

pub(crate) fn bank_of(ids: &BatchIndices, b: u32, i: u32, n: usize) -> (r: usize)
    requires
        bank(*ids, b as int, i as int) <= n,
    ensures
        r == bank(*ids, b as int, i as int),
{
    assert(0 <= b * ids.multibodies_batch_capacity) by (nonlinear_arith)
        requires
            b >= 0,
            ids.multibodies_batch_capacity >= 0,
    ;
    b as usize * ids.multibodies_batch_capacity as usize + i as usize
}

pub(crate) fn contact_cons_at<S: Scalar, D: Space<S>>(
    bank: usize,
    count: u32,
    cons: &[MultibodyContactConstraint<S, D>],
) -> (v: VecView)
    requires
        contact_cons_room(bank as int, count as int, cons@),
    ensures
        v == contact_cons_view(D::dimension_spec(), bank as int, count as int),
        v.fits(cons@.len() as int),
        v.len == count,
{
    let n: usize = cons.len();
    let max: usize = max_mb_contact_constraints(D::dimension()) as usize;
    proof {
        lemma_bank_bounds(bank as int, max as int, 1, n as int);
    }
    VecView { base: bank * max, stride: 1, len: count as usize }
}

pub(crate) fn contact_cols_at(
    dim: Dimension,
    ids: &BatchIndices,
    bank: usize,
    ndofs: u32,
    count: u32,
    n: usize,
) -> (m: MatView)
    requires
        contact_cols_room(dim, *ids, bank as int, ndofs as int, n as int),
        count <= max_mb_contact_constraints_spec(dim),
        bank * max_mb_contact_constraints_spec(dim) <= usize::MAX,
    ensures
        m == contact_cols_view(dim, *ids, bank as int, ndofs as int, count as int),
        m.fits(n as int),
        m.nrows == ndofs,
        m.ncols == count,
{
    let max: usize = max_mb_contact_constraints(dim) as usize;
    let stride: usize = ids.dof_batch_capacity as usize;
    proof {
        lemma_bank_bounds(bank as int, max as int, stride as int, n as int);
    }
    let m = MatView {
        base: bank * max * stride,
        row_stride: 1,
        col_stride: stride,
        nrows: ndofs as usize,
        ncols: count as usize,
    };
    proof {
        let first = bank * max;
        assert((first + count) * stride <= (first + max) * stride) by (nonlinear_arith)
            requires
                count <= max,
                stride >= 0,
        ;
        lemma_cols_fit(first, count as int, stride as int, ndofs as int, n as int, m);
    }
    m
}

fn delassus_at(dim: Dimension, bank: usize, count: u32, n: usize) -> (m: MatView)
    requires
        count <= max_mb_contact_constraints_spec(dim),
        (bank + 1) * max_mb_contact_constraints_spec(dim) * max_mb_contact_constraints_spec(dim)
            <= n,
    ensures
        m == delassus_view(dim, bank as int, count as int),
        m.fits(n as int),
        m.nrows == count,
        m.ncols == count,
{
    let max: usize = max_mb_contact_constraints(dim) as usize;
    proof {
        lemma_bank_bounds(bank as int, max as int, max as int, n as int);
    }
    let m = MatView {
        base: bank * max * max,
        row_stride: 1,
        col_stride: max,
        nrows: count as usize,
        ncols: count as usize,
    };
    proof {
        let first = bank * max;
        assert((first + count) * max <= (first + max) * max) by (nonlinear_arith)
            requires
                count <= max,
                max >= 0,
        ;
        lemma_cols_fit(first, count as int, max as int, count as int, n as int, m);
    }
    m
}

// ---- impulses ----

pub open spec fn impulses_of<S: Scalar, D: Space<S>>(
    cons: Seq<MultibodyContactConstraint<S, D>>,
) -> Seq<S> {
    Seq::new(cons.len(), |s: int| cons[s].impulse)
}

/// The constraints with these impulses.
pub open spec fn with_impulses<S: Scalar, D: Space<S>>(
    cons: Seq<MultibodyContactConstraint<S, D>>,
    imps: Seq<S>,
) -> Seq<MultibodyContactConstraint<S, D>> {
    Seq::new(
        cons.len(),
        |s: int| MultibodyContactConstraint { impulse: imps[s], ..cons[s] },
    )
}

pub(crate) fn load_impulses<S: Scalar, D: Space<S>>(
    cons: &[MultibodyContactConstraint<S, D>],
    cv: VecView,
) -> (r: Vec<S>)
    requires
        cv.fits(cons@.len() as int),
    ensures
        r@ == impulses_of(vec_of(cons@, cv)),
{
    let mut out: Vec<S> = Vec::new();
    let mut s: usize = 0;
    while s < cv.len
        invariant
            cv.fits(cons@.len() as int),
            s <= cv.len,
            out@ =~= impulses_of(vec_of(cons@, cv)).take(s as int),
        decreases cv.len - s,
    {
        out.push(vec_get(cons, cv, s).impulse);
        s = s + 1;
    }
    assert(out@ =~= impulses_of(vec_of(cons@, cv)));
    out
}

/// The position of constraint `s` of a bank that starts at `cons_base`.
pub fn ccons_writeback_guard(cons_base: usize, s: u32) -> (r: usize)
    requires
        cons_base + s <= usize::MAX,
    ensures
        r == cons_base + s,
{
    cons_base + s as usize
}

pub(crate) fn store_impulses<S: Scalar, D: Space<S>>(
    cons: &mut [MultibodyContactConstraint<S, D>],
    cv: VecView,
    imps: &Vec<S>,
)
    requires
        cv.fits(old(cons)@.len() as int),
        imps@.len() == cv.len,
    ensures
        vec_of(final(cons)@, cv) == with_impulses(vec_of(old(cons)@, cv), imps@),
        same_outside_vec(old(cons)@, final(cons)@, cv),
{
    let ghost c0 = vec_of(cons@, cv);
    let ghost out = with_impulses(c0, imps@);
    let mut s: usize = 0;
    while s < cv.len
        invariant
            cv.fits(old(cons)@.len() as int),
            imps@.len() == cv.len,
            c0 == vec_of(old(cons)@, cv),
            out == with_impulses(c0, imps@),
            s <= cv.len,
            same_outside_vec(old(cons)@, cons@, cv),
            forall|j: int|
                0 <= j < cv.len ==> #[trigger] vec_of(cons@, cv)[j] == (if j < s {
                    out[j]
                } else {
                    c0[j]
                }),
        decreases cv.len - s,
    {
        let mut c = vec_get(cons, cv, s);
        c.impulse = imps[s];
        vec_set(cons, cv, s, c);
        s = s + 1;
    }
    assert(vec_of(cons@, cv) =~= out);
}

// ---- kernels ----

/// The free-body velocities of batch `b`.
pub open spec fn body_vels_view(ids: BatchIndices, b: int) -> VecView {
    VecView {
        base: (b * ids.colliders_batch_capacity) as usize,
        stride: 1,
        len: ids.colliders_batch_capacity as usize,
    }
}

pub(crate) fn body_vels_at(ids: &BatchIndices, b: u32, n: usize) -> (v: VecView)
    requires
        (b + 1) * ids.colliders_batch_capacity <= n,
    ensures
        v == body_vels_view(*ids, b as int),
        v.fits(n as int),
        v.len == ids.colliders_batch_capacity,
{
    let cap: usize = ids.colliders_batch_capacity as usize;
    assert((b + 1) * cap == b * cap + cap && 0 <= b * cap) by (nonlinear_arith)
        requires
            b >= 0,
            cap >= 0,
    ;
    VecView { base: b as usize * cap, stride: 1, len: cap }
}

/// The generalized velocities of multibody `mb`.
pub open spec fn dof_view(ids: BatchIndices, b: int, mb: MultibodyInfo) -> VecView {
    ivec_spec(ids.num_batches as int, b, mb.first_dof as int, mb.ndofs as int)
}

/// One sweep over the joint constraints of a multibody, then one over its
/// contacts, both with or both without positional bias.
pub fn gpu_mb_solve_constraints<S: Scalar, D: Space<S>>(
    mb_idx: u32,
    b: u32,
    multibody_info: &[MultibodyInfo],
    joint_constraints: &mut [MultibodyJointConstraint<S>],
    joint_constraint_columns: &[S],
    contact_constraints: &mut [MultibodyContactConstraint<S, D>],
    contact_constraint_jacs: &[S],
    contact_constraint_columns: &[S],
    use_bias: bool,
    ids: &BatchIndices,
    dof_state: &mut [S],
    solver_vels: &mut [Velocity<S, D>],
)
    requires
        mb_idx < ids.multibodies_len ==> {
            let mb = mb_at_spec(*ids, b as int, mb_idx as int, multibody_info@);
            let k = bank(*ids, b as int, mb_idx as int);
            let count = mb.contact_constraint_count as int;
            &&& mb_listed(*ids, b as int, mb_idx as int, multibody_info@)
            &&& mb.ndofs != 0 ==> {
                &&& joint_room(*ids, b as int, mb, old(joint_constraints)@, joint_constraint_columns@)
                &&& contact_cons_room(k, count, old(contact_constraints)@)
                &&& contact_cols_room(
                    D::dimension_spec(),
                    *ids,
                    k,
                    mb.ndofs as int,
                    contact_constraint_jacs@.len() as int,
                )
                &&& contact_cols_room(
                    D::dimension_spec(),
                    *ids,
                    k,
                    mb.ndofs as int,
                    contact_constraint_columns@.len() as int,
                )
                &&& room(
                    ids.num_batches as int,
                    b as int,
                    mb.first_dof as int,
                    mb.ndofs as int,
                    old(dof_state)@.len() as int,
                )
                &&& (b + 1) * ids.colliders_batch_capacity <= old(solver_vels)@.len() <= usize::MAX
                &&& joint_dofs_ok(
                    vec_of(old(joint_constraints)@, joint_cons_view(*ids, b as int, mb)),
                    mb.ndofs as int,
                )
                &&& contacts_ok(
                    vec_of(
                        old(contact_constraints)@,
                        contact_cons_view(D::dimension_spec(), k, count),
                    ),
                    ids.colliders_batch_capacity as int,
                )
            }
        },
    ensures
        ({
            let mb = mb_at_spec(*ids, b as int, mb_idx as int, multibody_info@);
            let k = bank(*ids, b as int, mb_idx as int);
            let count = mb.contact_constraint_count as int;
            let jv = joint_cons_view(*ids, b as int, mb);
            let cv = contact_cons_view(D::dimension_spec(), k, count);
            let mv = contact_cols_view(D::dimension_spec(), *ids, k, mb.ndofs as int, count);
            let dv = dof_view(*ids, b as int, mb);
            let fv = body_vels_view(*ids, b as int);
            if mb_idx < ids.multibodies_len && mb.ndofs != 0 {
                let joints = joint_sweep(
                    vec_of(old(joint_constraints)@, jv),
                    mat_of(joint_constraint_columns@, joint_cols_view(*ids, b as int, mb)),
                    vec_of(old(dof_state)@, dv),
                    use_bias,
                    mb.max_constraints as int,
                );
                let cons = vec_of(old(contact_constraints)@, cv);
                let contacts = contact_sweep(
                    cons,
                    mat_of(contact_constraint_jacs@, mv),
                    mat_of(contact_constraint_columns@, mv),
                    use_bias,
                    ContactSweep {
                        dofv: joints.dofv,
                        imps: impulses_of(cons),
                        frees: vec_of(old(solver_vels)@, fv),
                    },
                    count,
                );
                &&& vec_of(final(joint_constraints)@, jv) == joints.cons
                &&& same_outside_vec(old(joint_constraints)@, final(joint_constraints)@, jv)
                &&& vec_of(final(contact_constraints)@, cv) == with_impulses(cons, contacts.imps)
                &&& same_outside_vec(old(contact_constraints)@, final(contact_constraints)@, cv)
                &&& vec_of(final(dof_state)@, dv) == contacts.dofv
                &&& same_outside_vec(old(dof_state)@, final(dof_state)@, dv)
                &&& vec_of(final(solver_vels)@, fv) == contacts.frees
                &&& same_outside_vec(old(solver_vels)@, final(solver_vels)@, fv)
            } else {
                &&& final(joint_constraints)@ == old(joint_constraints)@
                &&& final(contact_constraints)@ == old(contact_constraints)@
                &&& final(dof_state)@ == old(dof_state)@
                &&& final(solver_vels)@ == old(solver_vels)@
            }
        }),
{
    if mb_idx >= ids.multibodies_len {
        return ;
    }
    let mb = mb_at(ids, b, mb_idx, multibody_info);
    if mb.ndofs == 0 {
        return ;
    }
    let count: u32 = mb.contact_constraint_count;
    let (jv, jcols) = joint_views(ids, b, &mb, joint_constraints, joint_constraint_columns);
    let ghost max = max_mb_contact_constraints_spec(D::dimension_spec());
    let n: usize = contact_constraints.len();
    proof {
        let k = bank(*ids, b as int, mb_idx as int);
        assert(0 <= b * ids.multibodies_batch_capacity) by (nonlinear_arith)
            requires
                b >= 0,
                ids.multibodies_batch_capacity >= 0,
        ;
        assert(k <= k * max && k * max <= (k + 1) * max) by (nonlinear_arith)
            requires
                k >= 0,
                max >= 1,
        ;
    }
    let k: usize = bank_of(ids, b, mb_idx, n);
    let cv = contact_cons_at(k, count, contact_constraints);
    let jacv = contact_cols_at(
        D::dimension(),
        ids,
        k,
        mb.ndofs,
        count,
        contact_constraint_jacs.len(),
    );
    let colv = contact_cols_at(
        D::dimension(),
        ids,
        k,
        mb.ndofs,
        count,
        contact_constraint_columns.len(),
    );
    let dv = ids.ivec(b, mb.first_dof as usize, mb.ndofs as usize, dof_state.len());
    let fv = body_vels_at(ids, b, solver_vels.len());
    let mut dofv: Vec<S> = load_vec(dof_state, dv);
    let mut imps: Vec<S> = load_impulses(contact_constraints, cv);
    proof {
        super::sweeps::lemma_joint_sweep_frame(
            vec_of(joint_constraints@, jv),
            mat_of(joint_constraint_columns@, jcols),
            dofv@,
            use_bias,
            mb.max_constraints as int,
        );
    }
    run_joint_sweep(
        joint_constraints,
        jv,
        joint_constraint_columns,
        jcols,
        &mut dofv,
        use_bias,
    );
    let ghost dofv1 = dofv@;
    run_contact_sweep(
        contact_constraints,
        cv,
        contact_constraint_jacs,
        jacv,
        contact_constraint_columns,
        colv,
        use_bias,
        &mut dofv,
        &mut imps,
        solver_vels,
        fv,
    );
    proof {
        super::sweeps::lemma_contact_sweep_len(
            vec_of(contact_constraints@, cv),
            mat_of(contact_constraint_jacs@, jacv),
            mat_of(contact_constraint_columns@, colv),
            use_bias,
            ContactSweep {
                dofv: dofv1,
                imps: impulses_of(vec_of(contact_constraints@, cv)),
                frees: vec_of(old(solver_vels)@, fv),
            },
            count as int,
        );
    }
    store_vec(&dofv, dof_state, dv);
    store_impulses(contact_constraints, cv, &imps);
}

/// One sweep over the joint constraints of a multibody.
pub fn gpu_mb_solve_joints<S: Scalar>(
    mb_idx: u32,
    b: u32,
    multibody_info: &[MultibodyInfo],
    joint_constraints: &mut [MultibodyJointConstraint<S>],
    joint_constraint_columns: &[S],
    dof_state: &mut [S],
    use_bias: bool,
    ids: &BatchIndices,
)
    requires
        mb_idx < ids.multibodies_len ==> {
            let mb = mb_at_spec(*ids, b as int, mb_idx as int, multibody_info@);
            &&& mb_listed(*ids, b as int, mb_idx as int, multibody_info@)
            &&& mb.ndofs != 0 ==> {
                &&& joint_room(*ids, b as int, mb, old(joint_constraints)@, joint_constraint_columns@)
                &&& room(
                    ids.num_batches as int,
                    b as int,
                    mb.first_dof as int,
                    mb.ndofs as int,
                    old(dof_state)@.len() as int,
                )
                &&& joint_dofs_ok(
                    vec_of(old(joint_constraints)@, joint_cons_view(*ids, b as int, mb)),
                    mb.ndofs as int,
                )
            }
        },
    ensures
        ({
            let mb = mb_at_spec(*ids, b as int, mb_idx as int, multibody_info@);
            let jv = joint_cons_view(*ids, b as int, mb);
            let dv = dof_view(*ids, b as int, mb);
            if mb_idx < ids.multibodies_len && mb.ndofs != 0 {
                let joints = joint_sweep(
                    vec_of(old(joint_constraints)@, jv),
                    mat_of(joint_constraint_columns@, joint_cols_view(*ids, b as int, mb)),
                    vec_of(old(dof_state)@, dv),
                    use_bias,
                    mb.max_constraints as int,
                );
                &&& vec_of(final(joint_constraints)@, jv) == joints.cons
                &&& same_outside_vec(old(joint_constraints)@, final(joint_constraints)@, jv)
                &&& vec_of(final(dof_state)@, dv) == joints.dofv
                &&& same_outside_vec(old(dof_state)@, final(dof_state)@, dv)
            } else {
                &&& final(joint_constraints)@ == old(joint_constraints)@
                &&& final(dof_state)@ == old(dof_state)@
            }
        }),
{
    if mb_idx >= ids.multibodies_len {
        return ;
    }
    let mb = mb_at(ids, b, mb_idx, multibody_info);
    if mb.ndofs == 0 {
        return ;
    }
    let (jv, jcols) = joint_views(ids, b, &mb, joint_constraints, joint_constraint_columns);
    let dv = ids.ivec(b, mb.first_dof as usize, mb.ndofs as usize, dof_state.len());
    let mut dofv: Vec<S> = load_vec(dof_state, dv);
    proof {
        super::sweeps::lemma_joint_sweep_frame(
            vec_of(joint_constraints@, jv),
            mat_of(joint_constraint_columns@, jcols),
            dofv@,
            use_bias,
            mb.max_constraints as int,
        );
    }
    run_joint_sweep(
        joint_constraints,
        jv,
        joint_constraint_columns,
        jcols,
        &mut dofv,
        use_bias,
    );
    store_vec(&dofv, dof_state, dv);
}

// ---- constraint space ----

/// The contacts of a bank with their columns, all inside their buffers.
pub open spec fn contact_room<S: Scalar, D: Space<S>>(
    ids: BatchIndices,
    b: int,
    i: int,
    mb: MultibodyInfo,
    cons: Seq<MultibodyContactConstraint<S, D>>,
    jacs: Seq<S>,
    cols: Seq<S>,
    delassus: Seq<S>,
) -> bool {
    let dim = D::dimension_spec();
    let max = max_mb_contact_constraints_spec(dim);
    let k = bank(ids, b, i);
    &&& contact_cons_room(k, mb.contact_constraint_count as int, cons)
    &&& contact_cols_room(dim, ids, k, mb.ndofs as int, jacs.len() as int)
    &&& contact_cols_room(dim, ids, k, mb.ndofs as int, cols.len() as int)
    &&& (k + 1) * max * max <= delassus.len() <= usize::MAX
}

/// The Delassus matrix of a bank, row `s` for the effect of constraint `s`.
pub open spec fn delassus_rows<S>(m: Seq<Seq<S>>, count: int) -> Seq<Seq<S>> {
    Seq::new(count as nat, |s: int| column(m, s))
}

/// Fills the Delassus block of a multibody from its finalized contacts.
pub fn gpu_mb_build_contact_delassus<S: Scalar, D: Space<S>>(
    mb_idx: u32,
    b: u32,
    multibody_info: &[MultibodyInfo],
    contact_constraints: &[MultibodyContactConstraint<S, D>],
    contact_constraint_jacs: &[S],
    contact_constraint_columns: &[S],
    delassus: &mut [S],
    ids: &BatchIndices,
)
    requires
        mb_idx < ids.multibodies_len ==> {
            let mb = mb_at_spec(*ids, b as int, mb_idx as int, multibody_info@);
            &&& mb_listed(*ids, b as int, mb_idx as int, multibody_info@)
            &&& mb.ndofs != 0 ==> {
                &&& contact_room(
                    *ids,
                    b as int,
                    mb_idx as int,
                    mb,
                    contact_constraints@,
                    contact_constraint_jacs@,
                    contact_constraint_columns@,
                    old(delassus)@,
                )
            }
        },
    ensures
        ({
            let mb = mb_at_spec(*ids, b as int, mb_idx as int, multibody_info@);
            let dim = D::dimension_spec();
            let k = bank(*ids, b as int, mb_idx as int);
            let count = mb.contact_constraint_count as int;
            let mv = contact_cols_view(dim, *ids, k, mb.ndofs as int, count);
            let dv = delassus_view(dim, k, count);
            if mb_idx < ids.multibodies_len && mb.ndofs != 0 {
                &&& forall|s: int, j: int|
                    0 <= s < count && 0 <= j < count ==> #[trigger] mat_of(
                        final(delassus)@,
                        dv,
                    )[j][s] == delassus_entry(
                        vec_of(contact_constraints@, contact_cons_view(dim, k, count)),
                        mat_of(contact_constraint_jacs@, mv),
                        mat_of(contact_constraint_columns@, mv),
                        s,
                        j,
                    )
                &&& same_outside_mat(old(delassus)@, final(delassus)@, dv)
            } else {
                final(delassus)@ == old(delassus)@
            }
        }),
{
    if mb_idx >= ids.multibodies_len {
        return ;
    }
    let mb = mb_at(ids, b, mb_idx, multibody_info);
    if mb.ndofs == 0 {
        return ;
    }
    let dim = D::dimension();
    let count: u32 = mb.contact_constraint_count;
    let n: usize = contact_constraints.len();
    proof {
        lemma_bank_index(*ids, b as int, mb_idx as int, D::dimension_spec());
    }
    let k: usize = bank_of(ids, b, mb_idx, n);
    let cv = contact_cons_at(k, count, contact_constraints);
    let jacv = contact_cols_at(dim, ids, k, mb.ndofs, count, contact_constraint_jacs.len());
    let colv = contact_cols_at(dim, ids, k, mb.ndofs, count, contact_constraint_columns.len());
    let dv = delassus_at(dim, k, count, delassus.len());
    let ghost cs = vec_of(contact_constraints@, cv);
    let ghost jm = mat_of(contact_constraint_jacs@, jacv);
    let ghost cm = mat_of(contact_constraint_columns@, colv);
    let mut s: usize = 0;
    while s < cv.len
        invariant
            cv.fits(contact_constraints@.len() as int),
            jacv.fits(contact_constraint_jacs@.len() as int),
            colv.fits(contact_constraint_columns@.len() as int),
            dv.fits(old(delassus)@.len() as int),
            jacv.ncols == cv.len,
            colv.ncols == cv.len,
            jacv.nrows == colv.nrows,
            dv.nrows == cv.len,
            dv.ncols == cv.len,
            cs == vec_of(contact_constraints@, cv),
            jm == mat_of(contact_constraint_jacs@, jacv),
            cm == mat_of(contact_constraint_columns@, colv),
            s <= cv.len,
            same_outside_mat(old(delassus)@, delassus@, dv),
            forall|i: int, j: int|
                0 <= i < s && 0 <= j < cv.len ==> #[trigger] mat_of(delassus@, dv)[j][i]
                    == delassus_entry(cs, jm, cm, i, j),
        decreases cv.len - s,
    {
        let c_s = vec_get(contact_constraints, cv, s);
        let mut j: usize = 0;
        while j < cv.len
            invariant
                cv.fits(contact_constraints@.len() as int),
                jacv.fits(contact_constraint_jacs@.len() as int),
                colv.fits(contact_constraint_columns@.len() as int),
                dv.fits(old(delassus)@.len() as int),
                jacv.ncols == cv.len,
                colv.ncols == cv.len,
                jacv.nrows == colv.nrows,
                dv.nrows == cv.len,
                dv.ncols == cv.len,
                cs == vec_of(contact_constraints@, cv),
                jm == mat_of(contact_constraint_jacs@, jacv),
                cm == mat_of(contact_constraint_columns@, colv),
                s < cv.len,
                j <= cv.len,
                c_s == cs[s as int],
                same_outside_mat(old(delassus)@, delassus@, dv),
                forall|i: int, r: int|
                    0 <= i <= s && 0 <= r < cv.len && (i < s || r < j) ==> #[trigger] mat_of(
                        delassus@,
                        dv,
                    )[r][i] == delassus_entry(cs, jm, cm, i, r),
            decreases cv.len - j,
        {
            let c_j = vec_get(contact_constraints, cv, j);
            let mut v = dot_columns(
                contact_constraint_jacs,
                jacv,
                j,
                contact_constraint_columns,
                colv,
                s,
            );
            if c_s.free_body_id != NO_FREE_BODY && c_s.free_body_id == c_j.free_body_id {
                v = v.plus(
                    c_s.free_body_im.times(D::vdot(c_j.lin_jac, c_s.lin_jac)).plus(
                        D::gdot(c_j.ang_jac, c_s.ii_ang_jac),
                    ),
                );
            }
            mat_set(delassus, dv, j, s, v);
            j = j + 1;
        }
        s = s + 1;
    }
}

/// The velocities along the contacts of a bank.
pub open spec fn contact_velocities<S: Scalar, D: Space<S>>(
    cons: Seq<MultibodyContactConstraint<S, D>>,
    jacs: Seq<Seq<S>>,
    dofv: Seq<S>,
    frees: Seq<Velocity<S, D>>,
) -> Seq<S> {
    Seq::new(cons.len(), |s: int| contact_velocity(cons[s], column(jacs, s), dofv, frees))
}

/// The constraints after a constraint-space sweep: impulses, and the
/// estimates of slip and depth.
pub open spec fn swept<S: Scalar, D: Space<S>>(
    cons: Seq<MultibodyContactConstraint<S, D>>,
    imps: Seq<S>,
    a: Seq<S>,
    use_bias: bool,
) -> Seq<MultibodyContactConstraint<S, D>> {
    Seq::new(
        cons.len(),
        |s: int|
            MultibodyContactConstraint {
                impulse: imps[s],
                drift: drifted(cons[s], use_bias, a[s]),
                ..cons[s]
            },
    )
}

/// The rank of a multibody is a small number times the size of a bank.
proof fn lemma_bank_index(ids: BatchIndices, b: int, i: int, dim: Dimension)
    requires
        0 <= b,
        0 <= i,
    ensures
        0 <= bank(ids, b, i),
        bank(ids, b, i) <= bank(ids, b, i) * max_mb_contact_constraints_spec(dim),
        bank(ids, b, i) * max_mb_contact_constraints_spec(dim) <= (bank(ids, b, i) + 1)
            * max_mb_contact_constraints_spec(dim),
{
    let k = bank(ids, b, i);
    let max = max_mb_contact_constraints_spec(dim);
    assert(0 <= b * ids.multibodies_batch_capacity) by (nonlinear_arith)
        requires
            b >= 0,
            ids.multibodies_batch_capacity >= 0,
    ;
    assert(k <= k * max && k * max <= (k + 1) * max) by (nonlinear_arith)
        requires
            k >= 0,
            max >= 1,
    ;
}

/// One sweep over the contacts of a multibody in constraint space.
pub fn gpu_mb_solve_contacts_delassus<S: Scalar, D: Space<S>>(
    mb_idx: u32,
    b: u32,
    multibody_info: &[MultibodyInfo],
    contact_constraints: &mut [MultibodyContactConstraint<S, D>],
    contact_constraint_jacs: &[S],
    contact_constraint_columns: &[S],
    delassus: &[S],
    use_bias: bool,
    ids: &BatchIndices,
    dof_state: &mut [S],
    solver_vels: &mut [Velocity<S, D>],
)
    requires
        mb_idx < ids.multibodies_len ==> {
            let mb = mb_at_spec(*ids, b as int, mb_idx as int, multibody_info@);
            &&& mb_listed(*ids, b as int, mb_idx as int, multibody_info@)
            &&& mb.ndofs != 0 ==> {
                &&& contact_room(
                    *ids,
                    b as int,
                    mb_idx as int,
                    mb,
                    old(contact_constraints)@,
                    contact_constraint_jacs@,
                    contact_constraint_columns@,
                    delassus@,
                )
                &&& room(
                    ids.num_batches as int,
                    b as int,
                    mb.first_dof as int,
                    mb.ndofs as int,
                    old(dof_state)@.len() as int,
                )
                &&& (b + 1) * ids.colliders_batch_capacity <= old(solver_vels)@.len() <= usize::MAX
                &&& contacts_ok(
                    vec_of(
                        old(contact_constraints)@,
                        contact_cons_view(
                            D::dimension_spec(),
                            bank(*ids, b as int, mb_idx as int),
                            mb.contact_constraint_count as int,
                        ),
                    ),
                    ids.colliders_batch_capacity as int,
                )
            }
        },
    ensures
        ({
            let mb = mb_at_spec(*ids, b as int, mb_idx as int, multibody_info@);
            let dim = D::dimension_spec();
            let k = bank(*ids, b as int, mb_idx as int);
            let count = mb.contact_constraint_count as int;
            let cv = contact_cons_view(dim, k, count);
            let mv = contact_cols_view(dim, *ids, k, mb.ndofs as int, count);
            let dv = dof_view(*ids, b as int, mb);
            let fv = body_vels_view(*ids, b as int);
            if mb_idx < ids.multibodies_len && mb.ndofs != 0 {
                let cons = vec_of(old(contact_constraints)@, cv);
                let dofv = vec_of(old(dof_state)@, dv);
                let frees = vec_of(old(solver_vels)@, fv);
                let out = delassus_sweep(
                    cons,
                    mat_of(contact_constraint_columns@, mv),
                    delassus_rows(mat_of(delassus@, delassus_view(dim, k, count)), count),
                    use_bias,
                    DelassusSweep {
                        a: contact_velocities(
                            cons,
                            mat_of(contact_constraint_jacs@, mv),
                            dofv,
                            frees,
                        ),
                        st: ContactSweep { dofv: dofv, imps: impulses_of(cons), frees: frees },
                    },
                    count,
                );
                &&& vec_of(final(contact_constraints)@, cv) == swept(
                    cons,
                    out.st.imps,
                    out.a,
                    use_bias,
                )
                &&& same_outside_vec(old(contact_constraints)@, final(contact_constraints)@, cv)
                &&& vec_of(final(dof_state)@, dv) == out.st.dofv
                &&& same_outside_vec(old(dof_state)@, final(dof_state)@, dv)
                &&& vec_of(final(solver_vels)@, fv) == out.st.frees
                &&& same_outside_vec(old(solver_vels)@, final(solver_vels)@, fv)
            } else {
                &&& final(contact_constraints)@ == old(contact_constraints)@
                &&& final(dof_state)@ == old(dof_state)@
                &&& final(solver_vels)@ == old(solver_vels)@
            }
        }),
{
    if mb_idx >= ids.multibodies_len {
        return ;
    }
    let mb = mb_at(ids, b, mb_idx, multibody_info);
    if mb.ndofs == 0 {
        return ;
    }
    let dim = D::dimension();
    let count: u32 = mb.contact_constraint_count;
    let n: usize = contact_constraints.len();
    proof {
        lemma_bank_index(*ids, b as int, mb_idx as int, D::dimension_spec());
    }
    let k: usize = bank_of(ids, b, mb_idx, n);
    let cv = contact_cons_at(k, count, contact_constraints);
    let jacv = contact_cols_at(dim, ids, k, mb.ndofs, count, contact_constraint_jacs.len());
    let colv = contact_cols_at(dim, ids, k, mb.ndofs, count, contact_constraint_columns.len());
    let delv = delassus_at(dim, k, count, delassus.len());
    let dv = ids.ivec(b, mb.first_dof as usize, mb.ndofs as usize, dof_state.len());
    let fv = body_vels_at(ids, b, solver_vels.len());
    let mut dofv: Vec<S> = load_vec(dof_state, dv);
    let mut imps: Vec<S> = load_impulses(contact_constraints, cv);
    let ghost cs = vec_of(contact_constraints@, cv);
    let ghost jm = mat_of(contact_constraint_jacs@, jacv);
    let ghost cm = mat_of(contact_constraint_columns@, colv);
    let ghost frees0 = vec_of(solver_vels@, fv);
    let ghost vels = contact_velocities(cs, jm, dofv@, frees0);
    let mut a: Vec<S> = Vec::new();
    let mut s: usize = 0;
    while s < cv.len
        invariant
            cv.fits(contact_constraints@.len() as int),
            jacv.fits(contact_constraint_jacs@.len() as int),
            fv.fits(solver_vels@.len() as int),
            jacv.ncols == cv.len,
            jacv.nrows == dofv@.len(),
            contacts_ok(cs, fv.len as int),
            cs == vec_of(contact_constraints@, cv),
            jm == mat_of(contact_constraint_jacs@, jacv),
            frees0 == vec_of(solver_vels@, fv),
            vels == contact_velocities(cs, jm, dofv@, frees0),
            s <= cv.len,
            a@ =~= vels.take(s as int),
        decreases cv.len - s,
    {
        let c = vec_get(contact_constraints, cv, s);
        assert(c == cs[s as int]);
        let mut v = dot_column(&dofv, contact_constraint_jacs, jacv, s);
        if c.free_body_id != NO_FREE_BODY {
            let free = vec_get(solver_vels, fv, c.free_body_id as usize);
            v = v.plus(D::vdot(c.lin_jac, free.linear).plus(D::gdot(c.ang_jac, free.angular)));
        }
        a.push(v);
        s = s + 1;
    }
    assert(a@ =~= vels);
    let ghost dofv0 = dofv@;
    run_delassus_sweep(
        contact_constraints,
        cv,
        contact_constraint_columns,
        colv,
        delassus,
        delv,
        use_bias,
        &mut a,
        &mut dofv,
        &mut imps,
        solver_vels,
        fv,
    );
    proof {
        super::sweeps::lemma_delassus_sweep_len(
            cs,
            cm,
            delassus_rows(mat_of(delassus@, delv), count as int),
            use_bias,
            DelassusSweep {
                a: vels,
                st: ContactSweep { dofv: dofv0, imps: impulses_of(cs), frees: frees0 },
            },
            count as int,
        );
    }
    store_vec(&dofv, dof_state, dv);
    let ghost out = swept(cs, imps@, a@, use_bias);
    let mut s: u32 = 0;
    while s < count
        invariant
            cv.fits(old(contact_constraints)@.len() as int),
            cv.stride == 1,
            cv.len == count,
            imps@.len() == count,
            a@.len() == count,
            cs == vec_of(old(contact_constraints)@, cv),
            out == swept(cs, imps@, a@, use_bias),
            s <= count,
            same_outside_vec(old(contact_constraints)@, contact_constraints@, cv),
            forall|j: int|
                0 <= j < count ==> #[trigger] vec_of(contact_constraints@, cv)[j] == (if j < s {
                    out[j]
                } else {
                    cs[j]
                }),
        decreases count - s,
    {
        proof {
            cv.lemma_idx(contact_constraints@.len() as int, s as int);
        }
        let mut c = contact_constraints[ccons_writeback_guard(cv.base, s)];
        assert(c == vec_of(contact_constraints@, cv)[s as int]);
        c.impulse = imps[s as usize];
        c.drift = update_drift(&c, use_bias, a[s as usize]);
        vec_set(contact_constraints, cv, s as usize, c);
        s = s + 1;
    }
    assert(vec_of(contact_constraints@, cv) =~= out);
}

} // verus!
