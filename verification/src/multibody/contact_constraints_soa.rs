//! Contact constraints with interleaved buffers: entry `e` of batch `b` lives
//! at `e * num_batches + b`, so neighbouring batches are neighbours in memory.
use super::contact_constraints::with_response;
use super::ltdl::{ltdl_solve, ltdl_solve_strided, parents_in_range};
use super::solve_constraints::{
    bank, bank_of, body_vels_at, body_vels_view, contact_cons_at, contact_cons_room,
    contact_cons_view, impulses_of, load_impulses, store_impulses, with_impulses,
};
use super::sweeps::{
    ContactSweep, add_column, column, contact_apply, contact_clamped, contact_velocity,
    contacts_ok, dot_column, dot_fold, push_free,
};
use super::types::{
    MB_CONTACT_KIND_INACTIVE, MB_CONTACT_KIND_TANGENT, MultibodyContactConstraint, MultibodyInfo,
    NO_FREE_BODY, max_mb_contact_constraints, max_mb_contact_constraints_spec,
};
use crate::batch::{BatchIndices, imat_spec, ivec_spec, room};
use crate::scalar::Scalar;
use crate::space::{Dimension, Space, Velocity};
use crate::views::{
    MatView, VecView, copy_vec, load_vec, mat_of, same_outside_vec, store_vec, vec_get, vec_of,
    vec_set,
};
use vstd::arithmetic::div_mod::lemma_fundamental_div_mod_converse;
use vstd::prelude::*;

verus! {

// ---- transposing the factors ----

/// Whether interleaved position `k` belongs to tile `(wx, wy)`: 32 batches by
/// 32 factors.
pub open spec fn in_tile(nb: int, cap: int, wx: int, wy: int, k: int) -> bool {
    &&& 0 <= k < cap * nb
    &&& 32 * wx <= k % nb < 32 * wx + 32
    &&& 32 * wy <= k / nb < 32 * wy + 32
}

proof fn lemma_interleaved(nb: int, cap: int, e: int, b: int)
    requires
        0 <= b < nb,
        0 <= e < cap,
    ensures
        0 <= e * nb,
        0 <= e * nb + b < cap * nb,
        (e * nb + b) / nb == e,
        (e * nb + b) % nb == b,
        0 <= b * cap,
        0 <= b * cap + e < nb * cap,
{
    lemma_fundamental_div_mod_converse(e * nb + b, nb, e, b);
    assert(0 <= e * nb && e * nb + nb <= cap * nb) by (nonlinear_arith)
        requires
            0 <= e,
            e + 1 <= cap,
            0 <= nb,
    ;
    assert(0 <= b * cap && b * cap + cap <= nb * cap) by (nonlinear_arith)
        requires
            0 <= b,
            b + 1 <= nb,
            0 <= cap,
    ;
}

/// Transposes one tile of the factors, from one slab per batch to interleaved.
pub fn gpu_mb_transpose_factors_soa<S: Scalar>(
    wx: u32,
    wy: u32,
    mass_matrices: &[S],
    mass_matrices_soa: &mut [S],
    ids: &BatchIndices,
)
    requires
        ids.num_batches * ids.mass_matrix_batch_capacity <= mass_matrices@.len(),
        ids.mass_matrix_batch_capacity * ids.num_batches <= old(mass_matrices_soa)@.len(),
    ensures
        final(mass_matrices_soa)@.len() == old(mass_matrices_soa)@.len(),
        forall|k: int|
            0 <= k < old(mass_matrices_soa)@.len() ==> #[trigger] final(mass_matrices_soa)@[k] == ({
                let nb = ids.num_batches as int;
                let cap = ids.mass_matrix_batch_capacity as int;
                if in_tile(nb, cap, wx as int, wy as int, k) {
                    mass_matrices@[(k % nb) * cap + k / nb]
                } else {
                    old(mass_matrices_soa)@[k]
                }
            }),
{
    let nb: u64 = ids.num_batches as u64;
    let cap: u64 = ids.mass_matrix_batch_capacity as u64;
    let len: usize = mass_matrices_soa.len();
    let slen: usize = mass_matrices.len();
    let b0: u64 = 32 * wx as u64;
    let e0: u64 = 32 * wy as u64;
    let ghost out0 = mass_matrices_soa@;
    let mut r: u64 = 0;
    while r < 32
        invariant
            nb == ids.num_batches,
            cap == ids.mass_matrix_batch_capacity,
            nb * cap <= mass_matrices@.len(),
            cap * nb <= out0.len(),
            mass_matrices@.len() == slen,
            mass_matrices_soa@.len() == out0.len(),
            out0.len() == len,
            b0 == 32 * wx,
            e0 == 32 * wy,
            r <= 32,
            forall|k: int|
                0 <= k < out0.len() ==> #[trigger] mass_matrices_soa@[k] == (if in_tile(
                    nb as int,
                    cap as int,
                    wx as int,
                    wy as int,
                    k,
                ) && k % (nb as int) < b0 + r {
                    mass_matrices@[(k % (nb as int)) * cap + k / (nb as int)]
                } else {
                    out0[k]
                }),
        decreases 32 - r,
    {
        let b: u64 = b0 + r;
        let mut l: u64 = 0;
        while l < 32
            invariant
                nb == ids.num_batches,
                cap == ids.mass_matrix_batch_capacity,
                nb * cap <= mass_matrices@.len(),
                cap * nb <= out0.len(),
                mass_matrices@.len() == slen,
                mass_matrices_soa@.len() == out0.len(),
                out0.len() == len,
                b0 == 32 * wx,
                e0 == 32 * wy,
                r < 32,
                b == b0 + r,
                l <= 32,
                forall|k: int|
                    0 <= k < out0.len() ==> #[trigger] mass_matrices_soa@[k] == (if in_tile(
                        nb as int,
                        cap as int,
                        wx as int,
                        wy as int,
                        k,
                    ) && (k % (nb as int) < b || (k % (nb as int) == b && k / (nb as int) < e0
                        + l)) {
                        mass_matrices@[(k % (nb as int)) * cap + k / (nb as int)]
                    } else {
                        out0[k]
                    }),
            decreases 32 - l,
        {
            let e: u64 = e0 + l;
            if b < nb && e < cap {
                proof {
                    lemma_interleaved(nb as int, cap as int, e as int, b as int);
                }
                let at: usize = e as usize * nb as usize + b as usize;
                mass_matrices_soa[at] = mass_matrices[b as usize * cap as usize + e as usize];
                proof {
                    assert forall|k: int| 0 <= k < out0.len() implies #[trigger] mass_matrices_soa@[k]
                        == (if in_tile(nb as int, cap as int, wx as int, wy as int, k) && (k % (
                    nb as int) < b || (k % (nb as int) == b && k / (nb as int) < e0 + l + 1)) {
                        mass_matrices@[(k % (nb as int)) * cap + k / (nb as int)]
                    } else {
                        out0[k]
                    }) by {
                        if k % (nb as int) == b && k / (nb as int) == e {
                            vstd::arithmetic::div_mod::lemma_fundamental_div_mod(k, nb as int);
                            assert(k == at) by (nonlinear_arith)
                                requires
                                    k == nb * (k / (nb as int)) + k % (nb as int),
                                    k / (nb as int) == e,
                                    k % (nb as int) == b,
                                    at == e * nb + b,
                            ;
                        }
                    }
                }
            } else {
                proof {
                    assert forall|k: int|
                        in_tile(nb as int, cap as int, wx as int, wy as int, k) implies k / (
                    nb as int) < cap && k % (nb as int) < nb by {
                        lemma_position(nb as int, cap as int, k);
                    }
                }
            }
            l = l + 1;
        }
        r = r + 1;
    }
    assert forall|k: int| 0 <= k < out0.len() implies #[trigger] mass_matrices_soa@[k] == (
    if in_tile(nb as int, cap as int, wx as int, wy as int, k) {
        mass_matrices@[(k % (nb as int)) * cap + k / (nb as int)]
    } else {
        out0[k]
    }) by {}
}

proof fn lemma_position(nb: int, cap: int, k: int)
    requires
        0 <= k < cap * nb,
        0 <= nb,
    ensures
        0 < nb,
        0 <= k % nb < nb,
        0 <= k / nb < cap,
        k == (k / nb) * nb + k % nb,
{
    if nb == 0 {
        assert(cap * nb == 0) by (nonlinear_arith)
            requires
                nb == 0,
        ;
    }
    vstd::arithmetic::div_mod::lemma_fundamental_div_mod(k, nb);
    assert(0 <= k / nb < cap && k == (k / nb) * nb + k % nb) by (nonlinear_arith)
        requires
            0 <= k < cap * nb,
            nb > 0,
            k == nb * (k / nb) + k % nb,
            0 <= k % nb < nb,
    ;
}

/// Every factor of every batch belongs to exactly one tile.
pub proof fn tiles_partition_factors(nb: int, cap: int, k: int, wx: int, wy: int)
    requires
        0 <= k < cap * nb,
        0 <= nb,
        0 <= wx,
        0 <= wy,
    ensures
        in_tile(nb, cap, wx, wy, k) <==> (wx == (k % nb) / 32 && wy == (k / nb) / 32),
{
    lemma_position(nb, cap, k);
}

// ---- responses ----

/// Which constraint a flat position stands for: the batch, the multibody and
/// the slot, or nothing past the last one. Batches vary fastest.
pub open spec fn soa_slot(dim: Dimension, ids: BatchIndices, t: int) -> Option<(int, int, int)> {
    let nb = ids.num_batches as int;
    let max = max_mb_contact_constraints_spec(dim);
    if nb > 0 && 0 <= t < nb * ids.multibodies_batch_capacity * max {
        Some((t % nb, (t / nb) / max, (t / nb) % max))
    } else {
        None
    }
}

/// The interleaved jacobian, or response, of one constraint.
pub open spec fn soa_row_view(
    dim: Dimension,
    ids: BatchIndices,
    b: int,
    i: int,
    s: int,
    ndofs: int,
) -> VecView {
    ivec_spec(
        ids.num_batches as int,
        b,
        (i * max_mb_contact_constraints_spec(dim) + s) * ids.dof_batch_capacity,
        ndofs,
    )
}

/// The parents of the degrees of freedom of multibody `mb`: one slab per batch.
pub open spec fn slab_view(ids: BatchIndices, b: int, mb: MultibodyInfo) -> VecView {
    VecView {
        base: (b * ids.dof_batch_capacity + mb.first_dof) as usize,
        stride: 1,
        len: mb.ndofs as usize,
    }
}

fn slab_at(ids: &BatchIndices, b: u32, mb: &MultibodyInfo, n: usize) -> (v: VecView)
    requires
        b * ids.dof_batch_capacity + mb.first_dof + mb.ndofs <= n,
    ensures
        v == slab_view(*ids, b as int, *mb),
        v.fits(n as int),
        v.len == mb.ndofs,
{
    assert(0 <= b * ids.dof_batch_capacity) by (nonlinear_arith)
        requires
            b >= 0,
            ids.dof_batch_capacity >= 0,
    ;
    VecView {
        base: b as usize * ids.dof_batch_capacity as usize + mb.first_dof as usize,
        stride: 1,
        len: mb.ndofs as usize,
    }
}

/// Whether constraint slot `s` of multibody `i` of batch `b` is in use.
pub open spec fn soa_live(
    ids: BatchIndices,
    b: int,
    i: int,
    s: int,
    info: Seq<MultibodyInfo>,
    counts: Seq<u32>,
    num_multibodies: Seq<u32>,
) -> bool {
    let k = bank(ids, b, i);
    i < num_multibodies[b] && info[k].ndofs != 0 && s < counts[k]
}

/// Solves for the response of one contact constraint and sets its effective
/// mass; one constraint per flat position.
pub fn gpu_mb_finalize_contact_constraints_soa<S: Scalar, D: Space<S>>(
    t: u32,
    multibody_info: &[MultibodyInfo],
    mass_matrices_soa: &[S],
    lu_pivots: &[u32],
    contact_constraints: &mut [MultibodyContactConstraint<S, D>],
    contact_constraint_jacs: &[S],
    contact_constraint_columns: &mut [S],
    contact_constraint_count: &[u32],
    num_multibodies: &[u32],
    ids: &BatchIndices,
)
    requires
        match soa_slot(D::dimension_spec(), *ids, t as int) {
            None => true,
            Some((b, i, s)) => {
                let nb = ids.num_batches as int;
                let k = bank(*ids, b, i);
                let mb = multibody_info@[k];
                let n = mb.ndofs as int;
                let max = max_mb_contact_constraints_spec(D::dimension_spec());
                let off = (i * max + s) * ids.dof_batch_capacity;
                &&& b < num_multibodies@.len()
                &&& i < num_multibodies@[b] ==> {
                    &&& k < multibody_info@.len()
                    &&& k < contact_constraint_count@.len()
                }
                &&& soa_live(
                    *ids,
                    b,
                    i,
                    s,
                    multibody_info@,
                    contact_constraint_count@,
                    num_multibodies@,
                ) ==> {
                    &&& k * max + s < old(contact_constraints)@.len()
                    &&& room(nb, b, off, n, contact_constraint_jacs@.len() as int)
                    &&& room(nb, b, off, n, old(contact_constraint_columns)@.len() as int)
                    &&& room(
                        nb,
                        b,
                        mb.mass_matrix_offset as int,
                        n * n,
                        mass_matrices_soa@.len() as int,
                    )
                    &&& b * ids.dof_batch_capacity + mb.first_dof + n <= lu_pivots@.len()
                    &&& parents_in_range(vec_of(lu_pivots@, slab_view(*ids, b, mb)))
                }
            },
        },
    ensures
        match soa_slot(D::dimension_spec(), *ids, t as int) {
            Some((b, i, s)) if soa_live(
                *ids,
                b,
                i,
                s,
                multibody_info@,
                contact_constraint_count@,
                num_multibodies@,
            ) => {
                let dim = D::dimension_spec();
                let k = bank(*ids, b, i);
                let mb = multibody_info@[k];
                let n = mb.ndofs as int;
                let at = k * max_mb_contact_constraints_spec(dim) + s;
                let v = soa_row_view(dim, *ids, b, i, s, n);
                let jac = vec_of(contact_constraint_jacs@, v);
                let col = ltdl_solve(
                    mat_of(
                        mass_matrices_soa@,
                        imat_spec(ids.num_batches as int, b, mb.mass_matrix_offset as int, n, n),
                    ),
                    vec_of(lu_pivots@, slab_view(*ids, b, mb)),
                    jac,
                );
                &&& vec_of(final(contact_constraint_columns)@, v) == col
                &&& same_outside_vec(
                    old(contact_constraint_columns)@,
                    final(contact_constraint_columns)@,
                    v,
                )
                &&& final(contact_constraints)@ == old(contact_constraints)@.update(
                    at,
                    with_response(old(contact_constraints)@[at], jac, col),
                )
            },
            _ => {
                &&& final(contact_constraints)@ == old(contact_constraints)@
                &&& final(contact_constraint_columns)@ == old(contact_constraint_columns)@
            },
        },
{
    let max: u32 = max_mb_contact_constraints(D::dimension());
    let nb: u32 = ids.num_batches;
    let cap: u32 = ids.multibodies_batch_capacity;
    if nb == 0 {
        return ;
    }
    assert(0 <= nb * cap <= 0xffff_ffff * 0xffff_ffff) by (nonlinear_arith)
        requires
            0 <= nb <= 0xffff_ffff,
            0 <= cap <= 0xffff_ffff,
    ;
    assert(nb * cap * max <= 0xffff_ffff * 0xffff_ffff * 200) by (nonlinear_arith)
        requires
            0 <= nb * cap <= 0xffff_ffff * 0xffff_ffff,
            0 <= max <= 200,
    ;
    let total: u128 = nb as u128 * cap as u128 * max as u128;
    if t as u128 >= total {
        return ;
    }
    let b: u32 = t % nb;
    let rest: u32 = t / nb;
    let i: u32 = rest / max;
    let s: u32 = rest % max;
    assert(soa_slot(D::dimension_spec(), *ids, t as int) == Some((b as int, i as int, s as int)));
    if i >= num_multibodies[b as usize] {
        return ;
    }
    let info_len: usize = multibody_info.len();
    let k: usize = bank_of(ids, b, i, info_len);
    let mb = multibody_info[k];
    if mb.ndofs == 0 || s >= contact_constraint_count[k] {
        return ;
    }
    assert(soa_live(
        *ids,
        b as int,
        i as int,
        s as int,
        multibody_info@,
        contact_constraint_count@,
        num_multibodies@,
    ));
    let n: usize = mb.ndofs as usize;
    let ghost off = (i * max + s) * ids.dof_batch_capacity;
    let jlen: usize = contact_constraint_jacs.len();
    proof {
        assert(0 <= i * max && 0 <= off) by (nonlinear_arith)
            requires
                off == (i * max + s) * ids.dof_batch_capacity,
                i >= 0,
                max >= 0,
                s >= 0,
                ids.dof_batch_capacity >= 0,
        ;
        assert(off + n <= (off + n) * nb) by (nonlinear_arith)
            requires
                nb >= 1,
                off + n >= 0,
        ;
        let cols = ids.dof_batch_capacity as int;
        assert(i * max <= 0xffff_ffff * 200) by (nonlinear_arith)
            requires
                0 <= i <= 0xffff_ffff,
                0 <= max <= 200,
        ;
        if cols > 0 {
            assert(i * max + s <= off) by (nonlinear_arith)
                requires
                    off == (i * max + s) * cols,
                    cols >= 1,
                    i * max + s >= 0,
            ;
        }
    }
    let slot: u64 = i as u64 * max as u64 + s as u64;
    let base: usize = if ids.dof_batch_capacity == 0 {
        assert(off == 0) by (nonlinear_arith)
            requires
                off == (i * max + s) * ids.dof_batch_capacity,
                ids.dof_batch_capacity == 0,
        ;
        0
    } else {
        slot as usize * ids.dof_batch_capacity as usize
    };
    assert(base == off);
    let jv = ids.ivec(b, base, n, jlen);
    let xv = ids.ivec(b, base, n, contact_constraint_columns.len());
    let mv = ids.imat(b, mb.mass_matrix_offset as usize, n, n, mass_matrices_soa.len());
    let pv = slab_at(ids, b, &mb, lu_pivots.len());
    copy_vec(contact_constraint_jacs, jv, contact_constraint_columns, xv);
    let ghost mid = contact_constraint_columns@;
    ltdl_solve_strided(mass_matrices_soa, mv, contact_constraint_columns, xv, lu_pivots, pv);
    let ghost jac = vec_of(contact_constraint_jacs@, jv);
    let ghost col = vec_of(contact_constraint_columns@, xv);
    let mut acc = S::zero();
    let mut e: usize = 0;
    while e < n
        invariant
            jv.fits(contact_constraint_jacs@.len() as int),
            xv.fits(contact_constraint_columns@.len() as int),
            jv.len == n,
            xv.len == n,
            jac == vec_of(contact_constraint_jacs@, jv),
            col == vec_of(contact_constraint_columns@, xv),
            e <= n,
            acc == dot_fold(jac, col, e as int),
        decreases n - e,
    {
        acc = acc.plus(
            vec_get(contact_constraint_jacs, jv, e).times(
                vec_get(contact_constraint_columns, xv, e),
            ),
        );
        e = e + 1;
    }
    let len: usize = contact_constraints.len();
    proof {
        assert(0 <= b * cap) by (nonlinear_arith)
            requires
                b >= 0,
                cap >= 0,
        ;
        assert(0 <= k * max) by (nonlinear_arith)
            requires
                k >= 0,
                max >= 0,
        ;
    }
    let at: usize = k * max as usize + s as usize;
    let mut c = contact_constraints[at];
    let free = if c.free_body_id == NO_FREE_BODY {
        S::zero()
    } else {
        c.free_body_im.plus(D::gdot(c.ang_jac, c.ii_ang_jac))
    };
    let sum = acc.plus(free);
    c.inv_lhs = if S::zero().lt(sum) {
        S::one().over(sum)
    } else {
        S::zero()
    };
    contact_constraints[at] = c;
}

// ---- sweeps ----

/// A constraint without its positional bias.
pub open spec fn unbiased<S: Scalar, D: Space<S>>(
    c: MultibodyContactConstraint<S, D>,
) -> MultibodyContactConstraint<S, D> {
    if c.kind == MB_CONTACT_KIND_INACTIVE {
        c
    } else {
        MultibodyContactConstraint { rhs: c.rhs_wo_bias, ..c }
    }
}

/// The constraints of a sweep, with or without bias.
pub open spec fn sweep_constraints<S: Scalar, D: Space<S>>(
    cons: Seq<MultibodyContactConstraint<S, D>>,
    strip_bias: bool,
) -> Seq<MultibodyContactConstraint<S, D>> {
    Seq::new(
        cons.len(),
        |s: int|
            if strip_bias {
                unbiased(cons[s])
            } else {
                cons[s]
            },
    )
}

/// The impulse of a contact constraint after a step.
pub open spec fn soa_impulse<S: Scalar, D: Space<S>>(
    c: MultibodyContactConstraint<S, D>,
    impulse: S,
    rhs_total: S,
    normal_impulse: S,
) -> S {
    contact_clamped(
        c,
        impulse.minus_spec(
            c.inv_lhs.times_spec(rhs_total.plus_spec(c.cfm_gain.times_spec(impulse))),
        ).over_spec(S::one_spec().plus_spec(c.cfm_coeff)),
        normal_impulse,
    )
}

/// The state after the first `k` constraints of an interleaved sweep.
pub open spec fn soa_sweep<S: Scalar, D: Space<S>>(
    cons: Seq<MultibodyContactConstraint<S, D>>,
    jacs: Seq<Seq<S>>,
    cols: Seq<Seq<S>>,
    st0: ContactSweep<S, D>,
    k: int,
) -> ContactSweep<S, D>
    decreases k,
{
    if k <= 0 {
        st0
    } else {
        let p = soa_sweep(cons, jacs, cols, st0, k - 1);
        let s = k - 1;
        let c = cons[s];
        let v = contact_velocity(c, column(jacs, s), p.dofv, p.frees);
        let imp = soa_impulse(
            c,
            p.imps[s],
            v.plus_spec(c.rhs),
            p.imps[c.normal_constraint_slot as int],
        );
        contact_apply(c, column(cols, s), s, imp, imp.minus_spec(p.imps[s]), p)
    }
}

pub(crate) proof fn lemma_soa_sweep_len<S: Scalar, D: Space<S>>(
    cons: Seq<MultibodyContactConstraint<S, D>>,
    jacs: Seq<Seq<S>>,
    cols: Seq<Seq<S>>,
    st0: ContactSweep<S, D>,
    k: int,
)
    requires
        0 <= k <= cons.len(),
        st0.imps.len() == cons.len(),
        contacts_ok(cons, st0.frees.len() as int),
    ensures
        soa_sweep(cons, jacs, cols, st0, k).dofv.len() == st0.dofv.len(),
        soa_sweep(cons, jacs, cols, st0, k).imps.len() == st0.imps.len(),
        soa_sweep(cons, jacs, cols, st0, k).frees.len() == st0.frees.len(),
    decreases k,
{
    if k > 0 {
        lemma_soa_sweep_len(cons, jacs, cols, st0, k - 1);
    }
}

/// The interleaved jacobians, or responses, of the first `count` constraints of
/// multibody `i` of batch `b`: one column per constraint.
pub open spec fn soa_cols_view(
    dim: Dimension,
    ids: BatchIndices,
    b: int,
    i: int,
    ndofs: int,
    count: int,
) -> MatView {
    MatView {
        base: (i * max_mb_contact_constraints_spec(dim) * ids.dof_batch_capacity
            * ids.num_batches + b) as usize,
        row_stride: ids.num_batches as usize,
        col_stride: (ids.dof_batch_capacity * ids.num_batches) as usize,
        nrows: ndofs as usize,
        ncols: count as usize,
    }
}

/// The interleaved columns of multibody `i` are there.
pub open spec fn soa_cols_room(
    dim: Dimension,
    ids: BatchIndices,
    b: int,
    i: int,
    ndofs: int,
    n: int,
) -> bool {
    &&& 0 <= b < ids.num_batches
    &&& 0 < ndofs <= ids.dof_batch_capacity
    &&& (i + 1) * max_mb_contact_constraints_spec(dim) * ids.dof_batch_capacity * ids.num_batches
        <= n
    &&& n <= usize::MAX
}

fn soa_cols_at(
    dim: Dimension,
    ids: &BatchIndices,
    b: u32,
    i: u32,
    ndofs: u32,
    count: u32,
    n: usize,
) -> (m: MatView)
    requires
        soa_cols_room(dim, *ids, b as int, i as int, ndofs as int, n as int),
        count <= max_mb_contact_constraints_spec(dim),
    ensures
        m == soa_cols_view(dim, *ids, b as int, i as int, ndofs as int, count as int),
        m.fits(n as int),
        m.nrows == ndofs,
        m.ncols == count,
{
    let max: usize = max_mb_contact_constraints(dim) as usize;
    let nb: usize = ids.num_batches as usize;
    let stride: usize = ids.dof_batch_capacity as usize;
    let ghost first = i * max;
    let ghost row = stride * nb;
    proof {
        assert(0 <= first && (i + 1) * max == first + max) by (nonlinear_arith)
            requires
                first == i * max,
                i >= 0,
                max >= 0,
        ;
        assert((first + max) * stride * nb == first * stride * nb + max * row && 0 <= first
            * stride && 0 <= first * stride * nb && first * stride <= first * stride * nb
            && first <= first * stride && row >= nb && row <= max * row && row >= 0)
            by (nonlinear_arith)
            requires
                row == stride * nb,
                first >= 0,
                stride >= 1,
                nb >= 1,
                max >= 1,
        ;
    }
    let m = MatView {
        base: i as usize * max * stride * nb + b as usize,
        row_stride: nb,
        col_stride: stride * nb,
        nrows: ndofs as usize,
        ncols: count as usize,
    };
    proof {
        if count > 0 {
            assert(ndofs * nb <= row && (ndofs - 1) * nb <= row - nb) by (nonlinear_arith)
                requires
                    row == stride * nb,
                    ndofs <= stride,
                    nb >= 0,
            ;
            assert((count - 1) * row + row <= max * row) by (nonlinear_arith)
                requires
                    count <= max,
                    row >= 0,
            ;
        }
    }
    m
}

/// What a sweep over multibody `i` of batch `b` needs.
pub open spec fn soa_sweep_ok<S: Scalar, D: Space<S>>(
    ids: BatchIndices,
    b: int,
    i: int,
    info: Seq<MultibodyInfo>,
    cons: Seq<MultibodyContactConstraint<S, D>>,
    jacs: Seq<S>,
    cols: Seq<S>,
    counts: Seq<u32>,
    dof_state: Seq<S>,
    solver_vels: Seq<Velocity<S, D>>,
) -> bool {
    let dim = D::dimension_spec();
    let k = bank(ids, b, i);
    let mb = info[k];
    let count = counts[k] as int;
    let n = mb.ndofs as int;
    &&& 0 <= b
    &&& 0 <= i
    &&& k < info.len()
    &&& n != 0 ==> {
        &&& k < counts.len()
        &&& contact_cons_room(k, count, cons)
        &&& soa_cols_room(dim, ids, b, i, n, jacs.len() as int)
        &&& soa_cols_room(dim, ids, b, i, n, cols.len() as int)
        &&& b * ids.dof_batch_capacity + mb.first_dof + n <= dof_state.len()
        &&& dof_state.len() <= usize::MAX
        &&& (b + 1) * ids.colliders_batch_capacity <= solver_vels.len() <= usize::MAX
        &&& contacts_ok(
            vec_of(cons, contact_cons_view(dim, k, count)),
            ids.colliders_batch_capacity as int,
        )
    }
}

/// What a sweep over multibody `i` of batch `b` does.
pub open spec fn soa_swept<S: Scalar, D: Space<S>>(
    ids: BatchIndices,
    b: int,
    i: int,
    strip_bias: bool,
    info: Seq<MultibodyInfo>,
    jacs: Seq<S>,
    cols: Seq<S>,
    counts: Seq<u32>,
    cons0: Seq<MultibodyContactConstraint<S, D>>,
    cons1: Seq<MultibodyContactConstraint<S, D>>,
    dof0: Seq<S>,
    dof1: Seq<S>,
    vels0: Seq<Velocity<S, D>>,
    vels1: Seq<Velocity<S, D>>,
) -> bool {
    let dim = D::dimension_spec();
    let k = bank(ids, b, i);
    let mb = info[k];
    let count = counts[k] as int;
    let cv = contact_cons_view(dim, k, count);
    let mv = soa_cols_view(dim, ids, b, i, mb.ndofs as int, count);
    let dv = slab_view(ids, b, mb);
    let fv = body_vels_view(ids, b);
    if mb.ndofs == 0 {
        cons1 == cons0 && dof1 == dof0 && vels1 == vels0
    } else {
        let cons = sweep_constraints(vec_of(cons0, cv), strip_bias);
        let st = soa_sweep(
            cons,
            mat_of(jacs, mv),
            mat_of(cols, mv),
            ContactSweep {
                dofv: vec_of(dof0, dv),
                imps: impulses_of(cons),
                frees: vec_of(vels0, fv),
            },
            count,
        );
        &&& vec_of(cons1, cv) == with_impulses(cons, st.imps)
        &&& same_outside_vec(cons0, cons1, cv)
        &&& vec_of(dof1, dv) == st.dofv
        &&& same_outside_vec(dof0, dof1, dv)
        &&& vec_of(vels1, fv) == st.frees
        &&& same_outside_vec(vels0, vels1, fv)
    }
}

/// One sweep over the contact constraints of multibody `i` of batch `b`.
pub fn contact_sweep_soa<S: Scalar, D: Space<S>>(
    multibody_info: &[MultibodyInfo],
    contact_constraints: &mut [MultibodyContactConstraint<S, D>],
    contact_constraint_jacs: &[S],
    contact_constraint_columns: &[S],
    contact_constraint_count: &[u32],
    dof_state: &mut [S],
    solver_vels: &mut [Velocity<S, D>],
    b: u32,
    i: u32,
    ids: &BatchIndices,
    strip_bias: bool,
)
    requires
        soa_sweep_ok(
            *ids,
            b as int,
            i as int,
            multibody_info@,
            old(contact_constraints)@,
            contact_constraint_jacs@,
            contact_constraint_columns@,
            contact_constraint_count@,
            old(dof_state)@,
            old(solver_vels)@,
        ),
    ensures
        soa_swept(
            *ids,
            b as int,
            i as int,
            strip_bias,
            multibody_info@,
            contact_constraint_jacs@,
            contact_constraint_columns@,
            contact_constraint_count@,
            old(contact_constraints)@,
            final(contact_constraints)@,
            old(dof_state)@,
            final(dof_state)@,
            old(solver_vels)@,
            final(solver_vels)@,
        ),
{
    let info_len: usize = multibody_info.len();
    let k: usize = bank_of(ids, b, i, info_len);
    let mb = multibody_info[k];
    if mb.ndofs == 0 {
        return ;
    }
    let count: u32 = contact_constraint_count[k];
    let cv = contact_cons_at(k, count, contact_constraints);
    let jacv = soa_cols_at(
        D::dimension(),
        ids,
        b,
        i,
        mb.ndofs,
        count,
        contact_constraint_jacs.len(),
    );
    let colv = soa_cols_at(
        D::dimension(),
        ids,
        b,
        i,
        mb.ndofs,
        count,
        contact_constraint_columns.len(),
    );
    let dv = slab_at(ids, b, &mb, dof_state.len());
    let fv = body_vels_at(ids, b, solver_vels.len());
    let ghost c0 = vec_of(contact_constraints@, cv);
    let ghost cs = sweep_constraints(c0, strip_bias);
    let total: usize = cv.len;
    if strip_bias {
        let mut s: usize = 0;
        while s < total
            invariant
                cv.fits(old(contact_constraints)@.len() as int),
                cv.len == total,
                strip_bias,
                c0 == vec_of(old(contact_constraints)@, cv),
                cs == sweep_constraints(c0, strip_bias),
                s <= total,
                forall|j: int|
                    0 <= j < total ==> #[trigger] vec_of(contact_constraints@, cv)[j] == (if j
                        < s {
                        cs[j]
                    } else {
                        c0[j]
                    }),
                same_outside_vec(old(contact_constraints)@, contact_constraints@, cv),
            decreases total - s,
        {
            let mut c = vec_get(contact_constraints, cv, s);
            if c.kind != MB_CONTACT_KIND_INACTIVE {
                c.rhs = c.rhs_wo_bias;
                vec_set(contact_constraints, cv, s, c);
            }
            s = s + 1;
        }
    }
    assert(vec_of(contact_constraints@, cv) =~= cs);
    let ghost stripped = contact_constraints@;
    let mut dofv: Vec<S> = load_vec(dof_state, dv);
    let mut imps: Vec<S> = load_impulses(contact_constraints, cv);
    let ghost jm = mat_of(contact_constraint_jacs@, jacv);
    let ghost cm = mat_of(contact_constraint_columns@, colv);
    let ghost st0 = ContactSweep {
        dofv: dofv@,
        imps: imps@,
        frees: vec_of(solver_vels@, fv),
    };
    assert(contacts_ok(cs, fv.len as int)) by {
        assert forall|s: int| 0 <= s < cs.len() implies (#[trigger] cs[s]).normal_constraint_slot
            < cs.len() && (super::sweeps::has_free(cs[s]) ==> cs[s].free_body_id < fv.len) by {
            assert(c0[s].normal_constraint_slot < c0.len());
        }
    }
    let mut s: usize = 0;
    while s < total
        invariant
            cv.fits(contact_constraints@.len() as int),
            cv.len == total,
            jacv.fits(contact_constraint_jacs@.len() as int),
            colv.fits(contact_constraint_columns@.len() as int),
            fv.fits(old(solver_vels)@.len() as int),
            jacv.ncols == total,
            colv.ncols == total,
            jacv.nrows == st0.dofv.len(),
            colv.nrows == st0.dofv.len(),
            st0.imps.len() == total,
            st0.frees.len() == fv.len,
            contacts_ok(cs, fv.len as int),
            cs == vec_of(contact_constraints@, cv),
            jm == mat_of(contact_constraint_jacs@, jacv),
            cm == mat_of(contact_constraint_columns@, colv),
            s <= total,
            dofv@ == soa_sweep(cs, jm, cm, st0, s as int).dofv,
            imps@ == soa_sweep(cs, jm, cm, st0, s as int).imps,
            vec_of(solver_vels@, fv) == soa_sweep(cs, jm, cm, st0, s as int).frees,
            same_outside_vec(old(solver_vels)@, solver_vels@, fv),
        decreases total - s,
    {
        proof {
            lemma_soa_sweep_len(cs, jm, cm, st0, s as int);
        }
        let c = vec_get(contact_constraints, cv, s);
        assert(c == cs[s as int]);
        let is_self = c.free_body_id == NO_FREE_BODY;
        let mut v = dot_column(&dofv, contact_constraint_jacs, jacv, s);
        if !is_self {
            let free = vec_get(solver_vels, fv, c.free_body_id as usize);
            v = v.plus(D::vdot(c.lin_jac, free.linear).plus(D::gdot(c.ang_jac, free.angular)));
        }
        let impulse = imps[s];
        let raw = impulse.minus(
            c.inv_lhs.times(v.plus(c.rhs).plus(c.cfm_gain.times(impulse))),
        ).over(S::one().plus(c.cfm_coeff));
        let imp = if c.kind == MB_CONTACT_KIND_TANGENT {
            let limit = c.friction_coeff.times(imps[c.normal_constraint_slot as usize]);
            if limit.lt(raw) {
                limit
            } else if raw.lt(limit.negate()) {
                limit.negate()
            } else {
                raw
            }
        } else if raw.lt(S::zero()) {
            S::zero()
        } else {
            raw
        };
        let delta = imp.minus(impulse);
        imps.set(s, imp);
        if !delta.same(S::zero()) {
            if !is_self {
                let free = vec_get(solver_vels, fv, c.free_body_id as usize);
                vec_set(solver_vels, fv, c.free_body_id as usize, push_free(&c, free, delta));
            }
            add_column(&mut dofv, delta, contact_constraint_columns, colv, s);
        }
        s = s + 1;
    }
    proof {
        lemma_soa_sweep_len(cs, jm, cm, st0, total as int);
    }
    store_vec(&dofv, dof_state, dv);
    store_impulses(contact_constraints, cv, &imps);
    proof {
        assert forall|e: int|
            0 <= e < stripped.len() && !cv.holds(e) implies #[trigger] old(contact_constraints)@[e]
            == contact_constraints@[e] by {
            assert(stripped[e] == contact_constraints@[e]);
        }
    }
}

/// Which multibody a flat position stands for: the batch and the multibody, or
/// nothing past the last one. Batches vary fastest.
pub open spec fn soa_multibody(
    ids: BatchIndices,
    t: int,
    num_multibodies: Seq<u32>,
) -> Option<(int, int)> {
    let nb = ids.num_batches as int;
    if nb > 0 && 0 <= t < nb * ids.multibodies_batch_capacity && t / nb < num_multibodies[t % nb] {
        Some((t % nb, t / nb))
    } else {
        None
    }
}

fn soa_multibody_at(ids: &BatchIndices, t: u32, num_multibodies: &[u32]) -> (r: Option<(u32, u32)>)
    requires
        num_multibodies@.len() >= ids.num_batches,
    ensures
        match soa_multibody(*ids, t as int, num_multibodies@) {
            None => r is None,
            Some((b, i)) => r matches Some(x) && x.0 == b && x.1 == i,
        },
{
    let nb: u32 = ids.num_batches;
    let cap: u32 = ids.multibodies_batch_capacity;
    if nb == 0 {
        return None;
    }
    assert(0 <= nb * cap <= 0xffff_ffff * 0xffff_ffff) by (nonlinear_arith)
        requires
            0 <= nb <= 0xffff_ffff,
            0 <= cap <= 0xffff_ffff,
    ;
    if t as u64 >= nb as u64 * cap as u64 {
        return None;
    }
    let b: u32 = t % nb;
    let i: u32 = t / nb;
    if i < num_multibodies[b as usize] {
        Some((b, i))
    } else {
        None
    }
}

/// One sweep with bias over the contact constraints of the multibody at flat
/// position `t`.
pub fn gpu_mb_solve_contact_constraints_soa<S: Scalar, D: Space<S>>(
    t: u32,
    multibody_info: &[MultibodyInfo],
    contact_constraints: &mut [MultibodyContactConstraint<S, D>],
    contact_constraint_jacs: &[S],
    contact_constraint_columns: &[S],
    contact_constraint_count: &[u32],
    dof_state: &mut [S],
    solver_vels: &mut [Velocity<S, D>],
    num_multibodies: &[u32],
    ids: &BatchIndices,
)
    requires
        num_multibodies@.len() >= ids.num_batches,
        match soa_multibody(*ids, t as int, num_multibodies@) {
            None => true,
            Some((b, i)) => soa_sweep_ok(
                *ids,
                b,
                i,
                multibody_info@,
                old(contact_constraints)@,
                contact_constraint_jacs@,
                contact_constraint_columns@,
                contact_constraint_count@,
                old(dof_state)@,
                old(solver_vels)@,
            ),
        },
    ensures
        match soa_multibody(*ids, t as int, num_multibodies@) {
            None => {
                &&& final(contact_constraints)@ == old(contact_constraints)@
                &&& final(dof_state)@ == old(dof_state)@
                &&& final(solver_vels)@ == old(solver_vels)@
            },
            Some((b, i)) => soa_swept(
                *ids,
                b,
                i,
                false,
                multibody_info@,
                contact_constraint_jacs@,
                contact_constraint_columns@,
                contact_constraint_count@,
                old(contact_constraints)@,
                final(contact_constraints)@,
                old(dof_state)@,
                final(dof_state)@,
                old(solver_vels)@,
                final(solver_vels)@,
            ),
        },
{
    if let Some((b, i)) = soa_multibody_at(ids, t, num_multibodies) {
        contact_sweep_soa(
            multibody_info,
            contact_constraints,
            contact_constraint_jacs,
            contact_constraint_columns,
            contact_constraint_count,
            dof_state,
            solver_vels,
            b,
            i,
            ids,
            false,
        );
    }
}

/// Removes the bias from the contact constraints of the multibody at flat
/// position `t`, then sweeps over them once.
pub fn gpu_mb_remove_solve_contact_no_bias_soa<S: Scalar, D: Space<S>>(
    t: u32,
    multibody_info: &[MultibodyInfo],
    contact_constraints: &mut [MultibodyContactConstraint<S, D>],
    contact_constraint_jacs: &[S],
    contact_constraint_columns: &[S],
    contact_constraint_count: &[u32],
    dof_state: &mut [S],
    solver_vels: &mut [Velocity<S, D>],
    num_multibodies: &[u32],
    ids: &BatchIndices,
)
    requires
        num_multibodies@.len() >= ids.num_batches,
        match soa_multibody(*ids, t as int, num_multibodies@) {
            None => true,
            Some((b, i)) => soa_sweep_ok(
                *ids,
                b,
                i,
                multibody_info@,
                old(contact_constraints)@,
                contact_constraint_jacs@,
                contact_constraint_columns@,
                contact_constraint_count@,
                old(dof_state)@,
                old(solver_vels)@,
            ),
        },
    ensures
        match soa_multibody(*ids, t as int, num_multibodies@) {
            None => {
                &&& final(contact_constraints)@ == old(contact_constraints)@
                &&& final(dof_state)@ == old(dof_state)@
                &&& final(solver_vels)@ == old(solver_vels)@
            },
            Some((b, i)) => soa_swept(
                *ids,
                b,
                i,
                true,
                multibody_info@,
                contact_constraint_jacs@,
                contact_constraint_columns@,
                contact_constraint_count@,
                old(contact_constraints)@,
                final(contact_constraints)@,
                old(dof_state)@,
                final(dof_state)@,
                old(solver_vels)@,
                final(solver_vels)@,
            ),
        },
{
    if let Some((b, i)) = soa_multibody_at(ids, t, num_multibodies) {
        contact_sweep_soa(
            multibody_info,
            contact_constraints,
            contact_constraint_jacs,
            contact_constraint_columns,
            contact_constraint_count,
            dof_state,
            solver_vels,
            b,
            i,
            ids,
            true,
        );
    }
}

} // verus!
