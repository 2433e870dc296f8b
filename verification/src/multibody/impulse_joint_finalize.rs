//! Responses and effective masses of the impulse joints.
use super::gravity_and_lu::{mb_at, mb_at_spec, mb_listed};
use super::impulse_joint_constraints::{
    JointBuffers, is_dummy, joint_at, joint_cons_base, load_joint, written,
};
use super::impulse_joint_jacobians::wj_id;
use super::lu::{lu_solve, lu_solve_in_place, pivots_in_range};
use super::types::{
    MbImpulseJointBuilder, MbImpulseJointConstraint, MultibodyInfo, SIDE_KIND_FIXED, SIDE_KIND_MB,
    max_axis_constraints, max_axis_constraints_spec,
};
use crate::batch::{BatchIndices, imat_spec, ivec_spec, room};
use crate::scalar::{Scalar, inv, inv_spec};
use crate::threads::{lemma_next_visit, visits};
use crate::space::Space;
use crate::views::{VecView, mat_of, vec_of};
use vstd::prelude::*;

verus! {

/// The factored mass matrices of the multibodies of batch `b`.
pub struct MassScene<S: Scalar> {
    pub ids: BatchIndices,
    pub b: int,
    pub info: Seq<MultibodyInfo>,
    pub mass_matrices: Seq<S>,
    pub lu_pivots: Seq<u32>,
}

/// The factors of multibody `mb` are there.
pub open spec fn factors_ok<S: Scalar>(sc: MassScene<S>, mb: MultibodyInfo) -> bool {
    let nb = sc.ids.num_batches as int;
    let n = mb.ndofs as int;
    &&& room(nb, sc.b, mb.mass_matrix_offset as int, n * n, sc.mass_matrices.len() as int)
    &&& room(nb, sc.b, mb.first_dof as int, n, sc.lu_pivots.len() as int)
    &&& pivots_in_range(vec_of(sc.lu_pivots, ivec_spec(nb, sc.b, mb.first_dof as int, n)))
}

/// The response of multibody `mb` to a row.
pub open spec fn mb_response<S: Scalar>(
    sc: MassScene<S>,
    mb: MultibodyInfo,
    row: Seq<S>,
) -> Seq<S> {
    let nb = sc.ids.num_batches as int;
    let n = mb.ndofs as int;
    lu_solve(
        mat_of(sc.mass_matrices, imat_spec(nb, sc.b, mb.mass_matrix_offset as int, n, n)),
        vec_of(sc.lu_pivots, ivec_spec(nb, sc.b, mb.first_dof as int, n)),
        row,
    )
}

/// Entries `at..at + n` of a buffer.
pub open spec fn block<S>(buf: Seq<S>, at: int, n: int) -> Seq<S> {
    Seq::new(n as nat, |i: int| buf[at + i])
}

/// Solves for the response to the row at `j_id` and writes it behind the row.
pub fn solve_mb_wj<S: Scalar>(
    jacobians: &mut [S],
    j_id: u32,
    mb: &MultibodyInfo,
    mass_matrices: &[S],
    lu_pivots: &[u32],
    ids: &BatchIndices,
    b: u32,
)
    requires
        j_id + 2 * mb.ndofs <= old(jacobians)@.len() <= usize::MAX,
        j_id + 2 * mb.ndofs <= u32::MAX,
        factors_ok(
            MassScene {
                ids: *ids,
                b: b as int,
                info: Seq::empty(),
                mass_matrices: mass_matrices@,
                lu_pivots: lu_pivots@,
            },
            *mb,
        ),
    ensures
        final(jacobians)@ == written(
            old(jacobians)@,
            j_id + mb.ndofs,
            mb_response(
                MassScene {
                    ids: *ids,
                    b: b as int,
                    info: Seq::empty(),
                    mass_matrices: mass_matrices@,
                    lu_pivots: lu_pivots@,
                },
                *mb,
                block(old(jacobians)@, j_id as int, mb.ndofs as int),
            ),
        ),
{
    let n: usize = mb.ndofs as usize;
    let at: usize = j_id as usize;
    let wat: usize = wj_id(j_id, mb.ndofs);
    let len: usize = jacobians.len();
    let ghost j0 = jacobians@;
    let ghost row = block(j0, at as int, n as int);
    let mut i: usize = 0;
    while i < n
        invariant
            jacobians@.len() == j0.len(),
            j0.len() == len,
            wat == at + n,
            wat + n <= len,
            row == block(j0, at as int, n as int),
            i <= n,
            forall|e: int|
                0 <= e < len ==> #[trigger] jacobians@[e] == (if wat <= e < wat + i {
                    row[e - wat]
                } else {
                    j0[e]
                }),
        decreases n - i,
    {
        assert(jacobians@[at + i] == j0[at + i]);
        let x = jacobians[at + i];
        assert(x == row[i as int]);
        jacobians[wat + i] = x;
        i = i + 1;
    }
    let xv = VecView { base: wat, stride: 1, len: n };
    assert(vec_of(jacobians@, xv) =~= row) by {
        assert forall|q: int| 0 <= q < n implies #[trigger] vec_of(jacobians@, xv)[q] == row[q] by {
            assert(xv.idx_spec(q) == wat + q);
        }
    }
    let piv = ids.ivec(b, mb.first_dof as usize, n, lu_pivots.len());
    let m = ids.imat(b, mb.mass_matrix_offset as usize, n, n, mass_matrices.len());
    let ghost j1 = jacobians@;
    lu_solve_in_place(mass_matrices, m, lu_pivots, piv, jacobians, xv);
    proof {
        let w = vec_of(jacobians@, xv);
        let out = written(j0, wat as int, w);
        assert forall|e: int| 0 <= e < len implies #[trigger] jacobians@[e] == out[e] by {
            if wat <= e < wat + n {
                assert(xv.idx_spec(e - wat) == e);
                assert(w[e - wat] == jacobians@[e]);
            } else {
                if xv.holds(e) {
                    let q = choose|q: int| 0 <= q < xv.len && #[trigger] xv.idx_spec(q) == e;
                    assert(xv.idx_spec(q) == wat + q);
                }
                assert(j1[e] == jacobians@[e]);
            }
        }
        assert(jacobians@ =~= out);
    }
}

/// The dot product of the first `n` entries, added to `acc` from the left.
pub open spec fn dot_onto<S: Scalar>(acc: S, a: Seq<S>, w: Seq<S>, n: int) -> S
    decreases n,
{
    if n <= 0 {
        acc
    } else {
        dot_onto(acc, a, w, n - 1).plus_spec(a[n - 1].times_spec(w[n - 1]))
    }
}

impl<S: Scalar> MbImpulseJointConstraint<S> {
    /// The rows of the constraint times their responses.
    pub open spec fn dot_j_wj_spec(self, jacs: Seq<S>) -> S {
        let na = self.ndofs_a as int;
        let nb = self.ndofs_b as int;
        dot_onto(
            dot_onto(
                S::zero_spec(),
                block(jacs, self.j_id_a as int, na),
                block(jacs, self.j_id_a + na, na),
                na,
            ),
            block(jacs, self.j_id_b as int, nb),
            block(jacs, self.j_id_b + nb, nb),
            nb,
        )
    }

    /// The rows and responses of the constraint are there.
    pub open spec fn rows_fit(self, len: int) -> bool {
        &&& self.j_id_a + 2 * self.ndofs_a <= len
        &&& self.j_id_b + 2 * self.ndofs_b <= len
        &&& self.j_id_a + 2 * self.ndofs_a <= u32::MAX
        &&& self.j_id_b + 2 * self.ndofs_b <= u32::MAX
    }

    pub fn dot_j_wj(&self, jacobians: &[S]) -> (r: S)
        requires
            self.rows_fit(jacobians@.len() as int),
        ensures
            r == self.dot_j_wj_spec(jacobians@),
    {
        let acc = add_products(S::zero(), jacobians, self.j_id_a, self.ndofs_a);
        add_products(acc, jacobians, self.j_id_b, self.ndofs_b)
    }

    /// The constraint with its effective mass.
    pub open spec fn finalized_spec(self, jacs: Seq<S>) -> Self {
        let dot = self.dot_j_wj_spec(jacs);
        let gain = dot.times_spec(self.cfm_coeff).plus_spec(self.cfm_gain);
        MbImpulseJointConstraint {
            inv_lhs: inv_spec(dot.plus_spec(gain)),
            cfm_gain: gain,
            ..self
        }
    }

    pub fn finalize_generic_constraint(&mut self, jacobians: &[S])
        requires
            old(self).rows_fit(jacobians@.len() as int),
        ensures
            *final(self) == old(self).finalized_spec(jacobians@),
    {
        let dot = self.dot_j_wj(jacobians);
        let gain = dot.times(self.cfm_coeff).plus(self.cfm_gain);
        self.inv_lhs = inv(dot.plus(gain));
        self.cfm_gain = gain;
    }
}

fn add_products<S: Scalar>(acc0: S, jacobians: &[S], j_id: u32, ndofs: u32) -> (r: S)
    requires
        j_id + 2 * ndofs <= jacobians@.len(),
        j_id + 2 * ndofs <= u32::MAX,
    ensures
        r == dot_onto(
            acc0,
            block(jacobians@, j_id as int, ndofs as int),
            block(jacobians@, j_id + ndofs, ndofs as int),
            ndofs as int,
        ),
{
    let n: usize = ndofs as usize;
    let at: usize = j_id as usize;
    let wat: usize = wj_id(j_id, ndofs);
    let len: usize = jacobians.len();
    let ghost a = block(jacobians@, at as int, n as int);
    let ghost w = block(jacobians@, wat as int, n as int);
    let mut acc = acc0;
    let mut i: usize = 0;
    while i < n
        invariant
            wat == at + n,
            wat + n <= len,
            len == jacobians@.len(),
            a == block(jacobians@, at as int, n as int),
            w == block(jacobians@, wat as int, n as int),
            i <= n,
            acc == dot_onto(acc0, a, w, i as int),
        decreases n - i,
    {
        acc = acc.plus(jacobians[at + i].times(jacobians[wat + i]));
        i = i + 1;
    }
    acc
}

/// The multibody of a side of a constraint.
pub open spec fn side_mb<S: Scalar>(sc: MassScene<S>, id: u32) -> MultibodyInfo {
    mb_at_spec(sc.ids, sc.b, id as int, sc.info)
}

/// Whether a side of a constraint needs a response from its multibody.
pub open spec fn needs_response(kind: u32, ndofs: u32) -> bool {
    kind == SIDE_KIND_MB && ndofs > 0
}

/// What a constraint in use names exists.
pub open spec fn slot_ok<S: Scalar>(
    sc: MassScene<S>,
    c: MbImpulseJointConstraint<S>,
    jacs_len: int,
) -> bool {
    c.kind != 0 ==> {
        &&& c.rows_fit(jacs_len)
        &&& needs_response(c.side_a_kind, c.ndofs_a) ==> {
            &&& mb_listed(sc.ids, sc.b, c.side_a_id as int, sc.info)
            &&& side_mb(sc, c.side_a_id).ndofs == c.ndofs_a
            &&& factors_ok(sc, side_mb(sc, c.side_a_id))
        }
        &&& needs_response(c.side_b_kind, c.ndofs_b) ==> {
            &&& mb_listed(sc.ids, sc.b, c.side_b_id as int, sc.info)
            &&& side_mb(sc, c.side_b_id).ndofs == c.ndofs_b
            &&& factors_ok(sc, side_mb(sc, c.side_b_id))
        }
    }
}

/// The jacobians with the response of one side written behind its row.
pub open spec fn side_responded<S: Scalar>(
    sc: MassScene<S>,
    jacs: Seq<S>,
    kind: u32,
    id: u32,
    j_id: u32,
    ndofs: u32,
) -> Seq<S> {
    if needs_response(kind, ndofs) {
        written(
            jacs,
            j_id + ndofs,
            mb_response(sc, side_mb(sc, id), block(jacs, j_id as int, ndofs as int)),
        )
    } else {
        jacs
    }
}

/// The buffers after finalizing the constraint in slot `e`.
pub open spec fn slot_finalized<S: Scalar>(
    sc: MassScene<S>,
    st: JointBuffers<S>,
    e: int,
) -> JointBuffers<S> {
    let c = st.cons[e];
    if c.kind == 0 {
        st
    } else {
        let j1 = side_responded(
            sc,
            st.jacs,
            c.side_a_kind,
            c.side_a_id,
            c.j_id_a,
            c.ndofs_a,
        );
        let j2 = side_responded(sc, j1, c.side_b_kind, c.side_b_id, c.j_id_b, c.ndofs_b);
        JointBuffers { cons: st.cons.update(e, c.finalized_spec(j2)), jacs: j2 }
    }
}

/// The buffers after finalizing `n` slots from `base` on.
pub open spec fn slots_finalized<S: Scalar>(
    sc: MassScene<S>,
    st: JointBuffers<S>,
    base: int,
    n: int,
) -> JointBuffers<S>
    decreases n,
{
    if n <= 0 {
        st
    } else {
        slot_finalized(sc, slots_finalized(sc, st, base, n - 1), base + n - 1)
    }
}

/// Only effective masses differ.
pub open spec fn same_headers<S: Scalar>(
    a: Seq<MbImpulseJointConstraint<S>>,
    b: Seq<MbImpulseJointConstraint<S>>,
) -> bool {
    &&& a.len() == b.len()
    &&& forall|e: int|
        0 <= e < a.len() ==> #[trigger] b[e] == (MbImpulseJointConstraint {
            inv_lhs: b[e].inv_lhs,
            cfm_gain: b[e].cfm_gain,
            ..a[e]
        })
}

fn respond_side<S: Scalar>(
    jacobians: &mut [S],
    kind: u32,
    id: u32,
    j_id: u32,
    ndofs: u32,
    multibody_info: &[MultibodyInfo],
    mass_matrices: &[S],
    lu_pivots: &[u32],
    ids: &BatchIndices,
    b: u32,
    Ghost(sc): Ghost<MassScene<S>>,
)
    requires
        sc.ids == *ids,
        sc.b == b,
        sc.info == multibody_info@,
        sc.mass_matrices == mass_matrices@,
        sc.lu_pivots == lu_pivots@,
        j_id + 2 * ndofs <= old(jacobians)@.len(),
        j_id + 2 * ndofs <= u32::MAX,
        needs_response(kind, ndofs) ==> {
            &&& mb_listed(sc.ids, sc.b, id as int, sc.info)
            &&& side_mb(sc, id).ndofs == ndofs
            &&& factors_ok(sc, side_mb(sc, id))
        },
    ensures
        final(jacobians)@ == side_responded(sc, old(jacobians)@, kind, id, j_id, ndofs),
        final(jacobians)@.len() == old(jacobians)@.len(),
{
    let len: usize = jacobians.len();
    if kind == SIDE_KIND_MB && ndofs > 0 {
        let mb = mb_at(ids, b, id, multibody_info);
        solve_mb_wj(jacobians, j_id, &mb, mass_matrices, lu_pivots, ids, b);
    }
}

/// The buffers after one thread has finalized the joints it visits among the
/// first `n`.
pub open spec fn joints_finalized<S: Scalar, D: Space<S>>(
    sc: MassScene<S>,
    builders: Seq<MbImpulseJointBuilder<S, D>>,
    st0: JointBuffers<S>,
    x: int,
    threads: int,
    n: int,
) -> JointBuffers<S>
    decreases n,
{
    if n <= 0 {
        st0
    } else {
        let p = joints_finalized(sc, builders, st0, x, threads, n - 1);
        let builder = joint_at(sc.ids, sc.b, builders, n - 1);
        if visits(x, threads, n - 1) && !is_dummy(builder) {
            slots_finalized(
                sc,
                p,
                joint_cons_base(sc.ids, sc.b, builder),
                max_axis_constraints_spec(D::dimension_spec()),
            )
        } else {
            p
        }
    }
}

proof fn lemma_finalize_skipped<S: Scalar, D: Space<S>>(
    sc: MassScene<S>,
    builders: Seq<MbImpulseJointBuilder<S, D>>,
    st0: JointBuffers<S>,
    x: int,
    threads: int,
    from: int,
    to: int,
)
    requires
        0 <= from <= to,
        forall|i: int| from <= i < to ==> !#[trigger] visits(x, threads, i),
    ensures
        joints_finalized(sc, builders, st0, x, threads, to) == joints_finalized(
            sc,
            builders,
            st0,
            x,
            threads,
            from,
        ),
    decreases to - from,
{
    if from < to {
        lemma_finalize_skipped(sc, builders, st0, x, threads, from, to - 1);
        assert(!visits(x, threads, to - 1));
    }
}

fn finalize_joint<S: Scalar>(
    base: usize,
    max: u32,
    constraints: &mut [MbImpulseJointConstraint<S>],
    jacobians: &mut [S],
    multibody_info: &[MultibodyInfo],
    mass_matrices: &[S],
    lu_pivots: &[u32],
    ids: &BatchIndices,
    b: u32,
    Ghost(sc): Ghost<MassScene<S>>,
)
    requires
        sc.ids == *ids,
        sc.b == b,
        sc.info == multibody_info@,
        sc.mass_matrices == mass_matrices@,
        sc.lu_pivots == lu_pivots@,
        base + max <= old(constraints)@.len() <= usize::MAX,
        forall|e: int|
            base <= e < base + max ==> slot_ok(
                sc,
                #[trigger] old(constraints)@[e],
                old(jacobians)@.len() as int,
            ),
    ensures
        ({
            let st = slots_finalized(
                sc,
                JointBuffers { cons: old(constraints)@, jacs: old(jacobians)@ },
                base as int,
                max as int,
            );
            final(constraints)@ == st.cons && final(jacobians)@ == st.jacs
        }),
        same_headers(old(constraints)@, final(constraints)@),
        final(jacobians)@.len() == old(jacobians)@.len(),
{
    let ghost c0 = constraints@;
    let ghost j0 = jacobians@;
    let ghost st0 = JointBuffers { cons: c0, jacs: j0 };
    let mut s: u32 = 0;
    while s < max
        invariant
            sc.ids == *ids,
            sc.b == b,
            sc.info == multibody_info@,
            sc.mass_matrices == mass_matrices@,
            sc.lu_pivots == lu_pivots@,
            base + max <= c0.len() <= usize::MAX,
            st0 == (JointBuffers { cons: c0, jacs: j0 }),
            forall|e: int|
                base <= e < base + max ==> slot_ok(sc, #[trigger] c0[e], j0.len() as int),
            jacobians@.len() == j0.len(),
            same_headers(c0, constraints@),
            s <= max,
            constraints@ == slots_finalized(sc, st0, base as int, s as int).cons,
            jacobians@ == slots_finalized(sc, st0, base as int, s as int).jacs,
        decreases max - s,
    {
        let mut c = constraints[base + s as usize];
        assert(c == (MbImpulseJointConstraint {
            inv_lhs: c.inv_lhs,
            cfm_gain: c.cfm_gain,
            ..c0[base + s]
        }));
        assert(slot_ok(sc, c0[base + s], j0.len() as int));
        if c.kind != 0 {
            respond_side(
                jacobians,
                c.side_a_kind,
                c.side_a_id,
                c.j_id_a,
                c.ndofs_a,
                multibody_info,
                mass_matrices,
                lu_pivots,
                ids,
                b,
                Ghost(sc),
            );
            respond_side(
                jacobians,
                c.side_b_kind,
                c.side_b_id,
                c.j_id_b,
                c.ndofs_b,
                multibody_info,
                mass_matrices,
                lu_pivots,
                ids,
                b,
                Ghost(sc),
            );
            c.finalize_generic_constraint(jacobians);
            constraints[base + s as usize] = c;
        }
        s = s + 1;
    }
}

/// The slots of every joint of the batch are there, and all that they name.
pub open spec fn joint_slots_ok<S: Scalar, D: Space<S>>(
    sc: MassScene<S>,
    builders: Seq<MbImpulseJointBuilder<S, D>>,
    cons: Seq<MbImpulseJointConstraint<S>>,
    jacs_len: int,
) -> bool {
    let cap = sc.ids.mb_imp_joints_batch_capacity;
    let max = max_axis_constraints_spec(D::dimension_spec());
    &&& (sc.b + 1) * cap <= builders.len() <= usize::MAX
    &&& cons.len() <= usize::MAX
    &&& forall|i: int|
        0 <= i < cap && !is_dummy(#[trigger] joint_at(sc.ids, sc.b, builders, i)) ==> {
            let base = joint_cons_base(sc.ids, sc.b, joint_at(sc.ids, sc.b, builders, i));
            &&& base + max <= cons.len()
            &&& forall|e: int|
                base <= e < base + max ==> slot_ok(sc, #[trigger] cons[e], jacs_len)
        }
}

/// Finalizes every joint of batch `b` that thread `x` of `threads` visits.
pub fn gpu_mb_finalize_impulse_joint_constraints<S: Scalar, D: Space<S>>(
    x: u32,
    threads: u32,
    b: u32,
    builders: &[MbImpulseJointBuilder<S, D>],
    constraints: &mut [MbImpulseJointConstraint<S>],
    jacobians: &mut [S],
    multibody_info: &[MultibodyInfo],
    mass_matrices: &[S],
    lu_pivots: &[u32],
    ids: &BatchIndices,
)
    requires
        threads > 0,
        joint_slots_ok(
            MassScene {
                ids: *ids,
                b: b as int,
                info: multibody_info@,
                mass_matrices: mass_matrices@,
                lu_pivots: lu_pivots@,
            },
            builders@,
            old(constraints)@,
            old(jacobians)@.len() as int,
        ),
    ensures
        ({
            let st = joints_finalized(
                MassScene {
                    ids: *ids,
                    b: b as int,
                    info: multibody_info@,
                    mass_matrices: mass_matrices@,
                    lu_pivots: lu_pivots@,
                },
                builders@,
                JointBuffers { cons: old(constraints)@, jacs: old(jacobians)@ },
                x as int,
                threads as int,
                ids.mb_imp_joints_batch_capacity as int,
            );
            final(constraints)@ == st.cons && final(jacobians)@ == st.jacs
        }),
        same_headers(old(constraints)@, final(constraints)@),
        final(jacobians)@.len() == old(jacobians)@.len(),
{
    let ghost sc = MassScene {
        ids: *ids,
        b: b as int,
        info: multibody_info@,
        mass_matrices: mass_matrices@,
        lu_pivots: lu_pivots@,
    };
    let ghost c0 = constraints@;
    let ghost j0 = jacobians@;
    let ghost st0 = JointBuffers { cons: c0, jacs: j0 };
    let cap: u32 = ids.mb_imp_joints_batch_capacity;
    let max: u32 = max_axis_constraints(D::dimension());
    let ghost xi = x as int;
    let ghost ti = threads as int;
    let mut i: u64 = x as u64;
    proof {
        if x <= cap {
            lemma_finalize_skipped(sc, builders@, st0, xi, ti, 0, x as int);
        } else {
            lemma_finalize_skipped(sc, builders@, st0, xi, ti, 0, cap as int);
        }
        assert(0int % ti == 0) by (nonlinear_arith)
            requires
                ti > 0,
        ;
        assert(visits(xi, ti, xi));
    }
    while i < cap as u64
        invariant
            threads > 0,
            xi == x,
            ti == threads,
            cap == ids.mb_imp_joints_batch_capacity,
            max == max_axis_constraints_spec(D::dimension_spec()),
            sc == (MassScene {
                ids: *ids,
                b: b as int,
                info: multibody_info@,
                mass_matrices: mass_matrices@,
                lu_pivots: lu_pivots@,
            }),
            st0 == (JointBuffers { cons: c0, jacs: j0 }),
            joint_slots_ok(sc, builders@, c0, j0.len() as int),
            same_headers(c0, constraints@),
            jacobians@.len() == j0.len(),
            visits(xi, ti, i as int),
            i <= cap + threads || i == x,
            ({
                let st = joints_finalized(
                    sc,
                    builders@,
                    st0,
                    xi,
                    ti,
                    if i <= cap {
                        i as int
                    } else {
                        cap as int
                    },
                );
                constraints@ == st.cons && jacobians@ == st.jacs
            }),
        decreases cap + threads - i,
    {
        let builder = load_joint(ids, b, builders, i as u32);
        assert(builder == joint_at(*ids, b as int, builders@, i as int));
        let dummy = builder.side_a_kind == SIDE_KIND_FIXED && builder.side_b_kind
            == SIDE_KIND_FIXED;
        if !dummy {
            let clen: usize = constraints.len();
            proof {
                assert(0 <= b * ids.mb_imp_joint_constraints_batch_capacity) by (nonlinear_arith)
                    requires
                        b >= 0,
                        ids.mb_imp_joint_constraints_batch_capacity >= 0,
                ;
            }
            let base: usize = b as usize * ids.mb_imp_joint_constraints_batch_capacity as usize
                + builder.constraint_id as usize;
            let ghost c1 = constraints@;
            proof {
                assert forall|e: int| base <= e < base + max implies slot_ok(
                    sc,
                    #[trigger] c1[e],
                    jacobians@.len() as int,
                ) by {
                    assert(slot_ok(sc, c0[e], j0.len() as int));
                }
            }
            finalize_joint(
                base,
                max,
                constraints,
                jacobians,
                multibody_info,
                mass_matrices,
                lu_pivots,
                ids,
                b,
                Ghost(sc),
            );
            proof {
                assert forall|e: int| 0 <= e < c0.len() implies #[trigger] constraints@[e] == (
                MbImpulseJointConstraint {
                    inv_lhs: constraints@[e].inv_lhs,
                    cfm_gain: constraints@[e].cfm_gain,
                    ..c0[e]
                }) by {
                    assert(c1[e] == (MbImpulseJointConstraint {
                        inv_lhs: c1[e].inv_lhs,
                        cfm_gain: c1[e].cfm_gain,
                        ..c0[e]
                    }));
                }
            }
        }
        proof {
            let to = if i + threads <= cap {
                i + threads
            } else {
                cap as int
            };
            assert forall|q: int| i + 1 <= q < to implies !#[trigger] visits(xi, ti, q) by {
                lemma_next_visit(xi, ti, i as int, q);
            }
            lemma_finalize_skipped(sc, builders@, st0, xi, ti, i + 1, to);
            lemma_next_visit(xi, ti, i as int, i + threads);
        }
        i = i + threads as u64;
    }
}

} // verus!
