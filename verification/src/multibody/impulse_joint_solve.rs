//! Gauss-Seidel sweeps over the impulse joints, one color at a time.
use super::gravity_and_lu::{mb_at, mb_at_spec, mb_listed};
use super::impulse_joint_constraints::{joint_at, joint_cons_base, load_joint};
use super::impulse_joint_finalize::block;
use super::impulse_joint_jacobians::{spatial_component, spatial_component_spec, wj_id};
use super::lu::{reduce, tree_sum};
use super::types::{
    MbImpulseJointBuilder, MbImpulseJointConstraint, MultibodyInfo, SIDE_KIND_BODY,
    SIDE_KIND_FIXED, SIDE_KIND_MB, max_axis_constraints, max_axis_constraints_spec,
};
use crate::batch::{BatchIndices, mbi_spec};
use crate::exact::ordered;
use crate::scalar::Scalar;
use crate::threads::{lemma_next_visit, visits};
use crate::space::{Dimension, Space, Velocity};
use crate::views::{VecView, vec_of};
use vstd::prelude::*;

verus! {

/// Number of lanes that share one product.
pub const JOINT_LANES: u32 = 64;

/// Joint constraints and the velocities they act on.
pub struct JointSolve<S: Scalar, D: Space<S>> {
    pub cons: Seq<MbImpulseJointConstraint<S>>,
    pub dofs: Seq<S>,
    pub vels: Seq<Velocity<S, D>>,
}

/// Where the velocities of the sides of a joint are.
pub struct JointPlaces {
    pub nb: int,
    pub b: int,
    /// First degree of freedom of side A's multibody.
    pub dof_a: int,
    /// First degree of freedom of side B's multibody.
    pub dof_b: int,
    /// First body of the batch.
    pub bodies: int,
}

/// The product of lane `l` for one side of a constraint.
pub open spec fn side_term<S: Scalar, D: Space<S>>(
    pl: JointPlaces,
    dof: int,
    kind: u32,
    j_id: u32,
    ndofs: u32,
    id: u32,
    jacs: Seq<S>,
    dofs: Seq<S>,
    vels: Seq<Velocity<S, D>>,
    l: int,
) -> S {
    if kind == SIDE_KIND_BODY {
        if l < D::dimension_spec().spatial_spec() {
            jacs[j_id + l].times_spec(spatial_component_spec(vels[pl.bodies + id], l))
        } else {
            S::zero_spec()
        }
    } else if kind == SIDE_KIND_MB {
        if l < ndofs {
            jacs[j_id + l].times_spec(dofs[mbi_spec(pl.nb, pl.b, dof + l)])
        } else {
            S::zero_spec()
        }
    } else {
        S::zero_spec()
    }
}

/// The velocity of one side along a constraint.
pub open spec fn side_velocity<S: Scalar, D: Space<S>>(
    pl: JointPlaces,
    dof: int,
    kind: u32,
    j_id: u32,
    ndofs: u32,
    id: u32,
    jacs: Seq<S>,
    dofs: Seq<S>,
    vels: Seq<Velocity<S, D>>,
) -> S {
    tree_sum(
        Seq::new(
            JOINT_LANES as nat,
            |l: int| side_term(pl, dof, kind, j_id, ndofs, id, jacs, dofs, vels, l),
        ),
        JOINT_LANES as int,
    )
}

/// A body's velocity after `k` times the response `w`.
pub open spec fn nudged<S: Scalar, D: Space<S>>(
    v: Velocity<S, D>,
    k: S,
    w: Seq<S>,
) -> Velocity<S, D> {
    let at = |i: int| spatial_component_spec(v, i).plus_spec(k.times_spec(w[i]));
    match D::dimension_spec() {
        Dimension::Two => Velocity {
            linear: D::vfrom_spec(at(0), at(1), S::zero_spec()),
            angular: D::afrom_spec(at(2), S::zero_spec(), S::zero_spec()),
        },
        Dimension::Three => Velocity {
            linear: D::vfrom_spec(at(0), at(1), at(2)),
            angular: D::afrom_spec(at(3), at(4), at(5)),
        },
    }
}

/// The degrees of freedom after `k` times the first `n` entries of the
/// response `w`.
pub open spec fn dofs_nudged<S: Scalar>(
    pl: JointPlaces,
    dof: int,
    dofs: Seq<S>,
    k: S,
    w: Seq<S>,
    n: int,
) -> Seq<S>
    decreases n,
{
    if n <= 0 {
        dofs
    } else {
        let p = dofs_nudged(pl, dof, dofs, k, w, n - 1);
        let at = mbi_spec(pl.nb, pl.b, dof + n - 1);
        p.update(at, p[at].plus_spec(k.times_spec(w[n - 1])))
    }
}

/// Number of degrees of freedom that the lanes cover.
pub open spec fn covered(ndofs: u32) -> int {
    if ndofs < JOINT_LANES {
        ndofs as int
    } else {
        JOINT_LANES as int
    }
}

/// What an impulse change, scaled by `k`, does to one side.
pub open spec fn side_applied<S: Scalar, D: Space<S>>(
    pl: JointPlaces,
    dof: int,
    kind: u32,
    j_id: u32,
    ndofs: u32,
    id: u32,
    k: S,
    delta: S,
    jacs: Seq<S>,
    st: JointSolve<S, D>,
) -> JointSolve<S, D> {
    let n = ndofs as int;
    if kind == SIDE_KIND_FIXED || delta.same_spec(S::zero_spec()) {
        st
    } else if kind == SIDE_KIND_BODY {
        let w = block(jacs, j_id + n, D::dimension_spec().spatial_spec());
        let at = pl.bodies + id;
        JointSolve {
            cons: st.cons,
            dofs: st.dofs,
            vels: st.vels.update(at, nudged(st.vels[at], k.times_spec(delta), w)),
        }
    } else {
        JointSolve {
            cons: st.cons,
            dofs: dofs_nudged(
                pl,
                dof,
                st.dofs,
                k.times_spec(delta),
                block(jacs, j_id + n, n),
                covered(ndofs),
            ),
            vels: st.vels,
        }
    }
}

/// The impulse of a joint constraint after a step at relative velocity `v`.
pub open spec fn axis_impulse<S: Scalar>(c: MbImpulseJointConstraint<S>, v: S) -> S {
    c.impulse.plus_spec(
        c.inv_lhs.times_spec(
            c.rhs.plus_spec(v).minus_spec(c.cfm_gain.times_spec(c.impulse)),
        ),
    ).maximum_spec(c.impulse_lo).minimum_spec(c.impulse_hi)
}

/// The state after solving the constraint in slot `e`.
pub open spec fn axis_solved<S: Scalar, D: Space<S>>(
    pl: JointPlaces,
    jacs: Seq<S>,
    st: JointSolve<S, D>,
    e: int,
) -> JointSolve<S, D> {
    let c = st.cons[e];
    if c.kind == 0 {
        st
    } else {
        let v1 = side_velocity(
            pl,
            pl.dof_a,
            c.side_a_kind,
            c.j_id_a,
            c.ndofs_a,
            c.side_a_id,
            jacs,
            st.dofs,
            st.vels,
        );
        let v2 = side_velocity(
            pl,
            pl.dof_b,
            c.side_b_kind,
            c.j_id_b,
            c.ndofs_b,
            c.side_b_id,
            jacs,
            st.dofs,
            st.vels,
        );
        let imp = axis_impulse(c, v2.minus_spec(v1));
        let delta = imp.minus_spec(c.impulse);
        let st1 = JointSolve {
            cons: st.cons.update(e, MbImpulseJointConstraint { impulse: imp, ..c }),
            dofs: st.dofs,
            vels: st.vels,
        };
        let st2 = side_applied(
            pl,
            pl.dof_a,
            c.side_a_kind,
            c.j_id_a,
            c.ndofs_a,
            c.side_a_id,
            S::one_spec(),
            delta,
            jacs,
            st1,
        );
        side_applied(
            pl,
            pl.dof_b,
            c.side_b_kind,
            c.j_id_b,
            c.ndofs_b,
            c.side_b_id,
            S::one_spec().neg_spec(),
            delta,
            jacs,
            st2,
        )
    }
}

/// Solving a joint constraint leaves its impulse within its bounds, and changes no
/// other constraint.
pub proof fn axis_impulses_stay_in_bounds<S: Scalar, D: Space<S>>(
    v: spec_fn(S) -> real,
    pl: JointPlaces,
    jacs: Seq<S>,
    st: JointSolve<S, D>,
    e: int,
)
    requires
        ordered(v),
        0 <= e < st.cons.len(),
        st.cons[e].kind != 0,
        v(st.cons[e].impulse_lo) <= v(st.cons[e].impulse_hi),
    ensures
        v(st.cons[e].impulse_lo) <= v(axis_solved(pl, jacs, st, e).cons[e].impulse) <= v(
            st.cons[e].impulse_hi,
        ),
        forall|i: int|
            0 <= i < st.cons.len() && i != e ==> #[trigger] axis_solved(pl, jacs, st, e).cons[i]
                == st.cons[i],
{
}

/// The state after solving `n` slots from `base` on.
pub open spec fn axes_solved<S: Scalar, D: Space<S>>(
    pl: JointPlaces,
    jacs: Seq<S>,
    st: JointSolve<S, D>,
    base: int,
    n: int,
) -> JointSolve<S, D>
    decreases n,
{
    if n <= 0 {
        st
    } else {
        axis_solved(pl, jacs, axes_solved(pl, jacs, st, base, n - 1), base + n - 1)
    }
}

/// What one side of a constraint names exists.
pub open spec fn solve_side_ok<S: Scalar, D: Space<S>>(
    pl: JointPlaces,
    dof: int,
    kind: u32,
    j_id: u32,
    ndofs: u32,
    id: u32,
    jacs_len: int,
    dofs_len: int,
    vels_len: int,
) -> bool {
    &&& kind <= SIDE_KIND_FIXED
    &&& j_id + 2 * ndofs <= u32::MAX
    &&& kind == SIDE_KIND_BODY ==> {
        &&& j_id + ndofs + D::dimension_spec().spatial_spec() <= jacs_len
        &&& pl.bodies + id < vels_len
        &&& D::dimension_spec().spatial_spec() <= ndofs
    }
    &&& kind == SIDE_KIND_MB ==> {
        &&& j_id + 2 * ndofs <= jacs_len
        &&& (dof + ndofs) * pl.nb <= dofs_len
    }
}

pub open spec fn solve_slot_ok<S: Scalar, D: Space<S>>(
    pl: JointPlaces,
    c: MbImpulseJointConstraint<S>,
    jacs_len: int,
    dofs_len: int,
    vels_len: int,
) -> bool {
    c.kind != 0 ==> {
        &&& solve_side_ok::<S, D>(
            pl,
            pl.dof_a,
            c.side_a_kind,
            c.j_id_a,
            c.ndofs_a,
            c.side_a_id,
            jacs_len,
            dofs_len,
            vels_len,
        )
        &&& solve_side_ok::<S, D>(
            pl,
            pl.dof_b,
            c.side_b_kind,
            c.j_id_b,
            c.ndofs_b,
            c.side_b_id,
            jacs_len,
            dofs_len,
            vels_len,
        )
    }
}

proof fn lemma_dof_index(nb: int, b: int, i: int, end: int, len: int)
    requires
        0 <= b < nb,
        0 <= i < end,
        end * nb <= len,
    ensures
        0 <= i * nb,
        0 <= mbi_spec(nb, b, i) < len,
{
    assert(0 <= i * nb && i * nb + nb <= end * nb) by (nonlinear_arith)
        requires
            0 <= i,
            i + 1 <= end,
            nb >= 0,
    ;
}

/// The velocity of one side along a constraint.
fn side_dot_vel_par<S: Scalar, D: Space<S>>(
    kind: u32,
    j_id: u32,
    ndofs: u32,
    id: u32,
    jacobians: &[S],
    dof_state: &[S],
    dof: u32,
    solver_vels: &[Velocity<S, D>],
    bodies: usize,
    ids: &BatchIndices,
    b: u32,
    Ghost(pl): Ghost<JointPlaces>,
) -> (r: S)
    requires
        pl.nb == ids.num_batches,
        pl.b == b,
        pl.bodies == bodies,
        b < ids.num_batches,
        solve_side_ok::<S, D>(
            pl,
            dof as int,
            kind,
            j_id,
            ndofs,
            id,
            jacobians@.len() as int,
            dof_state@.len() as int,
            solver_vels@.len() as int,
        ),
    ensures
        r == side_velocity(
            pl,
            dof as int,
            kind,
            j_id,
            ndofs,
            id,
            jacobians@,
            dof_state@,
            solver_vels@,
        ),
{
    let sd: u32 = D::dimension().spatial();
    let jlen: usize = jacobians.len();
    let dlen: usize = dof_state.len();
    let vlen: usize = solver_vels.len();
    let ghost terms = Seq::new(
        JOINT_LANES as nat,
        |l: int|
            side_term(
                pl,
                dof as int,
                kind,
                j_id,
                ndofs,
                id,
                jacobians@,
                dof_state@,
                solver_vels@,
                l,
            ),
    );
    let mut p: Vec<S> = Vec::new();
    let mut l: u32 = 0;
    while l < JOINT_LANES
        invariant
            pl.nb == ids.num_batches,
            pl.b == b,
            pl.bodies == bodies,
            b < ids.num_batches,
            sd == D::dimension_spec().spatial_spec(),
            jlen == jacobians@.len(),
            dlen == dof_state@.len(),
            vlen == solver_vels@.len(),
            solve_side_ok::<S, D>(
                pl,
                dof as int,
                kind,
                j_id,
                ndofs,
                id,
                jacobians@.len() as int,
                dof_state@.len() as int,
                solver_vels@.len() as int,
            ),
            terms == Seq::new(
                JOINT_LANES as nat,
                |l: int|
                    side_term(
                        pl,
                        dof as int,
                        kind,
                        j_id,
                        ndofs,
                        id,
                        jacobians@,
                        dof_state@,
                        solver_vels@,
                        l,
                    ),
            ),
            l <= JOINT_LANES,
            p@ == terms.take(l as int),
        decreases JOINT_LANES - l,
    {
        let t = if kind == SIDE_KIND_BODY {
            if l < sd {
                let v = solver_vels[bodies + id as usize];
                jacobians[j_id as usize + l as usize].times(spatial_component(v, l))
            } else {
                S::zero()
            }
        } else if kind == SIDE_KIND_MB {
            if l < ndofs {
                proof {
                    lemma_dof_index(
                        pl.nb,
                        pl.b,
                        dof + l,
                        dof + ndofs,
                        dof_state@.len() as int,
                    );
                    assert(dof + l <= (dof + l) * pl.nb) by (nonlinear_arith)
                        requires
                            dof + l >= 0,
                            pl.nb >= 1,
                    ;
                }
                let at: usize = ids.mbi(b, dof as usize + l as usize);
                jacobians[j_id as usize + l as usize].times(dof_state[at])
            } else {
                S::zero()
            }
        } else {
            S::zero()
        };
        assert(t == terms[l as int]);
        p.push(t);
        assert(p@ =~= terms.take(l + 1));
        l = l + 1;
    }
    let seg = VecView { base: 0, stride: 1, len: JOINT_LANES as usize };
    assert(vec_of(p@, seg) =~= terms);
    reduce(p.as_mut_slice(), seg)
}

fn nudge<S: Scalar, D: Space<S>>(v: Velocity<S, D>, k: S, jacobians: &[S], at: usize) -> (r:
    Velocity<S, D>)
    requires
        at + D::dimension_spec().spatial_spec() <= jacobians@.len(),
    ensures
        r == nudged(v, k, block(jacobians@, at as int, D::dimension_spec().spatial_spec())),
{
    let x0 = spatial_component(v, 0).plus(k.times(jacobians[at]));
    let x1 = spatial_component(v, 1).plus(k.times(jacobians[at + 1]));
    let x2 = spatial_component(v, 2).plus(k.times(jacobians[at + 2]));
    match D::dimension() {
        Dimension::Two => Velocity {
            linear: D::vfrom(x0, x1, S::zero()),
            angular: D::afrom(x2, S::zero(), S::zero()),
        },
        Dimension::Three => {
            let x3 = spatial_component(v, 3).plus(k.times(jacobians[at + 3]));
            let x4 = spatial_component(v, 4).plus(k.times(jacobians[at + 4]));
            let x5 = spatial_component(v, 5).plus(k.times(jacobians[at + 5]));
            Velocity { linear: D::vfrom(x0, x1, x2), angular: D::afrom(x3, x4, x5) }
        },
    }
}

/// Applies an impulse change to one side.
fn side_apply_impulse_par<S: Scalar, D: Space<S>>(
    kind: u32,
    j_id: u32,
    ndofs: u32,
    id: u32,
    k: S,
    delta: S,
    jacobians: &[S],
    dof_state: &mut [S],
    dof: u32,
    solver_vels: &mut [Velocity<S, D>],
    bodies: usize,
    ids: &BatchIndices,
    b: u32,
    Ghost(pl): Ghost<JointPlaces>,
    Ghost(cons): Ghost<Seq<MbImpulseJointConstraint<S>>>,
)
    requires
        pl.nb == ids.num_batches,
        pl.b == b,
        pl.bodies == bodies,
        b < ids.num_batches,
        solve_side_ok::<S, D>(
            pl,
            dof as int,
            kind,
            j_id,
            ndofs,
            id,
            jacobians@.len() as int,
            old(dof_state)@.len() as int,
            old(solver_vels)@.len() as int,
        ),
    ensures
        ({
            let st = side_applied(
                pl,
                dof as int,
                kind,
                j_id,
                ndofs,
                id,
                k,
                delta,
                jacobians@,
                JointSolve { cons: cons, dofs: old(dof_state)@, vels: old(solver_vels)@ },
            );
            &&& st.cons == cons
            &&& final(dof_state)@ == st.dofs
            &&& final(solver_vels)@ == st.vels
        }),
        final(dof_state)@.len() == old(dof_state)@.len(),
        final(solver_vels)@.len() == old(solver_vels)@.len(),
{
    let jlen: usize = jacobians.len();
    let dlen: usize = dof_state.len();
    let vlen: usize = solver_vels.len();
    if kind == SIDE_KIND_FIXED || delta.same(S::zero()) {
        return ;
    }
    let wj0: usize = wj_id(j_id, ndofs);
    let scaled = k.times(delta);
    if kind == SIDE_KIND_BODY {
        let at: usize = bodies + id as usize;
        let v = solver_vels[at];
        solver_vels[at] = nudge(v, scaled, jacobians, wj0);
        return ;
    }
    let n: u32 = if ndofs < JOINT_LANES {
        ndofs
    } else {
        JOINT_LANES
    };
    let ghost d0 = dof_state@;
    let ghost w = block(jacobians@, wj0 as int, ndofs as int);
    let mut l: u32 = 0;
    while l < n
        invariant
            pl.nb == ids.num_batches,
            pl.b == b,
            b < ids.num_batches,
            kind == SIDE_KIND_MB,
            jlen == jacobians@.len(),
            dlen == dof_state@.len(),
            d0.len() == dlen,
            n <= ndofs,
            wj0 == j_id + ndofs,
            w == block(jacobians@, wj0 as int, ndofs as int),
            j_id + 2 * ndofs <= jlen,
            (dof + ndofs) * pl.nb <= dlen,
            l <= n,
            dof_state@ == dofs_nudged(pl, dof as int, d0, scaled, w, l as int),
        decreases n - l,
    {
        proof {
            lemma_dof_index(pl.nb, pl.b, dof + l, dof + ndofs, dlen as int);
            assert(dof + l <= (dof + l) * pl.nb) by (nonlinear_arith)
                requires
                    dof + l >= 0,
                    pl.nb >= 1,
            ;
        }
        let at: usize = ids.mbi(b, dof as usize + l as usize);
        assert(w[l as int] == jacobians@[wj0 + l]);
        let x = dof_state[at].plus(scaled.times(jacobians[wj0 + l as usize]));
        dof_state[at] = x;
        l = l + 1;
    }
}

// ---- one color ----

/// First and last joint of a color: the colors are given by the ends of their
/// ranges.
pub open spec fn color_range(groups: Seq<u32>, color: int) -> (int, int) {
    (
        if color > 0 {
            groups[color - 1] as int
        } else {
            0
        },
        groups[color] as int,
    )
}

/// Two colors share no joint, and the colors together hold all joints up to the
/// end of the last one.
pub proof fn colors_partition_joints(groups: Seq<u32>, i: int)
    requires
        groups.len() > 0,
        forall|c: int, d: int| 0 <= c <= d < groups.len() ==> groups[c] <= groups[d],
        0 <= i < groups[groups.len() - 1],
    ensures
        exists|c: int|
            0 <= c < groups.len() && (#[trigger] color_range(groups, c)).0 <= i < color_range(
                groups,
                c,
            ).1,
        forall|c: int, d: int|
            0 <= c < d < groups.len() ==> (#[trigger] color_range(groups, c)).1 <= (
            #[trigger] color_range(groups, d)).0,
    decreases groups.len(),
{
    let n = groups.len() as int;
    if color_range(groups, n - 1).0 > i {
        let g = groups.drop_last();
        colors_partition_joints(g, i);
        let c = choose|c: int|
            0 <= c < g.len() && (#[trigger] color_range(g, c)).0 <= i < color_range(g, c).1;
        assert(color_range(groups, c) == color_range(g, c));
    } else {
        assert(color_range(groups, n - 1).1 == groups[n - 1]);
    }
}

/// Where the velocities of the sides of a joint are.
pub open spec fn joint_places<S: Scalar, D: Space<S>>(
    ids: BatchIndices,
    b: int,
    info: Seq<MultibodyInfo>,
    builder: MbImpulseJointBuilder<S, D>,
) -> JointPlaces {
    JointPlaces {
        nb: ids.num_batches as int,
        b: b,
        dof_a: if builder.side_a_kind == SIDE_KIND_MB {
            mb_at_spec(ids, b, builder.side_a_id as int, info).first_dof as int
        } else {
            0
        },
        dof_b: if builder.side_b_kind == SIDE_KIND_MB {
            mb_at_spec(ids, b, builder.side_b_id as int, info).first_dof as int
        } else {
            0
        },
        bodies: b * ids.colliders_batch_capacity,
    }
}

/// The colors of batch `b`.
pub open spec fn color_groups(ids: BatchIndices, b: int, groups: Seq<u32>) -> Seq<u32> {
    block(
        groups,
        b * ids.mb_imp_joint_colors_batch_capacity,
        ids.mb_imp_joint_colors_batch_capacity as int,
    )
}

/// What solving joint `j` needs.
pub open spec fn solve_joint_ok<S: Scalar, D: Space<S>>(
    ids: BatchIndices,
    b: int,
    info: Seq<MultibodyInfo>,
    builder: MbImpulseJointBuilder<S, D>,
    cons: Seq<MbImpulseJointConstraint<S>>,
    jacs_len: int,
    dofs_len: int,
    vels_len: int,
) -> bool {
    let base = joint_cons_base(ids, b, builder);
    let max = max_axis_constraints_spec(D::dimension_spec());
    let pl = joint_places(ids, b, info, builder);
    &&& builder.side_a_kind == SIDE_KIND_MB ==> mb_listed(ids, b, builder.side_a_id as int, info)
    &&& builder.side_b_kind == SIDE_KIND_MB ==> mb_listed(ids, b, builder.side_b_id as int, info)
    &&& base + max <= cons.len()
    &&& forall|e: int|
        base <= e < base + max ==> solve_slot_ok::<S, D>(
            pl,
            #[trigger] cons[e],
            jacs_len,
            dofs_len,
            vels_len,
        )
}

/// Solves the constraints of the joint at place `x` of a color of batch `b`.
pub fn gpu_mb_solve_impulse_joint_constraints<S: Scalar, D: Space<S>>(
    x: u32,
    b: u32,
    builders: &[MbImpulseJointBuilder<S, D>],
    constraints: &mut [MbImpulseJointConstraint<S>],
    jacobians: &[S],
    all_color_groups: &[u32],
    ids: &BatchIndices,
    color: u32,
    multibody_info: &[MultibodyInfo],
    dof_state: &mut [S],
    solver_vels: &mut [Velocity<S, D>],
)
    requires
        b < ids.num_batches,
        color < ids.mb_imp_joint_colors_batch_capacity,
        (b + 1) * ids.mb_imp_joint_colors_batch_capacity <= all_color_groups@.len() <= usize::MAX,
        (b + 1) * ids.mb_imp_joints_batch_capacity <= builders@.len() <= usize::MAX,
        old(constraints)@.len() <= usize::MAX,
        b * ids.colliders_batch_capacity <= old(solver_vels)@.len() <= usize::MAX,
        ({
            let (lo, hi) = color_range(
                color_groups(*ids, b as int, all_color_groups@),
                color as int,
            );
            lo + x < hi ==> {
                &&& lo + x < ids.mb_imp_joints_batch_capacity
                &&& solve_joint_ok(
                    *ids,
                    b as int,
                    multibody_info@,
                    joint_at(*ids, b as int, builders@, lo + x),
                    old(constraints)@,
                    jacobians@.len() as int,
                    old(dof_state)@.len() as int,
                    old(solver_vels)@.len() as int,
                )
            }
        }),
    ensures
        ({
            let (lo, hi) = color_range(
                color_groups(*ids, b as int, all_color_groups@),
                color as int,
            );
            let builder = joint_at(*ids, b as int, builders@, lo + x);
            let st0 = JointSolve {
                cons: old(constraints)@,
                dofs: old(dof_state)@,
                vels: old(solver_vels)@,
            };
            let st = if lo + x < hi {
                axes_solved(
                    joint_places(*ids, b as int, multibody_info@, builder),
                    jacobians@,
                    st0,
                    joint_cons_base(*ids, b as int, builder),
                    max_axis_constraints_spec(D::dimension_spec()),
                )
            } else {
                st0
            };
            &&& final(constraints)@ == st.cons
            &&& final(dof_state)@ == st.dofs
            &&& final(solver_vels)@ == st.vels
        }),
{
    let ncol: usize = ids.mb_imp_joint_colors_batch_capacity as usize;
    let glen: usize = all_color_groups.len();
    proof {
        assert((b + 1) * ncol == b * ncol + ncol && 0 <= b * ncol) by (nonlinear_arith)
            requires
                b >= 0,
                ncol >= 0,
        ;
        assert(0 <= b * ids.colliders_batch_capacity && 0 <= b
            * ids.mb_imp_joint_constraints_batch_capacity) by (nonlinear_arith)
            requires
                b >= 0,
                ids.colliders_batch_capacity >= 0,
                ids.mb_imp_joint_constraints_batch_capacity >= 0,
        ;
    }
    let g0: usize = b as usize * ncol;
    let start: u32 = if color > 0 {
        all_color_groups[g0 + color as usize - 1]
    } else {
        0
    };
    let end: u32 = all_color_groups[g0 + color as usize];
    let j: u64 = start as u64 + x as u64;
    if j >= end as u64 {
        return ;
    }
    let builder = load_joint(ids, b, builders, j as u32);
    let ghost pl = joint_places(*ids, b as int, multibody_info@, builder);
    let max: u32 = max_axis_constraints(D::dimension());
    let clen: usize = constraints.len();
    let vlen: usize = solver_vels.len();
    let base: usize = b as usize * ids.mb_imp_joint_constraints_batch_capacity as usize
        + builder.constraint_id as usize;
    let bodies: usize = b as usize * ids.colliders_batch_capacity as usize;
    let dof_a: u32 = if builder.side_a_kind == SIDE_KIND_MB {
        mb_at(ids, b, builder.side_a_id, multibody_info).first_dof
    } else {
        0
    };
    let dof_b: u32 = if builder.side_b_kind == SIDE_KIND_MB {
        mb_at(ids, b, builder.side_b_id, multibody_info).first_dof
    } else {
        0
    };
    let ghost c0 = constraints@;
    let ghost d0 = dof_state@;
    let ghost v0 = solver_vels@;
    let ghost st0 = JointSolve { cons: c0, dofs: d0, vels: v0 };
    let mut s: u32 = 0;
    while s < max
        invariant
            b < ids.num_batches,
            pl == joint_places(*ids, b as int, multibody_info@, builder),
            pl.dof_a == dof_a,
            pl.dof_b == dof_b,
            pl.bodies == bodies,
            base == joint_cons_base(*ids, b as int, builder),
            max == max_axis_constraints_spec(D::dimension_spec()),
            st0 == (JointSolve { cons: c0, dofs: d0, vels: v0 }),
            base + max <= c0.len(),
            c0.len() <= usize::MAX,
            forall|e: int|
                base <= e < base + max ==> solve_slot_ok::<S, D>(
                    pl,
                    #[trigger] c0[e],
                    jacobians@.len() as int,
                    d0.len() as int,
                    v0.len() as int,
                ),
            constraints@.len() == c0.len(),
            dof_state@.len() == d0.len(),
            solver_vels@.len() == v0.len(),
            forall|e: int| base + s <= e < base + max ==> #[trigger] constraints@[e] == c0[e],
            s <= max,
            ({
                let st = axes_solved(pl, jacobians@, st0, base as int, s as int);
                &&& constraints@ == st.cons
                &&& dof_state@ == st.dofs
                &&& solver_vels@ == st.vels
            }),
        decreases max - s,
    {
        let at: usize = base + s as usize;
        let mut c = constraints[at];
        assert(c == c0[at as int]);
        assert(solve_slot_ok::<S, D>(
            pl,
            c0[at as int],
            jacobians@.len() as int,
            d0.len() as int,
            v0.len() as int,
        ));
        if c.kind != 0 {
            let v1 = side_dot_vel_par(
                c.side_a_kind,
                c.j_id_a,
                c.ndofs_a,
                c.side_a_id,
                jacobians,
                dof_state,
                dof_a,
                solver_vels,
                bodies,
                ids,
                b,
                Ghost(pl),
            );
            let v2 = side_dot_vel_par(
                c.side_b_kind,
                c.j_id_b,
                c.ndofs_b,
                c.side_b_id,
                jacobians,
                dof_state,
                dof_b,
                solver_vels,
                bodies,
                ids,
                b,
                Ghost(pl),
            );
            let dvel = c.rhs.plus(v2.minus(v1));
            let imp = c.impulse.plus(
                c.inv_lhs.times(dvel.minus(c.cfm_gain.times(c.impulse))),
            ).maximum(c.impulse_lo).minimum(c.impulse_hi);
            let delta = imp.minus(c.impulse);
            c.impulse = imp;
            constraints[at] = c;
            side_apply_impulse_par(
                c.side_a_kind,
                c.j_id_a,
                c.ndofs_a,
                c.side_a_id,
                S::one(),
                delta,
                jacobians,
                dof_state,
                dof_a,
                solver_vels,
                bodies,
                ids,
                b,
                Ghost(pl),
                Ghost(constraints@),
            );
            side_apply_impulse_par(
                c.side_b_kind,
                c.j_id_b,
                c.ndofs_b,
                c.side_b_id,
                S::one().negate(),
                delta,
                jacobians,
                dof_state,
                dof_b,
                solver_vels,
                bodies,
                ids,
                b,
                Ghost(pl),
                Ghost(constraints@),
            );
        }
        s = s + 1;
    }
}

// ---- bias ----

/// A constraint without its positional bias.
pub open spec fn axis_unbiased<S: Scalar>(
    c: MbImpulseJointConstraint<S>,
) -> MbImpulseJointConstraint<S> {
    if c.kind == 0 {
        c
    } else {
        MbImpulseJointConstraint { rhs: c.rhs_wo_bias, ..c }
    }
}

/// The slots with the bias removed from `n` of them, from `base` on.
pub open spec fn slots_unbiased<S: Scalar>(
    cons: Seq<MbImpulseJointConstraint<S>>,
    base: int,
    n: int,
) -> Seq<MbImpulseJointConstraint<S>> {
    Seq::new(
        cons.len(),
        |e: int|
            if base <= e < base + n {
                axis_unbiased(cons[e])
            } else {
                cons[e]
            },
    )
}

/// Removing the bias twice is removing it once.
pub proof fn bias_removal_is_idempotent<S: Scalar>(
    cons: Seq<MbImpulseJointConstraint<S>>,
    base: int,
    n: int,
)
    ensures
        slots_unbiased(slots_unbiased(cons, base, n), base, n) == slots_unbiased(cons, base, n),
{
    assert(slots_unbiased(slots_unbiased(cons, base, n), base, n) =~= slots_unbiased(
        cons,
        base,
        n,
    ));
}

/// The slots after one thread has removed the bias of the joints it visits
/// among the first `n`.
pub open spec fn joints_unbiased<S: Scalar, D: Space<S>>(
    ids: BatchIndices,
    b: int,
    builders: Seq<MbImpulseJointBuilder<S, D>>,
    cons: Seq<MbImpulseJointConstraint<S>>,
    x: int,
    threads: int,
    n: int,
) -> Seq<MbImpulseJointConstraint<S>>
    decreases n,
{
    if n <= 0 {
        cons
    } else {
        let p = joints_unbiased(ids, b, builders, cons, x, threads, n - 1);
        if visits(x, threads, n - 1) {
            slots_unbiased(
                p,
                joint_cons_base(ids, b, joint_at(ids, b, builders, n - 1)),
                max_axis_constraints_spec(D::dimension_spec()),
            )
        } else {
            p
        }
    }
}

proof fn lemma_unbias_skipped<S: Scalar, D: Space<S>>(
    ids: BatchIndices,
    b: int,
    builders: Seq<MbImpulseJointBuilder<S, D>>,
    cons: Seq<MbImpulseJointConstraint<S>>,
    x: int,
    threads: int,
    from: int,
    to: int,
)
    requires
        0 <= from <= to,
        forall|i: int| from <= i < to ==> !#[trigger] visits(x, threads, i),
    ensures
        joints_unbiased(ids, b, builders, cons, x, threads, to) == joints_unbiased(
            ids,
            b,
            builders,
            cons,
            x,
            threads,
            from,
        ),
    decreases to - from,
{
    if from < to {
        lemma_unbias_skipped(ids, b, builders, cons, x, threads, from, to - 1);
        assert(!visits(x, threads, to - 1));
    }
}

/// Removes the bias of every joint of batch `b` that thread `x` of `threads`
/// visits.
pub fn gpu_mb_remove_impulse_joint_constraint_bias<S: Scalar, D: Space<S>>(
    x: u32,
    threads: u32,
    b: u32,
    builders: &[MbImpulseJointBuilder<S, D>],
    constraints: &mut [MbImpulseJointConstraint<S>],
    num_joints: &[u32],
    ids: &BatchIndices,
)
    requires
        threads > 0,
        b < num_joints@.len(),
        num_joints@[b as int] <= ids.mb_imp_joints_batch_capacity,
        (b + 1) * ids.mb_imp_joints_batch_capacity <= builders@.len() <= usize::MAX,
        old(constraints)@.len() <= usize::MAX,
        forall|i: int|
            0 <= i < num_joints@[b as int] ==> joint_cons_base(
                *ids,
                b as int,
                #[trigger] joint_at(*ids, b as int, builders@, i),
            ) + max_axis_constraints_spec(D::dimension_spec()) <= old(constraints)@.len(),
    ensures
        final(constraints)@ == joints_unbiased(
            *ids,
            b as int,
            builders@,
            old(constraints)@,
            x as int,
            threads as int,
            num_joints@[b as int] as int,
        ),
{
    let len: u32 = num_joints[b as usize];
    let max: u32 = max_axis_constraints(D::dimension());
    let clen: usize = constraints.len();
    let ghost c0 = constraints@;
    let ghost xi = x as int;
    let ghost ti = threads as int;
    let ghost bi = b as int;
    let mut i: u64 = x as u64;
    proof {
        assert(0 <= b * ids.mb_imp_joint_constraints_batch_capacity) by (nonlinear_arith)
            requires
                b >= 0,
                ids.mb_imp_joint_constraints_batch_capacity >= 0,
        ;
        if x <= len {
            lemma_unbias_skipped(*ids, bi, builders@, c0, xi, ti, 0, x as int);
        } else {
            lemma_unbias_skipped(*ids, bi, builders@, c0, xi, ti, 0, len as int);
        }
        assert(0int % ti == 0) by (nonlinear_arith)
            requires
                ti > 0,
        ;
        assert(visits(xi, ti, xi));
    }
    while i < len as u64
        invariant
            threads > 0,
            xi == x,
            ti == threads,
            bi == b,
            0 <= b * ids.mb_imp_joint_constraints_batch_capacity,
            len <= ids.mb_imp_joints_batch_capacity,
            (b + 1) * ids.mb_imp_joints_batch_capacity <= builders@.len() <= usize::MAX,
            max == max_axis_constraints_spec(D::dimension_spec()),
            constraints@.len() == c0.len(),
            c0.len() == clen,
            forall|i: int|
                0 <= i < len ==> joint_cons_base(
                    *ids,
                    bi,
                    #[trigger] joint_at(*ids, bi, builders@, i),
                ) + max <= c0.len(),
            visits(xi, ti, i as int),
            i <= len + threads || i == x,
            constraints@ == joints_unbiased(
                *ids,
                bi,
                builders@,
                c0,
                xi,
                ti,
                if i <= len {
                    i as int
                } else {
                    len as int
                },
            ),
        decreases len + threads - i,
    {
        let builder = load_joint(ids, b, builders, i as u32);
        assert(builder == joint_at(*ids, bi, builders@, i as int));
        let base: usize = b as usize * ids.mb_imp_joint_constraints_batch_capacity as usize
            + builder.constraint_id as usize;
        let ghost c1 = constraints@;
        let mut s: u32 = 0;
        while s < max
            invariant
                base + max <= c1.len(),
                c1.len() == clen,
                constraints@.len() == c1.len(),
                s <= max,
                forall|e: int|
                    0 <= e < c1.len() ==> #[trigger] constraints@[e] == (if base <= e < base + s {
                        axis_unbiased(c1[e])
                    } else {
                        c1[e]
                    }),
            decreases max - s,
        {
            let mut c = constraints[base + s as usize];
            if c.kind != 0 {
                c.rhs = c.rhs_wo_bias;
                constraints[base + s as usize] = c;
            }
            s = s + 1;
        }
        assert(constraints@ =~= slots_unbiased(c1, base as int, max as int));
        proof {
            let to = if i + threads <= len {
                i + threads
            } else {
                len as int
            };
            assert forall|q: int| i + 1 <= q < to implies !#[trigger] visits(xi, ti, q) by {
                lemma_next_visit(xi, ti, i as int, q);
            }
            lemma_unbias_skipped(*ids, bi, builders@, c0, xi, ti, i + 1, to);
            lemma_next_visit(xi, ti, i as int, i + threads);
        }
        i = i + threads as u64;
    }
}

} // verus!
