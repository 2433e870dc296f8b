//! In exact arithmetic all tiers of the acceleration pass end alike.
use super::gravity::{assembled, damped, jac_of};
use super::gravity_and_lu::{
    delayed_target, flat_decode_spec, jac_blocks, lemma_pd_axes_len, mb_accelerations_serial,
    mb_accelerations_tree, mb_at_spec, mb_force, mb_room, mb_step, mb_views_spec, pd_links, slot_room,
    slot_step,
};
use super::kinematics::dofs_in_range;
use super::lu::{
    apply_pivots, backward, backward_serial, forward, forward_serial, lemma_apply_pivots_len,
    lemma_backward_len, lemma_forward_len, lemma_forward_serial_len, lower_products, lu_factors,
    lu_pivots, lu_pivots_in_range, lu_solve, pivots_in_range, residual, tree_sum,
    triangular_solve, upper_products,
};
use super::lu_exact::{
    is_pow2, lemma_lower_products_sum, lemma_residual_value, lemma_upper_products_sum,
    tree_sum_is_sum,
};
use super::types::{MultibodyInfo, MultibodyLinkStatic, MultibodyLinkWorkspace};
use crate::batch::BatchIndices;
use crate::exact::{exact, row_dot};
use crate::joint::free_axes;
use crate::scalar::{Scalar, safe_div_spec};
use crate::space::Space;
use crate::views::{MatView, VecView, mat_of, same_outside_mat, same_outside_vec, vec_of};
use vstd::prelude::*;

verus! {

// ---- the solves ----

/// The two vectors read the same.
pub open spec fn read_alike<S>(v: spec_fn(S) -> real, x: Seq<S>, y: Seq<S>) -> bool {
    &&& x.len() == y.len()
    &&& forall|i: int| 0 <= i < x.len() ==> v(#[trigger] x[i]) == v(y[i])
}

proof fn lemma_row_alike<S>(
    v: spec_fn(S) -> real,
    row: Seq<S>,
    x: Seq<S>,
    y: Seq<S>,
    lo: int,
    hi: int,
)
    requires
        read_alike(v, x, y),
        0 <= lo,
        hi <= x.len(),
    ensures
        row_dot(v, row, x, lo, hi) == row_dot(v, row, y, lo, hi),
    decreases hi - lo,
{
    if lo < hi {
        lemma_row_alike(v, row, x, y, lo, hi - 1);
        assert(v(x[hi - 1]) == v(y[hi - 1]));
    }
}

proof fn lemma_forward_alike<S: Scalar>(
    v: spec_fn(S) -> real,
    m: Seq<Seq<S>>,
    x: Seq<S>,
    lanes: int,
    k: int,
)
    requires
        exact(v),
        is_pow2(lanes),
        x.len() <= lanes,
        0 <= k <= x.len(),
    ensures
        read_alike(v, forward(m, x, lanes, k), forward_serial(m, x, k)),
    decreases k,
{
    if k > 0 {
        lemma_forward_alike(v, m, x, lanes, k - 1);
        lemma_forward_len(m, x, lanes, k - 1);
        let y = forward(m, x, lanes, k - 1);
        let z = forward_serial(m, x, k - 1);
        tree_sum_is_sum(v, lower_products(m, y, k - 1, lanes), lanes);
        lemma_lower_products_sum(v, m, y, k - 1, lanes, lanes);
        lemma_residual_value(v, m[k - 1], z, z[k - 1], 0, k - 1);
        lemma_row_alike(v, m[k - 1], y, z, 0, k - 1);
        assert(v(y[k - 1]) == v(z[k - 1]));
        let y2 = forward(m, x, lanes, k);
        let z2 = forward_serial(m, x, k);
        assert forall|i: int| 0 <= i < y2.len() implies v(#[trigger] y2[i]) == v(z2[i]) by {
            assert(v(y[i]) == v(z[i]));
        }
    }
}

proof fn lemma_quotients_alike<S: Scalar>(v: spec_fn(S) -> real, a: S, b: S, d: S)
    requires
        exact(v),
        v(a) == v(b),
    ensures
        v(safe_div_spec(a, d)) == v(safe_div_spec(b, d)),
{
    assert(d.same_spec(S::zero_spec()) <==> v(d) == 0real);
}

proof fn lemma_backward_alike<S: Scalar>(
    v: spec_fn(S) -> real,
    m: Seq<Seq<S>>,
    x: Seq<S>,
    x2: Seq<S>,
    lanes: int,
    k: int,
)
    requires
        exact(v),
        is_pow2(lanes),
        x.len() <= lanes,
        read_alike(v, x, x2),
        0 <= k <= x.len(),
    ensures
        read_alike(v, backward(m, x, lanes, k), backward_serial(m, x2, k)),
    decreases k,
{
    if k > 0 {
        lemma_backward_alike(v, m, x, x2, lanes, k - 1);
        lemma_backward_len(m, x, lanes, k - 1);
        let n = x.len() as int;
        let i0 = n - k;
        let y = backward(m, x, lanes, k - 1);
        let z = backward_serial(m, x2, k - 1);
        tree_sum_is_sum(v, upper_products(m, y, i0, lanes), lanes);
        lemma_upper_products_sum(v, m, y, i0, lanes, lanes);
        lemma_residual_value(v, m[i0], z, z[i0], i0 + 1, n);
        lemma_row_alike(v, m[i0], y, z, i0 + 1, n);
        assert(v(y[i0]) == v(z[i0]));
        lemma_quotients_alike(
            v,
            y[i0].minus_spec(tree_sum(upper_products(m, y, i0, lanes), lanes)),
            residual(m[i0], z, z[i0], i0 + 1, n),
            m[i0][i0],
        );
        let y2 = backward(m, x, lanes, k);
        let z2 = backward_serial(m, x2, k);
        assert forall|i: int| 0 <= i < y2.len() implies v(#[trigger] y2[i]) == v(z2[i]) by {
            assert(v(y[i]) == v(z[i]));
        }
    }
}

/// In exact arithmetic the lane-parallel solve gives what the left-to-right solve
/// gives, on any factors and for any power of two of lanes that holds the unknowns.
pub proof fn lane_solve_is_the_serial_solve<S: Scalar>(
    v: spec_fn(S) -> real,
    m: Seq<Seq<S>>,
    pivots: Seq<u32>,
    b: Seq<S>,
    lanes: int,
)
    requires
        exact(v),
        is_pow2(lanes),
        b.len() <= lanes,
        pivots.len() == b.len(),
        pivots_in_range(pivots),
    ensures
        read_alike(
            v,
            triangular_solve(m, apply_pivots(b, pivots, b.len() as int), lanes),
            lu_solve(m, pivots, b),
        ),
{
    let n = b.len() as int;
    lemma_apply_pivots_len(b, pivots, n);
    let y = apply_pivots(b, pivots, n);
    lemma_forward_alike(v, m, y, lanes, n);
    lemma_forward_len(m, y, lanes, n);
    lemma_forward_serial_len(m, y, n);
    lemma_backward_alike(v, m, forward(m, y, lanes, n), forward_serial(m, y, n), lanes, n);
}

// ---- the buffers ----

pub(crate) proof fn lemma_same_vec<T>(a: Seq<T>, b: Seq<T>, c: Seq<T>, w: VecView)
    requires
        same_outside_vec(a, b, w),
        same_outside_vec(a, c, w),
        vec_of(b, w) == vec_of(c, w),
    ensures
        b == c,
{
    assert forall|k: int| 0 <= k < b.len() implies #[trigger] b[k] == c[k] by {
        if w.holds(k) {
            let i = choose|i: int| 0 <= i < w.len && #[trigger] w.idx_spec(i) == k;
            assert(vec_of(b, w)[i] == b[k]);
            assert(vec_of(c, w)[i] == c[k]);
        } else {
            assert(a[k] == b[k] && a[k] == c[k]);
        }
    }
    assert(b =~= c);
}

proof fn lemma_same_mat<T>(a: Seq<T>, b: Seq<T>, c: Seq<T>, w: MatView)
    requires
        same_outside_mat(a, b, w),
        same_outside_mat(a, c, w),
        mat_of(b, w) == mat_of(c, w),
    ensures
        b == c,
{
    assert forall|k: int| 0 <= k < b.len() implies #[trigger] b[k] == c[k] by {
        if w.holds(k) {
            let (i, j) = choose|i: int, j: int|
                0 <= i < w.nrows && 0 <= j < w.ncols && #[trigger] w.idx_spec(i, j) == k;
            assert(mat_of(b, w)[i][j] == b[k]);
            assert(mat_of(c, w)[i][j] == c[k]);
        } else {
            assert(a[k] == b[k] && a[k] == c[k]);
        }
    }
    assert(b =~= c);
}

proof fn lemma_read_vec<S>(
    v: spec_fn(S) -> real,
    a: Seq<S>,
    a2: Seq<S>,
    b: Seq<S>,
    c: Seq<S>,
    w: VecView,
)
    requires
        read_alike(v, a, a2),
        same_outside_vec(a, b, w),
        same_outside_vec(a2, c, w),
        read_alike(v, vec_of(b, w), vec_of(c, w)),
    ensures
        read_alike(v, b, c),
{
    assert forall|k: int| 0 <= k < b.len() implies v(#[trigger] b[k]) == v(c[k]) by {
        if w.holds(k) {
            let i = choose|i: int| 0 <= i < w.len && #[trigger] w.idx_spec(i) == k;
            assert(v(vec_of(b, w)[i]) == v(vec_of(c, w)[i]));
        } else {
            assert(a[k] == b[k] && a2[k] == c[k]);
            assert(v(a[k]) == v(a2[k]));
        }
    }
}

proof fn lemma_assembled_len<S: Scalar, D: Space<S>>(
    st: Seq<MultibodyLinkStatic<S, D>>,
    ws: Seq<MultibodyLinkWorkspace<S, D>>,
    jac: spec_fn(int) -> Seq<Seq<S>>,
    g: D::V,
    ndofs: int,
    k: int,
)
    requires
        0 <= ndofs,
    ensures
        assembled(st, ws, jac, g, ndofs, k).len() == ndofs,
    decreases k,
{
    if k > 0 {
        lemma_assembled_len(st, ws, jac, g, ndofs, k - 1);
    }
}

proof fn lemma_motors_len<S: Scalar, D: Space<S>>(
    tau: Seq<S>,
    st: Seq<MultibodyLinkStatic<S, D>>,
    ws: Seq<MultibodyLinkWorkspace<S, D>>,
    vel: Seq<S>,
    delay: Seq<S>,
    first_link: int,
    k: int,
)
    requires
        dofs_in_range(st, tau.len() as int),
        k <= st.len(),
    ensures
        pd_links(tau, st, ws, vel, delay, first_link, k).len() == tau.len(),
    decreases k,
{
    if k > 0 {
        lemma_motors_len(tau, st, ws, vel, delay, first_link, k - 1);
        let t = pd_links(tau, st, ws, vel, delay, first_link, k - 1);
        assert(st[k - 1].assembly_id + free_axes(
            st[k - 1].data.locked_axes,
            0,
            D::dimension_spec().spatial_spec(),
        ) <= tau.len());
        lemma_pd_axes_len(
            t,
            st[k - 1],
            ws[k - 1].coords@,
            vel,
            delayed_target(delay, first_link + k - 1),
            D::dimension_spec().spatial_spec(),
        );
    }
}

proof fn lemma_force_len<S: Scalar, D: Space<S>>(
    ids: BatchIndices,
    b: int,
    mb: MultibodyInfo,
    stat: Seq<MultibodyLinkStatic<S, D>>,
    ws: Seq<MultibodyLinkWorkspace<S, D>>,
    jac: Seq<S>,
    dof: Seq<S>,
    delay: Seq<S>,
    g: D::V,
)
    requires
        dofs_in_range(vec_of(stat, mb_views_spec(ids, b, mb).links), mb.ndofs as int),
    ensures
        mb_force(ids, b, mb, stat, ws, jac, dof, delay, g).len() == mb.ndofs,
{
    let w = mb_views_spec(ids, b, mb);
    let st = vec_of(stat, w.links);
    let vel = vec_of(dof, w.dofs);
    let blocks = jac_of(
        jac,
        jac_blocks(
            ids.num_batches as int,
            b,
            w.joff as int,
            D::dimension_spec().spatial_spec(),
            mb.ndofs as int,
        ),
    );
    lemma_assembled_len(st, vec_of(ws, w.links), blocks, g, vel.len() as int, st.len() as int);
    let tau = damped(
        assembled(st, vec_of(ws, w.links), blocks, g, vel.len() as int, st.len() as int),
        vec_of(dof, w.damping),
        vel,
    );
    lemma_motors_len(
        tau,
        st,
        vec_of(ws, w.links),
        vel,
        vec_of(delay, w.delay),
        mb.first_link as int,
        st.len() as int,
    );
}

// ---- the tiers ----

/// In exact arithmetic every lane tier with room for the multibody gives the
/// accelerations of the serial tier.
pub proof fn tiers_accelerate_alike<S: Scalar, D: Space<S>>(
    v: spec_fn(S) -> real,
    ids: BatchIndices,
    b: int,
    mb: MultibodyInfo,
    mass: Seq<S>,
    rhs: Seq<S>,
    lanes: int,
)
    requires
        exact(v),
        is_pow2(lanes),
        mb.ndofs <= lanes,
        rhs.len() == mb.ndofs,
    ensures
        read_alike(
            v,
            mb_accelerations_tree::<S, D>(ids, b, mb, mass, rhs, lanes),
            mb_accelerations_serial::<S, D>(ids, b, mb, mass, rhs),
        ),
{
    let m = mat_of(mass, mb_views_spec(ids, b, mb).mass);
    lu_pivots_in_range(m);
    lane_solve_is_the_serial_solve(
        v,
        lu_factors(m, mb.ndofs as int),
        lu_pivots(m),
        rhs,
        lanes,
    );
}

proof fn lemma_steps_alike<S: Scalar, D: Space<S>>(
    v: spec_fn(S) -> real,
    ids: BatchIndices,
    b: int,
    i: int,
    mb: MultibodyInfo,
    stat: Seq<MultibodyLinkStatic<S, D>>,
    start: TierBuffers<S, D>,
    start2: TierBuffers<S, D>,
    one: TierBuffers<S, D>,
    two: TierBuffers<S, D>,
    s1: Seq<S>,
    s2: Seq<S>,
)
    requires
        ends_alike(v, start, start2),
        stepped(ids, b, i, mb, stat, start, one, s1),
        stepped(ids, b, i, mb, stat, start2, two, s2),
        read_alike(v, s1, s2),
    ensures
        ends_alike(v, one, two),
{
    let w = mb_views_spec(ids, b, mb);
    lemma_same_vec(start.links, one.links, two.links, w.links);
    lemma_same_mat(start.mass, one.mass, two.mass, w.mass);
    lemma_same_vec(start.pivots, one.pivots, two.pivots, w.dofs);
    lemma_same_vec(start.delay, one.delay, two.delay, w.delay);
    lemma_read_vec(v, start.forces, start2.forces, one.forces, two.forces, w.dofs);
}

/// The buffers that the acceleration pass writes.
pub struct TierBuffers<S: Scalar, D: Space<S>> {
    pub links: Seq<MultibodyLinkWorkspace<S, D>>,
    pub forces: Seq<S>,
    pub mass: Seq<S>,
    pub pivots: Seq<u32>,
    pub delay: Seq<S>,
}

/// One pass over multibody `i` of batch `b` leads from `start` to `end` and leaves
/// the accelerations `solution`.
pub open spec fn stepped<S: Scalar, D: Space<S>>(
    ids: BatchIndices,
    b: int,
    i: int,
    mb: MultibodyInfo,
    stat: Seq<MultibodyLinkStatic<S, D>>,
    start: TierBuffers<S, D>,
    end: TierBuffers<S, D>,
    solution: Seq<S>,
) -> bool {
    mb_step(
        ids,
        b,
        i,
        mb,
        stat,
        start.links,
        end.links,
        start.forces,
        end.forces,
        start.mass,
        end.mass,
        start.pivots,
        end.pivots,
        start.delay,
        end.delay,
        solution,
    )
}

/// The accelerations read the same; all else is the same.
pub open spec fn ends_alike<S: Scalar, D: Space<S>>(
    v: spec_fn(S) -> real,
    one: TierBuffers<S, D>,
    two: TierBuffers<S, D>,
) -> bool {
    &&& one.links == two.links
    &&& read_alike(v, one.forces, two.forces)
    &&& one.mass == two.mass
    &&& one.pivots == two.pivots
    &&& one.delay == two.delay
}

proof fn lemma_slot_alike<S: Scalar, D: Space<S>>(
    v: spec_fn(S) -> real,
    ids: BatchIndices,
    b: int,
    i: int,
    mb: MultibodyInfo,
    stat: Seq<MultibodyLinkStatic<S, D>>,
    jac: Seq<S>,
    dof: Seq<S>,
    g: D::V,
    t: int,
    start: TierBuffers<S, D>,
    start2: TierBuffers<S, D>,
    packed: TierBuffers<S, D>,
    whole: TierBuffers<S, D>,
)
    requires
        exact(v),
        is_pow2(t),
        mb.ndofs <= t <= 64,
        dofs_in_range(vec_of(stat, mb_views_spec(ids, b, mb).links), mb.ndofs as int),
        ends_alike(v, start, start2),
        ({
            let rhs = mb_force(ids, b, mb, stat, start.links, jac, dof, start.delay, g);
            &&& stepped(
                ids,
                b,
                i,
                mb,
                stat,
                start,
                packed,
                mb_accelerations_tree::<S, D>(ids, b, mb, start.mass, rhs, t),
            )
            &&& stepped(
                ids,
                b,
                i,
                mb,
                stat,
                start2,
                whole,
                mb_accelerations_tree::<S, D>(ids, b, mb, start.mass, rhs, 64),
            )
        }),
    ensures
        ends_alike(v, packed, whole),
{
    let rhs = mb_force(ids, b, mb, stat, start.links, jac, dof, start.delay, g);
    lemma_force_len(ids, b, mb, stat, start.links, jac, dof, start.delay, g);
    reveal_with_fuel(is_pow2, 8);
    tiers_accelerate_alike::<S, D>(v, ids, b, mb, start.mass, rhs, t);
    tiers_accelerate_alike::<S, D>(v, ids, b, mb, start.mass, rhs, 64);
    let s1 = mb_accelerations_tree::<S, D>(ids, b, mb, start.mass, rhs, t);
    let s2 = mb_accelerations_tree::<S, D>(ids, b, mb, start.mass, rhs, 64);
    let s = mb_accelerations_serial::<S, D>(ids, b, mb, start.mass, rhs);
    assert forall|k: int| 0 <= k < s1.len() implies v(#[trigger] s1[k]) == v(s2[k]) by {
        assert(v(s2[k]) == v(s[k]));
    }
    lemma_steps_alike(v, ids, b, i, mb, stat, start, start2, packed, whole, s1, s2);
}

/// The pass of the tier with `t` lanes at a flat position leads from `start` to
/// `end`; past the last multibody, nothing changes.
pub open spec fn slot_passed<S: Scalar, D: Space<S>>(
    ids: BatchIndices,
    flat: int,
    t: int,
    info: Seq<MultibodyInfo>,
    stat: Seq<MultibodyLinkStatic<S, D>>,
    jac: Seq<S>,
    dof: Seq<S>,
    g: D::V,
    start: TierBuffers<S, D>,
    end: TierBuffers<S, D>,
) -> bool {
    slot_step(
        ids,
        flat,
        t,
        info,
        stat,
        start.links,
        end.links,
        jac,
        start.forces,
        end.forces,
        start.mass,
        end.mass,
        start.pivots,
        end.pivots,
        dof,
        g,
        start.delay,
        end.delay,
    )
}

/// The passes of the tier with `t` lanes at the flat positions of `order` lead from
/// each of `states` to the next.
pub open spec fn tier_run<S: Scalar, D: Space<S>>(
    ids: BatchIndices,
    order: Seq<int>,
    t: int,
    info: Seq<MultibodyInfo>,
    stat: Seq<MultibodyLinkStatic<S, D>>,
    jac: Seq<S>,
    dof: Seq<S>,
    g: D::V,
    states: Seq<TierBuffers<S, D>>,
) -> bool {
    &&& states.len() == order.len() + 1
    &&& forall|k: int|
        0 <= k < order.len() ==> slot_passed(
            ids,
            #[trigger] order[k],
            t,
            info,
            stat,
            jac,
            dof,
            g,
            states[k],
            states[k + 1],
        )
}

/// In exact arithmetic a packed dispatch leaves all multibodies as whole workgroups
/// leave them, one after the other in the same order: only the order of summation
/// differs. Slots past the last multibody change nothing.
pub proof fn packed_dispatch_ends_as_whole_workgroups<S: Scalar, D: Space<S>>(
    v: spec_fn(S) -> real,
    ids: BatchIndices,
    order: Seq<int>,
    t: int,
    info: Seq<MultibodyInfo>,
    stat: Seq<MultibodyLinkStatic<S, D>>,
    jac: Seq<S>,
    dof: Seq<S>,
    g: D::V,
    packed: Seq<TierBuffers<S, D>>,
    whole: Seq<TierBuffers<S, D>>,
    k: int,
)
    requires
        exact(v),
        is_pow2(t),
        t <= 64,
        tier_run(ids, order, t, info, stat, jac, dof, g, packed),
        tier_run(ids, order, 64, info, stat, jac, dof, g, whole),
        packed[0] == whole[0],
        forall|j: int|
            0 <= j < order.len() ==> slot_room(
                ids,
                #[trigger] order[j],
                t,
                info,
                stat,
                packed[j].links,
                jac,
                packed[j].forces,
                packed[j].mass,
                packed[j].pivots,
                dof,
                packed[j].delay,
            ),
        0 <= k <= order.len(),
    ensures
        ends_alike(v, packed[k], whole[k]),
    decreases k,
{
    if k > 0 {
        packed_dispatch_ends_as_whole_workgroups(
            v,
            ids,
            order,
            t,
            info,
            stat,
            jac,
            dof,
            g,
            packed,
            whole,
            k - 1,
        );
        let flat = order[k - 1];
        let p = packed[k - 1];
        let w = whole[k - 1];
        assert(slot_passed(ids, flat, t, info, stat, jac, dof, g, p, packed[k - 1 + 1]));
        assert(slot_passed(ids, flat, 64, info, stat, jac, dof, g, w, whole[k - 1 + 1]));
        match flat_decode_spec(ids, flat) {
            Some((b, i)) => {
                let mb = mb_at_spec(ids, b, i, info);
                lemma_slot_alike(
                    v,
                    ids,
                    b,
                    i,
                    mb,
                    stat,
                    jac,
                    dof,
                    g,
                    t,
                    p,
                    w,
                    packed[k],
                    whole[k],
                );
            },
            None => {},
        }
    }
}

/// In exact arithmetic the serial tier leaves a multibody as the whole workgroup
/// leaves it.
pub proof fn serial_tier_ends_as_the_whole_workgroup<S: Scalar, D: Space<S>>(
    v: spec_fn(S) -> real,
    ids: BatchIndices,
    b: int,
    i: int,
    mb: MultibodyInfo,
    stat: Seq<MultibodyLinkStatic<S, D>>,
    jac: Seq<S>,
    dof: Seq<S>,
    g: D::V,
    start: TierBuffers<S, D>,
    serial: TierBuffers<S, D>,
    whole: TierBuffers<S, D>,
)
    requires
        exact(v),
        mb.ndofs <= 64,
        mb_room(
            ids,
            b,
            mb,
            stat,
            start.links,
            jac,
            start.forces,
            start.mass,
            start.pivots,
            dof,
            start.delay,
        ),
        ({
            let rhs = mb_force(ids, b, mb, stat, start.links, jac, dof, start.delay, g);
            &&& stepped(
                ids,
                b,
                i,
                mb,
                stat,
                start,
                serial,
                mb_accelerations_serial::<S, D>(ids, b, mb, start.mass, rhs),
            )
            &&& stepped(
                ids,
                b,
                i,
                mb,
                stat,
                start,
                whole,
                mb_accelerations_tree::<S, D>(ids, b, mb, start.mass, rhs, 64),
            )
        }),
    ensures
        ends_alike(v, whole, serial),
{
    let rhs = mb_force(ids, b, mb, stat, start.links, jac, dof, start.delay, g);
    lemma_force_len(ids, b, mb, stat, start.links, jac, dof, start.delay, g);
    reveal_with_fuel(is_pow2, 8);
    tiers_accelerate_alike::<S, D>(v, ids, b, mb, start.mass, rhs, 64);
    lemma_steps_alike(
        v,
        ids,
        b,
        i,
        mb,
        stat,
        start,
        start,
        whole,
        serial,
        mb_accelerations_tree::<S, D>(ids, b, mb, start.mass, rhs, 64),
        mb_accelerations_serial::<S, D>(ids, b, mb, start.mass, rhs),
    );
}

} // verus!
