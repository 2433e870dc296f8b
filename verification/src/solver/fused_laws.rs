//! The fused passes end as the kernels that they stand for.
use super::constraint::{TwoBodyConstraintBuilder, TwoBodyModel};
use super::laws::{apart, color_order_does_not_matter, contacts_of_a_color_are_independent};
use super::passes::{
    Pass, PassState, color_pass, color_passes, contact_done, contacts_refreshed, contacts_unbiased,
    incremented,
};
use super::step::{refreshed, unbiased};
use crate::scalar::Scalar;
use crate::sim_params::RbdSimParams;
use crate::space::{Pose, Space, Velocity};
use crate::threads::{strides_partition_items, visited, visited_items, visits};
use vstd::prelude::*;

verus! {

// ---- the kernels, thread after thread ----

/// The velocities after the increment kernel ran for the bodies below `upto`.
pub open spec fn increments_applied<S: Scalar, D: Space<S>>(
    vels: Seq<Velocity<S, D>>,
    incs: Seq<Velocity<S, D>>,
    bodies: int,
    upto: int,
) -> Seq<Velocity<S, D>>
    decreases upto,
{
    if upto <= 0 {
        vels
    } else {
        let i = upto - 1;
        let p = increments_applied(vels, incs, bodies, i);
        if i < bodies {
            p.update(
                i,
                Velocity {
                    linear: D::vadd_spec(p[i].linear, incs[i].linear),
                    angular: D::aadd_spec(p[i].angular, incs[i].angular),
                },
            )
        } else {
            p
        }
    }
}

/// The contacts after the update kernel ran in the threads below `upto`.
pub open spec fn refreshed_by_threads<S: Scalar, D: Space<S>>(
    cs: Seq<TwoBodyModel<S, D>>,
    builders: Seq<TwoBodyConstraintBuilder<S, D>>,
    poses: Seq<Pose<S, D>>,
    params: RbdSimParams<S>,
    threads: int,
    upto: int,
    n: int,
) -> Seq<TwoBodyModel<S, D>>
    decreases upto,
{
    if upto <= 0 {
        cs
    } else {
        contacts_refreshed(
            refreshed_by_threads(cs, builders, poses, params, threads, upto - 1, n),
            builders,
            poses,
            params,
            upto - 1,
            threads,
            n,
        )
    }
}

/// The batch after a pass over one color ran in the threads below `upto`.
pub open spec fn color_by_threads<S: Scalar, D: Space<S>>(
    pass: Pass,
    st: PassState<S, D>,
    colors: Seq<u32>,
    color: u32,
    threads: int,
    upto: int,
    n: int,
) -> PassState<S, D>
    decreases upto,
{
    if upto <= 0 {
        st
    } else {
        color_pass(
            pass,
            color_by_threads(pass, st, colors, color, threads, upto - 1, n),
            colors,
            color,
            visited(upto - 1, threads, n),
        )
    }
}

/// The batch after the passes over the colors `1..=nc`, each in all threads.
pub open spec fn colors_by_threads<S: Scalar, D: Space<S>>(
    pass: Pass,
    st: PassState<S, D>,
    colors: Seq<u32>,
    nc: int,
    threads: int,
    n: int,
) -> PassState<S, D>
    decreases nc,
{
    if nc <= 0 {
        st
    } else {
        color_by_threads(
            pass,
            colors_by_threads(pass, st, colors, nc - 1, threads, n),
            colors,
            nc as u32,
            threads,
            threads,
            n,
        )
    }
}

/// The first `n` contacts join bodies of the batch, and no two of the color share
/// one.
pub open spec fn well_colored<S: Scalar, D: Space<S>>(
    st: PassState<S, D>,
    colors: Seq<u32>,
    color: u32,
    n: int,
) -> bool {
    &&& n <= st.cs.len()
    &&& forall|i: int|
        0 <= i < n ==> (#[trigger] st.cs[i]).solver_body_a < st.vels.len()
            && st.cs[i].solver_body_b < st.vels.len()
    &&& forall|i: int, j: int|
        0 <= i < n && 0 <= j < n && i != j && colors[i] == color && colors[j] == color ==> apart(
            #[trigger] st.cs[i],
            #[trigger] st.cs[j],
        )
}

// ---- increments ----

proof fn lemma_increments<S: Scalar, D: Space<S>>(
    vels: Seq<Velocity<S, D>>,
    incs: Seq<Velocity<S, D>>,
    bodies: int,
    upto: int,
)
    requires
        0 <= upto,
        bodies <= vels.len(),
    ensures
        increments_applied(vels, incs, bodies, upto) == incremented(
            vels,
            incs,
            if upto < bodies {
                upto
            } else {
                bodies
            },
        ),
    decreases upto,
{
    let out = increments_applied(vels, incs, bodies, upto);
    if upto > 0 {
        lemma_increments(vels, incs, bodies, upto - 1);
    }
    if upto < bodies {
        assert(out =~= incremented(vels, incs, upto));
    } else {
        assert(out =~= incremented(vels, incs, bodies));
    }
}

// ---- refreshing ----

proof fn lemma_refreshed<S: Scalar, D: Space<S>>(
    cs: Seq<TwoBodyModel<S, D>>,
    builders: Seq<TwoBodyConstraintBuilder<S, D>>,
    poses: Seq<Pose<S, D>>,
    params: RbdSimParams<S>,
    threads: int,
    upto: int,
    n: int,
)
    requires
        0 < threads,
        0 <= upto <= threads,
    ensures
        ({
            let out = refreshed_by_threads(cs, builders, poses, params, threads, upto, n);
            &&& out.len() == cs.len()
            &&& forall|i: int|
                0 <= i < cs.len() ==> #[trigger] out[i] == (if i < n && i % threads < upto {
                    refreshed(cs[i], builders[i].infos@, poses, params)
                } else {
                    cs[i]
                })
        }),
    decreases upto,
{
    let out = refreshed_by_threads(cs, builders, poses, params, threads, upto, n);
    assert forall|i: int| 0 <= i implies 0 <= #[trigger] (i % threads) by {
        vstd::arithmetic::div_mod::lemma_mod_bound(i, threads);
    }
    if upto > 0 {
        lemma_refreshed(cs, builders, poses, params, threads, upto - 1, n);
        let p = refreshed_by_threads(cs, builders, poses, params, threads, upto - 1, n);
        assert forall|i: int| 0 <= i < cs.len() implies #[trigger] out[i] == (if i < n && i
            % threads < upto {
            refreshed(cs[i], builders[i].infos@, poses, params)
        } else {
            cs[i]
        }) by {
            strides_partition_items(upto - 1, threads, i);
            assert(p[i] == p[i]);
        }
    }
}

/// Updating the contacts thread by thread is updating them all.
pub proof fn threads_share_out_the_contacts<S: Scalar, D: Space<S>>(
    cs: Seq<TwoBodyModel<S, D>>,
    builders: Seq<TwoBodyConstraintBuilder<S, D>>,
    poses: Seq<Pose<S, D>>,
    params: RbdSimParams<S>,
    threads: int,
    n: int,
)
    requires
        0 < threads,
    ensures
        refreshed_by_threads(cs, builders, poses, params, threads, threads, n)
            == contacts_refreshed(cs, builders, poses, params, 0, 1, n),
{
    lemma_refreshed(cs, builders, poses, params, threads, threads, n);
    let out = refreshed_by_threads(cs, builders, poses, params, threads, threads, n);
    let all = contacts_refreshed(cs, builders, poses, params, 0, 1, n);
    assert forall|i: int| 0 <= i < cs.len() implies #[trigger] out[i] == all[i] by {
        vstd::arithmetic::div_mod::lemma_mod_bound(i, threads);
        assert(visits(0, 1, i));
    }
    assert(out =~= all);
}

// ---- colors ----

/// The contacts below `n` in the order in which the threads below `upto` visit them.
spec fn thread_lists(threads: int, upto: int, n: int) -> Seq<int>
    decreases upto,
{
    if upto <= 0 {
        Seq::empty()
    } else {
        thread_lists(threads, upto - 1, n) + visited(upto - 1, threads, n)
    }
}

proof fn lemma_lists(threads: int, upto: int, n: int)
    requires
        0 <= upto <= threads,
        0 < threads,
    ensures
        ({
            let l = thread_lists(threads, upto, n);
            &&& forall|k: int|
                0 <= k < l.len() ==> 0 <= #[trigger] l[k] < n && l[k] % threads < upto
            &&& forall|i: int| 0 <= i < n && i % threads < upto ==> #[trigger] l.contains(i)
            &&& forall|j: int, k: int|
                0 <= j < k < l.len() ==> #[trigger] l[j] != #[trigger] l[k]
        }),
    decreases upto,
{
    let l = thread_lists(threads, upto, n);
    if upto > 0 {
        lemma_lists(threads, upto - 1, n);
        visited_items(upto - 1, threads, n);
        let p = thread_lists(threads, upto - 1, n);
        let q = visited(upto - 1, threads, n);
        assert forall|k: int| 0 <= k < q.len() implies #[trigger] q[k] % threads == upto - 1 by {
            strides_partition_items(upto - 1, threads, q[k]);
        }
        assert forall|k: int| 0 <= k < l.len() implies 0 <= #[trigger] l[k] < n && l[k] % threads
            < upto by {
            if k < p.len() {
                assert(l[k] == p[k]);
            } else {
                assert(l[k] == q[k - p.len()]);
            }
        }
        assert forall|i: int| 0 <= i < n && i % threads < upto implies #[trigger] l.contains(
            i,
        ) by {
            if i % threads < upto - 1 {
                assert(p.contains(i));
                let k = choose|k: int| 0 <= k < p.len() && p[k] == i;
                assert(l[k] == i);
            } else {
                strides_partition_items(upto - 1, threads, i);
                assert(q.contains(i));
                let k = choose|k: int| 0 <= k < q.len() && q[k] == i;
                assert(l[p.len() + k] == i);
            }
        }
        assert forall|j: int, k: int| 0 <= j < k < l.len() implies #[trigger] l[j]
            != #[trigger] l[k] by {
            if k < p.len() {
                assert(l[j] == p[j] && l[k] == p[k]);
            } else if j < p.len() {
                assert(l[j] == p[j] && l[k] == q[k - p.len()]);
            } else {
                assert(l[j] == q[j - p.len()] && l[k] == q[k - p.len()]);
            }
        }
    } else {
        assert forall|i: int| 0 <= i < n && i % threads < upto implies #[trigger] l.contains(
            i,
        ) by {
            vstd::arithmetic::div_mod::lemma_mod_bound(i, threads);
        }
    }
}

proof fn lemma_passes_join<S: Scalar, D: Space<S>>(
    pass: Pass,
    st: PassState<S, D>,
    colors: Seq<u32>,
    color: u32,
    a: Seq<int>,
    b: Seq<int>,
)
    ensures
        color_pass(pass, st, colors, color, a + b) == color_pass(
            pass,
            color_pass(pass, st, colors, color, a),
            colors,
            color,
            b,
        ),
    decreases b.len(),
{
    if b.len() > 0 {
        lemma_passes_join(pass, st, colors, color, a, b.drop_last());
        assert((a + b).drop_last() =~= a + b.drop_last());
        assert((a + b).last() == b.last());
    } else {
        assert(a + b =~= a);
    }
}

proof fn lemma_threads_join<S: Scalar, D: Space<S>>(
    pass: Pass,
    st: PassState<S, D>,
    colors: Seq<u32>,
    color: u32,
    threads: int,
    upto: int,
    n: int,
)
    ensures
        color_by_threads(pass, st, colors, color, threads, upto, n) == color_pass(
            pass,
            st,
            colors,
            color,
            thread_lists(threads, upto, n),
        ),
    decreases upto,
{
    if upto > 0 {
        lemma_threads_join(pass, st, colors, color, threads, upto - 1, n);
        lemma_passes_join(
            pass,
            st,
            colors,
            color,
            thread_lists(threads, upto - 1, n),
            visited(upto - 1, threads, n),
        );
    }
}

/// A pass over one color is the same in one thread and shared out over many.
pub proof fn threads_share_out_a_color<S: Scalar, D: Space<S>>(
    pass: Pass,
    st: PassState<S, D>,
    colors: Seq<u32>,
    color: u32,
    threads: int,
    n: int,
)
    requires
        0 < threads,
        well_colored(st, colors, color, n),
    ensures
        color_by_threads(pass, st, colors, color, threads, threads, n) == color_pass(
            pass,
            st,
            colors,
            color,
            visited(0, 1, n),
        ),
{
    let l = thread_lists(threads, threads, n);
    let m = visited(0, 1, n);
    lemma_threads_join(pass, st, colors, color, threads, threads, n);
    lemma_lists(threads, threads, n);
    visited_items(0, 1, n);
    assert forall|i: int| #[trigger] l.contains(i) <==> m.contains(i) by {
        if 0 <= i < n {
            vstd::arithmetic::div_mod::lemma_mod_bound(i, threads);
            assert(visits(0, 1, i));
            assert(l.contains(i) && m.contains(i));
        } else {
            if l.contains(i) {
                let k = choose|k: int| 0 <= k < l.len() && l[k] == i;
                assert(0 <= l[k] < n);
            }
            if m.contains(i) {
                let k = choose|k: int| 0 <= k < m.len() && m[k] == i;
                assert(0 <= m[k] < n);
            }
        }
    }
    color_order_does_not_matter(pass, st, colors, color, l, m);
}

proof fn lemma_stays_colored<S: Scalar, D: Space<S>>(
    pass: Pass,
    st: PassState<S, D>,
    colors: Seq<u32>,
    color: u32,
    next: u32,
    n: int,
)
    requires
        well_colored(st, colors, color, n),
        well_colored(st, colors, next, n),
    ensures
        well_colored(color_pass(pass, st, colors, color, visited(0, 1, n)), colors, next, n),
{
    let m = visited(0, 1, n);
    visited_items(0, 1, n);
    contacts_of_a_color_are_independent(pass, st, colors, color, m);
    let out = color_pass(pass, st, colors, color, m);
    assert forall|i: int| 0 <= i < n implies (#[trigger] out.cs[i]).solver_body_a
        == st.cs[i].solver_body_a && out.cs[i].solver_body_b == st.cs[i].solver_body_b by {
        if m.contains(i) && colors[i] == color {
            let k = choose|k: int| 0 <= k < m.len() && m[k] == i;
            assert(m[k] == i);
            assert(out.cs[i] == contact_done(pass, st, i).cs[i]);
        }
    }
    assert forall|i: int, j: int|
        0 <= i < n && 0 <= j < n && i != j && colors[i] == next && colors[j]
            == next implies apart(#[trigger] out.cs[i], #[trigger] out.cs[j]) by {
        assert(apart(st.cs[i], st.cs[j]));
    }
}

proof fn lemma_passes_stay_colored<S: Scalar, D: Space<S>>(
    pass: Pass,
    st: PassState<S, D>,
    colors: Seq<u32>,
    nc: int,
    next: u32,
    n: int,
)
    requires
        0 <= nc <= u32::MAX,
        forall|c: u32| 1 <= c <= nc ==> #[trigger] well_colored(st, colors, c, n),
        well_colored(st, colors, next, n),
    ensures
        well_colored(color_passes(pass, st, colors, nc, n), colors, next, n),
    decreases nc,
{
    if nc > 0 {
        lemma_passes_stay_colored(pass, st, colors, nc - 1, next, n);
        lemma_passes_stay_colored(pass, st, colors, nc - 1, nc as u32, n);
        lemma_stays_colored(
            pass,
            color_passes(pass, st, colors, nc - 1, n),
            colors,
            nc as u32,
            next,
            n,
        );
    }
}

/// The fused pass over all colors ends as the passes over the single colors do,
/// each shared out over threads, with the colors counted up from one.
pub proof fn fused_colors_are_the_sequence<S: Scalar, D: Space<S>>(
    pass: Pass,
    st: PassState<S, D>,
    colors: Seq<u32>,
    nc: int,
    threads: int,
    n: int,
)
    requires
        0 < threads,
        0 <= nc <= u32::MAX,
        forall|c: u32| 1 <= c <= nc ==> #[trigger] well_colored(st, colors, c, n),
    ensures
        color_passes(pass, st, colors, nc, n) == colors_by_threads(
            pass,
            st,
            colors,
            nc,
            threads,
            n,
        ),
    decreases nc,
{
    if nc > 0 {
        fused_colors_are_the_sequence(pass, st, colors, nc - 1, threads, n);
        lemma_passes_stay_colored(pass, st, colors, nc - 1, nc as u32, n);
        threads_share_out_a_color(
            pass,
            color_passes(pass, st, colors, nc - 1, n),
            colors,
            nc as u32,
            threads,
            n,
        );
    }
}

/// The fused start of a substep ends as the separate kernels do in sequence: the
/// increments of `dispatched` bodies, the update of the contacts in `threads`
/// threads, and one warm start per color, with the colors counted up from one.
pub proof fn fused_warmstart_is_the_sequence<S: Scalar, D: Space<S>>(
    st: PassState<S, D>,
    incs: Seq<Velocity<S, D>>,
    bodies: int,
    dispatched: int,
    builders: Seq<TwoBodyConstraintBuilder<S, D>>,
    poses: Seq<Pose<S, D>>,
    params: RbdSimParams<S>,
    colors: Seq<u32>,
    nc: int,
    threads: int,
    n: int,
)
    requires
        0 <= bodies <= st.vels.len(),
        bodies <= dispatched,
        0 < threads,
        0 <= nc <= u32::MAX,
        forall|c: u32| 1 <= c <= nc ==> #[trigger] well_colored(st, colors, c, n),
    ensures
        color_passes(
            Pass::Warmstart,
            PassState {
                cs: contacts_refreshed(st.cs, builders, poses, params, 0, 1, n),
                vels: incremented(st.vels, incs, bodies),
            },
            colors,
            nc,
            n,
        ) == colors_by_threads(
            Pass::Warmstart,
            PassState {
                cs: refreshed_by_threads(st.cs, builders, poses, params, threads, threads, n),
                vels: increments_applied(st.vels, incs, bodies, dispatched),
            },
            colors,
            nc,
            threads,
            n,
        ),
{
    lemma_increments(st.vels, incs, bodies, dispatched);
    threads_share_out_the_contacts(st.cs, builders, poses, params, threads, n);
    let start = PassState {
        cs: contacts_refreshed(st.cs, builders, poses, params, 0, 1, n),
        vels: incremented(st.vels, incs, bodies),
    };
    assert forall|c: u32| 1 <= c <= nc implies #[trigger] well_colored(start, colors, c, n) by {
        assert(well_colored(st, colors, c, n));
        assert forall|i: int, j: int|
            0 <= i < n && 0 <= j < n && i != j && colors[i] == c && colors[j] == c implies apart(
            #[trigger] start.cs[i],
            #[trigger] start.cs[j],
        ) by {
            assert(apart(st.cs[i], st.cs[j]));
        }
        assert forall|i: int| 0 <= i < n implies (#[trigger] start.cs[i]).solver_body_a
            < start.vels.len() && start.cs[i].solver_body_b < start.vels.len() by {
            assert(st.cs[i].solver_body_a < st.vels.len());
        }
    }
    fused_colors_are_the_sequence(Pass::Warmstart, start, colors, nc, threads, n);
}

// ---- solving without bias ----

/// The contacts after the bias kernel ran for the contacts below `upto`.
pub open spec fn unbiased_one_by_one<S: Scalar, D: Space<S>>(
    cs: Seq<TwoBodyModel<S, D>>,
    n: int,
    upto: int,
) -> Seq<TwoBodyModel<S, D>>
    decreases upto,
{
    if upto <= 0 {
        cs
    } else {
        let p = unbiased_one_by_one(cs, n, upto - 1);
        if upto - 1 < n {
            p.update(upto - 1, unbiased(p[upto - 1]))
        } else {
            p
        }
    }
}

proof fn lemma_unbiased<S: Scalar, D: Space<S>>(cs: Seq<TwoBodyModel<S, D>>, n: int, upto: int)
    requires
        0 <= upto,
        n <= cs.len(),
    ensures
        unbiased_one_by_one(cs, n, upto) == contacts_unbiased(
            cs,
            if upto < n {
                upto
            } else {
                n
            },
        ),
    decreases upto,
{
    let out = unbiased_one_by_one(cs, n, upto);
    if upto > 0 {
        lemma_unbiased(cs, n, upto - 1);
    }
    if upto < n {
        assert(out =~= contacts_unbiased(cs, upto));
    } else {
        assert(out =~= contacts_unbiased(cs, n));
    }
}

/// The fused solve without bias ends as the separate kernels do in sequence: the
/// removal of bias from `dispatched` contacts, and one solve per color in `threads`
/// threads, with the colors counted up from one.
pub proof fn fused_unbiased_solve_is_the_sequence<S: Scalar, D: Space<S>>(
    st: PassState<S, D>,
    dispatched: int,
    colors: Seq<u32>,
    nc: int,
    threads: int,
    n: int,
)
    requires
        0 <= n <= st.cs.len(),
        n <= dispatched,
        0 < threads,
        0 <= nc <= u32::MAX,
        forall|c: u32| 1 <= c <= nc ==> #[trigger] well_colored(st, colors, c, n),
    ensures
        color_passes(
            Pass::Solve,
            PassState { cs: contacts_unbiased(st.cs, n), vels: st.vels },
            colors,
            nc,
            n,
        ) == colors_by_threads(
            Pass::Solve,
            PassState { cs: unbiased_one_by_one(st.cs, n, dispatched), vels: st.vels },
            colors,
            nc,
            threads,
            n,
        ),
{
    lemma_unbiased(st.cs, n, dispatched);
    let start = PassState { cs: contacts_unbiased(st.cs, n), vels: st.vels };
    assert forall|c: u32| 1 <= c <= nc implies #[trigger] well_colored(start, colors, c, n) by {
        assert(well_colored(st, colors, c, n));
        assert forall|i: int, j: int|
            0 <= i < n && 0 <= j < n && i != j && colors[i] == c && colors[j] == c implies apart(
            #[trigger] start.cs[i],
            #[trigger] start.cs[j],
        ) by {
            assert(apart(st.cs[i], st.cs[j]));
        }
        assert forall|i: int| 0 <= i < n implies (#[trigger] start.cs[i]).solver_body_a
            < start.vels.len() && start.cs[i].solver_body_b < start.vels.len() by {
            assert(st.cs[i].solver_body_a < st.vels.len());
        }
    }
    fused_colors_are_the_sequence(Pass::Solve, start, colors, nc, threads, n);
}

// ---- contacts without a color ----

/// The two batches join the same bodies, and differ at contacts of the color only.
spec fn differ_at_color<S: Scalar, D: Space<S>>(
    st: PassState<S, D>,
    out: PassState<S, D>,
    colors: Seq<u32>,
    hit: spec_fn(u32) -> bool,
    n: int,
) -> bool {
    &&& out.cs.len() == st.cs.len()
    &&& out.vels.len() == st.vels.len()
    &&& forall|i: int|
        0 <= i < st.cs.len() ==> (#[trigger] out.cs[i]).solver_body_a == st.cs[i].solver_body_a
            && out.cs[i].solver_body_b == st.cs[i].solver_body_b
    &&& forall|i: int|
        0 <= i < st.cs.len() && !(i < n && hit(colors[i])) ==> #[trigger] out.cs[i] == st.cs[i]
    &&& forall|x: int|
        0 <= x < st.vels.len() && (forall|i: int|
            0 <= i < n && hit(colors[i]) ==> (#[trigger] st.cs[i]).solver_body_a != x
                && st.cs[i].solver_body_b != x) ==> #[trigger] out.vels[x] == st.vels[x]
}

/// The first `n` contacts join bodies of the batch.
pub open spec fn bodies_listed<S: Scalar, D: Space<S>>(st: PassState<S, D>, n: int) -> bool {
    &&& n <= st.cs.len()
    &&& forall|i: int|
        0 <= i < n ==> (#[trigger] st.cs[i]).solver_body_a < st.vels.len()
            && st.cs[i].solver_body_b < st.vels.len()
}

proof fn lemma_pass_frame<S: Scalar, D: Space<S>>(
    pass: Pass,
    st: PassState<S, D>,
    mid: PassState<S, D>,
    colors: Seq<u32>,
    hit: spec_fn(u32) -> bool,
    color: u32,
    list: Seq<int>,
    n: int,
)
    requires
        bodies_listed(st, n),
        differ_at_color(st, mid, colors, hit, n),
        hit(color),
        forall|k: int| 0 <= k < list.len() ==> 0 <= #[trigger] list[k] < n,
    ensures
        differ_at_color(st, color_pass(pass, mid, colors, color, list), colors, hit, n),
    decreases list.len(),
{
    if list.len() > 0 {
        let q = list.drop_last();
        assert forall|k: int| 0 <= k < q.len() implies 0 <= #[trigger] q[k] < n by {
            assert(list[k] == q[k]);
        }
        lemma_pass_frame(pass, st, mid, colors, hit, color, q, n);
        let p = color_pass(pass, mid, colors, color, q);
        let out = color_pass(pass, mid, colors, color, list);
        let i = list.last();
        assert(list[list.len() - 1] == i);
        if colors[i] == color {
            let a = st.cs[i].solver_body_a as int;
            let b = st.cs[i].solver_body_b as int;
            assert(p.cs[i].solver_body_a == a && p.cs[i].solver_body_b == b);
            assert(out == contact_done(pass, p, i));
            assert forall|x: int|
                0 <= x < st.vels.len() && (forall|j: int|
                    0 <= j < n && hit(colors[j]) ==> (#[trigger] st.cs[j]).solver_body_a != x
                        && st.cs[j].solver_body_b != x) implies #[trigger] out.vels[x]
                == st.vels[x] by {
                assert(st.cs[i].solver_body_a != x && st.cs[i].solver_body_b != x);
                assert(p.vels[x] == st.vels[x]);
            }
            assert forall|j: int| 0 <= j < st.cs.len() && !(j < n && hit(colors[j])) implies
                #[trigger] out.cs[j] == st.cs[j] by {
                assert(p.cs[j] == st.cs[j]);
            }
            assert forall|j: int| 0 <= j < st.cs.len() implies (
            #[trigger] out.cs[j]).solver_body_a == st.cs[j].solver_body_a
                && out.cs[j].solver_body_b == st.cs[j].solver_body_b by {
                assert(p.cs[j].solver_body_a == st.cs[j].solver_body_a);
            }
        }
    }
}

proof fn lemma_passes_frame<S: Scalar, D: Space<S>>(
    pass: Pass,
    st: PassState<S, D>,
    colors: Seq<u32>,
    hit: spec_fn(u32) -> bool,
    nc: int,
    n: int,
)
    requires
        0 <= nc <= u32::MAX,
        bodies_listed(st, n),
        forall|c: u32| 1 <= c <= nc ==> #[trigger] hit(c),
    ensures
        differ_at_color(st, color_passes(pass, st, colors, nc, n), colors, hit, n),
    decreases nc,
{
    if nc > 0 {
        lemma_passes_frame(pass, st, colors, hit, nc - 1, n);
        visited_items(0, 1, n);
        assert(hit(nc as u32));
        lemma_pass_frame(
            pass,
            st,
            color_passes(pass, st, colors, nc - 1, n),
            colors,
            hit,
            nc as u32,
            visited(0, 1, n),
            n,
        );
    }
}

/// Passes over the colors `1..=nc` leave alone every contact with another color or
/// past the first `n`, and every body that only such contacts join.
pub proof fn contacts_without_a_color_do_nothing<S: Scalar, D: Space<S>>(
    pass: Pass,
    st: PassState<S, D>,
    colors: Seq<u32>,
    nc: int,
    n: int,
)
    requires
        0 <= nc <= u32::MAX,
        bodies_listed(st, n),
    ensures
        ({
            let out = color_passes(pass, st, colors, nc, n);
            &&& out.cs.len() == st.cs.len()
            &&& out.vels.len() == st.vels.len()
            &&& forall|i: int|
                0 <= i < st.cs.len() && !(i < n && 1 <= colors[i] <= nc)
                    ==> #[trigger] out.cs[i] == st.cs[i]
            &&& forall|x: int|
                0 <= x < st.vels.len() && (forall|i: int|
                    0 <= i < n && 1 <= colors[i] <= nc ==> (#[trigger] st.cs[i]).solver_body_a != x
                        && st.cs[i].solver_body_b != x) ==> #[trigger] out.vels[x] == st.vels[x]
        }),
{
    let hit = |c: u32| 1 <= c <= nc;
    assert forall|c: u32| 1 <= c <= nc implies #[trigger] hit(c) by {}
    lemma_passes_frame(pass, st, colors, hit, nc, n);
    let out = color_passes(pass, st, colors, nc, n);
    assert forall|x: int|
        0 <= x < st.vels.len() && (forall|i: int|
            0 <= i < n && 1 <= colors[i] <= nc ==> (#[trigger] st.cs[i]).solver_body_a != x
                && st.cs[i].solver_body_b != x) implies #[trigger] out.vels[x] == st.vels[x] by {
        assert forall|i: int| 0 <= i < n && hit(colors[i]) implies (
        #[trigger] st.cs[i]).solver_body_a != x && st.cs[i].solver_body_b != x by {}
    }
}

} // verus!
