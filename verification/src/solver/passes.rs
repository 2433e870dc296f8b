//! Passes over the contacts of a batch, one color after the other.
use super::constraint::{TwoBodyConstraint, TwoBodyConstraintBuilder, TwoBodyModel};
use super::step::{
    refreshed, remove_cfm_and_bias, solve_constraint_gauss_seidel, solved, solved_constraint,
    unbiased, update_constraint, warmed, warmstart_constraint,
};
use crate::batch::{
    BatchIndices, batch_of, batch_slice, batch_start, lemma_batch, same_outside_batch,
};
use crate::scalar::Scalar;
use crate::sim_params::RbdSimParams;
use crate::space::{Pose, Space, Velocity};
use crate::threads::{lemma_visited_first, lemma_visited_step, visited, visits};
use vstd::prelude::*;

verus! {

/// The contacts and the body velocities of one batch.
#[verifier::ext_equal]
pub struct PassState<S: Scalar, D: Space<S>> {
    pub cs: Seq<TwoBodyModel<S, D>>,
    pub vels: Seq<Velocity<S, D>>,
}

/// What a pass does at a contact.
pub enum Pass {
    /// Applies the impulses that it has.
    Warmstart,
    /// Solves it once.
    Solve,
}

/// The batch after contact `i`.
pub open spec fn contact_done<S: Scalar, D: Space<S>>(
    pass: Pass,
    st: PassState<S, D>,
    i: int,
) -> PassState<S, D> {
    let c = st.cs[i];
    let a = c.solver_body_a as int;
    let b = c.solver_body_b as int;
    match pass {
        Pass::Warmstart => PassState {
            cs: st.cs,
            vels: st.vels.update(a, warmed(c, true, st.vels[a], c.len as int)).update(
                b,
                warmed(c, false, st.vels[b], c.len as int),
            ),
        },
        Pass::Solve => {
            let s = solved(c, st.vels[a], st.vels[b], c.len as int);
            PassState {
                cs: st.cs.update(i, solved_constraint(c, st.vels[a], st.vels[b])),
                vels: st.vels.update(a, s.v1).update(b, s.v2),
            }
        },
    }
}

/// The batch after the contacts of one color, in the order of `list`.
pub open spec fn color_pass<S: Scalar, D: Space<S>>(
    pass: Pass,
    st: PassState<S, D>,
    colors: Seq<u32>,
    color: u32,
    list: Seq<int>,
) -> PassState<S, D>
    decreases list.len(),
{
    if list.len() == 0 {
        st
    } else {
        let p = color_pass(pass, st, colors, color, list.drop_last());
        if colors[list.last()] == color {
            contact_done(pass, p, list.last())
        } else {
            p
        }
    }
}

/// The batch after all contacts of the colors `1..=nc`, color by color.
pub open spec fn color_passes<S: Scalar, D: Space<S>>(
    pass: Pass,
    st: PassState<S, D>,
    colors: Seq<u32>,
    nc: int,
    n: int,
) -> PassState<S, D>
    decreases nc,
{
    if nc <= 0 {
        st
    } else {
        color_pass(
            pass,
            color_passes(pass, st, colors, nc - 1, n),
            colors,
            nc as u32,
            visited(0, 1, n),
        )
    }
}

/// The contacts of batch `b`.
pub open spec fn contacts_of<S: Scalar, D: Space<S>>(
    buf: Seq<TwoBodyConstraint<S, D>>,
    b: int,
    cap: int,
) -> Seq<TwoBodyModel<S, D>> {
    Seq::new(cap as nat, |i: int| buf[b * cap + i]@)
}

pub proof fn lemma_contacts_update<S: Scalar, D: Space<S>>(
    buf: Seq<TwoBodyConstraint<S, D>>,
    b: int,
    cap: int,
    i: int,
    c: TwoBodyConstraint<S, D>,
)
    requires
        0 <= b * cap,
        b * cap + cap <= buf.len(),
        0 <= i < cap,
    ensures
        contacts_of(buf.update(b * cap + i, c), b, cap) == contacts_of(buf, b, cap).update(i, c@),
{
    assert(contacts_of(buf.update(b * cap + i, c), b, cap) =~= contacts_of(buf, b, cap).update(
        i,
        c@,
    ));
}

/// The contacts and the body velocities of batch `b`.
pub open spec fn batch_state<S: Scalar, D: Space<S>>(
    ids: BatchIndices,
    b: int,
    cs: Seq<TwoBodyConstraint<S, D>>,
    vels: Seq<Velocity<S, D>>,
) -> PassState<S, D> {
    PassState {
        cs: contacts_of(cs, b, ids.contacts_batch_capacity as int),
        vels: batch_of(vels, b, ids.colliders_batch_capacity as int),
    }
}

/// The number of contacts of batch `b`: emitters count past the capacity.
pub open spec fn contact_count_spec(ids: BatchIndices, contacts_len: Seq<u32>, b: int) -> int {
    if contacts_len[b] <= ids.contacts_batch_capacity {
        contacts_len[b] as int
    } else {
        ids.contacts_batch_capacity as int
    }
}

pub fn contact_count(ids: &BatchIndices, contacts_len: &[u32], b: u32) -> (r: u32)
    requires
        b < contacts_len@.len(),
    ensures
        r == contact_count_spec(*ids, contacts_len@, b as int),
        r <= ids.contacts_batch_capacity,
{
    let n: u32 = contacts_len[b as usize];
    if n <= ids.contacts_batch_capacity {
        n
    } else {
        ids.contacts_batch_capacity
    }
}

/// The first `n` contacts join bodies among the first `bodies`.
pub open spec fn contacts_wf<S: Scalar, D: Space<S>>(
    cs: Seq<TwoBodyModel<S, D>>,
    bodies: int,
    n: int,
) -> bool {
    &&& n <= cs.len()
    &&& forall|i: int|
        0 <= i < n ==> (#[trigger] cs[i]).len <= 4 && cs[i].solver_body_a < bodies
            && cs[i].solver_body_b < bodies && cs[i].elements.len() == 4
}

proof fn lemma_done_wf<S: Scalar, D: Space<S>>(
    pass: Pass,
    st: PassState<S, D>,
    i: int,
    bodies: int,
    n: int,
)
    requires
        contacts_wf(st.cs, bodies, n),
        0 <= i < n,
    ensures
        contacts_wf(contact_done(pass, st, i).cs, bodies, n),
        contact_done(pass, st, i).cs.len() == st.cs.len(),
{
    let c = st.cs[i];
    super::step::lemma_solved_elements(
        c,
        st.vels[c.solver_body_a as int],
        st.vels[c.solver_body_b as int],
        c.len as int,
    );
}

/// Applies the impulses of one contact of a batch.
fn warm_contact<S: Scalar, D: Space<S>>(
    i: u32,
    b: u32,
    constraints: &[TwoBodyConstraint<S, D>],
    vels: &mut [Velocity<S, D>],
    ids: &BatchIndices,
)
    requires
        i < ids.contacts_batch_capacity,
        (b + 1) * ids.contacts_batch_capacity <= constraints@.len(),
        (b + 1) * ids.colliders_batch_capacity <= old(vels)@.len(),
        contacts_wf(
            batch_state(*ids, b as int, constraints@, old(vels)@).cs,
            ids.colliders_batch_capacity as int,
            i + 1,
        ),
    ensures
        batch_state(*ids, b as int, constraints@, final(vels)@) == contact_done(
            Pass::Warmstart,
            batch_state(*ids, b as int, constraints@, old(vels)@),
            i as int,
        ),
        same_outside_batch(
            final(vels)@,
            old(vels)@,
            b as int,
            ids.colliders_batch_capacity as int,
        ),
{
    let ghost st0 = batch_state(*ids, b as int, constraints@, vels@);
    let nc: usize = constraints.len();
    let nv: usize = vels.len();
    let cbase: usize = batch_start(b, ids.contacts_batch_capacity as usize, nc);
    let vbase: usize = batch_start(b, ids.colliders_batch_capacity as usize, nv);
    let g: usize = cbase + i as usize;
    let c = constraints[g];
    assert(c@ == st0.cs[i as int]);
    let ia: usize = vbase + c.solver_body_a as usize;
    let ib: usize = vbase + c.solver_body_b as usize;
    let mut va = vels[ia];
    let mut vb = vels[ib];
    assert(va == st0.vels[c.solver_body_a as int]);
    assert(vb == st0.vels[c.solver_body_b as int]);
    warmstart_constraint(&c, &mut va, &mut vb);
    vels[ia] = va;
    vels[ib] = vb;
    let ghost st1 = contact_done(
        Pass::Warmstart,
        st0,
        i as int,
    );
    assert(batch_state(*ids, b as int, constraints@, vels@).cs =~= st1.cs);
    assert(batch_state(*ids, b as int, constraints@, vels@).vels =~= st1.vels);
}

/// Applies the impulses of the contacts of one color that thread `x` of `threads` visits.
fn warm_color<S: Scalar, D: Space<S>>(
    x: u32,
    threads: u32,
    b: u32,
    len: u32,
    constraints: &[TwoBodyConstraint<S, D>],
    vels: &mut [Velocity<S, D>],
    colors: &[u32],
    color: u32,
    ids: &BatchIndices,
)
    requires
        threads > 0,
        len <= ids.contacts_batch_capacity,
        (b + 1) * ids.contacts_batch_capacity <= constraints@.len(),
        (b + 1) * ids.contacts_batch_capacity <= colors@.len(),
        (b + 1) * ids.colliders_batch_capacity <= old(vels)@.len(),
        contacts_wf(
            batch_state(*ids, b as int, constraints@, old(vels)@).cs,
            ids.colliders_batch_capacity as int,
            len as int,
        ),
    ensures
        ({
            let st = batch_state(*ids, b as int, constraints@, old(vels)@);
            batch_state(*ids, b as int, constraints@, final(vels)@) == color_pass(
                Pass::Warmstart,
                st,
                batch_of(colors@, b as int, ids.contacts_batch_capacity as int),
                color,
                visited(x as int, threads as int, len as int),
            )
        }),
        contacts_wf(
            batch_state(*ids, b as int, constraints@, final(vels)@).cs,
            ids.colliders_batch_capacity as int,
            len as int,
        ),
        same_outside_batch(
            final(vels)@,
            old(vels)@,
            b as int,
            ids.colliders_batch_capacity as int,
        ),
{
    let ghost st0 = batch_state(*ids, b as int, constraints@, vels@);
    let ghost v0 = vels@;
    let ghost cc = batch_of(colors@, b as int, ids.contacts_batch_capacity as int);
    let ghost xi = x as int;
    let ghost ti = threads as int;
    let n: usize = colors.len();
    let cbase: usize = batch_start(b, ids.contacts_batch_capacity as usize, n);
    let mut i: u64 = x as u64;
    proof {
        lemma_visited_first(xi, ti, xi);
        lemma_visited_first(
            xi,
            ti,
            if xi <= len {
                xi
            } else {
                len as int
            },
        );
    }
    while i < len as u64
        invariant
            threads > 0,
            xi == x,
            ti == threads,
            n == colors@.len(),
            len <= ids.contacts_batch_capacity,
            cbase == b * ids.contacts_batch_capacity,
            cbase + ids.contacts_batch_capacity <= n,
            (b + 1) * ids.contacts_batch_capacity <= constraints@.len(),
            (b + 1) * ids.colliders_batch_capacity <= vels@.len(),
            cc == batch_of(colors@, b as int, ids.contacts_batch_capacity as int),
            visits(xi, ti, i as int),
            i <= len + threads || i == x,
            contacts_wf(
                batch_state(*ids, b as int, constraints@, vels@).cs,
                ids.colliders_batch_capacity as int,
                len as int,
            ),
            batch_state(*ids, b as int, constraints@, vels@) == color_pass(
                Pass::Warmstart,
                st0,
                cc,
                color,
                visited(
                    xi,
                    ti,
                    if i <= len {
                        i as int
                    } else {
                        len as int
                    },
                ),
            ),
            same_outside_batch(vels@, v0, b as int, ids.colliders_batch_capacity as int),
        decreases len + threads - i,
    {
        let ghost list = visited(xi, ti, i as int);
        let ghost st = batch_state(*ids, b as int, constraints@, vels@);
        let ghost next: int = if i + threads <= len {
            (i + threads) as int
        } else {
            len as int
        };
        let k: usize = cbase + i as usize;
        assert(colors@[k as int] == cc[i as int]);
        if colors[k] == color {
            proof {
                lemma_done_wf(
                    Pass::Warmstart,
                    st,
                    i as int,
                    ids.colliders_batch_capacity as int,
                    len as int,
                );
            }
            warm_contact(i as u32, b, constraints, vels, ids);
        }
        proof {
            lemma_visited_step(xi, ti, i as int, next);
            assert(list.push(i as int).drop_last() =~= list);
        }
        i = i + threads as u64;
    }
}

/// Solves one contact of a batch.
fn run_contact<S: Scalar, D: Space<S>>(
    i: u32,
    b: u32,
    constraints: &mut [TwoBodyConstraint<S, D>],
    vels: &mut [Velocity<S, D>],
    ids: &BatchIndices,
)
    requires
        i < ids.contacts_batch_capacity,
        (b + 1) * ids.contacts_batch_capacity <= old(constraints)@.len(),
        (b + 1) * ids.colliders_batch_capacity <= old(vels)@.len(),
        contacts_wf(
            batch_state(*ids, b as int, old(constraints)@, old(vels)@).cs,
            ids.colliders_batch_capacity as int,
            i + 1,
        ),
    ensures
        batch_state(*ids, b as int, final(constraints)@, final(vels)@) == contact_done(
            Pass::Solve,
            batch_state(*ids, b as int, old(constraints)@, old(vels)@),
            i as int,
        ),
        same_outside_batch(
            final(constraints)@,
            old(constraints)@,
            b as int,
            ids.contacts_batch_capacity as int,
        ),
        same_outside_batch(
            final(vels)@,
            old(vels)@,
            b as int,
            ids.colliders_batch_capacity as int,
        ),
{
    let ghost st0 = batch_state(*ids, b as int, constraints@, vels@);
    let nc: usize = constraints.len();
    let nv: usize = vels.len();
    let cbase: usize = batch_start(b, ids.contacts_batch_capacity as usize, nc);
    let vbase: usize = batch_start(b, ids.colliders_batch_capacity as usize, nv);
    let g: usize = cbase + i as usize;
    let mut c = constraints[g];
    assert(c@ == st0.cs[i as int]);
    let ia: usize = vbase + c.solver_body_a as usize;
    let ib: usize = vbase + c.solver_body_b as usize;
    let mut va = vels[ia];
    let mut vb = vels[ib];
    assert(va == st0.vels[c.solver_body_a as int]);
    assert(vb == st0.vels[c.solver_body_b as int]);
    solve_constraint_gauss_seidel(&mut c, &mut va, &mut vb);
    constraints[g] = c;
    vels[ia] = va;
    vels[ib] = vb;
    let ghost st1 = contact_done(
        Pass::Solve,
        st0,
        i as int,
    );
    assert(batch_state(*ids, b as int, constraints@, vels@).cs =~= st1.cs);
    assert(batch_state(*ids, b as int, constraints@, vels@).vels =~= st1.vels);
}

/// Solves the contacts of one color that thread `x` of `threads` visits.
fn run_color<S: Scalar, D: Space<S>>(
    x: u32,
    threads: u32,
    b: u32,
    len: u32,
    constraints: &mut [TwoBodyConstraint<S, D>],
    vels: &mut [Velocity<S, D>],
    colors: &[u32],
    color: u32,
    ids: &BatchIndices,
)
    requires
        threads > 0,
        len <= ids.contacts_batch_capacity,
        (b + 1) * ids.contacts_batch_capacity <= old(constraints)@.len(),
        (b + 1) * ids.contacts_batch_capacity <= colors@.len(),
        (b + 1) * ids.colliders_batch_capacity <= old(vels)@.len(),
        contacts_wf(
            batch_state(*ids, b as int, old(constraints)@, old(vels)@).cs,
            ids.colliders_batch_capacity as int,
            len as int,
        ),
    ensures
        ({
            let st = batch_state(*ids, b as int, old(constraints)@, old(vels)@);
            batch_state(*ids, b as int, final(constraints)@, final(vels)@) == color_pass(
                Pass::Solve,
                st,
                batch_of(colors@, b as int, ids.contacts_batch_capacity as int),
                color,
                visited(x as int, threads as int, len as int),
            )
        }),
        contacts_wf(
            batch_state(*ids, b as int, final(constraints)@, final(vels)@).cs,
            ids.colliders_batch_capacity as int,
            len as int,
        ),
        same_outside_batch(
            final(constraints)@,
            old(constraints)@,
            b as int,
            ids.contacts_batch_capacity as int,
        ),
        same_outside_batch(
            final(vels)@,
            old(vels)@,
            b as int,
            ids.colliders_batch_capacity as int,
        ),
{
    let ghost st0 = batch_state(*ids, b as int, constraints@, vels@);
    let ghost c0 = constraints@;
    let ghost v0 = vels@;
    let ghost cc = batch_of(colors@, b as int, ids.contacts_batch_capacity as int);
    let ghost xi = x as int;
    let ghost ti = threads as int;
    let n: usize = colors.len();
    let cbase: usize = batch_start(b, ids.contacts_batch_capacity as usize, n);
    let mut i: u64 = x as u64;
    proof {
        lemma_visited_first(xi, ti, xi);
        lemma_visited_first(
            xi,
            ti,
            if xi <= len {
                xi
            } else {
                len as int
            },
        );
    }
    while i < len as u64
        invariant
            threads > 0,
            xi == x,
            ti == threads,
            n == colors@.len(),
            len <= ids.contacts_batch_capacity,
            cbase == b * ids.contacts_batch_capacity,
            cbase + ids.contacts_batch_capacity <= n,
            (b + 1) * ids.contacts_batch_capacity <= constraints@.len(),
            (b + 1) * ids.colliders_batch_capacity <= vels@.len(),
            cc == batch_of(colors@, b as int, ids.contacts_batch_capacity as int),
            visits(xi, ti, i as int),
            i <= len + threads || i == x,
            contacts_wf(
                batch_state(*ids, b as int, constraints@, vels@).cs,
                ids.colliders_batch_capacity as int,
                len as int,
            ),
            batch_state(*ids, b as int, constraints@, vels@) == color_pass(
                Pass::Solve,
                st0,
                cc,
                color,
                visited(
                    xi,
                    ti,
                    if i <= len {
                        i as int
                    } else {
                        len as int
                    },
                ),
            ),
            same_outside_batch(
                constraints@,
                c0,
                b as int,
                ids.contacts_batch_capacity as int,
            ),
            same_outside_batch(vels@, v0, b as int, ids.colliders_batch_capacity as int),
        decreases len + threads - i,
    {
        let ghost list = visited(xi, ti, i as int);
        let ghost st = batch_state(*ids, b as int, constraints@, vels@);
        let ghost next: int = if i + threads <= len {
            (i + threads) as int
        } else {
            len as int
        };
        let k: usize = cbase + i as usize;
        assert(colors@[k as int] == cc[i as int]);
        if colors[k] == color {
            proof {
                lemma_done_wf(
                    Pass::Solve,
                    st,
                    i as int,
                    ids.colliders_batch_capacity as int,
                    len as int,
                );
            }
            run_contact(i as u32, b, constraints, vels, ids);
        }
        proof {
            lemma_visited_step(xi, ti, i as int, next);
            assert(list.push(i as int).drop_last() =~= list);
        }
        i = i + threads as u64;
    }
}

/// What a pass over the contacts of batch `b` reads and writes fits its buffers.
pub open spec fn pass_fits<S: Scalar, D: Space<S>>(
    ids: BatchIndices,
    b: int,
    cs: Seq<TwoBodyConstraint<S, D>>,
    vels: Seq<Velocity<S, D>>,
    colors: Seq<u32>,
    contacts_len: Seq<u32>,
) -> bool {
    &&& b < contacts_len.len()
    &&& (b + 1) * ids.contacts_batch_capacity <= cs.len()
    &&& (b + 1) * ids.contacts_batch_capacity <= colors.len()
    &&& (b + 1) * ids.colliders_batch_capacity <= vels.len()
    &&& contacts_wf(
        batch_state(ids, b, cs, vels).cs,
        ids.colliders_batch_capacity as int,
        contact_count_spec(ids, contacts_len, b),
    )
}

/// Applies the impulses of the contacts of the current color that thread `x` of
/// `threads` visits in batch `b`.
pub fn gpu_warmstart<S: Scalar, D: Space<S>>(
    x: u32,
    threads: u32,
    b: u32,
    constraints: &[TwoBodyConstraint<S, D>],
    solver_vels: &mut [Velocity<S, D>],
    constraints_colors: &[u32],
    contacts_len: &[u32],
    curr_color: u32,
    ids: &BatchIndices,
)
    requires
        threads > 0,
        pass_fits(
            *ids,
            b as int,
            constraints@,
            old(solver_vels)@,
            constraints_colors@,
            contacts_len@,
        ),
    ensures
        batch_state(*ids, b as int, constraints@, final(solver_vels)@) == color_pass(
            Pass::Warmstart,
            batch_state(*ids, b as int, constraints@, old(solver_vels)@),
            batch_of(constraints_colors@, b as int, ids.contacts_batch_capacity as int),
            curr_color,
            visited(
                x as int,
                threads as int,
                contact_count_spec(*ids, contacts_len@, b as int),
            ),
        ),
        same_outside_batch(
            final(solver_vels)@,
            old(solver_vels)@,
            b as int,
            ids.colliders_batch_capacity as int,
        ),
{
    let len: u32 = contact_count(ids, contacts_len, b);
    warm_color(
        x,
        threads,
        b,
        len,
        constraints,
        solver_vels,
        constraints_colors,
        curr_color,
        ids,
    );
}

/// Solves once the contacts of the current color that thread `x` of `threads`
/// visits in batch `b`.
pub fn gpu_step_gauss_seidel<S: Scalar, D: Space<S>>(
    x: u32,
    threads: u32,
    b: u32,
    constraints: &mut [TwoBodyConstraint<S, D>],
    solver_vels: &mut [Velocity<S, D>],
    constraints_colors: &[u32],
    contacts_len: &[u32],
    curr_color: u32,
    ids: &BatchIndices,
)
    requires
        threads > 0,
        pass_fits(
            *ids,
            b as int,
            old(constraints)@,
            old(solver_vels)@,
            constraints_colors@,
            contacts_len@,
        ),
    ensures
        batch_state(*ids, b as int, final(constraints)@, final(solver_vels)@) == color_pass(
            Pass::Solve,
            batch_state(*ids, b as int, old(constraints)@, old(solver_vels)@),
            batch_of(constraints_colors@, b as int, ids.contacts_batch_capacity as int),
            curr_color,
            visited(
                x as int,
                threads as int,
                contact_count_spec(*ids, contacts_len@, b as int),
            ),
        ),
        same_outside_batch(
            final(constraints)@,
            old(constraints)@,
            b as int,
            ids.contacts_batch_capacity as int,
        ),
        same_outside_batch(
            final(solver_vels)@,
            old(solver_vels)@,
            b as int,
            ids.colliders_batch_capacity as int,
        ),
{
    let len: u32 = contact_count(ids, contacts_len, b);
    run_color(
        x,
        threads,
        b,
        len,
        constraints,
        solver_vels,
        constraints_colors,
        curr_color,
        ids,
    );
}

/// Runs all colors of a batch, one after the other.
fn run_colors<S: Scalar, D: Space<S>>(
    solve: bool,
    b: u32,
    len: u32,
    constraints: &mut [TwoBodyConstraint<S, D>],
    solver_vels: &mut [Velocity<S, D>],
    colors: &[u32],
    num_colors: u32,
    ids: &BatchIndices,
)
    requires
        len <= ids.contacts_batch_capacity,
        (b + 1) * ids.contacts_batch_capacity <= old(constraints)@.len(),
        (b + 1) * ids.contacts_batch_capacity <= colors@.len(),
        (b + 1) * ids.colliders_batch_capacity <= old(solver_vels)@.len(),
        contacts_wf(
            batch_state(*ids, b as int, old(constraints)@, old(solver_vels)@).cs,
            ids.colliders_batch_capacity as int,
            len as int,
        ),
    ensures
        ({
            let pass = if solve {
                Pass::Solve
            } else {
                Pass::Warmstart
            };
            batch_state(*ids, b as int, final(constraints)@, final(solver_vels)@) == color_passes(
                pass,
                batch_state(*ids, b as int, old(constraints)@, old(solver_vels)@),
                batch_of(colors@, b as int, ids.contacts_batch_capacity as int),
                num_colors as int,
                len as int,
            )
        }),
        same_outside_batch(
            final(constraints)@,
            old(constraints)@,
            b as int,
            ids.contacts_batch_capacity as int,
        ),
        same_outside_batch(
            final(solver_vels)@,
            old(solver_vels)@,
            b as int,
            ids.colliders_batch_capacity as int,
        ),
{
    let ghost st0 = batch_state(*ids, b as int, constraints@, solver_vels@);
    let ghost c0 = constraints@;
    let ghost v0 = solver_vels@;
    let ghost cc = batch_of(colors@, b as int, ids.contacts_batch_capacity as int);
    let ghost pass = if solve {
        Pass::Solve
    } else {
        Pass::Warmstart
    };
    let mut color: u32 = 0;
    while color < num_colors
        invariant
            color <= num_colors,
            len <= ids.contacts_batch_capacity,
            (b + 1) * ids.contacts_batch_capacity <= constraints@.len(),
            (b + 1) * ids.contacts_batch_capacity <= colors@.len(),
            (b + 1) * ids.colliders_batch_capacity <= solver_vels@.len(),
            cc == batch_of(colors@, b as int, ids.contacts_batch_capacity as int),
            pass == (if solve {
                Pass::Solve
            } else {
                Pass::Warmstart
            }),
            contacts_wf(
                batch_state(*ids, b as int, constraints@, solver_vels@).cs,
                ids.colliders_batch_capacity as int,
                len as int,
            ),
            batch_state(*ids, b as int, constraints@, solver_vels@) == color_passes(
                pass,
                st0,
                cc,
                color as int,
                len as int,
            ),
            same_outside_batch(constraints@, c0, b as int, ids.contacts_batch_capacity as int),
            same_outside_batch(solver_vels@, v0, b as int, ids.colliders_batch_capacity as int),
        decreases num_colors - color,
    {
        color = color + 1;
        if solve {
            run_color(0, 1, b, len, constraints, solver_vels, colors, color, ids);
        } else {
            warm_color(0, 1, b, len, constraints, solver_vels, colors, color, ids);
        }
    }
}

/// Solves once all contacts of batch `b`, color by color.
pub fn gpu_step_gauss_seidel_fused<S: Scalar, D: Space<S>>(
    b: u32,
    constraints: &mut [TwoBodyConstraint<S, D>],
    solver_vels: &mut [Velocity<S, D>],
    constraints_colors: &[u32],
    contacts_len: &[u32],
    num_colors: u32,
    ids: &BatchIndices,
)
    requires
        pass_fits(
            *ids,
            b as int,
            old(constraints)@,
            old(solver_vels)@,
            constraints_colors@,
            contacts_len@,
        ),
    ensures
        batch_state(*ids, b as int, final(constraints)@, final(solver_vels)@) == color_passes(
            Pass::Solve,
            batch_state(*ids, b as int, old(constraints)@, old(solver_vels)@),
            batch_of(constraints_colors@, b as int, ids.contacts_batch_capacity as int),
            num_colors as int,
            contact_count_spec(*ids, contacts_len@, b as int),
        ),
        same_outside_batch(
            final(constraints)@,
            old(constraints)@,
            b as int,
            ids.contacts_batch_capacity as int,
        ),
        same_outside_batch(
            final(solver_vels)@,
            old(solver_vels)@,
            b as int,
            ids.colliders_batch_capacity as int,
        ),
{
    let len: u32 = contact_count(ids, contacts_len, b);
    run_colors(true, b, len, constraints, solver_vels, constraints_colors, num_colors, ids);
}

// ---- contact by contact ----

/// The contacts of a batch, of which those that thread `x` of `threads` visits
/// among the first `n` are refreshed for a new substep.
pub open spec fn contacts_refreshed<S: Scalar, D: Space<S>>(
    cs: Seq<TwoBodyModel<S, D>>,
    builders: Seq<TwoBodyConstraintBuilder<S, D>>,
    poses: Seq<Pose<S, D>>,
    params: RbdSimParams<S>,
    x: int,
    threads: int,
    n: int,
) -> Seq<TwoBodyModel<S, D>> {
    Seq::new(
        cs.len(),
        |i: int|
            if i < n && visits(x, threads, i) {
                refreshed(cs[i], builders[i].infos@, poses, params)
            } else {
                cs[i]
            },
    )
}

/// The contacts of a batch, the first `n` without compliance and bias.
pub open spec fn contacts_unbiased<S: Scalar, D: Space<S>>(
    cs: Seq<TwoBodyModel<S, D>>,
    n: int,
) -> Seq<TwoBodyModel<S, D>> {
    Seq::new(
        cs.len(),
        |i: int|
            if i < n {
                unbiased(cs[i])
            } else {
                cs[i]
            },
    )
}

fn refresh_contacts<S: Scalar, D: Space<S>>(
    x: u32,
    threads: u32,
    b: u32,
    len: u32,
    constraints: &mut [TwoBodyConstraint<S, D>],
    builders: &[TwoBodyConstraintBuilder<S, D>],
    poses: &[Pose<S, D>],
    params: &RbdSimParams<S>,
    ids: &BatchIndices,
)
    requires
        threads > 0,
        len <= ids.contacts_batch_capacity,
        (b + 1) * ids.contacts_batch_capacity <= old(constraints)@.len(),
        (b + 1) * ids.contacts_batch_capacity <= builders@.len(),
        (b + 1) * ids.colliders_batch_capacity <= poses@.len(),
        contacts_wf(
            contacts_of(old(constraints)@, b as int, ids.contacts_batch_capacity as int),
            ids.colliders_batch_capacity as int,
            len as int,
        ),
    ensures
        contacts_of(final(constraints)@, b as int, ids.contacts_batch_capacity as int)
            == contacts_refreshed(
            contacts_of(old(constraints)@, b as int, ids.contacts_batch_capacity as int),
            batch_of(builders@, b as int, ids.contacts_batch_capacity as int),
            batch_of(poses@, b as int, ids.colliders_batch_capacity as int),
            *params,
            x as int,
            threads as int,
            len as int,
        ),
        same_outside_batch(
            final(constraints)@,
            old(constraints)@,
            b as int,
            ids.contacts_batch_capacity as int,
        ),
{
    let ghost cap = ids.contacts_batch_capacity as int;
    let ghost bi = b as int;
    let ghost c0 = constraints@;
    let ghost cs0 = contacts_of(c0, bi, cap);
    let ghost bs = batch_of(builders@, bi, cap);
    let ghost ps = batch_of(poses@, bi, ids.colliders_batch_capacity as int);
    let ghost xi = x as int;
    let ghost ti = threads as int;
    proof {
        lemma_batch(bi, cap, builders@.len() as int);
        lemma_batch(bi, ids.colliders_batch_capacity as int, poses@.len() as int);
    }
    let n: usize = constraints.len();
    let cbase: usize = batch_start(b, ids.contacts_batch_capacity as usize, n);
    let local_poses = batch_slice(poses, b, ids.colliders_batch_capacity as usize);
    let mut i: u64 = x as u64;
    proof {
        lemma_visited_first(xi, ti, xi);
    }
    while i < len as u64
        invariant
            threads > 0,
            xi == x,
            ti == threads,
            bi == b,
            n == c0.len(),
            n == constraints@.len(),
            cap == ids.contacts_batch_capacity,
            len <= cap,
            cbase == bi * cap,
            cbase + ids.contacts_batch_capacity <= n,
            cbase + ids.contacts_batch_capacity <= builders@.len(),
            cs0 == contacts_of(c0, bi, cap),
            bs == batch_of(builders@, bi, cap),
            ps == batch_of(poses@, bi, ids.colliders_batch_capacity as int),
            ps.len() == ids.colliders_batch_capacity,
            local_poses@ == ps,
            contacts_wf(cs0, ids.colliders_batch_capacity as int, len as int),
            visits(xi, ti, i as int),
            i <= len + threads || i == x,
            contacts_of(constraints@, bi, cap) == contacts_refreshed(
                cs0,
                bs,
                ps,
                *params,
                xi,
                ti,
                if i <= len {
                    i as int
                } else {
                    len as int
                },
            ),
            same_outside_batch(constraints@, c0, bi, cap),
        decreases len + threads - i,
    {
        let g: usize = cbase + i as usize;
        let ghost before = contacts_of(constraints@, bi, cap);
        let ghost next: int = if i + threads <= len {
            (i + threads) as int
        } else {
            len as int
        };
        let mut c = constraints[g];
        assert(c@ == before[i as int]);
        assert(before[i as int] == cs0[i as int]);
        let builder = builders[g];
        assert(builder == bs[i as int]);
        update_constraint(&mut c, &builder, local_poses, params);
        proof {
            lemma_contacts_update(constraints@, bi, cap, i as int, c);
        }
        constraints[g] = c;
        proof {
            lemma_visited_step(xi, ti, i as int, next);
            assert forall|q: int| i + 1 <= q < next implies !visits(xi, ti, q) by {
                crate::threads::lemma_next_visit(xi, ti, i as int, q);
            }
            assert(contacts_of(constraints@, bi, cap) =~= contacts_refreshed(
                cs0,
                bs,
                ps,
                *params,
                xi,
                ti,
                next,
            ));
        }
        i = i + threads as u64;
    }
    assert(contacts_of(constraints@, bi, cap) =~= contacts_refreshed(
        cs0,
        bs,
        ps,
        *params,
        xi,
        ti,
        len as int,
    ));
}

fn unbias_contacts<S: Scalar, D: Space<S>>(
    b: u32,
    len: u32,
    constraints: &mut [TwoBodyConstraint<S, D>],
    ids: &BatchIndices,
)
    requires
        len <= ids.contacts_batch_capacity,
        (b + 1) * ids.contacts_batch_capacity <= old(constraints)@.len(),
    ensures
        contacts_of(final(constraints)@, b as int, ids.contacts_batch_capacity as int)
            == contacts_unbiased(
            contacts_of(old(constraints)@, b as int, ids.contacts_batch_capacity as int),
            len as int,
        ),
        same_outside_batch(
            final(constraints)@,
            old(constraints)@,
            b as int,
            ids.contacts_batch_capacity as int,
        ),
{
    let ghost cap = ids.contacts_batch_capacity as int;
    let ghost bi = b as int;
    let ghost c0 = constraints@;
    let ghost cs0 = contacts_of(c0, bi, cap);
    let n: usize = constraints.len();
    let cbase: usize = batch_start(b, ids.contacts_batch_capacity as usize, n);
    let mut i: u32 = 0;
    assert(contacts_of(constraints@, bi, cap) =~= contacts_unbiased(cs0, 0));
    while i < len
        invariant
            i <= len,
            bi == b,
            n == c0.len(),
            n == constraints@.len(),
            cap == ids.contacts_batch_capacity,
            len <= cap,
            cbase == bi * cap,
            cbase + ids.contacts_batch_capacity <= n,
            cs0 == contacts_of(c0, bi, cap),
            contacts_of(constraints@, bi, cap) == contacts_unbiased(cs0, i as int),
            same_outside_batch(constraints@, c0, bi, cap),
        decreases len - i,
    {
        let g: usize = cbase + i as usize;
        let ghost before = contacts_of(constraints@, bi, cap);
        let mut c = constraints[g];
        assert(c@ == before[i as int]);
        assert(before[i as int] == cs0[i as int]);
        remove_cfm_and_bias(&mut c);
        proof {
            lemma_contacts_update(constraints@, bi, cap, i as int, c);
        }
        constraints[g] = c;
        i = i + 1;
        assert(contacts_of(constraints@, bi, cap) =~= contacts_unbiased(cs0, i as int));
    }
}

/// Updates for a new substep the contacts that thread `x` of `threads` visits in
/// batch `b`.
pub fn gpu_solver_update_constraints<S: Scalar, D: Space<S>>(
    x: u32,
    threads: u32,
    b: u32,
    constraints: &mut [TwoBodyConstraint<S, D>],
    constraint_builders: &[TwoBodyConstraintBuilder<S, D>],
    contacts_len: &[u32],
    solver_body_poses: &[Pose<S, D>],
    all_params: &[RbdSimParams<S>],
    ids: &BatchIndices,
)
    requires
        threads > 0,
        b < contacts_len@.len(),
        b < all_params@.len(),
        (b + 1) * ids.contacts_batch_capacity <= old(constraints)@.len(),
        (b + 1) * ids.contacts_batch_capacity <= constraint_builders@.len(),
        (b + 1) * ids.colliders_batch_capacity <= solver_body_poses@.len(),
        contacts_wf(
            contacts_of(old(constraints)@, b as int, ids.contacts_batch_capacity as int),
            ids.colliders_batch_capacity as int,
            contact_count_spec(*ids, contacts_len@, b as int),
        ),
    ensures
        contacts_of(final(constraints)@, b as int, ids.contacts_batch_capacity as int)
            == contacts_refreshed(
            contacts_of(old(constraints)@, b as int, ids.contacts_batch_capacity as int),
            batch_of(constraint_builders@, b as int, ids.contacts_batch_capacity as int),
            batch_of(solver_body_poses@, b as int, ids.colliders_batch_capacity as int),
            all_params@[b as int],
            x as int,
            threads as int,
            contact_count_spec(*ids, contacts_len@, b as int),
        ),
        same_outside_batch(
            final(constraints)@,
            old(constraints)@,
            b as int,
            ids.contacts_batch_capacity as int,
        ),
{
    let len: u32 = contact_count(ids, contacts_len, b);
    refresh_contacts(
        x,
        threads,
        b,
        len,
        constraints,
        constraint_builders,
        solver_body_poses,
        &all_params[b as usize],
        ids,
    );
}

/// Removes compliance and bias from contact `i` of batch `b`.
pub fn gpu_remove_cfm_and_bias_kernel<S: Scalar, D: Space<S>>(
    i: u32,
    b: u32,
    constraints: &mut [TwoBodyConstraint<S, D>],
    contacts_len: &[u32],
    ids: &BatchIndices,
)
    requires
        b < contacts_len@.len(),
        (b + 1) * ids.contacts_batch_capacity <= old(constraints)@.len(),
    ensures
        contacts_of(final(constraints)@, b as int, ids.contacts_batch_capacity as int) == ({
            let cs = contacts_of(old(constraints)@, b as int, ids.contacts_batch_capacity as int);
            if i < contact_count_spec(*ids, contacts_len@, b as int) {
                cs.update(i as int, unbiased(cs[i as int]))
            } else {
                cs
            }
        }),
        same_outside_batch(
            final(constraints)@,
            old(constraints)@,
            b as int,
            ids.contacts_batch_capacity as int,
        ),
{
    let ghost cap = ids.contacts_batch_capacity as int;
    let ghost cs = contacts_of(constraints@, b as int, cap);
    let len: u32 = contact_count(ids, contacts_len, b);
    if i < len {
        let n: usize = constraints.len();
        let cbase: usize = batch_start(b, ids.contacts_batch_capacity as usize, n);
        let g: usize = cbase + i as usize;
        let mut c = constraints[g];
        assert(c@ == cs[i as int]);
        remove_cfm_and_bias(&mut c);
        constraints[g] = c;
        assert(contacts_of(constraints@, b as int, cap) =~= cs.update(
            i as int,
            unbiased(cs[i as int]),
        ));
    }
}

/// Solves once, without compliance and bias, all contacts of batch `b`, color by
/// color.
pub fn gpu_step_gauss_seidel_fused_no_bias<S: Scalar, D: Space<S>>(
    b: u32,
    constraints: &mut [TwoBodyConstraint<S, D>],
    solver_vels: &mut [Velocity<S, D>],
    constraints_colors: &[u32],
    contacts_len: &[u32],
    num_colors: u32,
    ids: &BatchIndices,
)
    requires
        pass_fits(
            *ids,
            b as int,
            old(constraints)@,
            old(solver_vels)@,
            constraints_colors@,
            contacts_len@,
        ),
    ensures
        ({
            let st = batch_state(*ids, b as int, old(constraints)@, old(solver_vels)@);
            let n = contact_count_spec(*ids, contacts_len@, b as int);
            batch_state(*ids, b as int, final(constraints)@, final(solver_vels)@) == color_passes(
                Pass::Solve,
                PassState { cs: contacts_unbiased(st.cs, n), vels: st.vels },
                batch_of(constraints_colors@, b as int, ids.contacts_batch_capacity as int),
                num_colors as int,
                n,
            )
        }),
        same_outside_batch(
            final(constraints)@,
            old(constraints)@,
            b as int,
            ids.contacts_batch_capacity as int,
        ),
        same_outside_batch(
            final(solver_vels)@,
            old(solver_vels)@,
            b as int,
            ids.colliders_batch_capacity as int,
        ),
{
    let len: u32 = contact_count(ids, contacts_len, b);
    unbias_contacts(b, len, constraints, ids);
    run_colors(true, b, len, constraints, solver_vels, constraints_colors, num_colors, ids);
}

/// The velocities of a batch with the increments of the first `n` bodies added.
pub open spec fn incremented<S: Scalar, D: Space<S>>(
    vels: Seq<Velocity<S, D>>,
    incs: Seq<Velocity<S, D>>,
    n: int,
) -> Seq<Velocity<S, D>> {
    Seq::new(
        vels.len(),
        |i: int|
            if i < n {
                Velocity {
                    linear: D::vadd_spec(vels[i].linear, incs[i].linear),
                    angular: D::aadd_spec(vels[i].angular, incs[i].angular),
                }
            } else {
                vels[i]
            },
    )
}

fn increment<S: Scalar, D: Space<S>>(
    i: u32,
    b: u32,
    solver_vels: &mut [Velocity<S, D>],
    solver_vels_inc: &[Velocity<S, D>],
    ids: &BatchIndices,
)
    requires
        i < ids.colliders_batch_capacity,
        (b + 1) * ids.colliders_batch_capacity <= old(solver_vels)@.len(),
        (b + 1) * ids.colliders_batch_capacity <= solver_vels_inc@.len(),
    ensures
        ({
            let vels = batch_of(old(solver_vels)@, b as int, ids.colliders_batch_capacity as int);
            let incs = batch_of(solver_vels_inc@, b as int, ids.colliders_batch_capacity as int);
            batch_of(final(solver_vels)@, b as int, ids.colliders_batch_capacity as int)
                == vels.update(
                i as int,
                Velocity {
                    linear: D::vadd_spec(vels[i as int].linear, incs[i as int].linear),
                    angular: D::aadd_spec(vels[i as int].angular, incs[i as int].angular),
                },
            )
        }),
        same_outside_batch(
            final(solver_vels)@,
            old(solver_vels)@,
            b as int,
            ids.colliders_batch_capacity as int,
        ),
{
    let ghost cap = ids.colliders_batch_capacity as int;
    let ghost vels = batch_of(solver_vels@, b as int, cap);
    let ghost incs = batch_of(solver_vels_inc@, b as int, cap);
    proof {
        lemma_batch(b as int, cap, solver_vels_inc@.len() as int);
    }
    let n: usize = solver_vels.len();
    let g: usize = batch_start(b, ids.colliders_batch_capacity as usize, n) + i as usize;
    let v = solver_vels[g];
    let inc = solver_vels_inc[g];
    assert(v == vels[i as int] && inc == incs[i as int]);
    solver_vels[g] = Velocity {
        linear: D::vadd(v.linear, inc.linear),
        angular: D::aadd(v.angular, inc.angular),
    };
    assert(batch_of(solver_vels@, b as int, cap) =~= vels.update(
        i as int,
        Velocity {
            linear: D::vadd_spec(vels[i as int].linear, incs[i as int].linear),
            angular: D::aadd_spec(vels[i as int].angular, incs[i as int].angular),
        },
    ));
}

/// Adds the increment of body `i` of batch `b` to its velocity.
pub fn gpu_apply_solver_vels_inc<S: Scalar, D: Space<S>>(
    i: u32,
    b: u32,
    solver_vels: &mut [Velocity<S, D>],
    solver_vels_inc: &[Velocity<S, D>],
    ids: &BatchIndices,
)
    requires
        ids.bodies_len <= ids.colliders_batch_capacity,
        (b + 1) * ids.colliders_batch_capacity <= old(solver_vels)@.len(),
        (b + 1) * ids.colliders_batch_capacity <= solver_vels_inc@.len(),
    ensures
        ({
            let vels = batch_of(old(solver_vels)@, b as int, ids.colliders_batch_capacity as int);
            let incs = batch_of(solver_vels_inc@, b as int, ids.colliders_batch_capacity as int);
            batch_of(final(solver_vels)@, b as int, ids.colliders_batch_capacity as int) == (if i
                < ids.bodies_len {
                vels.update(
                    i as int,
                    Velocity {
                        linear: D::vadd_spec(vels[i as int].linear, incs[i as int].linear),
                        angular: D::aadd_spec(vels[i as int].angular, incs[i as int].angular),
                    },
                )
            } else {
                vels
            })
        }),
        same_outside_batch(
            final(solver_vels)@,
            old(solver_vels)@,
            b as int,
            ids.colliders_batch_capacity as int,
        ),
{
    if i < ids.bodies_len {
        increment(i, b, solver_vels, solver_vels_inc, ids);
    }
}

/// Bodies per batch up to which the fused passes are meant to be used; larger
/// batches run color by color.
pub const FUSED_SOLVE_MAX_BODIES: usize = 64;

/// Number of bodies of a batch that the fused start of a substep increments: those
/// that can move, among the bodies of the batch.
pub open spec fn moved_bodies(ids: BatchIndices) -> u32 {
    if ids.bodies_len <= ids.colliders_len {
        ids.bodies_len
    } else {
        ids.colliders_len
    }
}

/// Starts a substep of batch `b`: adds the velocity increments, updates the
/// contacts, and applies their impulses color by color.
pub fn gpu_warmstart_fused<S: Scalar, D: Space<S>>(
    b: u32,
    constraints: &mut [TwoBodyConstraint<S, D>],
    solver_vels: &mut [Velocity<S, D>],
    constraints_colors: &[u32],
    contacts_len: &[u32],
    num_colors: u32,
    ids: &BatchIndices,
    solver_vels_inc: &[Velocity<S, D>],
    constraint_builders: &[TwoBodyConstraintBuilder<S, D>],
    solver_body_poses: &[Pose<S, D>],
    all_params: &[RbdSimParams<S>],
)
    requires
        pass_fits(
            *ids,
            b as int,
            old(constraints)@,
            old(solver_vels)@,
            constraints_colors@,
            contacts_len@,
        ),
        b < all_params@.len(),
        ids.colliders_len <= ids.colliders_batch_capacity,
        (b + 1) * ids.colliders_batch_capacity <= solver_vels_inc@.len(),
        (b + 1) * ids.contacts_batch_capacity <= constraint_builders@.len(),
        (b + 1) * ids.colliders_batch_capacity <= solver_body_poses@.len(),
    ensures
        ({
            let st = batch_state(*ids, b as int, old(constraints)@, old(solver_vels)@);
            let n = contact_count_spec(*ids, contacts_len@, b as int);
            batch_state(*ids, b as int, final(constraints)@, final(solver_vels)@) == color_passes(
                Pass::Warmstart,
                PassState {
                    cs: contacts_refreshed(
                        st.cs,
                        batch_of(
                            constraint_builders@,
                            b as int,
                            ids.contacts_batch_capacity as int,
                        ),
                        batch_of(
                            solver_body_poses@,
                            b as int,
                            ids.colliders_batch_capacity as int,
                        ),
                        all_params@[b as int],
                        0,
                        1,
                        n,
                    ),
                    vels: incremented(
                        st.vels,
                        batch_of(solver_vels_inc@, b as int, ids.colliders_batch_capacity as int),
                        moved_bodies(*ids) as int,
                    ),
                },
                batch_of(constraints_colors@, b as int, ids.contacts_batch_capacity as int),
                num_colors as int,
                n,
            )
        }),
        same_outside_batch(
            final(constraints)@,
            old(constraints)@,
            b as int,
            ids.contacts_batch_capacity as int,
        ),
        same_outside_batch(
            final(solver_vels)@,
            old(solver_vels)@,
            b as int,
            ids.colliders_batch_capacity as int,
        ),
{
    let ghost cap = ids.colliders_batch_capacity as int;
    let ghost v0 = solver_vels@;
    let ghost vels = batch_of(v0, b as int, cap);
    let ghost incs = batch_of(solver_vels_inc@, b as int, cap);
    let len: u32 = contact_count(ids, contacts_len, b);
    let bodies: u32 = if ids.bodies_len <= ids.colliders_len {
        ids.bodies_len
    } else {
        ids.colliders_len
    };
    let mut i: u32 = 0;
    proof {
        lemma_batch(b as int, cap, v0.len() as int);
    }
    assert(vels =~= incremented(vels, incs, 0));
    while i < bodies
        invariant
            i <= bodies,
            bodies <= ids.colliders_batch_capacity,
            cap == ids.colliders_batch_capacity,
            (b + 1) * ids.colliders_batch_capacity <= solver_vels@.len(),
            (b + 1) * ids.colliders_batch_capacity <= solver_vels_inc@.len(),
            vels.len() == cap,
            incs == batch_of(solver_vels_inc@, b as int, cap),
            batch_of(solver_vels@, b as int, cap) == incremented(vels, incs, i as int),
            same_outside_batch(solver_vels@, v0, b as int, cap),
        decreases bodies - i,
    {
        increment(i, b, solver_vels, solver_vels_inc, ids);
        i = i + 1;
        assert(batch_of(solver_vels@, b as int, cap) =~= incremented(vels, incs, i as int));
    }
    refresh_contacts(
        0,
        1,
        b,
        len,
        constraints,
        constraint_builders,
        solver_body_poses,
        &all_params[b as usize],
        ids,
    );
    run_colors(false, b, len, constraints, solver_vels, constraints_colors, num_colors, ids);
}

} // verus!
