//! The steps of the solver around its passes.
use super::constraint::{TwoBodyConstraint, TwoBodyConstraintBuilder};
use super::passes::{contacts_of, lemma_contacts_update};
use super::step::{contacts_ok, first_contact, gathered, warmstart_body};
use super::utils::{BodyScene, built_constraint, built_infos, contact_to_constraint, manifold_ok};
use crate::batch::{
    BatchIndices, batch_of, batch_slice, batch_start, lemma_batch, same_outside_batch,
};
use crate::contact::IndexedManifold;
use crate::multibody::types::{LocalMassProperties, WorldMassProperties};
use crate::scalar::Scalar;
use crate::sim_params::RbdSimParams;
use crate::space::{Dimension, Pose, Space, Velocity};
use crate::threads::{
    lemma_next_visit, lemma_visited_first, lemma_visited_step, visits,
};
use vstd::prelude::*;

verus! {

/// Goes back to the first color. Colors start at 1.
pub fn gpu_solver_reset_color(curr_color: &mut u32)
    ensures
        *final(curr_color) == 1,
{
    *curr_color = 1;
}

/// Goes on to the next color.
pub fn gpu_solver_inc_color(curr_color: &mut u32)
    requires
        *old(curr_color) < u32::MAX,
    ensures
        *final(curr_color) == *old(curr_color) + 1,
{
    *curr_color = *curr_color + 1;
}

/// The number of contact slots of a batch that `threads` threads reach.
pub open spec fn reached(ids: BatchIndices, threads: u32) -> u32 {
    if ids.contacts_batch_capacity <= threads {
        ids.contacts_batch_capacity
    } else {
        threads
    }
}

/// The poses, velocities and masses of the bodies of batch `b`.
pub open spec fn scene_of<S: Scalar, D: Space<S>>(
    ids: BatchIndices,
    b: int,
    mprops: Seq<WorldMassProperties<S, D>>,
    collider_poses: Seq<Pose<S, D>>,
    solver_poses: Seq<Pose<S, D>>,
    vels: Seq<Velocity<S, D>>,
) -> BodyScene<S, D> {
    let cap = ids.colliders_batch_capacity as int;
    BodyScene {
        mprops: batch_of(mprops, b, cap),
        collider_poses: batch_of(collider_poses, b, cap),
        solver_poses: batch_of(solver_poses, b, cap),
        vels: batch_of(vels, b, cap),
    }
}

/// Builds the constraint of contact slot `x` of batch `b`, unless the slot is
/// empty.
pub fn gpu_solver_init_constraints<S: Scalar, D: Space<S>>(
    x: u32,
    threads: u32,
    b: u32,
    contacts: &[IndexedManifold<S, D>],
    constraints: &mut [TwoBodyConstraint<S, D>],
    constraint_builders: &mut [TwoBodyConstraintBuilder<S, D>],
    collider_world_poses: &[Pose<S, D>],
    solver_body_poses: &[Pose<S, D>],
    vels: &[Velocity<S, D>],
    mprops: &[WorldMassProperties<S, D>],
    all_params: &[RbdSimParams<S>],
    ids: &BatchIndices,
)
    requires
        x < threads,
        b < all_params@.len(),
        (b + 1) * ids.contacts_batch_capacity <= contacts@.len(),
        (b + 1) * ids.contacts_batch_capacity <= old(constraints)@.len(),
        (b + 1) * ids.contacts_batch_capacity <= old(constraint_builders)@.len(),
        (b + 1) * ids.colliders_batch_capacity <= collider_world_poses@.len(),
        (b + 1) * ids.colliders_batch_capacity <= solver_body_poses@.len(),
        (b + 1) * ids.colliders_batch_capacity <= vels@.len(),
        (b + 1) * ids.colliders_batch_capacity <= mprops@.len(),
        x < reached(*ids, threads) && contacts@[b * ids.contacts_batch_capacity + x].contact.len
            != 0 ==> manifold_ok(
            contacts@[b * ids.contacts_batch_capacity + x],
            scene_of(
                *ids,
                b as int,
                mprops@,
                collider_world_poses@,
                solver_body_poses@,
                vels@,
            ),
        ),
    ensures
        ({
            let cap = ids.contacts_batch_capacity as int;
            let sc = scene_of(
                *ids,
                b as int,
                mprops@,
                collider_world_poses@,
                solver_body_poses@,
                vels@,
            );
            let im = contacts@[b * cap + x];
            let cs = contacts_of(old(constraints)@, b as int, cap);
            let built = x < reached(*ids, threads) && im.contact.len != 0;
            &&& contacts_of(final(constraints)@, b as int, cap) == (if built {
                cs.update(
                    x as int,
                    built_constraint(im, sc, all_params@[b as int], cs[x as int]),
                )
            } else {
                cs
            })
            &&& final(constraint_builders)@.len() == old(constraint_builders)@.len()
            &&& forall|g: int|
                0 <= g < final(constraint_builders)@.len() ==> (
                #[trigger] final(constraint_builders)@[g]).infos@ == (if built && g == b * cap
                    + x {
                    built_infos(
                        im,
                        sc,
                        all_params@[b as int],
                        old(constraint_builders)@[g].infos@,
                    )
                } else {
                    old(constraint_builders)@[g].infos@
                })
        }),
        same_outside_batch(
            final(constraints)@,
            old(constraints)@,
            b as int,
            ids.contacts_batch_capacity as int,
        ),
{
    let ghost cap = ids.contacts_batch_capacity as int;
    let in_reach = x < ids.contacts_batch_capacity;
    if in_reach {
        proof {
            lemma_batch(b as int, cap, contacts@.len() as int);
            lemma_batch(b as int, cap, constraints@.len() as int);
            lemma_batch(b as int, cap, constraint_builders@.len() as int);
        }
        let n: usize = contacts.len();
        let cbase: usize = batch_start(b, ids.contacts_batch_capacity as usize, n);
        let g: usize = cbase + x as usize;
        let im = contacts[g];
        if im.contact.len != 0 {
            let mut c = constraints[g];
            let mut builder = constraint_builders[g];
            assert(c@ == contacts_of(constraints@, b as int, cap)[x as int]);
            contact_to_constraint(
                &im,
                batch_slice(mprops, b, ids.colliders_batch_capacity as usize),
                batch_slice(collider_world_poses, b, ids.colliders_batch_capacity as usize),
                batch_slice(solver_body_poses, b, ids.colliders_batch_capacity as usize),
                batch_slice(vels, b, ids.colliders_batch_capacity as usize),
                &all_params[b as usize],
                &mut c,
                &mut builder,
            );
            proof {
                lemma_contacts_update(constraints@, b as int, cap, x as int, c);
            }
            constraints[g] = c;
            constraint_builders[g] = builder;
        }
    }
}

/// Whether a body with the inverse mass `im` cannot move.
pub open spec fn is_fixed_spec<S: Scalar, D: Space<S>>(im: D::V) -> bool {
    &&& D::vget_spec(im, 0).same_spec(S::zero_spec())
    &&& D::vget_spec(im, 1).same_spec(S::zero_spec())
    &&& D::dimension_spec() == Dimension::Three ==> D::vget_spec(im, 2).same_spec(S::zero_spec())
}

pub fn is_fixed<S: Scalar, D: Space<S>>(im: D::V) -> (r: bool)
    ensures
        r == is_fixed_spec::<S, D>(im),
{
    let dim = D::dimension();
    let flat = D::vget(im, 0).same(S::zero()) && D::vget(im, 1).same(S::zero());
    match dim {
        Dimension::Two => flat,
        Dimension::Three => flat && D::vget(im, 2).same(S::zero()),
    }
}

/// The velocity that the solver starts from: zero for a body that cannot move.
pub open spec fn start_velocity<S: Scalar, D: Space<S>>(
    mprops: WorldMassProperties<S, D>,
    vel: Velocity<S, D>,
) -> Velocity<S, D> {
    if is_fixed_spec::<S, D>(mprops.inv_mass) {
        Velocity { linear: D::vzero_spec(), angular: D::azero_spec() }
    } else {
        vel
    }
}

/// Clears the contact counts and sets the solver velocities of the bodies that
/// thread `x` of `threads` visits in batch `b`.
pub fn gpu_solver_cleanup<S: Scalar, D: Space<S>>(
    x: u32,
    threads: u32,
    b: u32,
    body_constraint_counts: &mut [u32],
    solver_vels: &mut [Velocity<S, D>],
    vels: &[Velocity<S, D>],
    mprops: &[WorldMassProperties<S, D>],
    ids: &BatchIndices,
)
    requires
        threads > 0,
        ids.colliders_len <= ids.colliders_batch_capacity,
        (b + 1) * ids.colliders_batch_capacity <= old(body_constraint_counts)@.len(),
        (b + 1) * ids.colliders_batch_capacity <= old(solver_vels)@.len(),
        (b + 1) * ids.colliders_batch_capacity <= vels@.len(),
        (b + 1) * ids.colliders_batch_capacity <= mprops@.len(),
    ensures
        ({
            let base = b * ids.colliders_batch_capacity;
            let touched = |g: int|
                base <= g < base + ids.colliders_len && visits(
                    x as int,
                    threads as int,
                    g - base,
                );
            &&& final(body_constraint_counts)@ == Seq::new(
                old(body_constraint_counts)@.len(),
                |g: int|
                    if touched(g) {
                        0
                    } else {
                        old(body_constraint_counts)@[g]
                    },
            )
            &&& final(solver_vels)@ == Seq::new(
                old(solver_vels)@.len(),
                |g: int|
                    if touched(g) {
                        start_velocity(mprops@[g], vels@[g])
                    } else {
                        old(solver_vels)@[g]
                    },
            )
        }),
{
    let ghost cap = ids.colliders_batch_capacity as int;
    let ghost n0 = body_constraint_counts@;
    let ghost v0 = solver_vels@;
    let ghost xi = x as int;
    let ghost ti = threads as int;
    proof {
        lemma_batch(b as int, cap, n0.len() as int);
        lemma_batch(b as int, cap, vels@.len() as int);
        lemma_batch(b as int, cap, mprops@.len() as int);
        lemma_visited_first(xi, ti, xi);
    }
    let n: usize = solver_vels.len();
    let base: usize = batch_start(b, ids.colliders_batch_capacity as usize, n);
    let len: u32 = ids.colliders_len;
    let mut i: u64 = x as u64;
    while i < len as u64
        invariant
            threads > 0,
            xi == x,
            ti == threads,
            len == ids.colliders_len,
            len <= cap,
            base + cap <= n,
            n == v0.len(),
            base + cap <= n0.len(),
            base + cap <= vels@.len(),
            base + cap <= mprops@.len(),
            visits(xi, ti, i as int),
            i <= len + threads || i == x,
            body_constraint_counts@.len() == n0.len(),
            solver_vels@.len() == v0.len(),
            forall|g: int|
                0 <= g < n0.len() ==> #[trigger] body_constraint_counts@[g] == (if base <= g < base
                    + len && g - base < i && visits(xi, ti, g - base) {
                    0
                } else {
                    n0[g]
                }),
            forall|g: int|
                0 <= g < v0.len() ==> #[trigger] solver_vels@[g] == (if base <= g < base + len && g
                    - base < i && visits(xi, ti, g - base) {
                    start_velocity(mprops@[g], vels@[g])
                } else {
                    v0[g]
                }),
        decreases len + threads - i,
    {
        let g: usize = base + i as usize;
        body_constraint_counts[g] = 0;
        if is_fixed::<S, D>(mprops[g].inv_mass) {
            solver_vels[g] = Velocity { linear: D::vzero(), angular: D::azero() };
        } else {
            solver_vels[g] = vels[g];
        }
        proof {
            lemma_visited_step(xi, ti, i as int, i + 1);
            assert forall|q: int| i + 1 <= q < i + threads implies !visits(xi, ti, q) by {
                lemma_next_visit(xi, ti, i as int, q);
            }
        }
        i = i + threads as u64;
    }
    proof {
        let base = b * ids.colliders_batch_capacity;
        let touched = |g: int|
            base <= g < base + ids.colliders_len && visits(x as int, threads as int, g - base);
        assert(body_constraint_counts@ =~= Seq::new(
            n0.len(),
            |g: int|
                if touched(g) {
                    0
                } else {
                    n0[g]
                },
        ));
        assert(solver_vels@ =~= Seq::new(
            v0.len(),
            |g: int|
                if touched(g) {
                    start_velocity(mprops@[g], vels@[g])
                } else {
                    v0[g]
                },
        ));
    }
}

/// Gravity.
pub open spec fn gravity_spec<S: Scalar, D: Space<S>>() -> D::V {
    D::vscale_spec(D::vaxis_spec(1, S::one_spec()), S::dec_spec((-981) as i32, (-2) as i32))
}

/// What gravity adds to the velocity of a body in one step.
pub open spec fn velocity_increment<S: Scalar, D: Space<S>>(
    mprops: WorldMassProperties<S, D>,
    params: RbdSimParams<S>,
) -> Velocity<S, D> {
    Velocity {
        linear: if is_fixed_spec::<S, D>(mprops.inv_mass) {
            D::vzero_spec()
        } else {
            D::vscale_spec(gravity_spec::<S, D>(), params.dt)
        },
        angular: D::azero_spec(),
    }
}

/// Sets the velocity increment of body `i` of batch `b`.
pub fn gpu_init_solver_vels_inc<S: Scalar, D: Space<S>>(
    i: u32,
    b: u32,
    solver_vels_inc: &mut [Velocity<S, D>],
    mprops: &[WorldMassProperties<S, D>],
    all_params: &[RbdSimParams<S>],
    ids: &BatchIndices,
)
    requires
        b < all_params@.len(),
        ids.bodies_len <= ids.colliders_batch_capacity,
        (b + 1) * ids.colliders_batch_capacity <= old(solver_vels_inc)@.len(),
        (b + 1) * ids.colliders_batch_capacity <= mprops@.len(),
    ensures
        final(solver_vels_inc)@ == ({
            let g = b * ids.colliders_batch_capacity + i;
            if i < ids.bodies_len {
                old(solver_vels_inc)@.update(
                    g,
                    velocity_increment(mprops@[g], all_params@[b as int]),
                )
            } else {
                old(solver_vels_inc)@
            }
        }),
{
    if i < ids.bodies_len {
        proof {
            lemma_batch(b as int, ids.colliders_batch_capacity as int, mprops@.len() as int);
        }
        let n: usize = solver_vels_inc.len();
        let g: usize = batch_start(b, ids.colliders_batch_capacity as usize, n) + i as usize;
        let linear = if is_fixed::<S, D>(mprops[g].inv_mass) {
            D::vzero()
        } else {
            assert(1 < D::dimension_spec().lin_spec());
            let gravity = D::vscale(D::vaxis(1, S::one()), S::dec(-981, -2));
            D::vscale(gravity, all_params[b as usize].dt)
        };
        solver_vels_inc[g] = Velocity { linear: linear, angular: D::azero() };
    }
}

/// Every body of batch `b` has its contacts in the list of the batch.
pub open spec fn lists_ok<S: Scalar, D: Space<S>>(
    counts: Seq<u32>,
    list: Seq<u32>,
    cs: Seq<TwoBodyConstraint<S, D>>,
    bodies: int,
) -> bool {
    forall|i: int|
        0 <= i < bodies ==> contacts_ok(
            list,
            cs,
            #[trigger] first_contact(counts, i),
            counts[i] as int,
        )
}

/// Applies the impulses of all contacts of the bodies that thread `x` of
/// `threads` visits in batch `b`.
pub fn gpu_warmstart_without_colors<S: Scalar, D: Space<S>>(
    x: u32,
    threads: u32,
    b: u32,
    body_constraint_counts: &[u32],
    body_constraint_ids: &[u32],
    constraints: &[TwoBodyConstraint<S, D>],
    solver_vels: &mut [Velocity<S, D>],
    ids: &BatchIndices,
)
    requires
        threads > 0,
        ids.bodies_len <= ids.colliders_batch_capacity,
        (b + 1) * ids.colliders_batch_capacity <= body_constraint_counts@.len(),
        (b + 1) * (2 * ids.contacts_batch_capacity) <= body_constraint_ids@.len(),
        (b + 1) * ids.contacts_batch_capacity <= constraints@.len(),
        (b + 1) * ids.colliders_batch_capacity <= old(solver_vels)@.len(),
        lists_ok(
            batch_of(body_constraint_counts@, b as int, ids.colliders_batch_capacity as int),
            batch_of(body_constraint_ids@, b as int, 2 * ids.contacts_batch_capacity),
            batch_of(constraints@, b as int, ids.contacts_batch_capacity as int),
            ids.bodies_len as int,
        ),
    ensures
        ({
            let base = b * ids.colliders_batch_capacity;
            let counts = batch_of(
                body_constraint_counts@,
                b as int,
                ids.colliders_batch_capacity as int,
            );
            final(solver_vels)@ == Seq::new(
                old(solver_vels)@.len(),
                |g: int|
                    if base <= g < base + ids.bodies_len && visits(
                        x as int,
                        threads as int,
                        g - base,
                    ) {
                        gathered(
                            (g - base) as u32,
                            batch_of(
                                body_constraint_ids@,
                                b as int,
                                2 * ids.contacts_batch_capacity,
                            ),
                            batch_of(constraints@, b as int, ids.contacts_batch_capacity as int),
                            old(solver_vels)@[g],
                            first_contact(counts, g - base),
                            counts[g - base] as int,
                        )
                    } else {
                        old(solver_vels)@[g]
                    },
            )
        }),
{
    let ghost cap = ids.colliders_batch_capacity as int;
    let ghost v0 = solver_vels@;
    let ghost xi = x as int;
    let ghost ti = threads as int;
    proof {
        lemma_visited_first(xi, ti, xi);
        lemma_batch(b as int, cap, body_constraint_counts@.len() as int);
    }
    let n: usize = solver_vels.len();
    let base: usize = batch_start(b, ids.colliders_batch_capacity as usize, n);
    let counts = batch_slice(body_constraint_counts, b, ids.colliders_batch_capacity as usize);
    let m: usize = body_constraint_ids.len();
    proof {
        lemma_batch(b as int, 2 * ids.contacts_batch_capacity, m as int);
    }
    let list = batch_slice(body_constraint_ids, b, 2 * ids.contacts_batch_capacity as usize);
    let cs = batch_slice(constraints, b, ids.contacts_batch_capacity as usize);
    let len: u32 = ids.bodies_len;
    let mut i: u64 = x as u64;
    while i < len as u64
        invariant
            threads > 0,
            xi == x,
            ti == threads,
            len == ids.bodies_len,
            len <= cap,
            base + cap <= n,
            n == v0.len(),
            counts@.len() == cap,
            lists_ok(counts@, list@, cs@, len as int),
            visits(xi, ti, i as int),
            i <= len + threads || i == x,
            solver_vels@.len() == v0.len(),
            forall|g: int|
                0 <= g < v0.len() ==> #[trigger] solver_vels@[g] == (if base <= g < base + len && g
                    - base < i && visits(xi, ti, g - base) {
                    gathered(
                        (g - base) as u32,
                        list@,
                        cs@,
                        v0[g],
                        first_contact(counts@, g - base),
                        counts@[g - base] as int,
                    )
                } else {
                    v0[g]
                }),
        decreases len + threads - i,
    {
        let g: usize = base + i as usize;
        let mut v = solver_vels[g];
        assert(contacts_ok(
            list@,
            cs@,
            first_contact(counts@, i as int),
            counts@[i as int] as int,
        ));
        warmstart_body(i as u32, counts, list, cs, &mut v);
        solver_vels[g] = v;
        proof {
            lemma_visited_step(xi, ti, i as int, i + 1);
            assert forall|q: int| i + 1 <= q < i + threads implies !visits(xi, ti, q) by {
                lemma_next_visit(xi, ti, i as int, q);
            }
        }
        i = i + threads as u64;
    }
    assert(solver_vels@ =~= Seq::new(
        v0.len(),
        |g: int|
            if base <= g < base + ids.bodies_len && visits(x as int, threads as int, g - base) {
                gathered(
                    (g - base) as u32,
                    list@,
                    cs@,
                    v0[g],
                    first_contact(counts@, g - base),
                    counts@[g - base] as int,
                )
            } else {
                v0[g]
            },
    ));
}

/// Moves body `i` of batch `b` at its velocity for one step.
pub fn gpu_integrate_linearized<S: Scalar, D: Space<S>>(
    i: u32,
    b: u32,
    poses: &mut [Pose<S, D>],
    solver_vels: &[Velocity<S, D>],
    all_params: &[RbdSimParams<S>],
    ids: &BatchIndices,
)
    requires
        b < all_params@.len(),
        ids.bodies_len <= ids.colliders_batch_capacity,
        (b + 1) * ids.colliders_batch_capacity <= old(poses)@.len(),
        (b + 1) * ids.colliders_batch_capacity <= solver_vels@.len(),
    ensures
        final(poses)@ == ({
            let g = b * ids.colliders_batch_capacity + i;
            if i < ids.bodies_len {
                old(poses)@.update(
                    g,
                    solver_vels@[g].integrate_linearized_spec(
                        all_params@[b as int].dt,
                        old(poses)@[g],
                    ),
                )
            } else {
                old(poses)@
            }
        }),
{
    if i < ids.bodies_len {
        proof {
            lemma_batch(b as int, ids.colliders_batch_capacity as int, solver_vels@.len() as int);
        }
        let n: usize = poses.len();
        let g: usize = batch_start(b, ids.colliders_batch_capacity as usize, n) + i as usize;
        let mut pose = poses[g];
        let dt = all_params[b as usize].dt;
        solver_vels[g].integrate_linearized(dt, &mut pose.translation, &mut pose.rotation);
        poses[g] = pose;
    }
}

/// Sets the solver pose of body `i` of batch `b`, which is centred at the centre
/// of mass.
pub fn gpu_init_solver_bodies<S: Scalar, D: Space<S>>(
    i: u32,
    b: u32,
    body_poses: &[Pose<S, D>],
    local_mprops: &[LocalMassProperties<S, D>],
    solver_body_poses: &mut [Pose<S, D>],
    ids: &BatchIndices,
)
    requires
        ids.bodies_len <= ids.colliders_batch_capacity,
        (b + 1) * ids.colliders_batch_capacity <= body_poses@.len(),
        (b + 1) * ids.colliders_batch_capacity <= local_mprops@.len(),
        (b + 1) * ids.colliders_batch_capacity <= old(solver_body_poses)@.len(),
    ensures
        final(solver_body_poses)@ == ({
            let g = b * ids.colliders_batch_capacity + i;
            if i < ids.bodies_len {
                old(solver_body_poses)@.update(
                    g,
                    body_poses@[g].prepend_translation_spec(local_mprops@[g].com),
                )
            } else {
                old(solver_body_poses)@
            }
        }),
{
    if i < ids.bodies_len {
        proof {
            lemma_batch(b as int, ids.colliders_batch_capacity as int, body_poses@.len() as int);
            lemma_batch(b as int, ids.colliders_batch_capacity as int, local_mprops@.len() as int);
        }
        let n: usize = solver_body_poses.len();
        let g: usize = batch_start(b, ids.colliders_batch_capacity as usize, n) + i as usize;
        solver_body_poses[g] = body_poses[g].prepend_translation(local_mprops[g].com);
    }
}

/// Writes the solver velocity and pose of body `i` of batch `b` back to the
/// body.
pub fn gpu_solver_finalize<S: Scalar, D: Space<S>>(
    i: u32,
    b: u32,
    vels: &mut [Velocity<S, D>],
    solver_vels: &[Velocity<S, D>],
    body_poses: &mut [Pose<S, D>],
    solver_body_poses: &[Pose<S, D>],
    local_mprops: &[LocalMassProperties<S, D>],
    ids: &BatchIndices,
)
    requires
        ids.bodies_len <= ids.colliders_batch_capacity,
        (b + 1) * ids.colliders_batch_capacity <= old(vels)@.len(),
        (b + 1) * ids.colliders_batch_capacity <= solver_vels@.len(),
        (b + 1) * ids.colliders_batch_capacity <= old(body_poses)@.len(),
        (b + 1) * ids.colliders_batch_capacity <= solver_body_poses@.len(),
        (b + 1) * ids.colliders_batch_capacity <= local_mprops@.len(),
    ensures
        ({
            let g = b * ids.colliders_batch_capacity + i;
            &&& final(vels)@ == (if i < ids.bodies_len {
                old(vels)@.update(g, solver_vels@[g])
            } else {
                old(vels)@
            })
            &&& final(body_poses)@ == (if i < ids.bodies_len {
                old(body_poses)@.update(
                    g,
                    solver_body_poses@[g].prepend_translation_spec(
                        D::vneg_spec(local_mprops@[g].com),
                    ),
                )
            } else {
                old(body_poses)@
            })
        }),
{
    if i < ids.bodies_len {
        let ghost cap = ids.colliders_batch_capacity as int;
        proof {
            lemma_batch(b as int, cap, solver_vels@.len() as int);
            lemma_batch(b as int, cap, body_poses@.len() as int);
            lemma_batch(b as int, cap, solver_body_poses@.len() as int);
            lemma_batch(b as int, cap, local_mprops@.len() as int);
        }
        let n: usize = vels.len();
        let g: usize = batch_start(b, ids.colliders_batch_capacity as usize, n) + i as usize;
        vels[g] = solver_vels[g];
        body_poses[g] = solver_body_poses[g].prepend_translation(D::vneg(local_mprops[g].com));
    }
}

} // verus!
