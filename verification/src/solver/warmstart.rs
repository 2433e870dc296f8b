//! Carrying impulses over from one frame to the next.
//!
//! A contact that persists starts from the impulses of the frame before. Points
//! are matched by proximity in the frames of their bodies.
use super::constraint::{
    ConstraintRow, TwoBodyConstraint, TwoBodyConstraintBuilder, TwoBodyConstraintElement,
    TwoBodyConstraintInfo, TwoBodyModel,
};
use super::passes::{contacts_of, lemma_contacts_update};
use super::step::first_contact;
use crate::batch::{batch_of, batch_slice, batch_start, lemma_batch, same_outside_batch};
use crate::scalar::Scalar;
use crate::space::{Dimension, Space};
use vstd::prelude::*;

verus! {

/// The contacts of a frame, and the list of each body's contacts.
pub struct Frame<S: Scalar, D: Space<S>> {
    /// For each body, the end of its range in `ids`.
    pub counts: Seq<u32>,
    pub ids: Seq<u32>,
    pub cs: Seq<TwoBodyConstraint<S, D>>,
    pub builders: Seq<TwoBodyConstraintBuilder<S, D>>,
}

/// The square of the distance below which two points match.
pub open spec fn match_distance_squared<S: Scalar>() -> S {
    S::dec_spec(1, (-1) as i32).times_spec(S::dec_spec(1, (-1) as i32))
}

/// Whether two contact points match: they are near on both bodies.
pub open spec fn points_match<S: Scalar, D: Space<S>>(
    old_info: TwoBodyConstraintInfo<S, D>,
    new_info: TwoBodyConstraintInfo<S, D>,
) -> bool {
    let da = D::vsub_spec(old_info.local_pt_a, new_info.local_pt_a);
    let db = D::vsub_spec(old_info.local_pt_b, new_info.local_pt_b);
    &&& D::vdot_spec(da, da).lt_spec(match_distance_squared())
    &&& D::vdot_spec(db, db).lt_spec(match_distance_squared())
}

fn match_points<S: Scalar, D: Space<S>>(
    old_info: &TwoBodyConstraintInfo<S, D>,
    new_info: &TwoBodyConstraintInfo<S, D>,
) -> (r: bool)
    ensures
        r == points_match(*old_info, *new_info),
{
    let dist = S::dec(1, -1);
    let sq = dist.times(dist);
    let da = D::vsub(old_info.local_pt_a, new_info.local_pt_a);
    let db = D::vsub(old_info.local_pt_b, new_info.local_pt_b);
    D::vdot(da, da).lt(sq) && D::vdot(db, db).lt(sq)
}

/// The first of the points `from..n` of an old contact that matches a new point.
pub open spec fn first_match<S: Scalar, D: Space<S>>(
    old_infos: Seq<TwoBodyConstraintInfo<S, D>>,
    new_info: TwoBodyConstraintInfo<S, D>,
    from: int,
    n: int,
) -> Option<int>
    decreases n - from,
{
    if from >= n {
        None
    } else if points_match(old_infos[from], new_info) {
        Some(from)
    } else {
        first_match(old_infos, new_info, from + 1, n)
    }
}

/// An element with the impulses of `e`.
pub open spec fn with_impulses_of<S: Scalar, D: Space<S>>(
    new_e: TwoBodyConstraintElement<S, D>,
    e: TwoBodyConstraintElement<S, D>,
) -> TwoBodyConstraintElement<S, D> {
    TwoBodyConstraintElement {
        normal_part: ConstraintRow { impulse: e.normal_part.impulse, ..new_e.normal_part },
        tangent0: ConstraintRow { impulse: e.tangent0.impulse, ..new_e.tangent0 },
        tangent1: match D::dimension_spec() {
            Dimension::Two => new_e.tangent1,
            Dimension::Three => ConstraintRow { impulse: e.tangent1.impulse, ..new_e.tangent1 },
        },
        ..new_e
    }
}

/// A new contact with the impulses of the matching points of an old contact.
pub open spec fn impulses_transferred<S: Scalar, D: Space<S>>(
    c: TwoBodyModel<S, D>,
    infos: Seq<TwoBodyConstraintInfo<S, D>>,
    old_c: TwoBodyModel<S, D>,
    old_infos: Seq<TwoBodyConstraintInfo<S, D>>,
) -> TwoBodyModel<S, D> {
    TwoBodyModel {
        elements: Seq::new(
            c.elements.len(),
            |k: int|
                if k < c.len {
                    match first_match(old_infos, infos[k], 0, old_c.len as int) {
                        Some(j) => with_impulses_of(c.elements[k], old_c.elements[j]),
                        None => c.elements[k],
                    }
                } else {
                    c.elements[k]
                },
        ),
        ..c
    }
}

/// The list to search for the pair of bodies `a`, `b`: the shorter of their two
/// lists that is not empty. A body that cannot move has an empty list.
pub open spec fn searched_range(counts: Seq<u32>, a: int, b: int) -> (int, int) {
    let len_a = counts[a] - first_contact(counts, a);
    let len_b = counts[b] - first_contact(counts, b);
    if len_a != 0 && (len_b == 0 || len_a < len_b) {
        (first_contact(counts, a), counts[a] as int)
    } else {
        (first_contact(counts, b), counts[b] as int)
    }
}

/// The first contact of the entries `from..to` of the list that joins `a` and
/// `b`.
pub open spec fn old_contact<S: Scalar, D: Space<S>>(
    f: Frame<S, D>,
    a: u32,
    b: u32,
    from: int,
    to: int,
) -> Option<int>
    decreases to - from,
{
    if from >= to {
        None
    } else {
        let cid = f.ids[from] as int;
        if f.cs[cid].solver_body_a == a && f.cs[cid].solver_body_b == b {
            Some(cid)
        } else {
            old_contact(f, a, b, from + 1, to)
        }
    }
}

/// A new contact with the impulses that it takes over from the frame before.
pub open spec fn warmstarted<S: Scalar, D: Space<S>>(
    f: Frame<S, D>,
    c: TwoBodyModel<S, D>,
    infos: Seq<TwoBodyConstraintInfo<S, D>>,
) -> TwoBodyModel<S, D> {
    let r = searched_range(f.counts, c.solver_body_a as int, c.solver_body_b as int);
    match old_contact(f, c.solver_body_a, c.solver_body_b, r.0, r.1) {
        Some(cid) => impulses_transferred(c, infos, f.cs[cid]@, f.builders[cid].infos@),
        None => c,
    }
}

/// The list of body `a` is in order, and its contacts exist.
pub open spec fn list_ok<S: Scalar, D: Space<S>>(f: Frame<S, D>, a: int) -> bool {
    &&& a < f.counts.len()
    &&& first_contact(f.counts, a) <= f.counts[a] <= f.ids.len()
    &&& forall|j: int|
        first_contact(f.counts, a) <= j < f.counts[a] ==> (#[trigger] f.ids[j]) < f.cs.len()
            && f.ids[j] < f.builders.len() && f.cs[f.ids[j] as int].len <= 4
}

/// What the transfer into contact `c` reads of the frame before exists.
pub open spec fn transfer_ok<S: Scalar, D: Space<S>>(
    f: Frame<S, D>,
    c: TwoBodyModel<S, D>,
) -> bool {
    &&& c.len <= 4
    &&& list_ok(f, c.solver_body_a as int)
    &&& list_ok(f, c.solver_body_b as int)
}

fn first_of(counts: &[u32], body: u32) -> (r: usize)
    requires
        body < counts@.len(),
    ensures
        r == first_contact(counts@, body as int),
{
    if body != 0 {
        counts[body as usize - 1] as usize
    } else {
        0
    }
}

fn find_match<S: Scalar, D: Space<S>>(
    old_infos: &[TwoBodyConstraintInfo<S, D>; 4],
    new_info: &TwoBodyConstraintInfo<S, D>,
    n: usize,
) -> (r: Option<usize>)
    requires
        n <= 4,
    ensures
        match r {
            Some(k) => first_match(old_infos@, *new_info, 0, n as int) == Some(k as int) && k < n,
            None => first_match(old_infos@, *new_info, 0, n as int) is None,
        },
{
    let mut k: usize = 0;
    while k < n
        invariant
            k <= n,
            n <= 4,
            first_match(old_infos@, *new_info, 0, n as int) == first_match(
                old_infos@,
                *new_info,
                k as int,
                n as int,
            ),
        decreases n - k,
    {
        if match_points(&old_infos[k], new_info) {
            return Some(k);
        }
        k = k + 1;
    }
    None
}

fn copy_impulses<S: Scalar, D: Space<S>>(
    c: &mut TwoBodyConstraint<S, D>,
    builder: &TwoBodyConstraintBuilder<S, D>,
    old_c: &TwoBodyConstraint<S, D>,
    old_builder: &TwoBodyConstraintBuilder<S, D>,
)
    requires
        old(c).len <= 4,
        old_c.len <= 4,
    ensures
        final(c)@ == impulses_transferred(
            old(c)@,
            builder.infos@,
            old_c@,
            old_builder.infos@,
        ),
{
    let ghost c0 = c@;
    let ghost goal = impulses_transferred(c0, builder.infos@, old_c@, old_builder.infos@);
    let len: usize = c.len as usize;
    let mut k: usize = 0;
    while k < len
        invariant
            len == c0.len,
            len <= 4,
            k <= len,
            old_c.len <= 4,
            goal == impulses_transferred(c0, builder.infos@, old_c@, old_builder.infos@),
            c0.elements.len() == 4,
            c.elements@.len() == 4,
            c@ == (TwoBodyModel { elements: c.elements@, ..c0 }),
            forall|i: int|
                0 <= i < 4 ==> #[trigger] c.elements@[i] == (if i < k {
                    goal.elements[i]
                } else {
                    c0.elements[i]
                }),
        decreases len - k,
    {
        let found = find_match(&old_builder.infos, &builder.infos[k], old_c.len as usize);
        match found {
            Some(j) => {
                let o = old_c.elements[j];
                let mut e = c.elements[k];
                assert(e == c0.elements[k as int]);
                e.normal_part.impulse = o.normal_part.impulse;
                e.tangent0.impulse = o.tangent0.impulse;
                match D::dimension() {
                    Dimension::Two => {},
                    Dimension::Three => {
                        e.tangent1.impulse = o.tangent1.impulse;
                    },
                }
                assert(o == old_c@.elements[j as int]);
                assert(e == with_impulses_of(c0.elements[k as int], o));
                c.elements[k] = e;
            },
            None => {},
        }
        k = k + 1;
    }
    assert(c.elements@ =~= goal.elements);
}

fn transfer_into<S: Scalar, D: Space<S>>(
    c: &mut TwoBodyConstraint<S, D>,
    builder: &TwoBodyConstraintBuilder<S, D>,
    old_counts: &[u32],
    old_ids: &[u32],
    old_constraints: &[TwoBodyConstraint<S, D>],
    old_builders: &[TwoBodyConstraintBuilder<S, D>],
)
    requires
        transfer_ok(
            Frame {
                counts: old_counts@,
                ids: old_ids@,
                cs: old_constraints@,
                builders: old_builders@,
            },
            old(c)@,
        ),
    ensures
        final(c)@ == warmstarted(
            Frame {
                counts: old_counts@,
                ids: old_ids@,
                cs: old_constraints@,
                builders: old_builders@,
            },
            old(c)@,
            builder.infos@,
        ),
{
    let ghost f = Frame {
        counts: old_counts@,
        ids: old_ids@,
        cs: old_constraints@,
        builders: old_builders@,
    };
    let ghost c0 = c@;
    let a: u32 = c.solver_body_a;
    let b: u32 = c.solver_body_b;
    let first_a: usize = first_of(old_counts, a);
    let last_a: usize = old_counts[a as usize] as usize;
    let first_b: usize = first_of(old_counts, b);
    let last_b: usize = old_counts[b as usize] as usize;
    let len_a: usize = last_a - first_a;
    let len_b: usize = last_b - first_b;
    let use_a = len_a != 0 && (len_b == 0 || len_a < len_b);
    let first: usize = if use_a {
        first_a
    } else {
        first_b
    };
    let last: usize = if use_a {
        last_a
    } else {
        last_b
    };
    let ghost r = searched_range(f.counts, a as int, b as int);
    let mut j: usize = first;
    while j < last
        invariant
            first <= j <= last,
            f == (Frame {
                counts: old_counts@,
                ids: old_ids@,
                cs: old_constraints@,
                builders: old_builders@,
            }),
            c@ == c0,
            c0 == old(c)@,
            a == c0.solver_body_a,
            b == c0.solver_body_b,
            c0.len <= 4,
            last <= f.ids.len(),
            r == (first as int, last as int),
            forall|i: int|
                first <= i < last ==> (#[trigger] f.ids[i]) < f.cs.len() && f.ids[i]
                    < f.builders.len() && f.cs[f.ids[i] as int].len <= 4,
            r == searched_range(f.counts, a as int, b as int),
            old_contact(f, a, b, r.0, r.1) == old_contact(f, a, b, j as int, r.1),
        decreases last - j,
    {
        let cid: usize = old_ids[j] as usize;
        assert(f.ids[j as int] == cid);
        let o = old_constraints[cid];
        if o.solver_body_a == a && o.solver_body_b == b {
            let ob = old_builders[cid];
            copy_impulses(c, builder, &o, &ob);
            return ;
        }
        j = j + 1;
    }
}

/// Carries the impulses of the frame before over to new contact `cid_new`. The
/// slices start at the first entry of the batch; `old_body_constraint_counts`
/// holds, for each body, the end of its range in `old_body_constraint_ids`.
///
/// Bodies have the same indices in both frames, and the two bodies of a contact
/// come in the same order.
pub fn transfer_warmstart_impulses<S: Scalar, D: Space<S>>(
    cid_new: u32,
    old_body_constraint_counts: &[u32],
    old_body_constraint_ids: &[u32],
    old_constraints: &[TwoBodyConstraint<S, D>],
    old_constraint_builders: &[TwoBodyConstraintBuilder<S, D>],
    new_constraints: &mut [TwoBodyConstraint<S, D>],
    new_constraint_builders: &[TwoBodyConstraintBuilder<S, D>],
)
    requires
        cid_new < old(new_constraints)@.len(),
        cid_new < new_constraint_builders@.len(),
        transfer_ok(
            Frame {
                counts: old_body_constraint_counts@,
                ids: old_body_constraint_ids@,
                cs: old_constraints@,
                builders: old_constraint_builders@,
            },
            old(new_constraints)@[cid_new as int]@,
        ),
    ensures
        final(new_constraints)@.len() == old(new_constraints)@.len(),
        forall|i: int|
            0 <= i < final(new_constraints)@.len() ==> (#[trigger] final(new_constraints)@[i])@
                == (if i == cid_new {
                warmstarted(
                    Frame {
                        counts: old_body_constraint_counts@,
                        ids: old_body_constraint_ids@,
                        cs: old_constraints@,
                        builders: old_constraint_builders@,
                    },
                    old(new_constraints)@[i]@,
                    new_constraint_builders@[i].infos@,
                )
            } else {
                old(new_constraints)@[i]@
            }),
{
    let i: usize = cid_new as usize;
    let mut c = new_constraints[i];
    let builder = new_constraint_builders[i];
    transfer_into(
        &mut c,
        &builder,
        old_body_constraint_counts,
        old_body_constraint_ids,
        old_constraints,
        old_constraint_builders,
    );
    new_constraints[i] = c;
}

/// The contacts of batch `b` in the frame before.
pub open spec fn frame_of<S: Scalar, D: Space<S>>(
    b: int,
    counts: Seq<u32>,
    ids: Seq<u32>,
    cs: Seq<TwoBodyConstraint<S, D>>,
    builders: Seq<TwoBodyConstraintBuilder<S, D>>,
    contacts_cap: int,
    colliders_cap: int,
) -> Frame<S, D> {
    Frame {
        counts: batch_of(counts, b, colliders_cap),
        ids: batch_of(ids, b, 2 * contacts_cap),
        cs: batch_of(cs, b, contacts_cap),
        builders: batch_of(builders, b, contacts_cap),
    }
}

/// Carries the impulses of the frame before over to new contact `x` of batch
/// `b`.
pub fn gpu_transfer_warmstart_impulses<S: Scalar, D: Space<S>>(
    x: u32,
    b: u32,
    old_body_constraint_counts: &[u32],
    old_body_constraint_ids: &[u32],
    old_constraints: &[TwoBodyConstraint<S, D>],
    old_constraint_builders: &[TwoBodyConstraintBuilder<S, D>],
    new_constraints: &mut [TwoBodyConstraint<S, D>],
    new_constraint_builders: &[TwoBodyConstraintBuilder<S, D>],
    contacts_len: &[u32],
    contacts_batch_capacity: u32,
    colliders_batch_capacity: u32,
)
    requires
        b < contacts_len@.len(),
        (b + 1) * colliders_batch_capacity <= old_body_constraint_counts@.len(),
        (b + 1) * (2 * contacts_batch_capacity) <= old_body_constraint_ids@.len(),
        (b + 1) * contacts_batch_capacity <= old_constraints@.len(),
        (b + 1) * contacts_batch_capacity <= old_constraint_builders@.len(),
        (b + 1) * contacts_batch_capacity <= old(new_constraints)@.len(),
        (b + 1) * contacts_batch_capacity <= new_constraint_builders@.len(),
        x < contacts_len@[b as int] && x < contacts_batch_capacity ==> transfer_ok(
            frame_of(
                b as int,
                old_body_constraint_counts@,
                old_body_constraint_ids@,
                old_constraints@,
                old_constraint_builders@,
                contacts_batch_capacity as int,
                colliders_batch_capacity as int,
            ),
            contacts_of(old(new_constraints)@, b as int, contacts_batch_capacity as int)[x as int],
        ),
    ensures
        ({
            let cap = contacts_batch_capacity as int;
            let f = frame_of(
                b as int,
                old_body_constraint_counts@,
                old_body_constraint_ids@,
                old_constraints@,
                old_constraint_builders@,
                cap,
                colliders_batch_capacity as int,
            );
            let cs = contacts_of(old(new_constraints)@, b as int, cap);
            contacts_of(final(new_constraints)@, b as int, cap) == (if x < contacts_len@[b as int]
                && x < cap {
                cs.update(
                    x as int,
                    warmstarted(
                        f,
                        cs[x as int],
                        batch_of(new_constraint_builders@, b as int, cap)[x as int].infos@,
                    ),
                )
            } else {
                cs
            })
        }),
        same_outside_batch(
            final(new_constraints)@,
            old(new_constraints)@,
            b as int,
            contacts_batch_capacity as int,
        ),
{
    let ghost cap = contacts_batch_capacity as int;
    let ghost cs = contacts_of(new_constraints@, b as int, cap);
    if x < contacts_len[b as usize] && x < contacts_batch_capacity {
        let m: usize = old_body_constraint_ids.len();
        proof {
            lemma_batch(b as int, cap, new_constraint_builders@.len() as int);
            lemma_batch(b as int, 2 * cap, m as int);
        }
        let n: usize = new_constraints.len();
        let g: usize = batch_start(b, contacts_batch_capacity as usize, n) + x as usize;
        let mut c = new_constraints[g];
        assert(c@ == cs[x as int]);
        let builder = new_constraint_builders[g];
        assert(builder == batch_of(new_constraint_builders@, b as int, cap)[x as int]);
        transfer_into(
            &mut c,
            &builder,
            batch_slice(old_body_constraint_counts, b, colliders_batch_capacity as usize),
            batch_slice(old_body_constraint_ids, b, 2 * contacts_batch_capacity as usize),
            batch_slice(old_constraints, b, contacts_batch_capacity as usize),
            batch_slice(old_constraint_builders, b, contacts_batch_capacity as usize),
        );
        proof {
            lemma_contacts_update(new_constraints@, b as int, cap, x as int, c);
        }
        new_constraints[g] = c;
    }
}

/// The transfer changes impulses only: the bodies, the directions and the
/// right-hand sides of a contact stay.
pub proof fn transfer_changes_impulses_only<S: Scalar, D: Space<S>>(
    f: Frame<S, D>,
    c: TwoBodyModel<S, D>,
    infos: Seq<TwoBodyConstraintInfo<S, D>>,
    k: int,
)
    requires
        0 <= k < c.elements.len(),
    ensures
        ({
            let w = warmstarted(f, c, infos);
            let e = w.elements[k];
            let e0 = c.elements[k];
            &&& w == (TwoBodyModel { elements: w.elements, ..c })
            &&& w.elements.len() == c.elements.len()
            &&& with_impulses_of(e, e0) == e0
        }),
{
}

/// A contact that was in the frame before, with a point that no earlier point of
/// the old contact matches, takes over the impulses of that point.
pub proof fn persistent_points_keep_impulses<S: Scalar, D: Space<S>>(
    f: Frame<S, D>,
    c: TwoBodyModel<S, D>,
    infos: Seq<TwoBodyConstraintInfo<S, D>>,
    cid: int,
    k: int,
    j: int,
)
    requires
        ({
            let r = searched_range(f.counts, c.solver_body_a as int, c.solver_body_b as int);
            old_contact(f, c.solver_body_a, c.solver_body_b, r.0, r.1) == Some(cid)
        }),
        0 <= k < c.len <= c.elements.len(),
        0 <= j < f.cs[cid].len,
        points_match(f.builders[cid].infos@[j], infos[k]),
        forall|i: int| 0 <= i < j ==> !points_match(#[trigger] f.builders[cid].infos@[i], infos[k]),
    ensures
        warmstarted(f, c, infos).elements[k] == with_impulses_of(
            c.elements[k],
            f.cs[cid]@.elements[j],
        ),
{
    lemma_first_match(f.builders[cid].infos@, infos[k], 0, f.cs[cid].len as int, j);
}

proof fn lemma_first_match<S: Scalar, D: Space<S>>(
    old_infos: Seq<TwoBodyConstraintInfo<S, D>>,
    new_info: TwoBodyConstraintInfo<S, D>,
    from: int,
    n: int,
    j: int,
)
    requires
        from <= j < n,
        points_match(old_infos[j], new_info),
        forall|i: int| from <= i < j ==> !points_match(#[trigger] old_infos[i], new_info),
    ensures
        first_match(old_infos, new_info, from, n) == Some(j),
    decreases j - from,
{
    if from < j {
        assert(!points_match(old_infos[from], new_info));
        lemma_first_match(old_infos, new_info, from + 1, n, j);
    }
}

} // verus!
