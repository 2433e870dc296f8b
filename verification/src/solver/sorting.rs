//! Listing the contacts of each body: a counting sort.
use super::kernels::{is_fixed, is_fixed_spec, reached};
use super::passes::{contact_count, contact_count_spec};
use super::step::first_contact;
use crate::batch::{BatchIndices, batch_of, batch_start, lemma_batch, same_outside_batch};
use crate::contact::IndexedManifold;
use crate::multibody::types::WorldMassProperties;
use crate::scalar::Scalar;
use crate::space::Space;
use crate::threads::{lemma_visited_first, lemma_visited_step, visited, lemma_visited_prefix, visited_items, visits};
use khal_std::sync::atomic_add_u32;
use vstd::prelude::*;

verus! {

/// `x + y` as 32-bit hardware computes it.
pub open spec fn wrapping_sum(x: u32, y: u32) -> u32 {
    ((x + y) % 0x1_0000_0000) as u32
}

/// [`khal_std::sync::atomic_add_u32`] adds to a counter, wrapping on overflow,
/// and returns what the counter held before.
pub assume_specification[ khal_std::sync::atomic_add_u32 ](ptr: &mut u32, value: u32) -> (r: u32)
    ensures
        r == *old(ptr),
        *final(ptr) == wrapping_sum(*old(ptr), value),
;

/// Contact `contact` touches a body of group `group`.
pub struct Touch {
    pub group: int,
    pub contact: int,
}

/// Whether contacts of a body matter for the coloring: it can move, or it is a
/// link of a multibody, whose bodies share one group.
pub open spec fn is_active<S: Scalar, D: Space<S>>(
    body: int,
    groups: Seq<u32>,
    mprops: Seq<WorldMassProperties<S, D>>,
) -> bool {
    !is_fixed_spec::<S, D>(mprops[body].inv_mass) || groups[body] != body
}

/// The touches of contact `i`, of which `im` is the manifold.
pub open spec fn touches_of<S: Scalar, D: Space<S>>(
    im: IndexedManifold<S, D>,
    i: int,
    groups: Seq<u32>,
    mprops: Seq<WorldMassProperties<S, D>>,
) -> Seq<Touch> {
    let a = im.bodies[0] as int;
    let b = im.bodies[1] as int;
    (if is_active(a, groups, mprops) {
        seq![Touch { group: groups[a] as int, contact: i }]
    } else {
        Seq::empty()
    }) + (if is_active(b, groups, mprops) {
        seq![Touch { group: groups[b] as int, contact: i }]
    } else {
        Seq::empty()
    })
}

/// The touches of the contacts in `list`.
pub open spec fn touches<S: Scalar, D: Space<S>>(
    contacts: Seq<IndexedManifold<S, D>>,
    groups: Seq<u32>,
    mprops: Seq<WorldMassProperties<S, D>>,
    list: Seq<int>,
) -> Seq<Touch>
    decreases list.len(),
{
    if list.len() == 0 {
        Seq::empty()
    } else {
        touches(contacts, groups, mprops, list.drop_last()) + touches_of(
            contacts[list.last()],
            list.last(),
            groups,
            mprops,
        )
    }
}

/// The counters after each touch has counted one for its group.
pub open spec fn counted(counts: Seq<u32>, ts: Seq<Touch>) -> Seq<u32>
    decreases ts.len(),
{
    if ts.len() == 0 {
        counts
    } else {
        let p = counted(counts, ts.drop_last());
        let g = ts.last().group;
        p.update(g, wrapping_sum(p[g], 1))
    }
}

/// Counters and lists.
#[verifier::ext_equal]
pub struct Lists {
    /// For each group, where its next contact goes.
    pub counts: Seq<u32>,
    pub ids: Seq<u32>,
}

/// The lists after each touch has put its contact where the counter of its
/// group points.
pub open spec fn listed(st: Lists, ts: Seq<Touch>) -> Lists
    decreases ts.len(),
{
    if ts.len() == 0 {
        st
    } else {
        let p = listed(st, ts.drop_last());
        let t = ts.last();
        Lists {
            counts: p.counts.update(t.group, wrapping_sum(p.counts[t.group], 1)),
            ids: p.ids.update(p.counts[t.group] as int, t.contact as u32),
        }
    }
}

/// How many touches are of group `g`.
pub open spec fn tally(ts: Seq<Touch>, g: int) -> int
    decreases ts.len(),
{
    if ts.len() == 0 {
        0
    } else {
        tally(ts.drop_last(), g) + if ts.last().group == g {
            1int
        } else {
            0
        }
    }
}

pub proof fn lemma_tally_nonneg(ts: Seq<Touch>, g: int)
    ensures
        0 <= tally(ts, g) <= ts.len(),
    decreases ts.len(),
{
    if ts.len() > 0 {
        lemma_tally_nonneg(ts.drop_last(), g);
    }
}

/// The groups of all touches are among the first `n`.
pub open spec fn groups_below(ts: Seq<Touch>, n: int) -> bool {
    forall|k: int| 0 <= k < ts.len() ==> 0 <= (#[trigger] ts[k]).group < n
}

/// In whatever order the touches come, each group's counter grows by the number
/// of its touches.
pub proof fn counting_counts(counts: Seq<u32>, ts: Seq<Touch>)
    requires
        groups_below(ts, counts.len() as int),
        forall|g: int| 0 <= g < counts.len() ==> #[trigger] counts[g] + tally(ts, g) <= u32::MAX,
    ensures
        counted(counts, ts).len() == counts.len(),
        forall|g: int|
            0 <= g < counts.len() ==> #[trigger] counted(counts, ts)[g] == counts[g] + tally(
                ts,
                g,
            ),
    decreases ts.len(),
{
    if ts.len() > 0 {
        let q = ts.drop_last();
        assert(groups_below(q, counts.len() as int)) by {
            assert forall|k: int| 0 <= k < q.len() implies 0 <= (#[trigger] q[k]).group
                < counts.len() by {
                assert(q[k] == ts[k]);
            }
        }
        let t = ts.last();
        assert(ts[ts.len() - 1] == t);
        counting_counts(counts, q);
        assert(counts[t.group] + tally(ts, t.group) <= u32::MAX);
        lemma_tally_nonneg(q, t.group);
    }
}

/// The position that touch `k` puts its contact at.
pub open spec fn place(counts: Seq<u32>, ts: Seq<Touch>, k: int) -> int {
    counts[ts[k].group] + tally(ts.take(k), ts[k].group)
}

proof fn lemma_tally_mono(ts: Seq<Touch>, k: int, g: int)
    requires
        0 <= k <= ts.len(),
    ensures
        0 <= tally(ts.take(k), g) <= tally(ts, g),
        k < ts.len() && ts[k].group == g ==> tally(ts.take(k), g) < tally(ts, g),
    decreases ts.len() - k,
{
    lemma_tally_nonneg(ts.take(k), g);
    if k == ts.len() {
        assert(ts.take(k) =~= ts);
    } else {
        lemma_tally_mono(ts, k + 1, g);
        assert(ts.take(k + 1).drop_last() =~= ts.take(k));
    }
}

/// The ranges of the groups do not overlap: each starts no earlier than the
/// ranges of the groups before it end.
pub open spec fn ranges_apart(counts: Seq<u32>, ts: Seq<Touch>, n: int) -> bool {
    &&& forall|g: int| 0 <= g < counts.len() ==> #[trigger] counts[g] + tally(ts, g) <= n
    &&& forall|g: int, h: int|
        0 <= g < h < counts.len() ==> #[trigger] counts[g] + tally(ts, g) <= #[trigger] counts[h]
}

/// Some touch of group `g` puts its contact at `p`.
pub open spec fn filled(counts: Seq<u32>, ts: Seq<Touch>, g: int, p: int) -> bool {
    exists|k: int|
        0 <= k < ts.len() && ts[k].group == g && #[trigger] place(counts, ts, k) == p
}

/// In whatever order the touches come, each contact ends up in the range of
/// each group that it touches, every slot of a range holds a contact that
/// touches its group, and nothing outside the ranges changes.
pub proof fn sort_lists_contacts_by_group(st: Lists, ts: Seq<Touch>)
    requires
        groups_below(ts, st.counts.len() as int),
        ranges_apart(st.counts, ts, st.ids.len() as int),
        st.ids.len() <= u32::MAX,
        forall|k: int| 0 <= k < ts.len() ==> 0 <= (#[trigger] ts[k]).contact <= u32::MAX,
    ensures
        listed(st, ts).counts.len() == st.counts.len(),
        listed(st, ts).ids.len() == st.ids.len(),
        forall|g: int|
            0 <= g < st.counts.len() ==> #[trigger] listed(st, ts).counts[g] == st.counts[g]
                + tally(ts, g),
        forall|k: int|
            0 <= k < ts.len() ==> listed(st, ts).ids[#[trigger] place(st.counts, ts, k)]
                == ts[k].contact,
        forall|g: int, p: int|
            0 <= g < st.counts.len() && st.counts[g] <= p < st.counts[g] + tally(ts, g)
                ==> #[trigger] filled(st.counts, ts, g, p),
        forall|p: int|
            0 <= p < st.ids.len() && (forall|k: int|
                0 <= k < ts.len() ==> #[trigger] place(st.counts, ts, k) != p) ==> (
            #[trigger] listed(st, ts).ids[p]) == st.ids[p],
    decreases ts.len(),
{
    if ts.len() > 0 {
        let q = ts.drop_last();
        let n = st.counts.len() as int;
        let m = ts.len() - 1;
        assert forall|k: int| 0 <= k < q.len() implies #[trigger] q[k] == ts[k] by {}
        assert forall|g: int| tally(q, g) <= #[trigger] tally(ts, g) by {}
        assert forall|g: int| 0 <= g < n implies #[trigger] st.counts[g] + tally(q, g)
            <= st.ids.len() by {
            assert(st.counts[g] + tally(ts, g) <= st.ids.len());
        }
        assert forall|g: int, h: int| 0 <= g < h < n implies #[trigger] st.counts[g] + tally(q, g)
            <= #[trigger] st.counts[h] by {
            assert(st.counts[g] + tally(ts, g) <= st.counts[h]);
        }
        sort_lists_contacts_by_group(st, q);
        let p = listed(st, q);
        let r = listed(st, ts);
        let t = ts.last();
        assert(ts[m] == t);
        let at = p.counts[t.group] as int;
        assert(ts.take(m) =~= q);
        assert(at == place(st.counts, ts, m));
        assert(st.counts[t.group] + tally(ts, t.group) <= st.ids.len());
        lemma_tally_nonneg(q, t.group);
        assert forall|k: int| 0 <= k < m implies place(st.counts, q, k) == #[trigger] place(
            st.counts,
            ts,
            k,
        ) && place(st.counts, ts, k) != at by {
            assert(q.take(k) =~= ts.take(k));
            lemma_tally_mono(q, k, ts[k].group);
            lemma_tally_nonneg(ts, ts[k].group);
            lemma_tally_nonneg(ts, t.group);
            let g = ts[k].group;
            if g < t.group {
                assert(st.counts[g] + tally(ts, g) <= st.counts[t.group]);
            } else if t.group < g {
                assert(st.counts[t.group] + tally(ts, t.group) <= st.counts[g]);
            }
        }
        assert forall|k: int| 0 <= k < ts.len() implies r.ids[#[trigger] place(st.counts, ts, k)]
            == ts[k].contact by {
            if k < m {
                assert(place(st.counts, q, k) == place(st.counts, ts, k));
                assert(p.ids[place(st.counts, q, k)] == q[k].contact);
                lemma_tally_mono(q, k, ts[k].group);
                assert(q.take(k) =~= ts.take(k));
                assert(st.counts[ts[k].group] + tally(ts, ts[k].group) <= st.ids.len());
            }
        }
        assert forall|g: int, s: int|
            0 <= g < n && st.counts[g] <= s < st.counts[g] + tally(ts, g) implies
            #[trigger] filled(st.counts, ts, g, s) by {
            if g == t.group && s == at {
                assert(place(st.counts, ts, m) == s);
            } else {
                assert(s < st.counts[g] + tally(q, g));
                assert(filled(st.counts, q, g, s));
                let k = choose|k: int|
                    0 <= k < q.len() && q[k].group == g && #[trigger] place(st.counts, q, k) == s;
                assert(place(st.counts, q, k) == place(st.counts, ts, k));
                assert(ts[k].group == g);
            }
        }
        assert forall|s: int|
            0 <= s < st.ids.len() && (forall|k: int|
                0 <= k < ts.len() ==> #[trigger] place(st.counts, ts, k) != s) implies (
        #[trigger] r.ids[s]) == st.ids[s] by {
            assert(place(st.counts, ts, m) != s);
            assert forall|k: int| 0 <= k < q.len() implies #[trigger] place(st.counts, q, k)
                != s by {
                assert(place(st.counts, q, k) == place(st.counts, ts, k));
            }
        }
    }
}

/// Where the counters start as exclusive prefix sums of the tallies, the sort
/// turns them into the ends of the ranges: the contacts of group `g` are at
/// `first_contact(counts, g)..counts[g]`.
pub proof fn sorted_counters_bound_ranges(st: Lists, ts: Seq<Touch>, g: int)
    requires
        groups_below(ts, st.counts.len() as int),
        ranges_apart(st.counts, ts, st.ids.len() as int),
        st.ids.len() <= u32::MAX,
        forall|k: int| 0 <= k < ts.len() ==> 0 <= (#[trigger] ts[k]).contact <= u32::MAX,
        st.counts.len() > 0 ==> st.counts[0] == 0,
        forall|h: int|
            1 <= h < st.counts.len() ==> #[trigger] st.counts[h] == st.counts[h - 1] + tally(
                ts,
                h - 1,
            ),
        0 <= g < st.counts.len(),
    ensures
        first_contact(listed(st, ts).counts, g) == st.counts[g],
        listed(st, ts).counts[g] == st.counts[g] + tally(ts, g),
{
    sort_lists_contacts_by_group(st, ts);
    if g > 0 {
        assert(listed(st, ts).counts[g - 1] == st.counts[g - 1] + tally(ts, g - 1));
    }
}

fn active<S: Scalar, D: Space<S>>(
    body: u32,
    group: u32,
    mprops: &WorldMassProperties<S, D>,
) -> (r: bool)
    ensures
        r == (!is_fixed_spec::<S, D>(mprops.inv_mass) || group != body),
{
    !is_fixed::<S, D>(mprops.inv_mass) || group != body
}

/// The bodies of a contact, and their groups, are among the first `cap`.
pub open spec fn bodies_ok<S: Scalar, D: Space<S>>(
    im: IndexedManifold<S, D>,
    groups: Seq<u32>,
    cap: int,
) -> bool {
    &&& im.bodies[0] < cap
    &&& im.bodies[1] < cap
    &&& groups[im.bodies[0] as int] < cap
    &&& groups[im.bodies[1] as int] < cap
}

proof fn lemma_counted_concat(counts: Seq<u32>, ts: Seq<Touch>, t: Touch)
    ensures
        counted(counts, ts.push(t)) == counted(counts, ts).update(
            t.group,
            wrapping_sum(counted(counts, ts)[t.group], 1),
        ),
{
    assert(ts.push(t).drop_last() =~= ts);
}

/// Counts contact slot `x` of batch `b` for the groups that it touches.
pub fn gpu_solver_count_constraints<S: Scalar, D: Space<S>>(
    x: u32,
    threads: u32,
    b: u32,
    contacts: &[IndexedManifold<S, D>],
    body_constraint_counts: &mut [u32],
    body_group: &[u32],
    mprops: &[WorldMassProperties<S, D>],
    ids: &BatchIndices,
)
    requires
        x < threads,
        (b + 1) * ids.contacts_batch_capacity <= contacts@.len(),
        (b + 1) * ids.colliders_batch_capacity <= old(body_constraint_counts)@.len(),
        (b + 1) * ids.colliders_batch_capacity <= body_group@.len(),
        (b + 1) * ids.colliders_batch_capacity <= mprops@.len(),
        x < reached(*ids, threads) && contacts@[b * ids.contacts_batch_capacity + x].contact.len
            != 0 ==> bodies_ok(
            contacts@[b * ids.contacts_batch_capacity + x],
            batch_of(body_group@, b as int, ids.colliders_batch_capacity as int),
            ids.colliders_batch_capacity as int,
        ),
    ensures
        ({
            let cap = ids.colliders_batch_capacity as int;
            let im = contacts@[b * ids.contacts_batch_capacity + x];
            batch_of(final(body_constraint_counts)@, b as int, cap) == counted(
                batch_of(old(body_constraint_counts)@, b as int, cap),
                if x < reached(*ids, threads) && im.contact.len != 0 {
                    touches_of(
                        im,
                        x as int,
                        batch_of(body_group@, b as int, cap),
                        batch_of(mprops@, b as int, cap),
                    )
                } else {
                    Seq::empty()
                },
            )
        }),
        same_outside_batch(
            final(body_constraint_counts)@,
            old(body_constraint_counts)@,
            b as int,
            ids.colliders_batch_capacity as int,
        ),
{
    let ghost cap = ids.colliders_batch_capacity as int;
    let ghost counts0 = batch_of(body_constraint_counts@, b as int, cap);
    let ghost groups = batch_of(body_group@, b as int, cap);
    let ghost ms = batch_of(mprops@, b as int, cap);
    if x < ids.contacts_batch_capacity {
        proof {
            lemma_batch(b as int, cap, body_constraint_counts@.len() as int);
            lemma_batch(b as int, cap, mprops@.len() as int);
        }
        let nc: usize = contacts.len();
        let g: usize = batch_start(b, ids.contacts_batch_capacity as usize, nc) + x as usize;
        let im = contacts[g];
        if im.contact.len != 0 {
            let n: usize = body_group.len();
            let base: usize = batch_start(b, ids.colliders_batch_capacity as usize, n);
            let body1: u32 = im.bodies[0];
            let body2: u32 = im.bodies[1];
            let group1: u32 = body_group[base + body1 as usize];
            let group2: u32 = body_group[base + body2 as usize];
            assert(group1 == groups[body1 as int] && group2 == groups[body2 as int]);
            let m1 = mprops[base + body1 as usize];
            let m2 = mprops[base + body2 as usize];
            assert(m1 == ms[body1 as int] && m2 == ms[body2 as int]);
            let ghost mut ts: Seq<Touch> = Seq::empty();
            if active(body1, group1, &m1) {
                let k: usize = base + group1 as usize;
                let mut c: u32 = body_constraint_counts[k];
                assert(c == counts0[group1 as int]);
                let _old: u32 = atomic_add_u32(&mut c, 1);
                body_constraint_counts[k] = c;
                proof {
                    let t = Touch { group: group1 as int, contact: x as int };
                    lemma_counted_concat(counts0, ts, t);
                    ts = ts.push(t);
                    assert(batch_of(body_constraint_counts@, b as int, cap) =~= counted(
                        counts0,
                        ts,
                    ));
                }
            }
            assert(batch_of(body_constraint_counts@, b as int, cap) == counted(counts0, ts));
            if active(body2, group2, &m2) {
                let k: usize = base + group2 as usize;
                let mut c: u32 = body_constraint_counts[k];
                assert(c == batch_of(body_constraint_counts@, b as int, cap)[group2 as int]);
                let _old: u32 = atomic_add_u32(&mut c, 1);
                let ghost before = batch_of(body_constraint_counts@, b as int, cap);
                body_constraint_counts[k] = c;
                proof {
                    let t = Touch { group: group2 as int, contact: x as int };
                    lemma_counted_concat(counts0, ts, t);
                    ts = ts.push(t);
                    assert(batch_of(body_constraint_counts@, b as int, cap) =~= before.update(
                        group2 as int,
                        c,
                    ));
                }
            }
            assert(ts =~= touches_of(im, x as int, groups, ms));
        }
    }
}

proof fn lemma_listed_push(st: Lists, ts: Seq<Touch>, t: Touch)
    ensures
        listed(st, ts.push(t)) == ({
            let p = listed(st, ts);
            Lists {
                counts: p.counts.update(t.group, wrapping_sum(p.counts[t.group], 1)),
                ids: p.ids.update(p.counts[t.group] as int, t.contact as u32),
            }
        }),
{
    assert(ts.push(t).drop_last() =~= ts);
}

/// Every touch finds room: the range of each group ends within `n` slots.
pub open spec fn ranges_fit(counts: Seq<u32>, ts: Seq<Touch>, n: int) -> bool {
    forall|g: int| 0 <= g < counts.len() ==> #[trigger] counts[g] + tally(ts, g) <= n
}

proof fn lemma_tally_push(ts: Seq<Touch>, t: Touch, g: int)
    ensures
        tally(ts.push(t), g) == tally(ts, g) + if t.group == g {
            1int
        } else {
            0
        },
{
    assert(ts.push(t).drop_last() =~= ts);
}

proof fn lemma_tally_concat(a: Seq<Touch>, b: Seq<Touch>, g: int)
    ensures
        tally(a + b, g) == tally(a, g) + tally(b, g),
    decreases b.len(),
{
    if b.len() == 0 {
        assert(a + b =~= a);
    } else {
        lemma_tally_concat(a, b.drop_last(), g);
        assert((a + b).drop_last() =~= a + b.drop_last());
    }
}

/// Puts contact `i` into the list of group `group`. The buffers start at `base`
/// and `bci`.
fn put(
    i: u32,
    group: u32,
    b: u32,
    body_constraint_counts: &mut [u32],
    body_constraint_ids: &mut [u32],
    ids: &BatchIndices,
    Ghost(st0): Ghost<Lists>,
    Ghost(ts): Ghost<Seq<Touch>>,
)
    requires
        group < ids.colliders_batch_capacity,
        (b + 1) * ids.colliders_batch_capacity <= old(body_constraint_counts)@.len(),
        (b + 1) * (2 * ids.contacts_batch_capacity) <= old(body_constraint_ids)@.len(),
        batch_lists(*ids, b as int, old(body_constraint_counts)@, old(body_constraint_ids)@)
            == listed(st0, ts),
        listed(st0, ts).counts[group as int] < 2 * ids.contacts_batch_capacity,
    ensures
        batch_lists(*ids, b as int, final(body_constraint_counts)@, final(body_constraint_ids)@)
            == listed(st0, ts.push(Touch { group: group as int, contact: i as int })),
        same_outside_batch(
            final(body_constraint_counts)@,
            old(body_constraint_counts)@,
            b as int,
            ids.colliders_batch_capacity as int,
        ),
        same_outside_batch(
            final(body_constraint_ids)@,
            old(body_constraint_ids)@,
            b as int,
            2 * ids.contacts_batch_capacity,
        ),
{
    let ghost cap = ids.colliders_batch_capacity as int;
    let ghost bci_cap = 2 * ids.contacts_batch_capacity;
    proof {
        lemma_listed_push(st0, ts, Touch { group: group as int, contact: i as int });
        lemma_batch(b as int, cap, body_constraint_counts@.len() as int);
        lemma_batch(b as int, bci_cap, body_constraint_ids@.len() as int);
    }
    let ghost before = listed(st0, ts);
    let n: usize = body_constraint_counts.len();
    let m: usize = body_constraint_ids.len();
    let k: usize = batch_start(b, ids.colliders_batch_capacity as usize, n) + group as usize;
    let mut c: u32 = body_constraint_counts[k];
    assert(c == before.counts[group as int]);
    let id: u32 = atomic_add_u32(&mut c, 1);
    body_constraint_counts[k] = c;
    let l: usize = batch_start(b, 2 * ids.contacts_batch_capacity as usize, m) + id as usize;
    body_constraint_ids[l] = i;
    assert(batch_of(body_constraint_counts@, b as int, cap) =~= before.counts.update(
        group as int,
        c,
    ));
    assert(batch_of(body_constraint_ids@, b as int, bci_cap) =~= before.ids.update(id as int, i));
}

/// The counters and the lists of batch `b`.
pub open spec fn batch_lists(ids: BatchIndices, b: int, counts: Seq<u32>, list: Seq<u32>) -> Lists {
    Lists {
        counts: batch_of(counts, b, ids.colliders_batch_capacity as int),
        ids: batch_of(list, b, 2 * ids.contacts_batch_capacity),
    }
}

proof fn lemma_counts_so_far(st: Lists, ts: Seq<Touch>)
    requires
        groups_below(ts, st.counts.len() as int),
        forall|g: int|
            0 <= g < st.counts.len() ==> #[trigger] st.counts[g] + tally(ts, g) <= u32::MAX,
    ensures
        listed(st, ts).counts.len() == st.counts.len(),
        forall|g: int|
            0 <= g < st.counts.len() ==> #[trigger] listed(st, ts).counts[g] == st.counts[g]
                + tally(ts, g),
    decreases ts.len(),
{
    if ts.len() > 0 {
        let q = ts.drop_last();
        assert forall|k: int| 0 <= k < q.len() implies 0 <= (#[trigger] q[k]).group
            < st.counts.len() by {
            assert(q[k] == ts[k]);
        }
        let t = ts.last();
        assert(ts[ts.len() - 1] == t);
        assert forall|g: int| 0 <= g < st.counts.len() implies #[trigger] st.counts[g] + tally(
            q,
            g,
        ) <= u32::MAX by {
            assert(st.counts[g] + tally(ts, g) <= u32::MAX);
        }
        lemma_counts_so_far(st, q);
        assert(st.counts[t.group] + tally(ts, t.group) <= u32::MAX);
        lemma_tally_nonneg(q, t.group);
    }
}

/// There is room for the next touch `t` where there is room for `rest` after it.
proof fn lemma_room(st: Lists, ts: Seq<Touch>, t: Touch, rest: Seq<Touch>, n: int)
    requires
        groups_below(ts, st.counts.len() as int),
        0 <= t.group < st.counts.len(),
        n <= u32::MAX,
        ranges_fit(st.counts, ts.push(t) + rest, n),
    ensures
        listed(st, ts).counts[t.group] < n,
{
    assert forall|g: int| 0 <= g < st.counts.len() implies #[trigger] st.counts[g] + tally(ts, g)
        <= n by {
        assert(st.counts[g] + tally(ts.push(t) + rest, g) <= n);
        lemma_tally_concat(ts.push(t), rest, g);
        lemma_tally_push(ts, t, g);
        lemma_tally_nonneg(rest, g);
    }
    lemma_counts_so_far(st, ts);
    assert(st.counts[t.group] + tally(ts.push(t) + rest, t.group) <= n);
    lemma_tally_concat(ts.push(t), rest, t.group);
    lemma_tally_push(ts, t, t.group);
    lemma_tally_nonneg(rest, t.group);
}

proof fn lemma_touches_prefix<S: Scalar, D: Space<S>>(
    contacts: Seq<IndexedManifold<S, D>>,
    groups: Seq<u32>,
    mprops: Seq<WorldMassProperties<S, D>>,
    list: Seq<int>,
    k: int,
)
    requires
        0 <= k <= list.len(),
    ensures
        exists|rest: Seq<Touch>|
            touches(contacts, groups, mprops, list) == #[trigger] (touches(
                contacts,
                groups,
                mprops,
                list.take(k),
            ) + rest),
    decreases list.len() - k,
{
    if k == list.len() {
        assert(list.take(k) =~= list);
        let t = touches(contacts, groups, mprops, list);
        assert(t + Seq::empty() =~= t);
    } else {
        lemma_touches_prefix(contacts, groups, mprops, list, k + 1);
        let rest = choose|rest: Seq<Touch>|
            touches(contacts, groups, mprops, list) == #[trigger] (touches(
                contacts,
                groups,
                mprops,
                list.take(k + 1),
            ) + rest);
        assert(list.take(k + 1).drop_last() =~= list.take(k));
        let a = touches(contacts, groups, mprops, list.take(k));
        let c = touches_of(contacts[list[k]], list[k], groups, mprops);
        assert((a + c) + rest =~= a + (c + rest));
    }
}

proof fn lemma_groups_below<S: Scalar, D: Space<S>>(
    contacts: Seq<IndexedManifold<S, D>>,
    groups: Seq<u32>,
    mprops: Seq<WorldMassProperties<S, D>>,
    list: Seq<int>,
    cap: int,
)
    requires
        forall|k: int|
            0 <= k < list.len() ==> bodies_ok(contacts[#[trigger] list[k]], groups, cap),
    ensures
        groups_below(touches(contacts, groups, mprops, list), cap),
    decreases list.len(),
{
    if list.len() > 0 {
        let q = list.drop_last();
        assert forall|k: int| 0 <= k < q.len() implies bodies_ok(
            contacts[#[trigger] q[k]],
            groups,
            cap,
        ) by {
            assert(q[k] == list[k]);
        }
        lemma_groups_below(contacts, groups, mprops, q, cap);
        assert(list[list.len() - 1] == list.last());
        let a = touches(contacts, groups, mprops, q);
        let c = touches_of(contacts[list.last()], list.last(), groups, mprops);
        assert forall|k: int| 0 <= k < (a + c).len() implies 0 <= (#[trigger] (a + c)[k]).group
            < cap by {
            if k < a.len() {
                assert((a + c)[k] == a[k]);
            } else {
                assert((a + c)[k] == c[k - a.len()]);
            }
        }
    }
}

/// Puts the contacts that thread `x` of `threads` visits in batch `b` into the
/// lists of the groups that they touch.
pub fn gpu_solver_sort_constraints<S: Scalar, D: Space<S>>(
    x: u32,
    threads: u32,
    b: u32,
    body_constraint_counts: &mut [u32],
    mprops: &[WorldMassProperties<S, D>],
    contacts: &[IndexedManifold<S, D>],
    contacts_len: &[u32],
    body_constraint_ids: &mut [u32],
    body_group: &[u32],
    ids: &BatchIndices,
)
    requires
        threads > 0,
        b < contacts_len@.len(),
        (b + 1) * ids.contacts_batch_capacity <= contacts@.len(),
        (b + 1) * ids.colliders_batch_capacity <= old(body_constraint_counts)@.len(),
        (b + 1) * (2 * ids.contacts_batch_capacity) <= old(body_constraint_ids)@.len(),
        (b + 1) * ids.colliders_batch_capacity <= body_group@.len(),
        (b + 1) * ids.colliders_batch_capacity <= mprops@.len(),
        2 * ids.contacts_batch_capacity <= u32::MAX,
        ({
            let cap = ids.colliders_batch_capacity as int;
            let cs = batch_of(contacts@, b as int, ids.contacts_batch_capacity as int);
            let groups = batch_of(body_group@, b as int, cap);
            let n = contact_count_spec(*ids, contacts_len@, b as int);
            &&& forall|i: int| 0 <= i < n ==> bodies_ok(#[trigger] cs[i], groups, cap)
            &&& ranges_fit(
                batch_of(old(body_constraint_counts)@, b as int, cap),
                touches(
                    cs,
                    groups,
                    batch_of(mprops@, b as int, cap),
                    visited(x as int, threads as int, n),
                ),
                2 * ids.contacts_batch_capacity,
            )
        }),
    ensures
        ({
            let cap = ids.colliders_batch_capacity as int;
            batch_lists(*ids, b as int, final(body_constraint_counts)@, final(body_constraint_ids)@)
                == listed(
                batch_lists(*ids, b as int, old(body_constraint_counts)@, old(body_constraint_ids)@),
                touches(
                    batch_of(contacts@, b as int, ids.contacts_batch_capacity as int),
                    batch_of(body_group@, b as int, cap),
                    batch_of(mprops@, b as int, cap),
                    visited(
                        x as int,
                        threads as int,
                        contact_count_spec(*ids, contacts_len@, b as int),
                    ),
                ),
            )
        }),
        same_outside_batch(
            final(body_constraint_counts)@,
            old(body_constraint_counts)@,
            b as int,
            ids.colliders_batch_capacity as int,
        ),
        same_outside_batch(
            final(body_constraint_ids)@,
            old(body_constraint_ids)@,
            b as int,
            2 * ids.contacts_batch_capacity,
        ),
{
    let ghost cap = ids.colliders_batch_capacity as int;
    let ghost bci_cap = 2 * ids.contacts_batch_capacity;
    let ghost counts0 = body_constraint_counts@;
    let ghost list0 = body_constraint_ids@;
    let ghost st0 = batch_lists(*ids, b as int, counts0, list0);
    let ghost cs = batch_of(contacts@, b as int, ids.contacts_batch_capacity as int);
    let ghost groups = batch_of(body_group@, b as int, cap);
    let ghost ms = batch_of(mprops@, b as int, cap);
    let ghost xi = x as int;
    let ghost ti = threads as int;
    let len: u32 = contact_count(ids, contacts_len, b);
    let ghost all = touches(cs, groups, ms, visited(xi, ti, len as int));
    proof {
        lemma_batch(b as int, cap, counts0.len() as int);
        lemma_batch(b as int, cap, mprops@.len() as int);
        lemma_batch(b as int, bci_cap, list0.len() as int);
        lemma_visited_first(xi, ti, xi);
        lemma_visited_first(
            xi,
            ti,
            if xi <= len {
                xi
            } else {
                len as int
            },
        );
    }
    let nc: usize = contacts.len();
    let n: usize = body_group.len();
    let cbase: usize = batch_start(b, ids.contacts_batch_capacity as usize, nc);
    let base: usize = batch_start(b, ids.colliders_batch_capacity as usize, n);
    let mut i: u64 = x as u64;
    while i < len as u64
        invariant
            threads > 0,
            xi == x,
            ti == threads,
            len <= ids.contacts_batch_capacity,
            cap == ids.colliders_batch_capacity,
            bci_cap == 2 * ids.contacts_batch_capacity,
            bci_cap <= u32::MAX,
            nc == contacts@.len(),
            n == body_group@.len(),
            cbase == b * ids.contacts_batch_capacity,
            cbase + ids.contacts_batch_capacity <= nc,
            base == b * ids.colliders_batch_capacity,
            base + cap <= n,
            base + cap <= mprops@.len(),
            (b + 1) * ids.colliders_batch_capacity <= body_constraint_counts@.len(),
            (b + 1) * (2 * ids.contacts_batch_capacity) <= body_constraint_ids@.len(),
            cs == batch_of(contacts@, b as int, ids.contacts_batch_capacity as int),
            groups == batch_of(body_group@, b as int, cap),
            ms == batch_of(mprops@, b as int, cap),
            st0.counts.len() == cap,
            all == touches(cs, groups, ms, visited(xi, ti, len as int)),
            forall|i: int| 0 <= i < len ==> bodies_ok(#[trigger] cs[i], groups, cap),
            ranges_fit(st0.counts, all, bci_cap),
            visits(xi, ti, i as int),
            i <= len + threads || i == x,
            batch_lists(*ids, b as int, body_constraint_counts@, body_constraint_ids@) == listed(
                st0,
                touches(
                    cs,
                    groups,
                    ms,
                    visited(
                        xi,
                        ti,
                        if i <= len {
                            i as int
                        } else {
                            len as int
                        },
                    ),
                ),
            ),
            same_outside_batch(body_constraint_counts@, counts0, b as int, cap),
            same_outside_batch(body_constraint_ids@, list0, b as int, bci_cap),
        decreases len + threads - i,
    {
        let ghost list = visited(xi, ti, i as int);
        let ghost next: int = if i + threads <= len {
            (i + threads) as int
        } else {
            len as int
        };
        let im = contacts[cbase + i as usize];
        assert(im == cs[i as int]);
        let body1: u32 = im.bodies[0];
        let body2: u32 = im.bodies[1];
        let group1: u32 = body_group[base + body1 as usize];
        let group2: u32 = body_group[base + body2 as usize];
        assert(group1 == groups[body1 as int] && group2 == groups[body2 as int]);
        let m1 = mprops[base + body1 as usize];
        let m2 = mprops[base + body2 as usize];
        assert(m1 == ms[body1 as int] && m2 == ms[body2 as int]);
        let ghost ts0 = touches(cs, groups, ms, list);
        let ghost here = touches_of(im, i as int, groups, ms);
        let ghost mut ts = ts0;
        let ghost rest = arbitrary::<Seq<Touch>>();
        proof {
            lemma_visited_step(xi, ti, i as int, next);
            assert(list.push(i as int).drop_last() =~= list);
            assert(touches(cs, groups, ms, list.push(i as int)) == ts0 + here);
            lemma_visited_prefix(xi, ti, next, len as int);
            let total = visited(xi, ti, len as int);
            let k = visited(xi, ti, next).len() as int;
            assert(total.take(k) == visited(xi, ti, next));
            lemma_touches_prefix(cs, groups, ms, total, k);
            rest = choose|rest: Seq<Touch>|
                all == #[trigger] (touches(cs, groups, ms, total.take(k)) + rest);
            assert(all == ts0 + here + rest);
            visited_items(xi, ti, i as int);
            lemma_groups_below(cs, groups, ms, list, cap);
        }
        if active(body1, group1, &m1) {
            proof {
                let t = Touch { group: group1 as int, contact: i as int };
                assert(here[0] == t);
                let tail = here.skip(1) + rest;
                assert(ts0 + here + rest =~= ts0.push(t) + tail);
                lemma_room(st0, ts0, t, tail, bci_cap);
            }
            put(
                i as u32,
                group1,
                b,
                body_constraint_counts,
                body_constraint_ids,
                ids,
                Ghost(st0),
                Ghost(ts),
            );
            proof {
                ts = ts.push(Touch { group: group1 as int, contact: i as int });
            }
        }
        if active(body2, group2, &m2) {
            proof {
                let t = Touch { group: group2 as int, contact: i as int };
                assert(groups_below(ts, cap)) by {
                    assert forall|k: int| 0 <= k < ts.len() implies 0 <= (#[trigger] ts[k]).group
                        < cap by {
                        if k < ts0.len() {
                            assert(ts[k] == ts0[k]);
                        }
                    }
                }
                assert(ts0 + here + rest =~= ts.push(t) + rest);
                lemma_room(st0, ts, t, rest, bci_cap);
            }
            put(
                i as u32,
                group2,
                b,
                body_constraint_counts,
                body_constraint_ids,
                ids,
                Ghost(st0),
                Ghost(ts),
            );
            proof {
                ts = ts.push(Touch { group: group2 as int, contact: i as int });
            }
        }
        assert(ts =~= ts0 + here);
        i = i + threads as u64;
    }
}

} // verus!
