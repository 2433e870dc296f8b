//! Items shared out over threads: thread `x` takes every `threads`-th item.
use vstd::prelude::*;

verus! {

/// Whether thread `x` of `threads` visits item `i`: every `threads`-th item from
/// `x` on.
pub open spec fn visits(x: int, threads: int, i: int) -> bool {
    i >= x && (i - x) % threads == 0
}

/// Every item is visited by exactly one thread.
pub proof fn strides_partition_items(x: int, threads: int, i: int)
    requires
        0 <= x < threads,
        0 <= i,
    ensures
        visits(x, threads, i) <==> x == i % threads,
{
    vstd::arithmetic::div_mod::lemma_fundamental_div_mod(i, threads);
    let q = i / threads;
    let r = i % threads;
    if x == r {
        assert(i - x == q * threads && i >= x) by (nonlinear_arith)
            requires
                i == threads * q + r,
                x == r,
                0 <= r < threads,
                i >= 0,
        ;
        vstd::arithmetic::div_mod::lemma_fundamental_div_mod_converse(i - x, threads, q, 0);
    } else if visits(x, threads, i) {
        vstd::arithmetic::div_mod::lemma_fundamental_div_mod(i - x, threads);
        let p = (i - x) / threads;
        assert(i == threads * p + x);
        vstd::arithmetic::div_mod::lemma_fundamental_div_mod_converse(i, threads, p, x);
    }
}

pub proof fn lemma_next_visit(x: int, threads: int, i: int, j: int)
    requires
        0 < threads,
        visits(x, threads, i),
        i < j <= i + threads,
    ensures
        visits(x, threads, j) <==> j == i + threads,
{
    vstd::arithmetic::div_mod::lemma_fundamental_div_mod(i - x, threads);
    let p = (i - x) / threads;
    if j == i + threads {
        assert(j - x == threads * (p + 1)) by (nonlinear_arith)
            requires
                j == i + threads,
                i - x == threads * p,
        ;
        vstd::arithmetic::div_mod::lemma_fundamental_div_mod_converse(j - x, threads, p + 1, 0);
    } else {
        vstd::arithmetic::div_mod::lemma_fundamental_div_mod_converse(j - x, threads, p, j - i);
    }
}

/// The items below `n` that thread `x` of `threads` visits, in order.
pub open spec fn visited(x: int, threads: int, n: int) -> Seq<int>
    decreases n,
{
    if n <= 0 {
        Seq::empty()
    } else if visits(x, threads, n - 1) {
        visited(x, threads, n - 1).push(n - 1)
    } else {
        visited(x, threads, n - 1)
    }
}

/// A thread visits exactly its items, each once and in order.
pub proof fn visited_items(x: int, threads: int, n: int)
    ensures
        forall|k: int|
            0 <= k < visited(x, threads, n).len() ==> 0 <= #[trigger] visited(x, threads, n)[k] < n
                && visits(x, threads, visited(x, threads, n)[k]),
        forall|i: int|
            0 <= i < n && visits(x, threads, i) ==> visited(x, threads, n).contains(i),
        forall|k: int, l: int|
            0 <= k < l < visited(x, threads, n).len() ==> #[trigger] visited(x, threads, n)[k]
                < #[trigger] visited(x, threads, n)[l],
    decreases n,
{
    if n > 0 {
        visited_items(x, threads, n - 1);
        let p = visited(x, threads, n - 1);
        let q = visited(x, threads, n);
        assert forall|i: int| 0 <= i < n && visits(x, threads, i) implies q.contains(i) by {
            if i == n - 1 {
                assert(q[q.len() - 1] == i);
            } else {
                assert(p.contains(i));
                let k = choose|k: int| 0 <= k < p.len() && p[k] == i;
                assert(q[k] == i);
            }
        }
    }
}

proof fn lemma_visited_skip(x: int, threads: int, from: int, to: int)
    requires
        0 <= from <= to,
        forall|i: int| from <= i < to ==> !#[trigger] visits(x, threads, i),
    ensures
        visited(x, threads, to) == visited(x, threads, from),
    decreases to - from,
{
    if from < to {
        lemma_visited_skip(x, threads, from, to - 1);
        assert(!visits(x, threads, to - 1));
    }
}

/// Before its first item a thread has visited nothing.
pub proof fn lemma_visited_first(x: int, threads: int, n: int)
    requires
        0 < threads,
        0 <= x,
        n <= x,
    ensures
        visited(x, threads, n) == Seq::<int>::empty(),
        visits(x, threads, x),
{
    assert(0int % threads == 0) by (nonlinear_arith)
        requires
            threads > 0,
    ;
    if n > 0 {
        lemma_visited_skip(x, threads, 0, n);
    }
}

/// After item `i` a thread goes on at `i + threads`.
pub proof fn lemma_visited_step(x: int, threads: int, i: int, n: int)
    requires
        0 < threads,
        visits(x, threads, i),
        0 <= i < n,
        n <= i + threads,
    ensures
        visited(x, threads, n) == visited(x, threads, i).push(i),
        visits(x, threads, i + threads),
{
    lemma_next_visit(x, threads, i, i + threads);
    assert(visited(x, threads, i + 1) == visited(x, threads, i).push(i));
    assert forall|q: int| i + 1 <= q < n implies !#[trigger] visits(x, threads, q) by {
        lemma_next_visit(x, threads, i, q);
    }
    lemma_visited_skip(x, threads, i + 1, n);
}

/// What a thread has visited so far starts what it visits in all.
pub proof fn lemma_visited_prefix(x: int, threads: int, m: int, n: int)
    requires
        m <= n,
    ensures
        visited(x, threads, m).len() <= visited(x, threads, n).len(),
        visited(x, threads, n).take(visited(x, threads, m).len() as int) == visited(x, threads, m),
    decreases n - m,
{
    let k = visited(x, threads, m).len() as int;
    if m < n && 0 < n {
        lemma_visited_prefix(x, threads, m, n - 1);
        assert(visited(x, threads, n).take(k) =~= visited(x, threads, n - 1).take(k));
    } else {
        assert(visited(x, threads, n).take(k) =~= visited(x, threads, m));
    }
}

} // verus!
