//! Solves with tree-sparse factors `Lᵀ D L`.
//!
//! The degrees of freedom form a forest: each has a parent or none. Below the
//! diagonal, row `i` of the unit matrix `L` has entries only at the ancestors
//! of `i`; the diagonal of the stored factors is `D`.
use super::sweeps::column;
use crate::exact::exact;
use crate::scalar::Scalar;
use crate::views::{
    MatView, VecView, mat_get, mat_of, same_outside_vec, vec_get, vec_of, vec_set,
};
use vstd::prelude::*;

verus! {

/// The parent of a degree of freedom without one.
pub const NO_PARENT: u32 = 0xffff_ffff;

/// Ancestors that a solve walks at least.
pub const LTDL_MIN_WALK: usize = 64;

/// Number of ancestors that a solve for `n` unknowns walks: a forest has no longer
/// chains.
pub open spec fn ltdl_walk(n: int) -> nat {
    if n <= LTDL_MIN_WALK {
        LTDL_MIN_WALK as nat
    } else {
        n as nat
    }
}

fn walk_length(n: usize) -> (r: usize)
    ensures
        r == ltdl_walk(n as int),
{
    if n <= LTDL_MIN_WALK {
        LTDL_MIN_WALK
    } else {
        n
    }
}

/// Every parent is a degree of freedom.
pub open spec fn parents_in_range(parents: Seq<u32>) -> bool {
    forall|i: int|
        0 <= i < parents.len() && #[trigger] parents[i] != NO_PARENT ==> parents[i]
            < parents.len()
}

/// `x` with `m[i][j] xi` taken away at `j` and the ancestors of `j`.
pub open spec fn up_chain<S: Scalar>(
    m: Seq<Seq<S>>,
    parents: Seq<u32>,
    x: Seq<S>,
    i: int,
    xi: S,
    j: u32,
    fuel: nat,
) -> Seq<S>
    decreases fuel,
{
    if fuel == 0 || j == NO_PARENT {
        x
    } else {
        up_chain(
            m,
            parents,
            x.update(j as int, x[j as int].minus_spec(m[i][j as int].times_spec(xi))),
            i,
            xi,
            parents[j as int],
            (fuel - 1) as nat,
        )
    }
}

/// The solve with `Lᵀ`, after the last `k` degrees of freedom.
pub open spec fn ltdl_up<S: Scalar>(
    m: Seq<Seq<S>>,
    parents: Seq<u32>,
    b: Seq<S>,
    k: int,
) -> Seq<S>
    decreases k,
{
    if k <= 0 {
        b
    } else {
        let p = ltdl_up(m, parents, b, k - 1);
        let i = b.len() - k;
        up_chain(m, parents, p, i, p[i], parents[i], ltdl_walk(b.len() as int))
    }
}

/// The solve with `D`; a zero on the diagonal yields zero.
pub open spec fn ltdl_diag<S: Scalar>(m: Seq<Seq<S>>, x: Seq<S>) -> Seq<S> {
    Seq::new(
        x.len(),
        |i: int|
            if m[i][i].same_spec(S::zero_spec()) {
                S::zero_spec()
            } else {
                x[i].over_spec(m[i][i])
            },
    )
}

/// `acc` less the entries of row `i` at `j` and the ancestors of `j`, times
/// `x`.
pub open spec fn down_chain<S: Scalar>(
    m: Seq<Seq<S>>,
    parents: Seq<u32>,
    x: Seq<S>,
    i: int,
    acc: S,
    j: u32,
    fuel: nat,
) -> S
    decreases fuel,
{
    if fuel == 0 || j == NO_PARENT {
        acc
    } else {
        down_chain(
            m,
            parents,
            x,
            i,
            acc.minus_spec(m[i][j as int].times_spec(x[j as int])),
            parents[j as int],
            (fuel - 1) as nat,
        )
    }
}

/// The solve with `L`, after the first `k` degrees of freedom.
pub open spec fn ltdl_down<S: Scalar>(
    m: Seq<Seq<S>>,
    parents: Seq<u32>,
    z: Seq<S>,
    k: int,
) -> Seq<S>
    decreases k,
{
    if k <= 0 {
        z
    } else {
        let p = ltdl_down(m, parents, z, k - 1);
        p.update(
            k - 1,
            down_chain(
                m,
                parents,
                p,
                k - 1,
                p[k - 1],
                parents[k - 1],
                ltdl_walk(z.len() as int),
            ),
        )
    }
}

/// The solution for right-hand side `b`.
pub open spec fn ltdl_solve<S: Scalar>(
    m: Seq<Seq<S>>,
    parents: Seq<u32>,
    b: Seq<S>,
) -> Seq<S> {
    let n = b.len() as int;
    ltdl_down(m, parents, ltdl_diag(m, ltdl_up(m, parents, b, n)), n)
}

proof fn lemma_up_chain_len<S: Scalar>(
    m: Seq<Seq<S>>,
    parents: Seq<u32>,
    x: Seq<S>,
    i: int,
    xi: S,
    j: u32,
    fuel: nat,
)
    requires
        parents_in_range(parents),
        parents.len() == x.len(),
        j != NO_PARENT ==> j < x.len(),
    ensures
        up_chain(m, parents, x, i, xi, j, fuel).len() == x.len(),
    decreases fuel,
{
    if fuel > 0 && j != NO_PARENT {
        lemma_up_chain_len(
            m,
            parents,
            x.update(j as int, x[j as int].minus_spec(m[i][j as int].times_spec(xi))),
            i,
            xi,
            parents[j as int],
            (fuel - 1) as nat,
        );
    }
}

pub proof fn lemma_ltdl_len<S: Scalar>(
    m: Seq<Seq<S>>,
    parents: Seq<u32>,
    b: Seq<S>,
    k: int,
)
    requires
        parents_in_range(parents),
        parents.len() == b.len(),
        k <= b.len(),
    ensures
        ltdl_up(m, parents, b, k).len() == b.len(),
        ltdl_down(m, parents, b, k).len() == b.len(),
    decreases k,
{
    if k > 0 {
        lemma_ltdl_len(m, parents, b, k - 1);
        let p = ltdl_up(m, parents, b, k - 1);
        let i = b.len() - k;
        lemma_up_chain_len(m, parents, p, i, p[i], parents[i], ltdl_walk(b.len() as int));
    }
}

/// The factors in a square view, by columns or by rows.
pub open spec fn factors_of<S>(buf: Seq<S>, mv: MatView, by_rows: bool) -> Seq<Seq<S>> {
    let m = mat_of(buf, mv);
    if by_rows {
        Seq::new(mv.ncols as nat, |i: int| column(m, i))
    } else {
        m
    }
}

fn factor_at<S: Scalar>(mat: &[S], mv: MatView, by_rows: bool, i: usize, j: usize) -> (r: S)
    requires
        mv.fits(mat@.len() as int),
        mv.nrows == mv.ncols,
        i < mv.nrows,
        j < mv.nrows,
    ensures
        r == factors_of(mat@, mv, by_rows)[i as int][j as int],
{
    if by_rows {
        mat_get(mat, mv, j, i)
    } else {
        mat_get(mat, mv, i, j)
    }
}

fn solve_factored<S: Scalar>(
    mat: &[S],
    mv: MatView,
    by_rows: bool,
    x: &mut [S],
    xv: VecView,
    parents: &[u32],
    pv: VecView,
)
    requires
        mv.fits(mat@.len() as int),
        mv.nrows == mv.ncols,
        xv.fits(old(x)@.len() as int),
        xv.len == mv.nrows,
        pv.fits(parents@.len() as int),
        pv.len == mv.nrows,
        parents_in_range(vec_of(parents@, pv)),
    ensures
        vec_of(final(x)@, xv) == ltdl_solve(
            factors_of(mat@, mv, by_rows),
            vec_of(parents@, pv),
            vec_of(old(x)@, xv),
        ),
        same_outside_vec(old(x)@, final(x)@, xv),
{
    let n: usize = mv.nrows;
    let ghost m = factors_of(mat@, mv, by_rows);
    let ghost par = vec_of(parents@, pv);
    let ghost b = vec_of(x@, xv);
    let mut k: usize = 0;
    while k < n
        invariant
            mv.fits(mat@.len() as int),
            mv.nrows == n,
            mv.ncols == n,
            xv.fits(old(x)@.len() as int),
            xv.len == n,
            pv.fits(parents@.len() as int),
            pv.len == n,
            parents_in_range(par),
            m == factors_of(mat@, mv, by_rows),
            par == vec_of(parents@, pv),
            b.len() == n,
            k <= n,
            vec_of(x@, xv) == ltdl_up(m, par, b, k as int),
            same_outside_vec(old(x)@, x@, xv),
        decreases n - k,
    {
        let i: usize = n - 1 - k;
        let xi = vec_get(x, xv, i);
        let mut j: u32 = vec_get(parents, pv, i);
        let ghost p = vec_of(x@, xv);
        let ghost goal = ltdl_up(m, par, b, k + 1);
        let mut fuel: usize = walk_length(n);
        assert(par[i as int] == j);
        while fuel > 0 && j != NO_PARENT
            invariant
                mv.fits(mat@.len() as int),
                mv.nrows == n,
                mv.ncols == n,
                xv.fits(old(x)@.len() as int),
                xv.len == n,
                pv.fits(parents@.len() as int),
                pv.len == n,
                parents_in_range(par),
                m == factors_of(mat@, mv, by_rows),
                par == vec_of(parents@, pv),
                i < n,
                j != NO_PARENT ==> j < n,
                up_chain(m, par, vec_of(x@, xv), i as int, xi, j, fuel as nat) == goal,
                same_outside_vec(old(x)@, x@, xv),
            decreases fuel,
        {
            let l = factor_at(mat, mv, by_rows, i, j as usize);
            let v = vec_get(x, xv, j as usize).minus(l.times(xi));
            vec_set(x, xv, j as usize, v);
            let nj: u32 = vec_get(parents, pv, j as usize);
            assert(par[j as int] == nj);
            j = nj;
            fuel = fuel - 1;
        }
        k = k + 1;
    }
    let ghost up = ltdl_up(m, par, b, n as int);
    let ghost z = ltdl_diag(m, up);
    proof {
        lemma_ltdl_len(m, par, b, n as int);
    }
    let mut i: usize = 0;
    while i < n
        invariant
            mv.fits(mat@.len() as int),
            mv.nrows == n,
            mv.ncols == n,
            xv.fits(old(x)@.len() as int),
            xv.len == n,
            m == factors_of(mat@, mv, by_rows),
            up.len() == n,
            z == ltdl_diag(m, up),
            i <= n,
            forall|j: int|
                0 <= j < n ==> #[trigger] vec_of(x@, xv)[j] == (if j < i {
                    z[j]
                } else {
                    up[j]
                }),
            same_outside_vec(old(x)@, x@, xv),
        decreases n - i,
    {
        let d = factor_at(mat, mv, by_rows, i, i);
        let v = vec_get(x, xv, i);
        let q = if d.same(S::zero()) {
            S::zero()
        } else {
            v.over(d)
        };
        vec_set(x, xv, i, q);
        i = i + 1;
    }
    assert(vec_of(x@, xv) =~= z);
    let mut i: usize = 0;
    while i < n
        invariant
            mv.fits(mat@.len() as int),
            mv.nrows == n,
            mv.ncols == n,
            xv.fits(old(x)@.len() as int),
            xv.len == n,
            pv.fits(parents@.len() as int),
            pv.len == n,
            parents_in_range(par),
            m == factors_of(mat@, mv, by_rows),
            par == vec_of(parents@, pv),
            z.len() == n,
            i <= n,
            vec_of(x@, xv) == ltdl_down(m, par, z, i as int),
            same_outside_vec(old(x)@, x@, xv),
        decreases n - i,
    {
        let ghost p = vec_of(x@, xv);
        let mut s = vec_get(x, xv, i);
        let mut j: u32 = vec_get(parents, pv, i);
        assert(par[i as int] == j);
        let ghost goal = down_chain(m, par, p, i as int, s, j, ltdl_walk(n as int));
        let mut fuel: usize = walk_length(n);
        while fuel > 0 && j != NO_PARENT
            invariant
                mv.fits(mat@.len() as int),
                mv.nrows == n,
                mv.ncols == n,
                xv.fits(x@.len() as int),
                xv.len == n,
                pv.fits(parents@.len() as int),
                pv.len == n,
                parents_in_range(par),
                m == factors_of(mat@, mv, by_rows),
                par == vec_of(parents@, pv),
                p == vec_of(x@, xv),
                i < n,
                j != NO_PARENT ==> j < n,
                down_chain(m, par, p, i as int, s, j, fuel as nat) == goal,
            decreases fuel,
        {
            let l = factor_at(mat, mv, by_rows, i, j as usize);
            s = s.minus(l.times(vec_get(x, xv, j as usize)));
            let nj: u32 = vec_get(parents, pv, j as usize);
            assert(par[j as int] == nj);
            j = nj;
            fuel = fuel - 1;
        }
        vec_set(x, xv, i, s);
        i = i + 1;
    }
}


/// Solves in place with tree-sparse factors stored by columns.
pub fn ltdl_solve_strided<S: Scalar>(
    mat: &[S],
    mv: MatView,
    x: &mut [S],
    xv: VecView,
    parents: &[u32],
    pv: VecView,
)
    requires
        mv.fits(mat@.len() as int),
        mv.nrows == mv.ncols,
        xv.fits(old(x)@.len() as int),
        xv.len == mv.nrows,
        pv.fits(parents@.len() as int),
        pv.len == mv.nrows,
        parents_in_range(vec_of(parents@, pv)),
    ensures
        vec_of(final(x)@, xv) == ltdl_solve(
            mat_of(mat@, mv),
            vec_of(parents@, pv),
            vec_of(old(x)@, xv),
        ),
        same_outside_vec(old(x)@, final(x)@, xv),
{
    solve_factored(mat, mv, false, x, xv, parents, pv);
}

/// Solves in place with tree-sparse factors stored by rows.
pub fn ltdl_solve_mapped<S: Scalar>(
    mat: &[S],
    mv: MatView,
    x: &mut [S],
    xv: VecView,
    parents: &[u32],
    pv: VecView,
)
    requires
        mv.fits(mat@.len() as int),
        mv.nrows == mv.ncols,
        xv.fits(old(x)@.len() as int),
        xv.len == mv.nrows,
        pv.fits(parents@.len() as int),
        pv.len == mv.nrows,
        parents_in_range(vec_of(parents@, pv)),
    ensures
        vec_of(final(x)@, xv) == ltdl_solve(
            factors_of(mat@, mv, true),
            vec_of(parents@, pv),
            vec_of(old(x)@, xv),
        ),
        same_outside_vec(old(x)@, final(x)@, xv),
{
    solve_factored(mat, mv, true, x, xv, parents, pv);
}

// ---- exact arithmetic ----

/// The sum of `f` over `lo..hi`.
pub open spec fn sum_over(f: spec_fn(int) -> real, lo: int, hi: int) -> real
    decreases hi - lo,
{
    if hi <= lo {
        0real
    } else {
        sum_over(f, lo, hi - 1) + f(hi - 1)
    }
}

proof fn lemma_sum_same(f: spec_fn(int) -> real, g: spec_fn(int) -> real, lo: int, hi: int)
    requires
        forall|i: int| lo <= i < hi ==> #[trigger] f(i) == g(i),
    ensures
        sum_over(f, lo, hi) == sum_over(g, lo, hi),
    decreases hi - lo,
{
    if lo < hi {
        lemma_sum_same(f, g, lo, hi - 1);
    }
}

/// Two sums that differ in one term.
proof fn lemma_sum_change(
    f: spec_fn(int) -> real,
    g: spec_fn(int) -> real,
    lo: int,
    hi: int,
    c: int,
)
    requires
        lo <= c < hi,
        forall|i: int| lo <= i < hi && i != c ==> #[trigger] f(i) == g(i),
    ensures
        sum_over(f, lo, hi) == sum_over(g, lo, hi) + f(c) - g(c),
    decreases hi - lo,
{
    if c == hi - 1 {
        lemma_sum_same(f, g, lo, hi - 1);
    } else {
        lemma_sum_change(f, g, lo, hi - 1, c);
    }
}

proof fn lemma_sum_first(f: spec_fn(int) -> real, lo: int, hi: int)
    requires
        lo < hi,
    ensures
        sum_over(f, lo, hi) == f(lo) + sum_over(f, lo + 1, hi),
    decreases hi - lo,
{
    if lo + 1 < hi {
        lemma_sum_first(f, lo, hi - 1);
    } else {
        assert(sum_over(f, lo, lo) == 0real);
        assert(sum_over(f, lo + 1, hi) == 0real);
    }
}

proof fn lemma_sum_zero(f: spec_fn(int) -> real, lo: int, hi: int)
    requires
        forall|i: int| lo <= i < hi ==> #[trigger] f(i) == 0real,
    ensures
        sum_over(f, lo, hi) == 0real,
    decreases hi - lo,
{
    if lo < hi {
        lemma_sum_zero(f, lo, hi - 1);
    }
}

/// Parents come before their children.
pub open spec fn is_forest(parents: Seq<u32>) -> bool {
    forall|i: int|
        0 <= i < parents.len() && #[trigger] parents[i] != NO_PARENT ==> parents[i] < i
}

/// Whether `j` is `s` or an ancestor of `s`.
pub open spec fn on_chain(parents: Seq<u32>, s: u32, j: int) -> bool
    decreases s,
{
    if s == NO_PARENT || s >= parents.len() {
        false
    } else {
        j == s || (parents[s as int] < s && on_chain(parents, parents[s as int], j))
    }
}

/// Entry `(i, j)` of `L`.
pub open spec fn l_entry<S: Scalar>(
    v: spec_fn(S) -> real,
    m: Seq<Seq<S>>,
    parents: Seq<u32>,
    i: int,
    j: int,
) -> real {
    if i == j {
        1real
    } else if on_chain(parents, parents[i], j) {
        v(m[i][j])
    } else {
        0real
    }
}

/// Entry `i` of `L x`.
pub open spec fn l_times<S: Scalar>(
    v: spec_fn(S) -> real,
    m: Seq<Seq<S>>,
    parents: Seq<u32>,
    x: Seq<S>,
    i: int,
) -> real {
    sum_over(|j: int| l_entry(v, m, parents, i, j) * v(x[j]), 0, x.len() as int)
}

/// Entry `j` of `Lᵀ D L x`.
pub open spec fn ltdl_times<S: Scalar>(
    v: spec_fn(S) -> real,
    m: Seq<Seq<S>>,
    parents: Seq<u32>,
    x: Seq<S>,
    j: int,
) -> real {
    sum_over(
        |i: int|
            l_entry(v, m, parents, i, j) * (v(m[i][i]) * l_times(v, m, parents, x, i)),
        0,
        x.len() as int,
    )
}

proof fn lemma_chain_below(parents: Seq<u32>, s: u32, j: int)
    requires
        on_chain(parents, s, j),
    ensures
        s != NO_PARENT,
        0 <= j <= s < parents.len(),
    decreases s,
{
    if j != s {
        lemma_chain_below(parents, parents[s as int], j);
    }
}

/// The upward walk takes `m[i][j] xi` away at every `j` on the chain.
proof fn lemma_up_chain<S: Scalar>(
    v: spec_fn(S) -> real,
    m: Seq<Seq<S>>,
    parents: Seq<u32>,
    x: Seq<S>,
    i: int,
    xi: S,
    s: u32,
    fuel: nat,
    j: int,
)
    requires
        exact(v),
        is_forest(parents),
        x.len() == parents.len(),
        s != NO_PARENT ==> s < x.len() && s < fuel,
        0 <= j < x.len(),
    ensures
        up_chain(m, parents, x, i, xi, s, fuel).len() == x.len(),
        v(up_chain(m, parents, x, i, xi, s, fuel)[j]) == v(x[j]) - (if on_chain(parents, s, j) {
            v(m[i][j]) * v(xi)
        } else {
            0real
        }),
        !on_chain(parents, s, j) ==> up_chain(m, parents, x, i, xi, s, fuel)[j] == x[j],
    decreases fuel,
{
    if fuel > 0 && s != NO_PARENT {
        let x1 = x.update(s as int, x[s as int].minus_spec(m[i][s as int].times_spec(xi)));
        let p = parents[s as int];
        lemma_up_chain(v, m, parents, x1, i, xi, p, (fuel - 1) as nat, j);
        if on_chain(parents, p, j) {
            lemma_chain_below(parents, p, j);
        }
    }
}

/// The downward walk takes the whole row of ancestors away.
proof fn lemma_down_chain<S: Scalar>(
    v: spec_fn(S) -> real,
    m: Seq<Seq<S>>,
    parents: Seq<u32>,
    x: Seq<S>,
    i: int,
    acc: S,
    s: u32,
    fuel: nat,
)
    requires
        exact(v),
        is_forest(parents),
        x.len() == parents.len(),
        s != NO_PARENT ==> s < x.len() && s < fuel,
    ensures
        v(down_chain(m, parents, x, i, acc, s, fuel)) == v(acc) - sum_over(
            |j: int|
                if on_chain(parents, s, j) {
                    v(m[i][j]) * v(x[j])
                } else {
                    0real
                },
            0,
            x.len() as int,
        ),
    decreases fuel,
{
    let f = |j: int|
        if on_chain(parents, s, j) {
            v(m[i][j]) * v(x[j])
        } else {
            0real
        };
    let n = x.len() as int;
    if fuel > 0 && s != NO_PARENT {
        let p = parents[s as int];
        let acc1 = acc.minus_spec(m[i][s as int].times_spec(x[s as int]));
        lemma_down_chain(v, m, parents, x, i, acc1, p, (fuel - 1) as nat);
        let g = |j: int|
            if on_chain(parents, p, j) {
                v(m[i][j]) * v(x[j])
            } else {
                0real
            };
        if on_chain(parents, p, s as int) {
            lemma_chain_below(parents, p, s as int);
        }
        assert(g(s as int) == 0real);
        assert(f(s as int) == v(m[i][s as int]) * v(x[s as int]));
        lemma_sum_change(f, g, 0, n, s as int);
    } else {
        assert forall|j: int| 0 <= j < n implies #[trigger] f(j) == 0real by {
            if on_chain(parents, s, j) {
                lemma_chain_below(parents, s, j);
            }
        }
        lemma_sum_zero(f, 0, n);
    }
}

/// What is left of the right-hand side at `j` after the last `n - lo` degrees
/// of freedom, for the result `z` of the whole upward solve.
spec fn still_owed<S: Scalar>(
    v: spec_fn(S) -> real,
    m: Seq<Seq<S>>,
    parents: Seq<u32>,
    z: Seq<S>,
    j: int,
    lo: int,
) -> real {
    sum_over(
        |i: int|
            if on_chain(parents, parents[i], j) {
                v(m[i][j]) * v(z[i])
            } else {
                0real
            },
        lo,
        z.len() as int,
    )
}

/// Entries are final once the walk has passed them.
proof fn lemma_up_settled<S: Scalar>(
    v: spec_fn(S) -> real,
    m: Seq<Seq<S>>,
    parents: Seq<u32>,
    b: Seq<S>,
    k: int,
    k2: int,
    i: int,
)
    requires
        exact(v),
        is_forest(parents),
        b.len() == parents.len(),
        0 <= k <= k2 <= b.len(),
        b.len() - k - 1 <= i < b.len(),
        0 <= i,
    ensures
        ltdl_up(m, parents, b, k2)[i] == ltdl_up(m, parents, b, k)[i],
    decreases k2 - k,
{
    lemma_forest_in_range(parents);
    if k < k2 {
        lemma_up_settled(v, m, parents, b, k, k2 - 1, i);
        let p = ltdl_up(m, parents, b, k2 - 1);
        let r = b.len() - k2;
        lemma_ltdl_len(m, parents, b, k2 - 1);
        lemma_up_chain(v, m, parents, p, r, p[r], parents[r], ltdl_walk(b.len() as int), i);
        if on_chain(parents, parents[r], i) {
            lemma_chain_below(parents, parents[r], i);
        }
    }
}

proof fn lemma_forest_in_range(parents: Seq<u32>)
    requires
        is_forest(parents),
    ensures
        parents_in_range(parents),
{
}

proof fn lemma_up<S: Scalar>(
    v: spec_fn(S) -> real,
    m: Seq<Seq<S>>,
    parents: Seq<u32>,
    b: Seq<S>,
    k: int,
    j: int,
)
    requires
        exact(v),
        is_forest(parents),
        b.len() == parents.len(),
        0 <= k <= b.len(),
        0 <= j < b.len(),
    ensures
        ({
            let z = ltdl_up(m, parents, b, b.len() as int);
            v(ltdl_up(m, parents, b, k)[j]) == v(b[j]) - still_owed(
                v,
                m,
                parents,
                z,
                j,
                b.len() - k,
            )
        }),
    decreases k,
{
    lemma_forest_in_range(parents);
    let n = b.len() as int;
    let z = ltdl_up(m, parents, b, n);
    lemma_ltdl_len(m, parents, b, n);
    if k > 0 {
        lemma_up(v, m, parents, b, k - 1, j);
        let p = ltdl_up(m, parents, b, k - 1);
        let i = n - k;
        lemma_ltdl_len(m, parents, b, k - 1);
        lemma_up_settled(v, m, parents, b, k - 1, n, i);
        lemma_up_chain(v, m, parents, p, i, p[i], parents[i], ltdl_walk(n), j);
        let f = |i: int|
            if on_chain(parents, parents[i], j) {
                v(m[i][j]) * v(z[i])
            } else {
                0real
            };
        lemma_sum_first(f, i, n);
    }
}

proof fn lemma_down_settled<S: Scalar>(
    m: Seq<Seq<S>>,
    parents: Seq<u32>,
    z: Seq<S>,
    k: int,
    k2: int,
    i: int,
)
    requires
        parents_in_range(parents),
        z.len() == parents.len(),
        0 <= k <= k2 <= z.len(),
        0 <= i < z.len(),
        i < k || i >= k2,
    ensures
        ltdl_down(m, parents, z, k2)[i] == ltdl_down(m, parents, z, k)[i],
    decreases k2 - k,
{
    if k < k2 {
        lemma_down_settled(m, parents, z, k, k2 - 1, i);
        lemma_ltdl_len(m, parents, z, k2 - 1);
    }
}

proof fn lemma_down<S: Scalar>(
    v: spec_fn(S) -> real,
    m: Seq<Seq<S>>,
    parents: Seq<u32>,
    z: Seq<S>,
    i: int,
)
    requires
        exact(v),
        is_forest(parents),
        z.len() == parents.len(),
        0 <= i < z.len(),
    ensures
        l_times(v, m, parents, ltdl_down(m, parents, z, z.len() as int), i) == v(z[i]),
{
    lemma_forest_in_range(parents);
    let n = z.len() as int;
    let x = ltdl_down(m, parents, z, n);
    let p = ltdl_down(m, parents, z, i);
    lemma_ltdl_len(m, parents, z, n);
    lemma_ltdl_len(m, parents, z, i);
    lemma_down_settled(m, parents, z, 0, i, i);
    lemma_down_settled(m, parents, z, i + 1, n, i);
    lemma_down_chain(v, m, parents, p, i, p[i], parents[i], ltdl_walk(n));
    let f = |j: int|
        if on_chain(parents, parents[i], j) {
            v(m[i][j]) * v(p[j])
        } else {
            0real
        };
    let g = |j: int| l_entry(v, m, parents, i, j) * v(x[j]);
    assert(v(x[i]) == v(z[i]) - sum_over(f, 0, n));
    assert forall|j: int| 0 <= j < n && j != i implies #[trigger] g(j) == f(j) by {
        if on_chain(parents, parents[i], j) {
            lemma_chain_below(parents, parents[i], j);
            lemma_down_settled(m, parents, z, i, n, j);
        }
    }
    if on_chain(parents, parents[i], i) {
        lemma_chain_below(parents, parents[i], i);
    }
    assert(f(i) == 0real);
    assert(g(i) == v(x[i]));
    lemma_sum_change(g, f, 0, n, i);
}

/// In exact arithmetic, and without zeros on the diagonal, the solution solves
/// `Lᵀ D L x = b`, for every forest.
pub proof fn ltdl_solve_inverts<S: Scalar>(
    v: spec_fn(S) -> real,
    m: Seq<Seq<S>>,
    parents: Seq<u32>,
    b: Seq<S>,
    j: int,
)
    requires
        exact(v),
        is_forest(parents),
        b.len() == parents.len(),
        forall|i: int| 0 <= i < b.len() ==> v(#[trigger] m[i][i]) != 0real,
        0 <= j < b.len(),
    ensures
        ltdl_times(v, m, parents, ltdl_solve(m, parents, b), j) == v(b[j]),
{
    lemma_forest_in_range(parents);
    let n = b.len() as int;
    let up = ltdl_up(m, parents, b, n);
    let z = ltdl_diag(m, up);
    let x = ltdl_solve(m, parents, b);
    lemma_ltdl_len(m, parents, b, n);
    lemma_ltdl_len(m, parents, z, n);
    lemma_up(v, m, parents, b, n, j);
    let f = |i: int|
        if on_chain(parents, parents[i], j) {
            v(m[i][j]) * v(up[i])
        } else {
            0real
        };
    let g = |i: int| l_entry(v, m, parents, i, j) * (v(m[i][i]) * l_times(v, m, parents, x, i));
    assert forall|i: int| 0 <= i < n implies #[trigger] g(i) == l_entry(v, m, parents, i, j) * v(
        up[i],
    ) by {
        lemma_down(v, m, parents, z, i);
        let d = v(m[i][i]);
        let u = v(up[i]);
        assert(d != 0real);
        assert(v(z[i]) == u / d);
        assert(d * (u / d) == u) by (nonlinear_arith)
            requires
                d != 0real,
        ;
    }
    if on_chain(parents, parents[j], j) {
        lemma_chain_below(parents, parents[j], j);
    }
    assert(f(j) == 0real);
    assert(g(j) == v(up[j])) by {
        assert(g(j) == 1real * v(up[j]));
    }
    assert forall|i: int| 0 <= i < n && i != j implies #[trigger] g(i) == f(i) by {
        assert(0real * v(up[i]) == 0real) by (nonlinear_arith);
    }
    lemma_sum_change(g, f, 0, n, j);
}

} // verus!
