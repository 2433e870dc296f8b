//! In exact arithmetic the factorization of a nonsingular matrix meets no zero
//! pivot.
use super::lu::{
    apply_pivots, lemma_apply_pivots_len, lemma_lu_square, lemma_pivot_bounds, lu_factors, lu_pivots,
    lu_pivots_in_range, lu_solve, pivot_of, pivots_in_range, square, swap_rows, triangular_solve,
};
use super::lu_exact::{
    decomposed, entry_ok, factor_dot, is_pow2, lemma_decomposed, lemma_rows_final, lu_solve_inverts,
    min_int, regular, triangular_solve_inverts,
};
use crate::exact::{exact, lemma_factor, lemma_zero, ordered, row_dot};
use crate::real_vectors::lemma_right;
use crate::scalar::{Scalar, abs_spec};
use vstd::prelude::*;

verus! {

/// Entries `lo..hi` of a row times those of a vector of real numbers.
pub open spec fn applied<S>(
    v: spec_fn(S) -> real,
    row: Seq<S>,
    x: Seq<real>,
    lo: int,
    hi: int,
) -> real
    decreases hi - lo,
{
    if hi <= lo {
        0real
    } else {
        applied(v, row, x, lo, hi - 1) + v(row[hi - 1]) * x[hi - 1]
    }
}

/// The matrix takes `x` to zero.
pub open spec fn takes_to_zero<S>(v: spec_fn(S) -> real, a: Seq<Seq<S>>, x: Seq<real>) -> bool {
    forall|r: int| 0 <= r < a.len() ==> applied(v, #[trigger] a[r], x, 0, x.len() as int) == 0real
}

/// The matrix takes no vector to zero but zero itself.
pub open spec fn nonsingular<S>(v: spec_fn(S) -> real, a: Seq<Seq<S>>) -> bool {
    forall|x: Seq<real>|
        x.len() == a.len() && #[trigger] takes_to_zero(v, a, x) ==> forall|i: int|
            0 <= i < x.len() ==> x[i] == 0real
}

// ---- products ----

proof fn lemma_applied_same<S>(
    v: spec_fn(S) -> real,
    row: Seq<S>,
    x: Seq<real>,
    y: Seq<real>,
    lo: int,
    hi: int,
)
    requires
        forall|j: int| lo <= j < hi ==> x[j] == y[j],
    ensures
        applied(v, row, x, lo, hi) == applied(v, row, y, lo, hi),
    decreases hi - lo,
{
    if lo < hi {
        lemma_applied_same(v, row, x, y, lo, hi - 1);
    }
}

proof fn lemma_applied_first<S>(
    v: spec_fn(S) -> real,
    row: Seq<S>,
    x: Seq<real>,
    lo: int,
    hi: int,
)
    requires
        lo < hi,
    ensures
        applied(v, row, x, lo, hi) == v(row[lo]) * x[lo] + applied(v, row, x, lo + 1, hi),
    decreases hi - lo,
{
    if lo + 1 < hi {
        lemma_applied_first(v, row, x, lo, hi - 1);
    } else {
        assert(applied(v, row, x, lo, lo) == 0real);
        assert(applied(v, row, x, lo + 1, hi) == 0real);
    }
}

proof fn lemma_applied_zero<S>(
    v: spec_fn(S) -> real,
    row: Seq<S>,
    x: Seq<real>,
    lo: int,
    hi: int,
)
    requires
        forall|j: int| lo <= j < hi ==> x[j] == 0real,
    ensures
        applied(v, row, x, lo, hi) == 0real,
    decreases hi - lo,
{
    if lo < hi {
        lemma_applied_zero(v, row, x, lo, hi - 1);
        assert(x[hi - 1] == 0real);
        lemma_zero(v(row[hi - 1]));
    }
}

/// The weighted sum of the first `t` upper rows, as row `r` has it.
spec fn blended<S>(
    v: spec_fn(S) -> real,
    m: Seq<Seq<S>>,
    x: Seq<real>,
    r: int,
    t: int,
    q: int,
) -> real
    decreases t,
{
    if t <= 0 {
        0real
    } else {
        blended(v, m, x, r, t - 1, q) + v(m[r][t - 1]) * applied(v, m[t - 1], x, t - 1, q)
    }
}

proof fn lemma_blended_none<S>(
    v: spec_fn(S) -> real,
    m: Seq<Seq<S>>,
    x: Seq<real>,
    r: int,
    t: int,
    q: int,
)
    requires
        forall|i: int| 0 <= i < t ==> #[trigger] applied(v, m[i], x, i, q) == 0real,
    ensures
        blended(v, m, x, r, t, q) == 0real,
    decreases t,
{
    if t > 0 {
        lemma_blended_none(v, m, x, r, t - 1, q);
        assert(applied(v, m[t - 1], x, t - 1, q) == 0real);
        lemma_zero(v(m[r][t - 1]));
    }
}

proof fn lemma_blended_step<S>(
    v: spec_fn(S) -> real,
    m: Seq<Seq<S>>,
    x: Seq<real>,
    r: int,
    t: int,
    q: int,
)
    requires
        0 <= t,
        0 <= q,
    ensures
        blended(v, m, x, r, t, q + 1) == blended(v, m, x, r, t, q) + factor_dot(
            v,
            m,
            r,
            q,
            min_int(t, q + 1),
        ) * x[q],
    decreases t,
{
    let xq = x[q];
    if t > 0 {
        lemma_blended_step(v, m, x, r, t - 1, q);
        let j = t - 1;
        let l = v(m[r][j]);
        if j <= q {
            let d0 = applied(v, m[j], x, j, q);
            let u = v(m[j][q]);
            assert(applied(v, m[j], x, j, q + 1) == d0 + u * xq);
            let f = factor_dot(v, m, r, q, min_int(j, q + 1));
            assert(min_int(j, q + 1) == j);
            assert(min_int(t, q + 1) == j + 1);
            assert(factor_dot(v, m, r, q, j + 1) == f + l * u);
            lemma_factor(l, d0, u * xq);
            assert(l * (u * xq) == (l * u) * xq) by (nonlinear_arith);
            lemma_right(f, l * u, xq);
        } else {
            assert(applied(v, m[j], x, j, q + 1) == 0real);
            assert(applied(v, m[j], x, j, q) == 0real);
            lemma_zero(l);
            assert(min_int(j, q + 1) == min_int(t, q + 1));
        }
    } else {
        assert(factor_dot(v, m, r, q, min_int(t, q + 1)) == 0real);
        lemma_zero(xq);
    }
}

/// A row of the matrix is made of the upper rows after `k` steps.
proof fn lemma_row_of_factors<S>(
    v: spec_fn(S) -> real,
    b: Seq<Seq<S>>,
    m: Seq<Seq<S>>,
    x: Seq<real>,
    n: int,
    k: int,
    r: int,
    q: int,
)
    requires
        decomposed(v, b, m, n, k),
        0 <= k <= n,
        0 <= r < n,
        0 <= q <= n,
    ensures
        applied(v, b[r], x, 0, q) == blended(v, m, x, r, min_int(r, k), q) + applied(
            v,
            m[r],
            x,
            min_int(r, k),
            q,
        ),
    decreases q,
{
    let w = min_int(r, k);
    if q > 0 {
        let c = q - 1;
        lemma_row_of_factors(v, b, m, x, n, k, r, c);
        lemma_blended_step(v, m, x, r, w, c);
        assert(entry_ok(v, b, m, k, r, c));
        if c < w {
            assert(min_int(w, c + 1) == c + 1);
            assert(applied(v, m[r], x, w, q) == 0real);
            assert(applied(v, m[r], x, w, c) == 0real);
        } else {
            assert(min_int(w, c + 1) == w);
            lemma_right(factor_dot(v, m, r, c, w), v(m[r][c]), x[c]);
        }
    } else {
        assert forall|i: int| 0 <= i < w implies #[trigger] applied(v, m[i], x, i, 0) == 0real by {}
        lemma_blended_none(v, m, x, r, w, 0);
    }
}

// ---- a vector that is taken to zero ----

/// One in entry `k`, zero after it, and entries `i..k` such that rows `i..k` of the
/// upper factor take the vector to zero.
spec fn null_tail<S>(v: spec_fn(S) -> real, m: Seq<Seq<S>>, n: int, k: int, i: int) -> Seq<real>
    decreases k - i,
{
    if k <= i {
        Seq::new(
            n as nat,
            |j: int|
                if j == k {
                    1real
                } else {
                    0real
                },
        )
    } else {
        let x = null_tail(v, m, n, k, i + 1);
        x.update(i, (0real - applied(v, m[i], x, i + 1, n)) / v(m[i][i]))
    }
}

proof fn lemma_null_tail<S>(v: spec_fn(S) -> real, m: Seq<Seq<S>>, n: int, k: int, i: int)
    requires
        0 <= i <= k < n,
        forall|j: int| 0 <= j < k ==> v(#[trigger] m[j][j]) != 0real,
    ensures
        ({
            let x = null_tail(v, m, n, k, i);
            &&& x.len() == n
            &&& x[k] == 1real
            &&& forall|j: int| k < j < n ==> #[trigger] x[j] == 0real
            &&& forall|j: int| i <= j < k ==> #[trigger] applied(v, m[j], x, j, n) == 0real
        }),
    decreases k - i,
{
    if i < k {
        lemma_null_tail(v, m, n, k, i + 1);
        let x = null_tail(v, m, n, k, i + 1);
        let y = null_tail(v, m, n, k, i);
        assert forall|j: int| i <= j < k implies #[trigger] applied(v, m[j], y, j, n) == 0real by {
            if j == i {
                let d = v(m[i][i]);
                let s = applied(v, m[i], x, i + 1, n);
                assert(v(m[i][i]) != 0real);
                lemma_applied_first(v, m[i], y, i, n);
                lemma_applied_same(v, m[i], x, y, i + 1, n);
                assert(d * ((0real - s) / d) == 0real - s) by (nonlinear_arith)
                    requires
                        d != 0real,
                ;
            } else {
                assert(applied(v, m[j], x, j, n) == 0real);
                lemma_applied_same(v, m[j], x, y, j, n);
            }
        }
    }
}

/// No entry of the column is larger than the pivot.
proof fn lemma_pivot_is_largest<S: Scalar>(
    v: spec_fn(S) -> real,
    a: Seq<Seq<S>>,
    k: int,
    i: int,
    r: int,
)
    requires
        exact(v),
        ordered(v),
        0 <= k <= r < i,
    ensures
        v(abs_spec(a[r][k])) <= v(abs_spec(a[pivot_of(a, k, i)][k])),
    decreases i - k,
{
    if i > k + 1 {
        if r < i - 1 {
            lemma_pivot_is_largest(v, a, k, i - 1, r);
        } else {
            lemma_pivot_is_largest(v, a, k, i - 1, k);
        }
    }
}

proof fn lemma_zero_column<S: Scalar>(
    v: spec_fn(S) -> real,
    a: Seq<Seq<S>>,
    k: int,
    n: int,
    r: int,
)
    requires
        exact(v),
        ordered(v),
        0 <= k <= r < n,
        v(a[pivot_of(a, k, n)][k]) == 0real,
    ensures
        v(a[r][k]) == 0real,
{
    lemma_pivot_is_largest(v, a, k, n, r);
    let p = a[pivot_of(a, k, n)][k];
    assert(v(abs_spec(p)) == 0real);
}

/// Row exchanges do not change which vectors are taken to zero.
proof fn lemma_exchanged_back<S>(
    v: spec_fn(S) -> real,
    a: Seq<Seq<S>>,
    x: Seq<real>,
    pivots: Seq<u32>,
    k: int,
)
    requires
        pivots_in_range(pivots),
        pivots.len() == a.len(),
        0 <= k <= a.len(),
        takes_to_zero(v, apply_pivots(a, pivots, k), x),
    ensures
        takes_to_zero(v, a, x),
    decreases k,
{
    if k > 0 {
        let a1 = apply_pivots(a, pivots, k - 1);
        let a2 = apply_pivots(a, pivots, k);
        lemma_apply_pivots_len(a, pivots, k - 1);
        lemma_apply_pivots_len(a, pivots, k);
        let i = k - 1;
        let j = pivots[k - 1] as int;
        assert forall|r: int| 0 <= r < a1.len() implies applied(
            v,
            #[trigger] a1[r],
            x,
            0,
            x.len() as int,
        ) == 0real by {
            let s = if r == i {
                j
            } else if r == j {
                i
            } else {
                r
            };
            assert(a2[s] == a1[r]);
            assert(applied(v, a2[s], x, 0, x.len() as int) == 0real);
        }
        lemma_exchanged_back(v, a, x, pivots, k - 1);
    }
}

// ---- pivots ----

proof fn lemma_pivot_step<S: Scalar>(v: spec_fn(S) -> real, a: Seq<Seq<S>>, n: int, k: int)
    requires
        exact(v),
        ordered(v),
        square(a, n),
        n <= u32::MAX,
        nonsingular(v, a),
        0 <= k < n,
        forall|i: int| 0 <= i < k ==> v(#[trigger] lu_factors(a, n)[i][i]) != 0real,
    ensures
        v(lu_factors(a, n)[k][k]) != 0real,
{
    let m = lu_factors(a, k);
    let p = pivot_of(m, k, n);
    lemma_lu_square(a, n, k);
    lemma_pivot_bounds(m, k, n);
    lemma_rows_final(a, n, k + 1, n, k);
    assert(lu_factors(a, k + 1)[k] == swap_rows(m, k, p)[k]);
    assert(lu_factors(a, n)[k] == m[p]);
    if v(m[p][k]) == 0real {
        assert forall|i: int| 0 <= i < k implies v(#[trigger] m[i][i]) != 0real by {
            lemma_rows_final(a, n, k, n, i);
            assert(v(lu_factors(a, n)[i][i]) != 0real);
        }
        let x = null_tail(v, m, n, k, 0);
        lemma_null_tail(v, m, n, k, 0);
        lemma_decomposed(v, a, n, k);
        let b = apply_pivots(a, lu_pivots(a), k);
        assert forall|r: int| 0 <= r < b.len() implies applied(v, #[trigger] b[r], x, 0, n)
            == 0real by {
            let w = min_int(r, k);
            lemma_row_of_factors(v, b, m, x, n, k, r, n);
            assert forall|i: int| 0 <= i < w implies #[trigger] applied(v, m[i], x, i, n)
                == 0real by {}
            lemma_blended_none(v, m, x, r, w, n);
            if r < k {
                assert(applied(v, m[r], x, r, n) == 0real);
            } else {
                lemma_applied_first(v, m[r], x, k, n);
                lemma_applied_zero(v, m[r], x, k + 1, n);
                lemma_zero_column(v, m, k, n, r);
                lemma_zero(x[k]);
            }
        }
        assert(takes_to_zero(v, b, x));
        lu_pivots_in_range(a);
        lemma_exchanged_back(v, a, x, lu_pivots(a), k);
        assert(x[k] == 0real);
        assert(false);
    }
}

proof fn lemma_pivots<S: Scalar>(v: spec_fn(S) -> real, a: Seq<Seq<S>>, n: int, k: int)
    requires
        exact(v),
        ordered(v),
        square(a, n),
        n <= u32::MAX,
        nonsingular(v, a),
        0 <= k <= n,
    ensures
        forall|i: int| 0 <= i < k ==> v(#[trigger] lu_factors(a, n)[i][i]) != 0real,
    decreases k,
{
    if k > 0 {
        lemma_pivots(v, a, n, k - 1);
        lemma_pivot_step(v, a, n, k - 1);
    }
}

/// In exact arithmetic the factorization of a nonsingular matrix meets no zero
/// pivot.
pub proof fn nonsingular_matrices_have_pivots<S: Scalar>(
    v: spec_fn(S) -> real,
    a: Seq<Seq<S>>,
    n: int,
)
    requires
        exact(v),
        ordered(v),
        square(a, n),
        n <= u32::MAX,
        nonsingular(v, a),
    ensures
        regular(v, a),
{
    lemma_pivots(v, a, n, n);
}

/// In exact arithmetic both solves, the left-to-right one and the one with a power
/// of two of lanes, solve `a x = b` for every nonsingular matrix.
pub proof fn nonsingular_systems_are_solved<S: Scalar>(
    v: spec_fn(S) -> real,
    a: Seq<Seq<S>>,
    b: Seq<S>,
    n: int,
    lanes: int,
)
    requires
        exact(v),
        ordered(v),
        square(a, n),
        n <= u32::MAX,
        b.len() == n,
        is_pow2(lanes),
        n <= lanes,
        nonsingular(v, a),
    ensures
        forall|r: int|
            0 <= r < n ==> row_dot(
                v,
                a[r],
                lu_solve(lu_factors(a, n), lu_pivots(a), b),
                0,
                n,
            ) == #[trigger] v(b[r]),
        forall|r: int|
            0 <= r < n ==> row_dot(
                v,
                a[r],
                triangular_solve(lu_factors(a, n), apply_pivots(b, lu_pivots(a), n), lanes),
                0,
                n,
            ) == #[trigger] v(b[r]),
{
    nonsingular_matrices_have_pivots(v, a, n);
    lu_solve_inverts(v, a, b, n);
    triangular_solve_inverts(v, a, b, n, lanes);
}

} // verus!
