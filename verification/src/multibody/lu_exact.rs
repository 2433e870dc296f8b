//! In exact arithmetic the factorization and its solves invert the matrix.
use super::lu::{
    apply_pivots, backward, backward_serial, eliminate, eliminate_row, forward, forward_serial,
    lemma_apply_pivots_len, lemma_backward_len, lemma_backward_serial_len, lemma_forward_len,
    lemma_forward_serial_len, lemma_lu_square, lemma_pivot_bounds, lower_products, lu_factors,
    lu_pivots, lu_pivots_in_range, lu_solve, pivot_of, pivots_in_range, residual, square, swap_rows,
    tree_sum, triangular_solve, upper_products,
};
use crate::exact::{
    exact, lemma_row_dot_congruent, lemma_row_dot_first, real_sum, row_dot,
};
use crate::scalar::Scalar;
use vstd::prelude::*;

verus! {

/// Row `r` of the lower factor times column `c` of the upper one, the first
/// `m` terms.
pub open spec fn factor_dot<S>(v: spec_fn(S) -> real, a: Seq<Seq<S>>, r: int, c: int, m: int) -> real
    decreases m,
{
    if m <= 0 {
        0real
    } else {
        factor_dot(v, a, r, c, m - 1) + v(a[r][m - 1]) * v(a[m - 1][c])
    }
}

proof fn lemma_factor_dot_congruent<S>(
    v: spec_fn(S) -> real,
    a: Seq<Seq<S>>,
    r: int,
    a2: Seq<Seq<S>>,
    r2: int,
    c: int,
    m: int,
)
    requires
        forall|j: int| 0 <= j < m ==> a[r][j] == a2[r2][j],
        forall|j: int| 0 <= j < m ==> a[j][c] == a2[j][c],
    ensures
        factor_dot(v, a, r, c, m) == factor_dot(v, a2, r2, c, m),
    decreases m,
{
    if m > 0 {
        lemma_factor_dot_congruent(v, a, r, a2, r2, c, m - 1);
    }
}

pub open spec fn min_int(a: int, b: int) -> int {
    if a < b {
        a
    } else {
        b
    }
}

/// Entry `(r, c)` of `b` is the product of the partial factors in `m`.
pub open spec fn entry_ok<S>(
    v: spec_fn(S) -> real,
    b: Seq<Seq<S>>,
    m: Seq<Seq<S>>,
    k: int,
    r: int,
    c: int,
) -> bool {
    let w = min_int(r, k);
    if c < w {
        v(b[r][c]) == factor_dot(v, m, r, c, c + 1)
    } else {
        v(b[r][c]) == factor_dot(v, m, r, c, w) + v(m[r][c])
    }
}

pub open spec fn decomposed<S>(
    v: spec_fn(S) -> real,
    b: Seq<Seq<S>>,
    m: Seq<Seq<S>>,
    n: int,
    k: int,
) -> bool {
    forall|r: int, c: int| 0 <= r < n && 0 <= c < n ==> #[trigger] entry_ok(v, b, m, k, r, c)
}

proof fn lemma_swap_keeps<S>(
    v: spec_fn(S) -> real,
    b: Seq<Seq<S>>,
    m: Seq<Seq<S>>,
    n: int,
    k: int,
    p: int,
)
    requires
        square(b, n),
        square(m, n),
        decomposed(v, b, m, n, k),
        0 <= k <= p < n,
    ensures
        decomposed(v, swap_rows(b, k, p), swap_rows(m, k, p), n, k),
{
    let b2 = swap_rows(b, k, p);
    let m2 = swap_rows(m, k, p);
    assert forall|r: int, c: int| 0 <= r < n && 0 <= c < n implies #[trigger] entry_ok(
        v,
        b2,
        m2,
        k,
        r,
        c,
    ) by {
        let s = if r == k {
            p
        } else if r == p {
            k
        } else {
            r
        };
        assert(entry_ok(v, b, m, k, s, c));
        let w = min_int(r, k);
        assert(b2[r] == b[s]);
        assert(m2[r] == m[s]);
        if c < w {
            lemma_factor_dot_congruent(v, m, s, m2, r, c, c + 1);
        } else {
            lemma_factor_dot_congruent(v, m, s, m2, r, c, w);
        }
    }
}

proof fn lemma_eliminate_keeps<S: Scalar>(
    v: spec_fn(S) -> real,
    b: Seq<Seq<S>>,
    m: Seq<Seq<S>>,
    n: int,
    k: int,
)
    requires
        exact(v),
        square(b, n),
        square(m, n),
        decomposed(v, b, m, n, k),
        0 <= k < n,
        v(m[k][k]) != 0real,
    ensures
        decomposed(v, b, eliminate(m, k), n, k + 1),
{
    let e = eliminate(m, k);
    assert forall|r: int, c: int| 0 <= r < n && 0 <= c < n implies #[trigger] entry_ok(
        v,
        b,
        e,
        k + 1,
        r,
        c,
    ) by {
        assert(entry_ok(v, b, m, k, r, c));
        if r <= k {
            assert(min_int(r, k) == r && min_int(r, k + 1) == r);
            if c < r {
                lemma_factor_dot_congruent(v, m, r, e, r, c, c + 1);
            } else {
                lemma_factor_dot_congruent(v, m, r, e, r, c, r);
            }
        } else {
            let pk = v(m[k][k]);
            let inv = crate::scalar::inv_spec(m[k][k]);
            assert(!m[k][k].same_spec(S::zero_spec()));
            assert(v(inv) == 1real / pk);
            let l = m[r][k].times_spec(inv);
            assert(e[r] == eliminate_row(m[r], m[k], k));
            assert(e[r][k] == l);
            assert(v(l) * pk == v(m[r][k])) by {
                let x = v(m[r][k]);
                assert((x * (1real / pk)) * pk == x) by (nonlinear_arith)
                    requires
                        pk != 0real,
                ;
            }
            if c < k {
                lemma_factor_dot_congruent(v, m, r, e, r, c, c + 1);
            } else if c == k {
                lemma_factor_dot_congruent(v, m, r, e, r, c, k);
                assert(factor_dot(v, e, r, c, k + 1) == factor_dot(v, e, r, c, k) + v(e[r][k]) * v(
                    e[k][c],
                ));
            } else {
                lemma_factor_dot_congruent(v, m, r, e, r, c, k);
                assert(factor_dot(v, e, r, c, k + 1) == factor_dot(v, e, r, c, k) + v(e[r][k]) * v(
                    e[k][c],
                ));
                assert(e[r][c] == m[r][c].minus_spec(l.times_spec(m[k][c])));
            }
        }
    }
}

/// Rows above step `k` are final.
pub(crate) proof fn lemma_rows_final<S: Scalar>(a: Seq<Seq<S>>, n: int, k: int, k2: int, i: int)
    requires
        square(a, n),
        0 <= i < k <= k2 <= n,
    ensures
        lu_factors(a, k)[i] == lu_factors(a, k2)[i],
    decreases k2 - k,
{
    if k < k2 {
        lemma_rows_final(a, n, k, k2 - 1, i);
        lemma_lu_square(a, n, k2 - 1);
        lemma_pivot_bounds(lu_factors(a, k2 - 1), k2 - 1, n);
    }
}

/// No pivot is zero.
pub open spec fn regular<S: Scalar>(v: spec_fn(S) -> real, a: Seq<Seq<S>>) -> bool {
    forall|i: int|
        0 <= i < a.len() ==> v(#[trigger] lu_factors(a, a.len() as int)[i][i]) != 0real
}

pub(crate) proof fn lemma_decomposed<S: Scalar>(v: spec_fn(S) -> real, a: Seq<Seq<S>>, n: int, k: int)
    requires
        exact(v),
        square(a, n),
        n <= u32::MAX,
        0 <= k <= n,
        forall|i: int| 0 <= i < k ==> v(#[trigger] lu_factors(a, n)[i][i]) != 0real,
    ensures
        square(apply_pivots(a, lu_pivots(a), k), n),
        decomposed(v, apply_pivots(a, lu_pivots(a), k), lu_factors(a, k), n, k),
    decreases k,
{
    lu_pivots_in_range(a);
    if k > 0 {
        lemma_decomposed(v, a, n, k - 1);
        lemma_lu_square(a, n, k - 1);
        let b = apply_pivots(a, lu_pivots(a), k - 1);
        let m = lu_factors(a, k - 1);
        let p = pivot_of(m, k - 1, n);
        lemma_pivot_bounds(m, k - 1, n);
        assert(lu_pivots(a)[k - 1] == p);
        lemma_swap_keeps(v, b, m, n, k - 1, p);
        let m2 = swap_rows(m, k - 1, p);
        let b2 = swap_rows(b, k - 1, p);
        assert(square(m2, n));
        assert(square(b2, n));
        lemma_rows_final(a, n, k, n, k - 1);
        assert(lu_factors(a, k)[k - 1] == m2[k - 1]);
        assert(v(lu_factors(a, n)[k - 1][k - 1]) != 0real);
        lemma_eliminate_keeps(v, b2, m2, n, k - 1);
    } else {
        assert forall|r: int, c: int| 0 <= r < n && 0 <= c < n implies #[trigger] entry_ok(
            v,
            a,
            a,
            0,
            r,
            c,
        ) by {
            assert(factor_dot(v, a, r, c, 0) == 0real);
        }
    }
}

/// `z` solves the unit lower triangular system with right-hand side `y`.
spec fn lower_solved<S>(v: spec_fn(S) -> real, m: Seq<Seq<S>>, y: Seq<S>, z: Seq<S>) -> bool {
    forall|i: int|
        0 <= i < y.len() ==> #[trigger] v(y[i]) == row_dot(v, m[i], z, 0, i) + v(z[i])
}

/// `x` solves the upper triangular system with right-hand side `z`.
spec fn upper_solved<S>(v: spec_fn(S) -> real, m: Seq<Seq<S>>, z: Seq<S>, x: Seq<S>) -> bool {
    forall|i: int|
        0 <= i < z.len() ==> #[trigger] v(z[i]) == row_dot(v, m[i], x, i, z.len() as int)
}

/// The weighted sum of the upper rows before row `r`.
spec fn mixed<S>(
    v: spec_fn(S) -> real,
    m: Seq<Seq<S>>,
    x: Seq<S>,
    r: int,
    t: int,
    q: int,
) -> real
    decreases t,
{
    if t <= 0 {
        0real
    } else {
        mixed(v, m, x, r, t - 1, q) + v(m[r][t - 1]) * row_dot(v, m[t - 1], x, t - 1, q)
    }
}

proof fn lemma_mixed_step<S>(
    v: spec_fn(S) -> real,
    m: Seq<Seq<S>>,
    x: Seq<S>,
    r: int,
    t: int,
    q: int,
)
    requires
        0 <= t,
        0 <= q,
    ensures
        mixed(v, m, x, r, t, q + 1) == mixed(v, m, x, r, t, q) + factor_dot(
            v,
            m,
            r,
            q,
            min_int(t, q + 1),
        ) * v(x[q]),
    decreases t,
{
    let xq = v(x[q]);
    if t > 0 {
        lemma_mixed_step(v, m, x, r, t - 1, q);
        let j = t - 1;
        let l = v(m[r][j]);
        if j <= q {
            let d0 = row_dot(v, m[j], x, j, q);
            let u = v(m[j][q]);
            assert(row_dot(v, m[j], x, j, q + 1) == d0 + u * xq);
            let f = factor_dot(v, m, r, q, min_int(j, q + 1));
            assert(min_int(j, q + 1) == j);
            assert(min_int(t, q + 1) == j + 1);
            assert(factor_dot(v, m, r, q, j + 1) == f + l * u);
            assert(l * (d0 + u * xq) == l * d0 + (l * u) * xq) by (nonlinear_arith);
            assert((f + l * u) * xq == f * xq + (l * u) * xq) by (nonlinear_arith);
        } else {
            assert(row_dot(v, m[j], x, j, q + 1) == 0real);
            assert(row_dot(v, m[j], x, j, q) == 0real);
            assert(l * 0real == 0real) by (nonlinear_arith);
            assert(min_int(j, q + 1) == min_int(t, q + 1));
        }
    } else {
        assert(factor_dot(v, m, r, q, min_int(t, q + 1)) == 0real);
        assert(0real * xq == 0real) by (nonlinear_arith);
    }
}

proof fn lemma_row_of_product<S>(
    v: spec_fn(S) -> real,
    b: Seq<Seq<S>>,
    m: Seq<Seq<S>>,
    x: Seq<S>,
    n: int,
    r: int,
    q: int,
)
    requires
        decomposed(v, b, m, n, n),
        0 <= r < n,
        0 <= q <= n,
    ensures
        row_dot(v, b[r], x, 0, q) == mixed(v, m, x, r, r, q) + row_dot(v, m[r], x, r, q),
    decreases q,
{
    if q > 0 {
        let c = q - 1;
        lemma_row_of_product(v, b, m, x, n, r, c);
        lemma_mixed_step(v, m, x, r, r, c);
        assert(entry_ok(v, b, m, n, r, c));
        assert(min_int(r, n) == r);
        let xc = v(x[c]);
        if c < r {
            assert(min_int(r, c + 1) == c + 1);
            assert(row_dot(v, m[r], x, r, q) == 0real);
            assert(row_dot(v, m[r], x, r, c) == 0real);
        } else {
            assert(min_int(r, c + 1) == r);
            let f = factor_dot(v, m, r, c, r);
            let u = v(m[r][c]);
            assert((f + u) * xc == f * xc + u * xc) by (nonlinear_arith);
        }
    } else {
        lemma_mixed_zero(v, m, x, r, r);
    }
}

proof fn lemma_mixed_zero<S>(v: spec_fn(S) -> real, m: Seq<Seq<S>>, x: Seq<S>, r: int, t: int)
    requires
        0 <= t,
    ensures
        mixed(v, m, x, r, t, 0) == 0real,
    decreases t,
{
    if t > 0 {
        lemma_mixed_zero(v, m, x, r, t - 1);
        assert(row_dot(v, m[t - 1], x, t - 1, 0) == 0real);
        let l = v(m[r][t - 1]);
        assert(l * 0real == 0real) by (nonlinear_arith);
    }
}

proof fn lemma_mixed_is_row<S>(
    v: spec_fn(S) -> real,
    m: Seq<Seq<S>>,
    x: Seq<S>,
    z: Seq<S>,
    n: int,
    r: int,
    t: int,
)
    requires
        upper_solved(v, m, z, x),
        z.len() == n,
        0 <= t <= n,
    ensures
        mixed(v, m, x, r, t, n) == row_dot(v, m[r], z, 0, t),
    decreases t,
{
    if t > 0 {
        lemma_mixed_is_row(v, m, x, z, n, r, t - 1);
        assert(v(z[t - 1]) == row_dot(v, m[t - 1], x, t - 1, n));
    }
}

/// Both triangular systems solved: the product of the factors is solved.
proof fn lemma_product_solved<S>(
    v: spec_fn(S) -> real,
    b: Seq<Seq<S>>,
    m: Seq<Seq<S>>,
    y: Seq<S>,
    z: Seq<S>,
    x: Seq<S>,
    n: int,
)
    requires
        decomposed(v, b, m, n, n),
        lower_solved(v, m, y, z),
        upper_solved(v, m, z, x),
        y.len() == n,
        z.len() == n,
    ensures
        forall|r: int| 0 <= r < n ==> row_dot(v, b[r], x, 0, n) == #[trigger] v(y[r]),
{
    assert forall|r: int| 0 <= r < n implies row_dot(v, b[r], x, 0, n) == #[trigger] v(y[r]) by {
        lemma_row_of_product(v, b, m, x, n, r, n);
        lemma_mixed_is_row(v, m, x, z, n, r, r);
        assert(v(z[r]) == row_dot(v, m[r], x, r, n));
    }
}

/// The exchanges act on rows and right-hand side alike.
proof fn lemma_unpermute<S>(
    v: spec_fn(S) -> real,
    a: Seq<Seq<S>>,
    b: Seq<S>,
    x: Seq<S>,
    pivots: Seq<u32>,
    n: int,
    k: int,
)
    requires
        pivots_in_range(pivots),
        pivots.len() == n,
        a.len() == n,
        b.len() == n,
        0 <= k <= n,
        forall|r: int|
            0 <= r < n ==> row_dot(v, apply_pivots(a, pivots, k)[r], x, 0, n) == #[trigger] v(
                apply_pivots(b, pivots, k)[r],
            ),
    ensures
        forall|r: int| 0 <= r < n ==> row_dot(v, a[r], x, 0, n) == #[trigger] v(b[r]),
    decreases k,
{
    if k > 0 {
        let a1 = apply_pivots(a, pivots, k - 1);
        let b1 = apply_pivots(b, pivots, k - 1);
        lemma_apply_pivots_len(a, pivots, k - 1);
        lemma_apply_pivots_len(b, pivots, k - 1);
        let i = k - 1;
        let j = pivots[k - 1] as int;
        let a2 = apply_pivots(a, pivots, k);
        let b2 = apply_pivots(b, pivots, k);
        assert forall|r: int| 0 <= r < n implies row_dot(v, a1[r], x, 0, n) == #[trigger] v(
            b1[r],
        ) by {
            let s = if r == i {
                j
            } else if r == j {
                i
            } else {
                r
            };
            assert(a2[s] == a1[r] && b2[s] == b1[r]);
            assert(row_dot(v, a2[s], x, 0, n) == v(b2[s]));
        }
        lemma_unpermute(v, a, b, x, pivots, n, k - 1);
    } else {
        assert forall|r: int| 0 <= r < n implies row_dot(v, a[r], x, 0, n) == #[trigger] v(
            b[r],
        ) by {
            assert(v(apply_pivots(b, pivots, k)[r]) == v(b[r]));
        }
    }
}

pub(crate) proof fn lemma_residual_value<S: Scalar>(
    v: spec_fn(S) -> real,
    row: Seq<S>,
    x: Seq<S>,
    acc: S,
    lo: int,
    hi: int,
)
    requires
        exact(v),
    ensures
        v(residual(row, x, acc, lo, hi)) == v(acc) - row_dot(v, row, x, lo, hi),
    decreases hi - lo,
{
    if lo < hi {
        lemma_residual_value(v, row, x, acc, lo, hi - 1);
    }
}

proof fn lemma_forward_serial_solves<S: Scalar>(
    v: spec_fn(S) -> real,
    m: Seq<Seq<S>>,
    y: Seq<S>,
    k: int,
)
    requires
        exact(v),
        0 <= k <= y.len(),
    ensures
        forall|i: int|
            0 <= i < k ==> #[trigger] v(y[i]) == row_dot(v, m[i], forward_serial(m, y, k), 0, i)
                + v(forward_serial(m, y, k)[i]),
        forall|i: int| k <= i < y.len() ==> #[trigger] forward_serial(m, y, k)[i] == y[i],
    decreases k,
{
    if k > 0 {
        lemma_forward_serial_solves(v, m, y, k - 1);
        lemma_forward_serial_len(m, y, k - 1);
        let z1 = forward_serial(m, y, k - 1);
        let z2 = forward_serial(m, y, k);
        lemma_residual_value(v, m[k - 1], z1, z1[k - 1], 0, k - 1);
        assert forall|i: int| 0 <= i < k implies #[trigger] v(y[i]) == row_dot(v, m[i], z2, 0, i)
            + v(z2[i]) by {
            lemma_row_dot_congruent(v, m[i], z1, m[i], z2, 0, i);
        }
    }
}

proof fn lemma_quotient<S: Scalar>(v: spec_fn(S) -> real, x: S, d: S)
    requires
        exact(v),
        v(d) != 0real,
    ensures
        v(d) * v(crate::scalar::safe_div_spec(x, d)) == v(x),
{
    assert(!d.same_spec(S::zero_spec()));
    let p = v(x);
    let q = v(d);
    assert(q * (p / q) == p) by (nonlinear_arith)
        requires
            q != 0real,
    ;
}

proof fn lemma_backward_serial_solves<S: Scalar>(
    v: spec_fn(S) -> real,
    m: Seq<Seq<S>>,
    z: Seq<S>,
    k: int,
)
    requires
        exact(v),
        0 <= k <= z.len(),
        forall|i: int| 0 <= i < z.len() ==> v(#[trigger] m[i][i]) != 0real,
    ensures
        forall|i: int|
            z.len() - k <= i < z.len() ==> #[trigger] v(z[i]) == row_dot(
                v,
                m[i],
                backward_serial(m, z, k),
                i,
                z.len() as int,
            ),
        forall|i: int| 0 <= i < z.len() - k ==> #[trigger] backward_serial(m, z, k)[i] == z[i],
    decreases k,
{
    let n = z.len() as int;
    if k > 0 {
        lemma_backward_serial_solves(v, m, z, k - 1);
        lemma_backward_serial_len(m, z, k - 1);
        let x1 = backward_serial(m, z, k - 1);
        let x2 = backward_serial(m, z, k);
        let i0 = n - k;
        let rest = residual(m[i0], x1, x1[i0], i0 + 1, n);
        lemma_residual_value(v, m[i0], x1, x1[i0], i0 + 1, n);
        assert(v(m[i0][i0]) != 0real);
        lemma_quotient(v, rest, m[i0][i0]);
        lemma_row_dot_congruent(v, m[i0], x1, m[i0], x2, i0 + 1, n);
        lemma_row_dot_first(v, m[i0], x2, i0, n);
        assert forall|i: int| n - k <= i < n implies #[trigger] v(z[i]) == row_dot(
            v,
            m[i],
            x2,
            i,
            n,
        ) by {
            if i > i0 {
                lemma_row_dot_congruent(v, m[i], x1, m[i], x2, i, n);
            }
        }
    }
}

/// In exact arithmetic the left-to-right solve with the factors of `a` and
/// its recorded exchanges solves `a x = b`, whenever no pivot is zero.
pub proof fn lu_solve_inverts<S: Scalar>(
    v: spec_fn(S) -> real,
    a: Seq<Seq<S>>,
    b: Seq<S>,
    n: int,
)
    requires
        exact(v),
        square(a, n),
        n <= u32::MAX,
        b.len() == n,
        regular(v, a),
    ensures
        forall|r: int|
            0 <= r < n ==> row_dot(
                v,
                a[r],
                lu_solve(lu_factors(a, n), lu_pivots(a), b),
                0,
                n,
            ) == #[trigger] v(b[r]),
{
    let m = lu_factors(a, n);
    let piv = lu_pivots(a);
    lu_pivots_in_range(a);
    lemma_decomposed(v, a, n, n);
    lemma_apply_pivots_len(b, piv, n);
    let y = apply_pivots(b, piv, n);
    let z = forward_serial(m, y, n);
    let x = backward_serial(m, z, n);
    lemma_forward_serial_len(m, y, n);
    lemma_forward_serial_solves(v, m, y, n);
    assert(lower_solved(v, m, y, z));
    lemma_backward_serial_solves(v, m, z, n);
    assert(upper_solved(v, m, z, x));
    lemma_product_solved(v, apply_pivots(a, piv, n), m, y, z, x, n);
    lemma_unpermute(v, a, b, x, piv, n, n);
}

// ---- the lane-parallel solve ----

/// A power of two.
pub open spec fn is_pow2(w: int) -> bool
    decreases w,
{
    w == 1 || (w > 1 && w % 2 == 0 && is_pow2(w / 2))
}

proof fn lemma_halves<S: Scalar>(v: spec_fn(S) -> real, p: Seq<S>, h: int, k: int)
    requires
        exact(v),
        0 <= k <= h,
    ensures
        real_sum(v, Seq::new(h as nat, |i: int| p[i].plus_spec(p[i + h])), k) == real_sum(v, p, k)
            + (real_sum(v, p, h + k) - real_sum(v, p, h)),
    decreases k,
{
    if k > 0 {
        lemma_halves(v, p, h, k - 1);
    }
}

/// In exact arithmetic the tree sum over a power of two of lanes is the sum.
pub proof fn tree_sum_is_sum<S: Scalar>(v: spec_fn(S) -> real, p: Seq<S>, w: int)
    requires
        exact(v),
        is_pow2(w),
    ensures
        v(tree_sum(p, w)) == real_sum(v, p, w),
    decreases w,
{
    if w > 1 {
        let h = w / 2;
        let q = Seq::new(h as nat, |i: int| p[i].plus_spec(p[i + w / 2]));
        assert(q =~= Seq::new(h as nat, |i: int| p[i].plus_spec(p[i + h])));
        tree_sum_is_sum(v, q, h);
        lemma_halves(v, p, h, h);
    } else {
        assert(real_sum(v, p, 0) == 0real);
        assert(real_sum(v, p, 1) == real_sum(v, p, 0) + v(p[0]));
    }
}

pub(crate) proof fn lemma_lower_products_sum<S: Scalar>(
    v: spec_fn(S) -> real,
    m: Seq<Seq<S>>,
    x: Seq<S>,
    i: int,
    lanes: int,
    k: int,
)
    requires
        exact(v),
        0 <= k <= lanes,
        0 <= i,
    ensures
        real_sum(v, lower_products(m, x, i, lanes), k) == row_dot(v, m[i], x, 0, min_int(i, k)),
    decreases k,
{
    if k > 0 {
        lemma_lower_products_sum(v, m, x, i, lanes, k - 1);
    }
}

pub(crate) proof fn lemma_upper_products_sum<S: Scalar>(
    v: spec_fn(S) -> real,
    m: Seq<Seq<S>>,
    x: Seq<S>,
    i: int,
    lanes: int,
    k: int,
)
    requires
        exact(v),
        0 <= k <= lanes,
        0 <= i < x.len(),
    ensures
        real_sum(v, upper_products(m, x, i, lanes), k) == row_dot(
            v,
            m[i],
            x,
            i + 1,
            min_int(x.len() as int, k),
        ),
    decreases k,
{
    if k > 0 {
        lemma_upper_products_sum(v, m, x, i, lanes, k - 1);
    }
}

proof fn lemma_forward_solves<S: Scalar>(
    v: spec_fn(S) -> real,
    m: Seq<Seq<S>>,
    y: Seq<S>,
    lanes: int,
    k: int,
)
    requires
        exact(v),
        is_pow2(lanes),
        y.len() <= lanes,
        0 <= k <= y.len(),
    ensures
        forall|i: int|
            0 <= i < k ==> #[trigger] v(y[i]) == row_dot(v, m[i], forward(m, y, lanes, k), 0, i)
                + v(forward(m, y, lanes, k)[i]),
        forall|i: int| k <= i < y.len() ==> #[trigger] forward(m, y, lanes, k)[i] == y[i],
    decreases k,
{
    if k > 0 {
        lemma_forward_solves(v, m, y, lanes, k - 1);
        lemma_forward_len(m, y, lanes, k - 1);
        let z1 = forward(m, y, lanes, k - 1);
        let z2 = forward(m, y, lanes, k);
        tree_sum_is_sum(v, lower_products(m, z1, k - 1, lanes), lanes);
        lemma_lower_products_sum(v, m, z1, k - 1, lanes, lanes);
        assert forall|i: int| 0 <= i < k implies #[trigger] v(y[i]) == row_dot(v, m[i], z2, 0, i)
            + v(z2[i]) by {
            lemma_row_dot_congruent(v, m[i], z1, m[i], z2, 0, i);
        }
    }
}

proof fn lemma_backward_solves<S: Scalar>(
    v: spec_fn(S) -> real,
    m: Seq<Seq<S>>,
    z: Seq<S>,
    lanes: int,
    k: int,
)
    requires
        exact(v),
        is_pow2(lanes),
        z.len() <= lanes,
        0 <= k <= z.len(),
        forall|i: int| 0 <= i < z.len() ==> v(#[trigger] m[i][i]) != 0real,
    ensures
        forall|i: int|
            z.len() - k <= i < z.len() ==> #[trigger] v(z[i]) == row_dot(
                v,
                m[i],
                backward(m, z, lanes, k),
                i,
                z.len() as int,
            ),
        forall|i: int| 0 <= i < z.len() - k ==> #[trigger] backward(m, z, lanes, k)[i] == z[i],
    decreases k,
{
    let n = z.len() as int;
    if k > 0 {
        lemma_backward_solves(v, m, z, lanes, k - 1);
        lemma_backward_len(m, z, lanes, k - 1);
        let x1 = backward(m, z, lanes, k - 1);
        let x2 = backward(m, z, lanes, k);
        let i0 = n - k;
        let s = tree_sum(upper_products(m, x1, i0, lanes), lanes);
        tree_sum_is_sum(v, upper_products(m, x1, i0, lanes), lanes);
        lemma_upper_products_sum(v, m, x1, i0, lanes, lanes);
        assert(v(m[i0][i0]) != 0real);
        lemma_quotient(v, x1[i0].minus_spec(s), m[i0][i0]);
        lemma_row_dot_congruent(v, m[i0], x1, m[i0], x2, i0 + 1, n);
        lemma_row_dot_first(v, m[i0], x2, i0, n);
        assert forall|i: int| n - k <= i < n implies #[trigger] v(z[i]) == row_dot(
            v,
            m[i],
            x2,
            i,
            n,
        ) by {
            if i > i0 {
                lemma_row_dot_congruent(v, m[i], x1, m[i], x2, i, n);
            }
        }
    }
}

/// In exact arithmetic the lane-parallel solve with the factors of `a` solves
/// `a x = b`, whenever no pivot is zero and the lanes are a power of two.
pub proof fn triangular_solve_inverts<S: Scalar>(
    v: spec_fn(S) -> real,
    a: Seq<Seq<S>>,
    b: Seq<S>,
    n: int,
    lanes: int,
)
    requires
        exact(v),
        square(a, n),
        n <= u32::MAX,
        b.len() == n,
        is_pow2(lanes),
        n <= lanes,
        regular(v, a),
    ensures
        forall|r: int|
            0 <= r < n ==> row_dot(
                v,
                a[r],
                triangular_solve(lu_factors(a, n), apply_pivots(b, lu_pivots(a), n), lanes),
                0,
                n,
            ) == #[trigger] v(b[r]),
{
    let m = lu_factors(a, n);
    let piv = lu_pivots(a);
    lu_pivots_in_range(a);
    lemma_decomposed(v, a, n, n);
    lemma_apply_pivots_len(b, piv, n);
    let y = apply_pivots(b, piv, n);
    let z = forward(m, y, lanes, n);
    let x = backward(m, z, lanes, n);
    lemma_forward_len(m, y, lanes, n);
    lemma_forward_solves(v, m, y, lanes, n);
    assert(lower_solved(v, m, y, z));
    lemma_backward_solves(v, m, z, lanes, n);
    assert(upper_solved(v, m, z, x));
    lemma_product_solved(v, apply_pivots(a, piv, n), m, y, z, x, n);
    lemma_unpermute(v, a, b, x, piv, n, n);
}

} // verus!
