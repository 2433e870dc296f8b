//! LU factorization with partial pivoting, and the solves that reuse it.
//!
//! One factorization serves several right-hand sides. The tiers differ in
//! where the matrix lives (a shared tile, one of several packed tiles, or the
//! mass-matrix buffer itself) and in how a dot product is summed: as a tree
//! over the lanes of a tile, or from left to right.
use crate::scalar::{Scalar, abs, abs_spec, inv, inv_spec, safe_div, safe_div_spec};
use crate::views::{
    MatView, VecView, mat_get, mat_of, mat_set, same_outside_mat, same_outside_vec, vec_get, vec_of,
    vec_set,
};
use vstd::prelude::*;

verus! {

/// Side length of the shared matrix tile, and its number of lanes.
pub const MAX_MB_DOFS: u32 = 64;

/// Position of entry `(r, c)` in the column-major shared tile.
pub fn sm_idx(r: u32, c: u32) -> (k: usize)
    requires
        c * 64 + r <= u32::MAX,
    ensures
        k == c * 64 + r,
{
    (c * MAX_MB_DOFS + r) as usize
}

/// Position of entry `(r, c)` in the column-major tile of a packed slot.
pub fn sm_idx_packed<const T: u32>(slot: u32, r: u32, c: u32) -> (k: usize)
    requires
        slot * T * T + c * T + r <= u32::MAX,
    ensures
        k == slot * T * T + c * T + r,
{
    assert(slot * T <= slot * T * T || T == 0) by (nonlinear_arith)
        requires
            slot >= 0,
            T >= 0,
    ;
    assert(0 <= slot * T && 0 <= slot * T * T && 0 <= c * T) by (nonlinear_arith)
        requires
            slot >= 0,
            T >= 0,
            c >= 0,
    ;
    assert(T == 0 ==> slot * T == 0) by (nonlinear_arith);
    (slot * T * T + c * T + r) as usize
}

/// Distinct entries of distinct slots have distinct positions.
pub proof fn packed_positions_distinct(
    t: int,
    slot: int,
    r: int,
    c: int,
    slot2: int,
    r2: int,
    c2: int,
)
    requires
        0 <= r < t,
        0 <= c < t,
        0 <= r2 < t,
        0 <= c2 < t,
        slot * t * t + c * t + r == slot2 * t * t + c2 * t + r2,
    ensures
        slot == slot2,
        c == c2,
        r == r2,
{
    let a = slot * t + c;
    let b = slot2 * t + c2;
    assert(a * t == slot * t * t + c * t) by (nonlinear_arith)
        requires
            a == slot * t + c,
    ;
    assert(b * t == slot2 * t * t + c2 * t) by (nonlinear_arith)
        requires
            b == slot2 * t + c2,
    ;
    assert(a == b) by (nonlinear_arith)
        requires
            a * t + r == b * t + r2,
            0 <= r < t,
            0 <= r2 < t,
    ;
    assert(slot == slot2) by (nonlinear_arith)
        requires
            slot * t + c == slot2 * t + c2,
            0 <= c < t,
            0 <= c2 < t,
    ;
}

/// The leading `n x n` block of the shared tile.
pub open spec fn shared_tile_spec(n: usize) -> MatView {
    MatView { base: 0, row_stride: 1, col_stride: 64, nrows: n, ncols: n }
}

/// The leading `n x n` block of a packed slot's tile.
pub open spec fn packed_tile_spec(t: usize, slot: usize, n: usize) -> MatView {
    MatView {
        base: (slot * t * t) as usize,
        row_stride: 1,
        col_stride: t,
        nrows: n,
        ncols: n,
    }
}

// ---- factorization ----

/// The row of largest magnitude in column `k` among rows `k..i`; the first one
/// of several.
pub open spec fn pivot_of<S: Scalar>(a: Seq<Seq<S>>, k: int, i: int) -> int
    decreases i - k,
{
    if i <= k + 1 {
        k
    } else {
        let p = pivot_of(a, k, i - 1);
        if abs_spec(a[p][k]).lt_spec(abs_spec(a[i - 1][k])) {
            i - 1
        } else {
            p
        }
    }
}

pub proof fn lemma_pivot_bounds<S: Scalar>(a: Seq<Seq<S>>, k: int, i: int)
    requires
        k < i,
    ensures
        k <= pivot_of(a, k, i) < i,
    decreases i - k,
{
    if i > k + 1 {
        lemma_pivot_bounds(a, k, i - 1);
    }
}

pub open spec fn swap_rows<T>(a: Seq<T>, i: int, j: int) -> Seq<T> {
    a.update(i, a[j]).update(j, a[i])
}

/// Column `k` cleared below the diagonal; the multipliers take its place.
pub open spec fn eliminate<S: Scalar>(a: Seq<Seq<S>>, k: int) -> Seq<Seq<S>> {
    Seq::new(
        a.len(),
        |r: int|
            if r <= k {
                a[r]
            } else {
                eliminate_row(a[r], a[k], k)
            },
    )
}

/// Row `row` less the multiple of the pivot row that clears its entry `k`.
pub open spec fn eliminate_row<S: Scalar>(row: Seq<S>, pivot: Seq<S>, k: int) -> Seq<S> {
    let l = row[k].times_spec(inv_spec(pivot[k]));
    Seq::new(
        row.len(),
        |c: int|
            if c < k {
                row[c]
            } else if c == k {
                l
            } else {
                row[c].minus_spec(l.times_spec(pivot[c]))
            },
    )
}

pub open spec fn lu_step<S: Scalar>(a: Seq<Seq<S>>, k: int) -> Seq<Seq<S>> {
    eliminate(swap_rows(a, k, pivot_of(a, k, a.len() as int)), k)
}

/// The matrix after the first `k` steps.
pub open spec fn lu_factors<S: Scalar>(a: Seq<Seq<S>>, k: int) -> Seq<Seq<S>>
    decreases k,
{
    if k <= 0 {
        a
    } else {
        lu_step(lu_factors(a, k - 1), k - 1)
    }
}

/// The row exchanged with row `j` in step `j`.
pub open spec fn lu_pivot<S: Scalar>(a: Seq<Seq<S>>, j: int) -> int {
    pivot_of(lu_factors(a, j), j, a.len() as int)
}

pub open spec fn lu_pivots<S: Scalar>(a: Seq<Seq<S>>) -> Seq<u32> {
    Seq::new(a.len(), |j: int| lu_pivot(a, j) as u32)
}

/// A square matrix of side `n`.
pub open spec fn square<T>(a: Seq<Seq<T>>, n: int) -> bool {
    &&& a.len() == n
    &&& forall|r: int| 0 <= r < n ==> (#[trigger] a[r]).len() == n
}

pub proof fn lemma_lu_square<S: Scalar>(a: Seq<Seq<S>>, n: int, k: int)
    requires
        square(a, n),
        0 <= k <= n,
    ensures
        square(lu_factors(a, k), n),
    decreases k,
{
    if k > 0 {
        lemma_lu_square(a, n, k - 1);
        lemma_pivot_bounds(lu_factors(a, k - 1), k - 1, n);
    }
}

fn find_pivot<S: Scalar>(buf: &[S], m: MatView, k: usize) -> (p: usize)
    requires
        m.fits(buf@.len() as int),
        m.nrows == m.ncols,
        k < m.nrows,
    ensures
        p == pivot_of(mat_of(buf@, m), k as int, m.nrows as int),
        k <= p < m.nrows,
{
    let mut p: usize = k;
    let mut best = abs(mat_get(buf, m, k, k));
    let mut i: usize = k + 1;
    while i < m.nrows
        invariant
            m.fits(buf@.len() as int),
            m.nrows == m.ncols,
            k < i <= m.nrows,
            k <= p < i,
            p == pivot_of(mat_of(buf@, m), k as int, i as int),
            best == abs_spec(mat_of(buf@, m)[p as int][k as int]),
        decreases m.nrows - i,
    {
        let v = abs(mat_get(buf, m, i, k));
        if best.lt(v) {
            best = v;
            p = i;
        }
        i = i + 1;
    }
    p
}

fn swap_rows_in_place<S: Scalar>(buf: &mut [S], m: MatView, k: usize, p: usize)
    requires
        m.fits(old(buf)@.len() as int),
        k < m.nrows,
        p < m.nrows,
        k != p,
    ensures
        mat_of(final(buf)@, m) == swap_rows(mat_of(old(buf)@, m), k as int, p as int),
        same_outside_mat(old(buf)@, final(buf)@, m),
{
    let ghost a = mat_of(buf@, m);
    let mut c: usize = 0;
    while c < m.ncols
        invariant
            m.fits(old(buf)@.len() as int),
            k < m.nrows,
            p < m.nrows,
            k != p,
            c <= m.ncols,
            a == mat_of(old(buf)@, m),
            same_outside_mat(old(buf)@, buf@, m),
            forall|r: int, j: int|
                0 <= r < m.nrows && 0 <= j < m.ncols ==> #[trigger] mat_of(buf@, m)[r][j] == (if j
                    < c {
                    swap_rows(a, k as int, p as int)[r][j]
                } else {
                    a[r][j]
                }),
        decreases m.ncols - c,
    {
        let x = mat_get(buf, m, k, c);
        let y = mat_get(buf, m, p, c);
        mat_set(buf, m, k, c, y);
        mat_set(buf, m, p, c, x);
        c = c + 1;
    }
    proof {
        let b = mat_of(buf@, m);
        let s = swap_rows(a, k as int, p as int);
        assert forall|r: int| 0 <= r < m.nrows implies #[trigger] b[r] == s[r] by {
            assert(b[r] =~= s[r]);
        }
        assert(b =~= s);
    }
}

/// One elimination step on the view.
fn eliminate_in_place<S: Scalar>(buf: &mut [S], m: MatView, k: usize)
    requires
        m.fits(old(buf)@.len() as int),
        m.nrows == m.ncols,
        k < m.nrows,
    ensures
        mat_of(final(buf)@, m) == eliminate(mat_of(old(buf)@, m), k as int),
        same_outside_mat(old(buf)@, final(buf)@, m),
{
    let ghost a = mat_of(buf@, m);
    let ghost e = eliminate(a, k as int);
    let n: usize = m.nrows;
    let inv_akk = inv(mat_get(buf, m, k, k));
    let mut r: usize = k + 1;
    while r < n
        invariant
            m.fits(old(buf)@.len() as int),
            m.nrows == m.ncols == n,
            k < r <= n,
            a == mat_of(old(buf)@, m),
            e == eliminate(a, k as int),
            inv_akk == inv_spec(a[k as int][k as int]),
            same_outside_mat(old(buf)@, buf@, m),
            forall|i: int, j: int|
                0 <= i < n && 0 <= j < n ==> #[trigger] mat_of(buf@, m)[i][j] == (if k < i < r && j
                    == k {
                    e[i][j]
                } else {
                    a[i][j]
                }),
        decreases n - r,
    {
        let v = mat_get(buf, m, r, k).times(inv_akk);
        mat_set(buf, m, r, k, v);
        r = r + 1;
    }
    let mut j: usize = k + 1;
    while j < n
        invariant
            m.fits(old(buf)@.len() as int),
            m.nrows == m.ncols == n,
            k < j <= n,
            a == mat_of(old(buf)@, m),
            e == eliminate(a, k as int),
            same_outside_mat(old(buf)@, buf@, m),
            forall|i: int, c: int|
                0 <= i < n && 0 <= c < n ==> #[trigger] mat_of(buf@, m)[i][c] == (if k < i && k <= c
                    < j {
                    e[i][c]
                } else {
                    a[i][c]
                }),
        decreases n - j,
    {
        let akj = mat_get(buf, m, k, j);
        let mut r: usize = k + 1;
        while r < n
            invariant
                m.fits(old(buf)@.len() as int),
                m.nrows == m.ncols == n,
                k < j < n,
                k < r <= n,
                a == mat_of(old(buf)@, m),
                e == eliminate(a, k as int),
                akj == a[k as int][j as int],
                same_outside_mat(old(buf)@, buf@, m),
                forall|i: int, c: int|
                    0 <= i < n && 0 <= c < n ==> #[trigger] mat_of(buf@, m)[i][c] == (if k < i && (k
                        <= c < j || (c == j && i < r)) {
                        e[i][c]
                    } else {
                        a[i][c]
                    }),
            decreases n - r,
        {
            let l = mat_get(buf, m, r, k);
            let v = mat_get(buf, m, r, j).minus(l.times(akj));
            mat_set(buf, m, r, j, v);
            r = r + 1;
        }
        j = j + 1;
    }
    proof {
        let b = mat_of(buf@, m);
        assert forall|i: int| 0 <= i < n implies #[trigger] b[i] == e[i] by {
            assert(b[i] =~= e[i]);
        }
        assert(b =~= e);
    }
}

/// Factors the viewed matrix in place and records the row exchanges.
pub fn lu_decompose<S: Scalar>(buf: &mut [S], m: MatView, pivots: &mut [u32], piv: VecView)
    requires
        m.fits(old(buf)@.len() as int),
        m.nrows == m.ncols,
        m.nrows <= u32::MAX,
        piv.fits(old(pivots)@.len() as int),
        piv.len == m.nrows,
    ensures
        mat_of(final(buf)@, m) == lu_factors(mat_of(old(buf)@, m), m.nrows as int),
        same_outside_mat(old(buf)@, final(buf)@, m),
        vec_of(final(pivots)@, piv) == lu_pivots(mat_of(old(buf)@, m)),
        same_outside_vec(old(pivots)@, final(pivots)@, piv),
{
    let n: usize = m.nrows;
    let ghost a = mat_of(buf@, m);
    assert(square(a, n as int));
    let mut k: usize = 0;
    while k < n
        invariant
            m.fits(old(buf)@.len() as int),
            m.nrows == m.ncols == n,
            n <= u32::MAX,
            piv.fits(old(pivots)@.len() as int),
            piv.len == n,
            k <= n,
            a == mat_of(old(buf)@, m),
            square(a, n as int),
            mat_of(buf@, m) == lu_factors(a, k as int),
            same_outside_mat(old(buf)@, buf@, m),
            same_outside_vec(old(pivots)@, pivots@, piv),
            forall|j: int| 0 <= j < k ==> #[trigger] vec_of(pivots@, piv)[j] == lu_pivots(a)[j],
        decreases n - k,
    {
        let p: usize = find_pivot(buf, m, k);
        vec_set(pivots, piv, k, p as u32);
        if p != k {
            swap_rows_in_place(buf, m, k, p);
        } else {
            assert(swap_rows(mat_of(buf@, m), k as int, p as int) =~= mat_of(buf@, m));
        }
        eliminate_in_place(buf, m, k);
        k = k + 1;
    }
    assert(vec_of(pivots@, piv) =~= lu_pivots(a));
}

// ---- row exchanges of a right-hand side ----

/// The right-hand side after the first `k` exchanges.
pub open spec fn apply_pivots<T>(x: Seq<T>, pivots: Seq<u32>, k: int) -> Seq<T>
    decreases k,
{
    if k <= 0 {
        x
    } else {
        swap_rows(apply_pivots(x, pivots, k - 1), k - 1, pivots[k - 1] as int)
    }
}

pub proof fn lemma_apply_pivots_len<T>(x: Seq<T>, pivots: Seq<u32>, k: int)
    requires
        pivots_in_range(pivots),
        x.len() == pivots.len(),
        0 <= k <= x.len(),
    ensures
        apply_pivots(x, pivots, k).len() == x.len(),
    decreases k,
{
    if k > 0 {
        lemma_apply_pivots_len(x, pivots, k - 1);
    }
}

/// Every recorded exchange is with a row of the matrix.
pub open spec fn pivots_in_range(pivots: Seq<u32>) -> bool {
    forall|j: int| 0 <= j < pivots.len() ==> #[trigger] pivots[j] < pivots.len()
}

/// The exchanges only permute the right-hand side.
pub proof fn pivots_permute<T>(x: Seq<T>, pivots: Seq<u32>, k: int)
    requires
        pivots_in_range(pivots),
        x.len() == pivots.len(),
        0 <= k <= x.len(),
    ensures
        apply_pivots(x, pivots, k).to_multiset() == x.to_multiset(),
    decreases k,
{
    if k > 0 {
        pivots_permute(x, pivots, k - 1);
        lemma_apply_pivots_len(x, pivots, k - 1);
        let y = apply_pivots(x, pivots, k - 1);
        let i = k - 1;
        let j = pivots[k - 1] as int;
        let z = y.update(i, y[j]);
        broadcast use vstd::seq_lib::group_to_multiset_ensures;

        assert(y.contains(y[i]) && y.contains(y[j]));
        assert(z[j] == y[j]);
        assert(z.to_multiset() =~= y.to_multiset().remove(y[i]).insert(y[j]));
        assert(z.update(j, y[i]).to_multiset() =~= z.to_multiset().remove(z[j]).insert(y[i]));
        assert(apply_pivots(x, pivots, k).to_multiset() =~= y.to_multiset());
    }
}

/// Every exchange that the factorization records stays in range.
pub proof fn lu_pivots_in_range<S: Scalar>(a: Seq<Seq<S>>)
    requires
        a.len() <= u32::MAX,
    ensures
        pivots_in_range(lu_pivots(a)),
{
    assert forall|j: int| 0 <= j < a.len() implies #[trigger] lu_pivots(a)[j] < a.len() by {
        lemma_pivot_bounds(lu_factors(a, j), j, a.len() as int);
    }
}

/// Applies the recorded exchanges, first to last.
pub fn lu_apply_pivots<S: Scalar>(pivots: &[u32], piv: VecView, x: &mut [S], xv: VecView)
    requires
        piv.fits(pivots@.len() as int),
        xv.fits(old(x)@.len() as int),
        piv.len == xv.len,
        pivots_in_range(vec_of(pivots@, piv)),
    ensures
        vec_of(final(x)@, xv) == apply_pivots(
            vec_of(old(x)@, xv),
            vec_of(pivots@, piv),
            xv.len as int,
        ),
        same_outside_vec(old(x)@, final(x)@, xv),
{
    let mut k: usize = 0;
    while k < xv.len
        invariant
            piv.fits(pivots@.len() as int),
            xv.fits(old(x)@.len() as int),
            piv.len == xv.len,
            k <= xv.len,
            pivots_in_range(vec_of(pivots@, piv)),
            vec_of(x@, xv) == apply_pivots(vec_of(old(x)@, xv), vec_of(pivots@, piv), k as int),
            same_outside_vec(old(x)@, x@, xv),
        decreases xv.len - k,
    {
        let p: usize = vec_get(pivots, piv, k) as usize;
        let ghost y = vec_of(x@, xv);
        if p != k {
            let a = vec_get(x, xv, k);
            let b = vec_get(x, xv, p);
            vec_set(x, xv, k, b);
            vec_set(x, xv, p, a);
        } else {
            assert(swap_rows(y, k as int, p as int) =~= y);
        }
        k = k + 1;
    }
}

// ---- triangular solves ----

/// The sum of `w` entries as a balanced tree: halves are added entry by entry.
pub open spec fn tree_sum<S: Scalar>(p: Seq<S>, w: int) -> S
    decreases w,
{
    if w <= 1 {
        p[0]
    } else {
        tree_sum(Seq::new((w / 2) as nat, |i: int| p[i].plus_spec(p[i + w / 2])), w / 2)
    }
}

/// The products of row `i` with the solved entries before it, one per lane.
pub open spec fn lower_products<S: Scalar>(
    a: Seq<Seq<S>>,
    x: Seq<S>,
    i: int,
    lanes: int,
) -> Seq<S> {
    Seq::new(
        lanes as nat,
        |l: int|
            if l < i {
                a[i][l].times_spec(x[l])
            } else {
                S::zero_spec()
            },
    )
}

/// The products of row `i` with the solved entries after it, one per lane.
pub open spec fn upper_products<S: Scalar>(
    a: Seq<Seq<S>>,
    x: Seq<S>,
    i: int,
    lanes: int,
) -> Seq<S> {
    Seq::new(
        lanes as nat,
        |l: int|
            if i < l < x.len() {
                a[i][l].times_spec(x[l])
            } else {
                S::zero_spec()
            },
    )
}

/// The unknowns after the first `k` rows of forward substitution.
pub open spec fn forward<S: Scalar>(a: Seq<Seq<S>>, x: Seq<S>, lanes: int, k: int) -> Seq<S>
    decreases k,
{
    if k <= 0 {
        x
    } else {
        let y = forward(a, x, lanes, k - 1);
        y.update(
            k - 1,
            y[k - 1].minus_spec(tree_sum(lower_products(a, y, k - 1, lanes), lanes)),
        )
    }
}

/// The unknowns after the last `k` rows of backward substitution.
pub open spec fn backward<S: Scalar>(a: Seq<Seq<S>>, x: Seq<S>, lanes: int, k: int) -> Seq<S>
    decreases k,
{
    if k <= 0 {
        x
    } else {
        let y = backward(a, x, lanes, k - 1);
        let i = x.len() - k;
        y.update(
            i,
            safe_div_spec(
                y[i].minus_spec(tree_sum(upper_products(a, y, i, lanes), lanes)),
                a[i][i],
            ),
        )
    }
}

pub proof fn lemma_forward_len<S: Scalar>(a: Seq<Seq<S>>, x: Seq<S>, lanes: int, k: int)
    requires
        0 <= k <= x.len(),
    ensures
        forward(a, x, lanes, k).len() == x.len(),
    decreases k,
{
    if k > 0 {
        lemma_forward_len(a, x, lanes, k - 1);
    }
}

pub proof fn lemma_backward_len<S: Scalar>(a: Seq<Seq<S>>, x: Seq<S>, lanes: int, k: int)
    requires
        0 <= k <= x.len(),
    ensures
        backward(a, x, lanes, k).len() == x.len(),
    decreases k,
{
    if k > 0 {
        lemma_backward_len(a, x, lanes, k - 1);
    }
}

/// Both substitutions with tree sums of `lanes` products.
pub open spec fn triangular_solve<S: Scalar>(a: Seq<Seq<S>>, x: Seq<S>, lanes: int) -> Seq<S> {
    backward(a, forward(a, x, lanes, x.len() as int), lanes, x.len() as int)
}

/// Sums the first `w` lanes of `partial` as a balanced tree.
pub(crate) fn reduce<S: Scalar>(partial: &mut [S], seg: VecView) -> (r: S)
    requires
        seg.fits(old(partial)@.len() as int),
        seg.len > 0,
    ensures
        r == tree_sum(vec_of(old(partial)@, seg), seg.len as int),
        same_outside_vec(old(partial)@, final(partial)@, seg),
{
    let ghost p0 = vec_of(partial@, seg);
    let mut w: usize = seg.len;
    assert(p0 =~= p0.take(seg.len as int));
    while w > 1
        invariant
            seg.fits(old(partial)@.len() as int),
            1 <= w <= seg.len,
            same_outside_vec(old(partial)@, partial@, seg),
            tree_sum(p0, seg.len as int) == tree_sum(
                vec_of(partial@, seg).take(w as int),
                w as int,
            ),
        decreases w,
    {
        let stride: usize = w / 2;
        let ghost q = vec_of(partial@, seg);
        let mut l: usize = 0;
        while l < stride
            invariant
                seg.fits(old(partial)@.len() as int),
                l <= stride,
                stride == w / 2,
                1 < w <= seg.len,
                q.len() == seg.len,
                same_outside_vec(old(partial)@, partial@, seg),
                forall|i: int|
                    0 <= i < seg.len ==> #[trigger] vec_of(partial@, seg)[i] == (if i < l {
                        q[i].plus_spec(q[i + stride])
                    } else {
                        q[i]
                    }),
            decreases stride - l,
        {
            let v = vec_get(partial, seg, l).plus(vec_get(partial, seg, l + stride));
            vec_set(partial, seg, l, v);
            l = l + 1;
        }
        proof {
            let t = q.take(w as int);
            let h = Seq::new((w / 2) as nat, |i: int| t[i].plus_spec(t[i + w / 2]));
            assert(vec_of(partial@, seg).take(stride as int) =~= h);
        }
        w = stride;
    }
    vec_get(partial, seg, 0)
}

/// Solves with the factors in `m` and the permuted right-hand side in `x`;
/// each dot product is a tree sum over the lanes of `seg`.
pub fn lu_triangular_solve_in_place<S: Scalar>(
    mat: &[S],
    m: MatView,
    x: &mut [S],
    xv: VecView,
    partial: &mut [S],
    seg: VecView,
)
    requires
        m.fits(mat@.len() as int),
        m.nrows == m.ncols,
        xv.fits(old(x)@.len() as int),
        xv.len == m.nrows,
        seg.fits(old(partial)@.len() as int),
        seg.len >= m.nrows,
        seg.len > 0,
    ensures
        vec_of(final(x)@, xv) == triangular_solve(
            mat_of(mat@, m),
            vec_of(old(x)@, xv),
            seg.len as int,
        ),
        same_outside_vec(old(x)@, final(x)@, xv),
        same_outside_vec(old(partial)@, final(partial)@, seg),
{
    let n: usize = m.nrows;
    let ghost a = mat_of(mat@, m);
    let ghost x0 = vec_of(x@, xv);
    let ghost w = seg.len as int;
    let mut i: usize = 0;
    while i < n
        invariant
            m.fits(mat@.len() as int),
            m.nrows == m.ncols == n,
            xv.fits(old(x)@.len() as int),
            xv.len == n,
            seg.fits(old(partial)@.len() as int),
            seg.len >= n,
            seg.len > 0,
            w == seg.len,
            i <= n,
            a == mat_of(mat@, m),
            x0 == vec_of(old(x)@, xv),
            vec_of(x@, xv) == forward(a, x0, w, i as int),
            same_outside_vec(old(x)@, x@, xv),
            same_outside_vec(old(partial)@, partial@, seg),
        decreases n - i,
    {
        let ghost y = vec_of(x@, xv);
        let mut l: usize = 0;
        while l < seg.len
            invariant
                m.fits(mat@.len() as int),
                m.nrows == m.ncols == n,
                xv.fits(x@.len() as int),
                xv.len == n,
                seg.fits(old(partial)@.len() as int),
                w == seg.len,
                seg.len >= n,
                i < n,
                l <= seg.len,
                a == mat_of(mat@, m),
                y == vec_of(x@, xv),
                same_outside_vec(old(partial)@, partial@, seg),
                forall|j: int|
                    0 <= j < l ==> #[trigger] vec_of(partial@, seg)[j] == lower_products(
                        a,
                        y,
                        i as int,
                        w,
                    )[j],
            decreases seg.len - l,
        {
            let s = if l < i {
                mat_get(mat, m, i, l).times(vec_get(x, xv, l))
            } else {
                S::zero()
            };
            vec_set(partial, seg, l, s);
            l = l + 1;
        }
        assert(vec_of(partial@, seg) =~= lower_products(a, y, i as int, w));
        let s = reduce(partial, seg);
        let v = vec_get(x, xv, i).minus(s);
        vec_set(x, xv, i, v);
        i = i + 1;
    }
    let ghost f = vec_of(x@, xv);
    let mut step: usize = 0;
    while step < n
        invariant
            m.fits(mat@.len() as int),
            m.nrows == m.ncols == n,
            xv.fits(old(x)@.len() as int),
            xv.len == n,
            seg.fits(old(partial)@.len() as int),
            seg.len >= n,
            seg.len > 0,
            w == seg.len,
            step <= n,
            f.len() == n,
            a == mat_of(mat@, m),
            vec_of(x@, xv) == backward(a, f, w, step as int),
            same_outside_vec(old(x)@, x@, xv),
            same_outside_vec(old(partial)@, partial@, seg),
        decreases n - step,
    {
        let i: usize = n - 1 - step;
        let ghost y = vec_of(x@, xv);
        let mut l: usize = 0;
        while l < seg.len
            invariant
                m.fits(mat@.len() as int),
                m.nrows == m.ncols == n,
                xv.fits(x@.len() as int),
                xv.len == n,
                seg.fits(old(partial)@.len() as int),
                w == seg.len,
                seg.len >= n,
                i < n,
                l <= seg.len,
                a == mat_of(mat@, m),
                y == vec_of(x@, xv),
                same_outside_vec(old(partial)@, partial@, seg),
                forall|j: int|
                    0 <= j < l ==> #[trigger] vec_of(partial@, seg)[j] == upper_products(
                        a,
                        y,
                        i as int,
                        w,
                    )[j],
            decreases seg.len - l,
        {
            let s = if i < l && l < n {
                mat_get(mat, m, i, l).times(vec_get(x, xv, l))
            } else {
                S::zero()
            };
            vec_set(partial, seg, l, s);
            l = l + 1;
        }
        assert(vec_of(partial@, seg) =~= upper_products(a, y, i as int, w));
        let s = reduce(partial, seg);
        let cur = vec_get(x, xv, i).minus(s);
        let v = safe_div(cur, mat_get(mat, m, i, i));
        vec_set(x, xv, i, v);
        step = step + 1;
    }
    proof {
        lemma_forward_len(a, x0, w, n as int);
    }
}

// ---- left-to-right solve ----

/// `acc` less the products of entries `lo..hi`, taken from left to right.
pub open spec fn residual<S: Scalar>(row: Seq<S>, x: Seq<S>, acc: S, lo: int, hi: int) -> S
    decreases hi - lo,
{
    if hi <= lo {
        acc
    } else {
        residual(row, x, acc, lo, hi - 1).minus_spec(row[hi - 1].times_spec(x[hi - 1]))
    }
}

/// The unknowns after the first `k` rows of forward substitution.
pub open spec fn forward_serial<S: Scalar>(a: Seq<Seq<S>>, x: Seq<S>, k: int) -> Seq<S>
    decreases k,
{
    if k <= 0 {
        x
    } else {
        let y = forward_serial(a, x, k - 1);
        y.update(k - 1, residual(a[k - 1], y, y[k - 1], 0, k - 1))
    }
}

/// The unknowns after the last `k` rows of backward substitution.
pub open spec fn backward_serial<S: Scalar>(a: Seq<Seq<S>>, x: Seq<S>, k: int) -> Seq<S>
    decreases k,
{
    if k <= 0 {
        x
    } else {
        let y = backward_serial(a, x, k - 1);
        let i = x.len() - k;
        y.update(i, safe_div_spec(residual(a[i], y, y[i], i + 1, x.len() as int), a[i][i]))
    }
}

pub proof fn lemma_forward_serial_len<S: Scalar>(a: Seq<Seq<S>>, x: Seq<S>, k: int)
    requires
        0 <= k <= x.len(),
    ensures
        forward_serial(a, x, k).len() == x.len(),
    decreases k,
{
    if k > 0 {
        lemma_forward_serial_len(a, x, k - 1);
    }
}

pub proof fn lemma_backward_serial_len<S: Scalar>(a: Seq<Seq<S>>, x: Seq<S>, k: int)
    requires
        0 <= k <= x.len(),
    ensures
        backward_serial(a, x, k).len() == x.len(),
    decreases k,
{
    if k > 0 {
        lemma_backward_serial_len(a, x, k - 1);
    }
}

/// Row exchanges and both substitutions, from left to right.
pub open spec fn lu_solve<S: Scalar>(a: Seq<Seq<S>>, pivots: Seq<u32>, b: Seq<S>) -> Seq<S> {
    let n = b.len() as int;
    backward_serial(a, forward_serial(a, apply_pivots(b, pivots, n), n), n)
}

fn row_residual<S: Scalar>(
    mat: &[S],
    m: MatView,
    x: &[S],
    xv: VecView,
    i: usize,
    lo: usize,
    hi: usize,
) -> (r: S)
    requires
        m.fits(mat@.len() as int),
        xv.fits(x@.len() as int),
        i < m.nrows,
        i < xv.len,
        lo <= hi <= m.ncols,
        hi <= xv.len,
    ensures
        r == residual(
            mat_of(mat@, m)[i as int],
            vec_of(x@, xv),
            vec_of(x@, xv)[i as int],
            lo as int,
            hi as int,
        ),
{
    let mut acc = vec_get(x, xv, i);
    let mut j: usize = lo;
    while j < hi
        invariant
            m.fits(mat@.len() as int),
            xv.fits(x@.len() as int),
            i < m.nrows,
            i < xv.len,
            lo <= j <= hi <= m.ncols,
            hi <= xv.len,
            acc == residual(
                mat_of(mat@, m)[i as int],
                vec_of(x@, xv),
                vec_of(x@, xv)[i as int],
                lo as int,
                j as int,
            ),
        decreases hi - j,
    {
        acc = acc.minus(mat_get(mat, m, i, j).times(vec_get(x, xv, j)));
        j = j + 1;
    }
    acc
}

/// Solves in place with recorded factors and exchanges.
pub fn lu_solve_in_place<S: Scalar>(
    mat: &[S],
    m: MatView,
    pivots: &[u32],
    piv: VecView,
    x: &mut [S],
    xv: VecView,
)
    requires
        m.fits(mat@.len() as int),
        m.nrows == m.ncols,
        piv.fits(pivots@.len() as int),
        piv.len == m.nrows,
        xv.fits(old(x)@.len() as int),
        xv.len == m.nrows,
        pivots_in_range(vec_of(pivots@, piv)),
    ensures
        vec_of(final(x)@, xv) == lu_solve(
            mat_of(mat@, m),
            vec_of(pivots@, piv),
            vec_of(old(x)@, xv),
        ),
        same_outside_vec(old(x)@, final(x)@, xv),
{
    let n: usize = m.nrows;
    let ghost a = mat_of(mat@, m);
    let ghost b = vec_of(x@, xv);
    lu_apply_pivots(pivots, piv, x, xv);
    let ghost y = vec_of(x@, xv);
    let mut i: usize = 0;
    while i < n
        invariant
            m.fits(mat@.len() as int),
            m.nrows == m.ncols == n,
            xv.fits(old(x)@.len() as int),
            xv.len == n,
            i <= n,
            a == mat_of(mat@, m),
            vec_of(x@, xv) == forward_serial(a, y, i as int),
            same_outside_vec(old(x)@, x@, xv),
        decreases n - i,
    {
        let v = row_residual(mat, m, x, xv, i, 0, i);
        vec_set(x, xv, i, v);
        i = i + 1;
    }
    let ghost z = vec_of(x@, xv);
    let mut step: usize = 0;
    while step < n
        invariant
            m.fits(mat@.len() as int),
            m.nrows == m.ncols == n,
            xv.fits(old(x)@.len() as int),
            xv.len == n,
            step <= n,
            z.len() == n,
            a == mat_of(mat@, m),
            vec_of(x@, xv) == backward_serial(a, z, step as int),
            same_outside_vec(old(x)@, x@, xv),
        decreases n - step,
    {
        let i: usize = n - 1 - step;
        let r = row_residual(mat, m, x, xv, i, i + 1, n);
        let v = safe_div(r, mat_get(mat, m, i, i));
        vec_set(x, xv, i, v);
        step = step + 1;
    }
}

// ---- the tiles of the lane-parallel tiers ----

/// Factors the leading block of the shared tile.
pub fn lu_factor_in_shared<S: Scalar>(
    n: u32,
    mat: &mut [S],
    pivots: &mut [u32],
    piv: VecView,
)
    requires
        n <= 64,
        old(mat)@.len() == 4096,
        piv.fits(old(pivots)@.len() as int),
        piv.len == n,
    ensures
        mat_of(final(mat)@, shared_tile_spec(n as usize)) == lu_factors(
            mat_of(old(mat)@, shared_tile_spec(n as usize)),
            n as int,
        ),
        same_outside_mat(old(mat)@, final(mat)@, shared_tile_spec(n as usize)),
        vec_of(final(pivots)@, piv) == lu_pivots(mat_of(old(mat)@, shared_tile_spec(n as usize))),
        same_outside_vec(old(pivots)@, final(pivots)@, piv),
{
    let m = MatView {
        base: 0,
        row_stride: 1,
        col_stride: 64,
        nrows: n as usize,
        ncols: n as usize,
    };
    lu_decompose(mat, m, pivots, piv);
}

/// The tile of `slot` fits in a buffer of `64 * t` entries.
pub proof fn lemma_packed_tile_fits(t: usize, slot: usize, n: usize, len: int)
    requires
        n <= t <= 64,
        slot * t < 64,
        slot * t + t <= 64,
        len == 64 * t,
    ensures
        slot * t * t <= 4096,
        packed_tile_spec(t, slot, n).fits(len),
{
    assert(slot * t * t + t * t <= 64 * t) by (nonlinear_arith)
        requires
            slot * t + t <= 64,
            t >= 0,
    ;
    assert(0 <= slot * t * t <= 4096) by (nonlinear_arith)
        requires
            slot * t <= 64,
            0 <= t <= 64,
            0 <= slot,
    ;
    if n > 0 {
        assert((n - 1) + (n - 1) * t < t * t) by (nonlinear_arith)
            requires
                0 < n <= t,
        ;
    }
}

/// Factors the leading block of the tile of `slot`.
pub fn lu_factor_in_shared_packed<S: Scalar, const T: u32>(
    n: u32,
    slot: u32,
    mat: &mut [S],
    pivots: &mut [u32],
    piv: VecView,
)
    requires
        n <= T <= 64,
        slot * T + T <= 64,
        old(mat)@.len() == 64 * T,
        piv.fits(old(pivots)@.len() as int),
        piv.len == n,
    ensures
        mat_of(final(mat)@, packed_tile_spec(T as usize, slot as usize, n as usize)) == lu_factors(
            mat_of(old(mat)@, packed_tile_spec(T as usize, slot as usize, n as usize)),
            n as int,
        ),
        same_outside_mat(
            old(mat)@,
            final(mat)@,
            packed_tile_spec(T as usize, slot as usize, n as usize),
        ),
        vec_of(final(pivots)@, piv) == lu_pivots(
            mat_of(old(mat)@, packed_tile_spec(T as usize, slot as usize, n as usize)),
        ),
        same_outside_vec(old(pivots)@, final(pivots)@, piv),
{
    if n == 0 {
        proof {
            let m = packed_tile_spec(T as usize, slot as usize, n as usize);
            assert(mat_of(mat@, m) =~= lu_factors(mat_of(mat@, m), 0));
            assert(vec_of(pivots@, piv) =~= lu_pivots(mat_of(mat@, m)));
        }
        return ;
    }
    proof {
        assert(0 <= slot * T) by (nonlinear_arith)
            requires
                slot >= 0,
                T >= 0,
        ;
        lemma_packed_tile_fits(T as usize, slot as usize, n as usize, mat@.len() as int);
    }
    let base: usize = sm_idx_packed::<T>(slot, 0, 0);
    let m = MatView {
        base: base,
        row_stride: 1,
        col_stride: T as usize,
        nrows: n as usize,
        ncols: n as usize,
    };
    lu_decompose(mat, m, pivots, piv);
}

} // verus!
