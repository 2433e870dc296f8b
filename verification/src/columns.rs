//! Spatial columns: a matrix whose columns are linear-angular pairs.
//!
//! The rows of such a matrix are the linear axes, then the angular ones.
use crate::batch::{imat_spec, mbi_spec, room};
use crate::scalar::Scalar;
use crate::space::{Dimension, Space, Velocity};
use crate::views::{MatView, mat_get, mat_of, mat_set, same_outside_mat};
use vstd::prelude::*;

verus! {

/// The linear part of column `c`: rows `lo` and following.
pub open spec fn lin_col<S: Scalar, D: Space<S>>(m: Seq<Seq<S>>, lo: int, c: int) -> D::V {
    D::vfrom_spec(
        m[lo][c],
        m[lo + 1][c],
        match D::dimension_spec() {
            Dimension::Two => S::zero_spec(),
            Dimension::Three => m[lo + 2][c],
        },
    )
}

/// The angular part of column `c`: rows `lo` and following.
pub open spec fn ang_col<S: Scalar, D: Space<S>>(m: Seq<Seq<S>>, lo: int, c: int) -> D::A {
    match D::dimension_spec() {
        Dimension::Two => D::afrom_spec(m[lo][c], S::zero_spec(), S::zero_spec()),
        Dimension::Three => D::afrom_spec(m[lo][c], m[lo + 1][c], m[lo + 2][c]),
    }
}

/// Column `c` of a spatial matrix.
pub open spec fn col_of<S: Scalar, D: Space<S>>(m: Seq<Seq<S>>, c: int) -> Velocity<S, D> {
    Velocity {
        linear: lin_col::<S, D>(m, 0, c),
        angular: ang_col::<S, D>(m, D::dimension_spec().lin_spec(), c),
    }
}

/// The columns of a viewed spatial matrix.
pub open spec fn cols_of<S: Scalar, D: Space<S>>(buf: Seq<S>, m: MatView) -> Seq<Velocity<S, D>> {
    Seq::new(m.ncols as nat, |c: int| col_of::<S, D>(mat_of(buf, m), c))
}

/// The linear columns of a viewed matrix of linear rows.
pub open spec fn lin_cols_of<S: Scalar, D: Space<S>>(buf: Seq<S>, m: MatView) -> Seq<D::V> {
    Seq::new(m.ncols as nat, |c: int| lin_col::<S, D>(mat_of(buf, m), 0, c))
}

/// The angular columns of a viewed matrix of angular rows.
pub open spec fn ang_cols_of<S: Scalar, D: Space<S>>(buf: Seq<S>, m: MatView) -> Seq<D::A> {
    Seq::new(m.ncols as nat, |c: int| ang_col::<S, D>(mat_of(buf, m), 0, c))
}

fn get_lin<S: Scalar, D: Space<S>>(buf: &[S], m: MatView, lo: usize, c: usize) -> (r: D::V)
    requires
        m.fits(buf@.len() as int),
        lo + D::dimension_spec().lin_spec() <= m.nrows,
        c < m.ncols,
    ensures
        r == lin_col::<S, D>(mat_of(buf@, m), lo as int, c as int),
{
    let x = mat_get(buf, m, lo, c);
    let y = mat_get(buf, m, lo + 1, c);
    let z = match D::dimension() {
        Dimension::Two => S::zero(),
        Dimension::Three => mat_get(buf, m, lo + 2, c),
    };
    D::vfrom(x, y, z)
}

fn get_ang<S: Scalar, D: Space<S>>(buf: &[S], m: MatView, lo: usize, c: usize) -> (r: D::A)
    requires
        m.fits(buf@.len() as int),
        lo + D::dimension_spec().ang_spec() <= m.nrows,
        c < m.ncols,
    ensures
        r == ang_col::<S, D>(mat_of(buf@, m), lo as int, c as int),
{
    match D::dimension() {
        Dimension::Two => D::afrom(mat_get(buf, m, lo, c), S::zero(), S::zero()),
        Dimension::Three => D::afrom(
            mat_get(buf, m, lo, c),
            mat_get(buf, m, lo + 1, c),
            mat_get(buf, m, lo + 2, c),
        ),
    }
}

/// Column `c` rewritten: rows `lo..lo + n` of it are `f`, the rest stays.
spec fn col_rows<S>(
    before: Seq<Seq<S>>,
    after: Seq<Seq<S>>,
    lo: int,
    n: int,
    c: int,
    f: spec_fn(int) -> S,
) -> bool {
    &&& after.len() == before.len()
    &&& forall|r: int|
        0 <= r < before.len() ==> (#[trigger] after[r]).len() == before[r].len()
    &&& forall|r: int, j: int|
        0 <= r < before.len() && 0 <= j < before[r].len() ==> #[trigger] after[r][j] == (if j == c
            && lo <= r < lo + n {
            f(r - lo)
        } else {
            before[r][j]
        })
}

fn set_lin<S: Scalar, D: Space<S>>(buf: &mut [S], m: MatView, lo: usize, c: usize, v: D::V)
    requires
        m.fits(old(buf)@.len() as int),
        lo + D::dimension_spec().lin_spec() <= m.nrows,
        c < m.ncols,
    ensures
        col_rows(
            mat_of(old(buf)@, m),
            mat_of(final(buf)@, m),
            lo as int,
            D::dimension_spec().lin_spec(),
            c as int,
            |i: int| D::vget_spec(v, i),
        ),
        same_outside_mat(old(buf)@, final(buf)@, m),
{
    mat_set(buf, m, lo, c, D::vget(v, 0));
    mat_set(buf, m, lo + 1, c, D::vget(v, 1));
    match D::dimension() {
        Dimension::Two => {},
        Dimension::Three => {
            mat_set(buf, m, lo + 2, c, D::vget(v, 2));
        },
    }
}

fn set_ang<S: Scalar, D: Space<S>>(buf: &mut [S], m: MatView, lo: usize, c: usize, v: D::A)
    requires
        m.fits(old(buf)@.len() as int),
        lo + D::dimension_spec().ang_spec() <= m.nrows,
        c < m.ncols,
    ensures
        col_rows(
            mat_of(old(buf)@, m),
            mat_of(final(buf)@, m),
            lo as int,
            D::dimension_spec().ang_spec(),
            c as int,
            |i: int| D::aget_spec(v, i),
        ),
        same_outside_mat(old(buf)@, final(buf)@, m),
{
    mat_set(buf, m, lo, c, D::aget(v, 0));
    match D::dimension() {
        Dimension::Two => {},
        Dimension::Three => {
            mat_set(buf, m, lo + 1, c, D::aget(v, 1));
            mat_set(buf, m, lo + 2, c, D::aget(v, 2));
        },
    }
}

/// Reads column `c`.
pub fn get_col<S: Scalar, D: Space<S>>(buf: &[S], m: MatView, c: usize) -> (r: Velocity<S, D>)
    requires
        m.fits(buf@.len() as int),
        m.nrows == D::dimension_spec().spatial_spec(),
        c < m.ncols,
    ensures
        r == cols_of::<S, D>(buf@, m)[c as int],
{
    let dim: usize = D::dimension().lin() as usize;
    Velocity { linear: get_lin::<S, D>(buf, m, 0, c), angular: get_ang::<S, D>(buf, m, dim, c) }
}

/// Writes column `c`.
pub fn set_col<S: Scalar, D: Space<S>>(buf: &mut [S], m: MatView, c: usize, v: Velocity<S, D>)
    requires
        m.fits(old(buf)@.len() as int),
        m.nrows == D::dimension_spec().spatial_spec(),
        c < m.ncols,
    ensures
        cols_of::<S, D>(final(buf)@, m) == cols_of::<S, D>(old(buf)@, m).update(c as int, v),
        same_outside_mat(old(buf)@, final(buf)@, m),
{
    let dim: usize = D::dimension().lin() as usize;
    set_lin::<S, D>(buf, m, 0, c, v.linear);
    set_ang::<S, D>(buf, m, dim, c, v.angular);
    proof {
        let a = mat_of(old(buf)@, m);
        let z = mat_of(buf@, m);
        D::lemma_vparts(v.linear);
        D::lemma_aparts(v.angular);
        assert forall|j: int| 0 <= j < m.ncols implies #[trigger] cols_of::<S, D>(buf@, m)[j]
            == cols_of::<S, D>(old(buf)@, m).update(c as int, v)[j] by {
            assert(z[0][j] == z[0][j] && z[1][j] == z[1][j]);
        }
        assert(cols_of::<S, D>(buf@, m) =~= cols_of::<S, D>(old(buf)@, m).update(c as int, v));
    }
}

/// Reads linear column `c`.
pub fn get_lin_col<S: Scalar, D: Space<S>>(buf: &[S], m: MatView, c: usize) -> (r: D::V)
    requires
        m.fits(buf@.len() as int),
        m.nrows == D::dimension_spec().lin_spec(),
        c < m.ncols,
    ensures
        r == lin_cols_of::<S, D>(buf@, m)[c as int],
{
    get_lin::<S, D>(buf, m, 0, c)
}

/// Reads angular column `c`.
pub fn get_ang_col<S: Scalar, D: Space<S>>(buf: &[S], m: MatView, c: usize) -> (r: D::A)
    requires
        m.fits(buf@.len() as int),
        m.nrows == D::dimension_spec().ang_spec(),
        c < m.ncols,
    ensures
        r == ang_cols_of::<S, D>(buf@, m)[c as int],
{
    get_ang::<S, D>(buf, m, 0, c)
}

/// Writes linear column `c`.
pub fn set_lin_col<S: Scalar, D: Space<S>>(buf: &mut [S], m: MatView, c: usize, v: D::V)
    requires
        m.fits(old(buf)@.len() as int),
        m.nrows == D::dimension_spec().lin_spec(),
        c < m.ncols,
    ensures
        lin_cols_of::<S, D>(final(buf)@, m) == lin_cols_of::<S, D>(old(buf)@, m).update(
            c as int,
            v,
        ),
        same_outside_mat(old(buf)@, final(buf)@, m),
{
    set_lin::<S, D>(buf, m, 0, c, v);
    proof {
        let z = mat_of(buf@, m);
        D::lemma_vparts(v);
        assert forall|j: int| 0 <= j < m.ncols implies #[trigger] lin_cols_of::<S, D>(buf@, m)[j]
            == lin_cols_of::<S, D>(old(buf)@, m).update(c as int, v)[j] by {
            assert(z[0][j] == z[0][j] && z[1][j] == z[1][j]);
        }
        assert(lin_cols_of::<S, D>(buf@, m) =~= lin_cols_of::<S, D>(old(buf)@, m).update(
            c as int,
            v,
        ));
    }
}

/// Writes angular column `c`.
pub fn set_ang_col<S: Scalar, D: Space<S>>(buf: &mut [S], m: MatView, c: usize, v: D::A)
    requires
        m.fits(old(buf)@.len() as int),
        m.nrows == D::dimension_spec().ang_spec(),
        c < m.ncols,
    ensures
        ang_cols_of::<S, D>(final(buf)@, m) == ang_cols_of::<S, D>(old(buf)@, m).update(
            c as int,
            v,
        ),
        same_outside_mat(old(buf)@, final(buf)@, m),
{
    set_ang::<S, D>(buf, m, 0, c, v);
    proof {
        let z = mat_of(buf@, m);
        D::lemma_aparts(v);
        assert forall|j: int| 0 <= j < m.ncols implies #[trigger] ang_cols_of::<S, D>(buf@, m)[j]
            == ang_cols_of::<S, D>(old(buf)@, m).update(c as int, v)[j] by {
            assert(z[0][j] == z[0][j]);
        }
        assert(ang_cols_of::<S, D>(buf@, m) =~= ang_cols_of::<S, D>(old(buf)@, m).update(
            c as int,
            v,
        ));
    }
}

// ---- separate blocks ----

/// No buffer entry belongs to both views.
pub open spec fn disjoint(a: MatView, b: MatView) -> bool {
    forall|k: int| !(#[trigger] a.holds(k) && b.holds(k))
}

/// The buffers hold the same matrix in a view that the change left out.
pub proof fn lemma_disjoint_keeps<T>(before: Seq<T>, after: Seq<T>, changed: MatView, kept: MatView)
    requires
        same_outside_mat(before, after, changed),
        disjoint(kept, changed),
        kept.fits(before.len() as int),
    ensures
        mat_of(before, kept) == mat_of(after, kept),
{
    let a = mat_of(before, kept);
    let b = mat_of(after, kept);
    assert forall|r: int| 0 <= r < kept.nrows implies #[trigger] a[r] == b[r] by {
        assert forall|c: int| 0 <= c < kept.ncols implies #[trigger] a[r][c] == b[r][c] by {
            kept.lemma_idx(before.len() as int, r, c);
            let k = kept.idx_spec(r, c);
            assert(kept.holds(k));
            assert(before[k] == after[k]);
        }
        assert(a[r] =~= b[r]);
    }
    assert(a =~= b);
}

/// The two buffers agree outside both views.
pub open spec fn same_outside_two<T>(a: Seq<T>, b: Seq<T>, m1: MatView, m2: MatView) -> bool {
    &&& a.len() == b.len()
    &&& forall|k: int|
        0 <= k < a.len() && !m1.holds(k) && !m2.holds(k) ==> #[trigger] a[k] == b[k]
}

/// The buffers hold the same matrix in a view that both changes left out.
pub proof fn lemma_disjoint_keeps_two<T>(
    before: Seq<T>,
    after: Seq<T>,
    m1: MatView,
    m2: MatView,
    kept: MatView,
)
    requires
        same_outside_two(before, after, m1, m2),
        disjoint(kept, m1),
        disjoint(kept, m2),
        kept.fits(before.len() as int),
    ensures
        mat_of(before, kept) == mat_of(after, kept),
{
    let a = mat_of(before, kept);
    let b = mat_of(after, kept);
    assert forall|r: int| 0 <= r < kept.nrows implies #[trigger] a[r] == b[r] by {
        assert forall|c: int| 0 <= c < kept.ncols implies #[trigger] a[r][c] == b[r][c] by {
            kept.lemma_idx(before.len() as int, r, c);
            let k = kept.idx_spec(r, c);
            assert(kept.holds(k));
            assert(before[k] == after[k]);
        }
        assert(a[r] =~= b[r]);
    }
    assert(a =~= b);
}

/// An entry of a batch's matrix lies among the batch's entries from its base.
pub proof fn lemma_imat_entry(nb: int, b: int, base: int, nr: int, nc: int, n: int, k: int)
    requires
        room(nb, b, base, nr * nc, n),
        nb <= usize::MAX,
        nr >= 0,
        nc >= 0,
        nr <= usize::MAX,
        nc <= usize::MAX,
        imat_spec(nb, b, base, nr, nc).holds(k),
    ensures
        exists|e: int| base <= e < base + nr * nc && k == #[trigger] mbi_spec(nb, b, e),
{
    let m = imat_spec(nb, b, base, nr, nc);
    let (r, c) = choose|r: int, c: int|
        0 <= r < m.nrows && 0 <= c < m.ncols && #[trigger] m.idx_spec(r, c) == k;
    crate::batch::lemma_imat_fits(nb, b, base, nr, nc, n);
    let e = base + r + c * nr;
    assert(0 <= r + c * nr < nr * nc) by (nonlinear_arith)
        requires
            0 <= r < nr,
            0 <= c < nc,
    ;
    assert(base * nb + b + r * nb + c * (nr * nb) == (base + r + c * nr) * nb + b)
        by (nonlinear_arith);
    assert(k == mbi_spec(nb, b, e));
}

/// Matrices of one batch over separate entry ranges share no buffer entry.
pub proof fn lemma_imat_disjoint(
    nb: int,
    b: int,
    base1: int,
    nr1: int,
    nc1: int,
    base2: int,
    nr2: int,
    nc2: int,
    n: int,
)
    requires
        room(nb, b, base1, nr1 * nc1, n),
        room(nb, b, base2, nr2 * nc2, n),
        nb <= usize::MAX,
        0 <= nr1 <= usize::MAX,
        0 <= nc1 <= usize::MAX,
        0 <= nr2 <= usize::MAX,
        0 <= nc2 <= usize::MAX,
        base1 + nr1 * nc1 <= base2 || base2 + nr2 * nc2 <= base1,
    ensures
        disjoint(imat_spec(nb, b, base1, nr1, nc1), imat_spec(nb, b, base2, nr2, nc2)),
{
    let m1 = imat_spec(nb, b, base1, nr1, nc1);
    let m2 = imat_spec(nb, b, base2, nr2, nc2);
    assert forall|k: int| !(#[trigger] m1.holds(k) && m2.holds(k)) by {
        if m1.holds(k) && m2.holds(k) {
            lemma_imat_entry(nb, b, base1, nr1, nc1, n, k);
            lemma_imat_entry(nb, b, base2, nr2, nc2, n, k);
            let e1 = choose|e: int|
                base1 <= e < base1 + nr1 * nc1 && k == #[trigger] mbi_spec(nb, b, e);
            let e2 = choose|e: int|
                base2 <= e < base2 + nr2 * nc2 && k == #[trigger] mbi_spec(nb, b, e);
            crate::batch::interleaving_is_injective(nb, b, e1, b, e2);
        }
    }
}

} // verus!
