//! Strided vectors and matrices inside flat buffers.
use vstd::prelude::*;

verus! {

/// Entry `i` lives at `base + i * stride`.
#[derive(Clone, Copy, Debug)]
pub struct VecView {
    pub base: usize,
    pub stride: usize,
    pub len: usize,
}

/// Entry `(r, c)` lives at `base + r * row_stride + c * col_stride`.
#[derive(Clone, Copy, Debug)]
pub struct MatView {
    pub base: usize,
    pub row_stride: usize,
    pub col_stride: usize,
    pub nrows: usize,
    pub ncols: usize,
}

impl VecView {
    pub open spec fn idx_spec(self, i: int) -> int {
        self.base + i * self.stride
    }

    /// The view has distinct entries, all inside a buffer of `n` entries.
    pub open spec fn fits(self, n: int) -> bool {
        &&& n <= usize::MAX
        &&& self.len > 0 ==> self.stride >= 1 && self.idx_spec(self.len - 1) < n
    }

    /// Whether the view holds buffer entry `k`.
    pub open spec fn holds(self, k: int) -> bool {
        exists|i: int| 0 <= i < self.len && #[trigger] self.idx_spec(i) == k
    }

    pub proof fn lemma_idx(self, n: int, i: int)
        requires
            self.fits(n),
            0 <= i < self.len,
        ensures
            0 <= self.idx_spec(i) < n,
            0 <= i * self.stride <= self.idx_spec(i),
            self.holds(self.idx_spec(i)),
    {
        assert(0 <= i * self.stride <= (self.len - 1) * self.stride) by (nonlinear_arith)
            requires
                0 <= i <= self.len - 1,
                self.stride >= 1,
        ;
    }

    pub proof fn lemma_distinct(self, n: int, i: int, j: int)
        requires
            self.fits(n),
            0 <= i < self.len,
            self.idx_spec(i) == self.idx_spec(j),
        ensures
            i == j,
    {
        assert(i == j) by (nonlinear_arith)
            requires
                self.base + i * self.stride == self.base + j * self.stride,
                self.stride >= 1,
        ;
    }

    pub fn at(&self, i: usize) -> (r: usize)
        requires
            i < self.len,
            self.fits(usize::MAX as int),
        ensures
            r == self.idx_spec(i as int),
    {
        proof {
            self.lemma_idx(usize::MAX as int, i as int);
        }
        self.base + i * self.stride
    }
}

impl MatView {
    pub open spec fn idx_spec(self, r: int, c: int) -> int {
        self.base + r * self.row_stride + c * self.col_stride
    }

    /// The view has distinct entries, all inside a buffer of `n` entries.
    pub open spec fn fits(self, n: int) -> bool {
        &&& n <= usize::MAX
        &&& self.nrows > 0 && self.ncols > 0 ==> {
            &&& self.row_stride >= 1
            &&& self.col_stride >= self.nrows * self.row_stride
            &&& self.idx_spec(self.nrows - 1, self.ncols - 1) < n
        }
    }

    /// Whether the view holds buffer entry `k`.
    pub open spec fn holds(self, k: int) -> bool {
        exists|r: int, c: int|
            0 <= r < self.nrows && 0 <= c < self.ncols && #[trigger] self.idx_spec(r, c) == k
    }

    pub proof fn lemma_idx(self, n: int, r: int, c: int)
        requires
            self.fits(n),
            0 <= r < self.nrows,
            0 <= c < self.ncols,
        ensures
            0 <= self.idx_spec(r, c) < n,
            0 <= r * self.row_stride,
            0 <= c * self.col_stride,
            self.base + r * self.row_stride <= self.idx_spec(r, c),
            self.holds(self.idx_spec(r, c)),
    {
        assert(0 <= r * self.row_stride <= (self.nrows - 1) * self.row_stride) by (nonlinear_arith)
            requires
                0 <= r <= self.nrows - 1,
                self.row_stride >= 1,
        ;
        assert(0 <= c * self.col_stride <= (self.ncols - 1) * self.col_stride) by (nonlinear_arith)
            requires
                0 <= c <= self.ncols - 1,
                self.col_stride >= 0,
        ;
    }

    pub proof fn lemma_distinct(self, n: int, r: int, c: int, r2: int, c2: int)
        requires
            self.fits(n),
            0 <= r < self.nrows,
            0 <= c < self.ncols,
            0 <= r2 < self.nrows,
            self.idx_spec(r, c) == self.idx_spec(r2, c2),
        ensures
            r == r2,
            c == c2,
    {
        let rs = self.row_stride as int;
        let cs = self.col_stride as int;
        let nr = self.nrows as int;
        assert(c == c2) by (nonlinear_arith)
            requires
                r * rs + c * cs == r2 * rs + c2 * cs,
                rs >= 1,
                cs >= nr * rs,
                0 <= r < nr,
                0 <= r2 < nr,
        ;
        assert(r == r2) by (nonlinear_arith)
            requires
                r * rs == r2 * rs,
                rs >= 1,
        ;
    }

    pub fn at(&self, r: usize, c: usize) -> (k: usize)
        requires
            r < self.nrows,
            c < self.ncols,
            self.fits(usize::MAX as int),
        ensures
            k == self.idx_spec(r as int, c as int),
    {
        proof {
            self.lemma_idx(usize::MAX as int, r as int, c as int);
        }
        self.base + r * self.row_stride + c * self.col_stride
    }
}

/// The entries of a vector view.
pub open spec fn vec_of<T>(buf: Seq<T>, v: VecView) -> Seq<T> {
    Seq::new(v.len as nat, |i: int| buf[v.idx_spec(i)])
}

/// The rows of a matrix view.
pub open spec fn mat_of<T>(buf: Seq<T>, m: MatView) -> Seq<Seq<T>> {
    Seq::new(m.nrows as nat, |r: int| Seq::new(m.ncols as nat, |c: int| buf[m.idx_spec(r, c)]))
}

/// The two buffers agree outside the vector view.
pub open spec fn same_outside_vec<T>(a: Seq<T>, b: Seq<T>, v: VecView) -> bool {
    &&& a.len() == b.len()
    &&& forall|k: int| 0 <= k < a.len() && !v.holds(k) ==> #[trigger] a[k] == b[k]
}

/// The two buffers agree outside the matrix view.
pub open spec fn same_outside_mat<T>(a: Seq<T>, b: Seq<T>, m: MatView) -> bool {
    &&& a.len() == b.len()
    &&& forall|k: int| 0 <= k < a.len() && !m.holds(k) ==> #[trigger] a[k] == b[k]
}

/// Entry `(r, c)` replaced by `x`.
pub open spec fn mat_set_spec<T>(m: Seq<Seq<T>>, r: int, c: int, x: T) -> Seq<Seq<T>> {
    m.update(r, m[r].update(c, x))
}

pub fn vec_get<T: Copy>(buf: &[T], v: VecView, i: usize) -> (x: T)
    requires
        v.fits(buf@.len() as int),
        i < v.len,
    ensures
        x == vec_of(buf@, v)[i as int],
{
    proof {
        v.lemma_idx(buf@.len() as int, i as int);
    }
    buf[v.at(i)]
}

pub fn vec_set<T: Copy>(buf: &mut [T], v: VecView, i: usize, x: T)
    requires
        v.fits(old(buf)@.len() as int),
        i < v.len,
    ensures
        final(buf)@ == old(buf)@.update(v.idx_spec(i as int), x),
        vec_of(final(buf)@, v) == vec_of(old(buf)@, v).update(i as int, x),
        same_outside_vec(old(buf)@, final(buf)@, v),
{
    proof {
        v.lemma_idx(buf@.len() as int, i as int);
    }
    let k: usize = v.at(i);
    buf[k] = x;
    proof {
        assert forall|j: int| 0 <= j < v.len implies #[trigger] vec_of(buf@, v)[j] == vec_of(
            old(buf)@,
            v,
        ).update(i as int, x)[j] by {
            v.lemma_idx(buf@.len() as int, j);
            if v.idx_spec(j) == v.idx_spec(i as int) {
                v.lemma_distinct(buf@.len() as int, i as int, j);
            }
        }
        assert(vec_of(buf@, v) =~= vec_of(old(buf)@, v).update(i as int, x));
    }
}

pub fn mat_get<T: Copy>(buf: &[T], m: MatView, r: usize, c: usize) -> (x: T)
    requires
        m.fits(buf@.len() as int),
        r < m.nrows,
        c < m.ncols,
    ensures
        x == mat_of(buf@, m)[r as int][c as int],
{
    proof {
        m.lemma_idx(buf@.len() as int, r as int, c as int);
    }
    buf[m.at(r, c)]
}

pub fn mat_set<T: Copy>(buf: &mut [T], m: MatView, r: usize, c: usize, x: T)
    requires
        m.fits(old(buf)@.len() as int),
        r < m.nrows,
        c < m.ncols,
    ensures
        final(buf)@ == old(buf)@.update(m.idx_spec(r as int, c as int), x),
        mat_of(final(buf)@, m) == mat_set_spec(mat_of(old(buf)@, m), r as int, c as int, x),
        same_outside_mat(old(buf)@, final(buf)@, m),
{
    proof {
        m.lemma_idx(buf@.len() as int, r as int, c as int);
    }
    let k: usize = m.at(r, c);
    buf[k] = x;
    proof {
        let a = mat_of(buf@, m);
        let b = mat_set_spec(mat_of(old(buf)@, m), r as int, c as int, x);
        assert forall|i: int| 0 <= i < m.nrows implies #[trigger] a[i] == b[i] by {
            assert forall|j: int| 0 <= j < m.ncols implies #[trigger] a[i][j] == b[i][j] by {
                m.lemma_idx(buf@.len() as int, i, j);
                if m.idx_spec(i, j) == m.idx_spec(r as int, c as int) {
                    m.lemma_distinct(buf@.len() as int, i, j, r as int, c as int);
                }
            }
            assert(a[i] =~= b[i]);
        }
        assert(a =~= b);
    }
}

/// Copies one viewed vector over another of the same length.
pub fn copy_vec<T: Copy>(src: &[T], sv: VecView, dst: &mut [T], dv: VecView)
    requires
        sv.fits(src@.len() as int),
        dv.fits(old(dst)@.len() as int),
        sv.len == dv.len,
    ensures
        vec_of(final(dst)@, dv) == vec_of(src@, sv),
        same_outside_vec(old(dst)@, final(dst)@, dv),
{
    let mut i: usize = 0;
    while i < dv.len
        invariant
            sv.fits(src@.len() as int),
            dv.fits(old(dst)@.len() as int),
            sv.len == dv.len,
            i <= dv.len,
            same_outside_vec(old(dst)@, dst@, dv),
            forall|j: int| 0 <= j < i ==> #[trigger] vec_of(dst@, dv)[j] == vec_of(src@, sv)[j],
        decreases dv.len - i,
    {
        let x = vec_get(src, sv, i);
        vec_set(dst, dv, i, x);
        i = i + 1;
    }
    assert(vec_of(dst@, dv) =~= vec_of(src@, sv));
}

/// Copies one viewed matrix over another of the same shape, column by column.
pub fn copy_mat<T: Copy>(src: &[T], sv: MatView, dst: &mut [T], dv: MatView)
    requires
        sv.fits(src@.len() as int),
        dv.fits(old(dst)@.len() as int),
        sv.nrows == dv.nrows,
        sv.ncols == dv.ncols,
    ensures
        mat_of(final(dst)@, dv) == mat_of(src@, sv),
        same_outside_mat(old(dst)@, final(dst)@, dv),
{
    let mut c: usize = 0;
    while c < dv.ncols
        invariant
            sv.fits(src@.len() as int),
            dv.fits(old(dst)@.len() as int),
            sv.nrows == dv.nrows,
            sv.ncols == dv.ncols,
            c <= dv.ncols,
            same_outside_mat(old(dst)@, dst@, dv),
            forall|i: int, j: int|
                0 <= i < dv.nrows && 0 <= j < c ==> #[trigger] mat_of(dst@, dv)[i][j] == mat_of(
                    src@,
                    sv,
                )[i][j],
        decreases dv.ncols - c,
    {
        let mut r: usize = 0;
        while r < dv.nrows
            invariant
                sv.fits(src@.len() as int),
                dv.fits(old(dst)@.len() as int),
                sv.nrows == dv.nrows,
                sv.ncols == dv.ncols,
                c < dv.ncols,
                r <= dv.nrows,
                same_outside_mat(old(dst)@, dst@, dv),
                forall|i: int, j: int|
                    0 <= i < dv.nrows && 0 <= j < c ==> #[trigger] mat_of(dst@, dv)[i][j]
                        == mat_of(src@, sv)[i][j],
                forall|i: int|
                    0 <= i < r ==> #[trigger] mat_of(dst@, dv)[i][c as int] == mat_of(src@, sv)[i][c
                        as int],
            decreases dv.nrows - r,
        {
            let x = mat_get(src, sv, r, c);
            mat_set(dst, dv, r, c, x);
            r = r + 1;
        }
        c = c + 1;
    }
    proof {
        let a = mat_of(dst@, dv);
        let b = mat_of(src@, sv);
        assert forall|i: int| 0 <= i < dv.nrows implies #[trigger] a[i] == b[i] by {
            assert(a[i] =~= b[i]);
        }
        assert(a =~= b);
    }
}

/// The viewed entries as a vector.
pub fn load_vec<T: Copy>(src: &[T], sv: VecView) -> (out: Vec<T>)
    requires
        sv.fits(src@.len() as int),
    ensures
        out@ == vec_of(src@, sv),
{
    let mut out: Vec<T> = Vec::new();
    let mut i: usize = 0;
    while i < sv.len
        invariant
            sv.fits(src@.len() as int),
            i <= sv.len,
            out@ == vec_of(src@, sv).take(i as int),
        decreases sv.len - i,
    {
        out.push(vec_get(src, sv, i));
        assert(vec_of(src@, sv).take(i + 1) =~= vec_of(src@, sv).take(i as int).push(
            vec_of(src@, sv)[i as int],
        ));
        i = i + 1;
    }
    assert(vec_of(src@, sv).take(sv.len as int) =~= vec_of(src@, sv));
    out
}

/// Writes a vector over the viewed entries.
pub fn store_vec<T: Copy>(src: &Vec<T>, dst: &mut [T], dv: VecView)
    requires
        dv.fits(old(dst)@.len() as int),
        src@.len() == dv.len,
    ensures
        vec_of(final(dst)@, dv) == src@,
        same_outside_vec(old(dst)@, final(dst)@, dv),
{
    let mut i: usize = 0;
    while i < dv.len
        invariant
            dv.fits(old(dst)@.len() as int),
            src@.len() == dv.len,
            i <= dv.len,
            same_outside_vec(old(dst)@, dst@, dv),
            forall|j: int| 0 <= j < i ==> #[trigger] vec_of(dst@, dv)[j] == src@[j],
        decreases dv.len - i,
    {
        vec_set(dst, dv, i, src[i]);
        i = i + 1;
    }
    assert(vec_of(dst@, dv) =~= src@);
}

} // verus!
