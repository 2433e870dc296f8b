//! Batched buffers: several environments share one buffer.
//!
//! The per-link and per-DOF buffers are interleaved: entry `i` of batch `b`
//! lives at `i * num_batches + b`.
use crate::views::{MatView, VecView};
use vstd::prelude::*;

verus! {

/// Sizes shared by every kernel.
#[derive(Clone, Copy, Debug)]
pub struct BatchIndices {
    pub num_batches: u32,
    pub multibodies_len: u32,
    pub links_batch_capacity: u32,
    pub dof_batch_capacity: u32,
    pub contacts_batch_capacity: u32,
    pub colliders_batch_capacity: u32,
    pub coriolis_batch_capacity: u32,
    pub multibodies_batch_capacity: u32,
    pub joint_constraints_batch_capacity: u32,
    pub colliders_len: u32,
    pub bodies_len: u32,
    pub mass_matrix_batch_capacity: u32,
    /// Impulse joints per batch.
    pub mb_imp_joints_batch_capacity: u32,
    /// Constraint slots of the impulse joints per batch.
    pub mb_imp_joint_constraints_batch_capacity: u32,
    /// Jacobian entries of the impulse joints per batch.
    pub mb_imp_joint_jacobians_batch_capacity: u32,
    /// Colors of the impulse joints per batch.
    pub mb_imp_joint_colors_batch_capacity: u32,
}

/// The quotient of two integers.
pub fn udiv(a: u32, b: u32) -> (r: u32)
    requires
        b != 0,
    ensures
        r == a as int / b as int,
{
    a / b
}

/// The remainder of two integers.
pub fn umod(a: u32, b: u32) -> (r: u32)
    requires
        b != 0,
    ensures
        r == a as int % b as int,
{
    a % b
}

/// Position of entry `i` of batch `b`.
pub open spec fn mbi_spec(nb: int, b: int, i: int) -> int {
    i * nb + b
}

/// Entries `base..base + len` of batch `b`.
pub open spec fn ivec_spec(nb: int, b: int, base: int, len: int) -> VecView {
    if len <= 0 {
        VecView { base: 0, stride: nb as usize, len: 0 }
    } else {
        VecView { base: mbi_spec(nb, b, base) as usize, stride: nb as usize, len: len as usize }
    }
}

/// The column-major `nrows x ncols` matrix that starts at entry `base` of
/// batch `b`.
pub open spec fn imat_spec(nb: int, b: int, base: int, nrows: int, ncols: int) -> MatView {
    if nrows <= 0 || ncols <= 0 {
        MatView {
            base: 0,
            row_stride: nb as usize,
            col_stride: 0,
            nrows: nrows as usize,
            ncols: ncols as usize,
        }
    } else {
        MatView {
            base: mbi_spec(nb, b, base) as usize,
            row_stride: nb as usize,
            col_stride: (nrows * nb) as usize,
            nrows: nrows as usize,
            ncols: ncols as usize,
        }
    }
}

/// Entries `base..base + len` of every batch lie in a buffer of `n` entries.
pub open spec fn room(nb: int, b: int, base: int, len: int, n: int) -> bool {
    &&& 0 <= b < nb
    &&& 0 <= base
    &&& 0 <= len
    &&& n <= usize::MAX
    &&& (base + len) * nb <= n
}

pub proof fn lemma_ivec_fits(nb: int, b: int, base: int, len: int, n: int)
    requires
        room(nb, b, base, len, n),
        nb <= usize::MAX,
    ensures
        len > 0 ==> mbi_spec(nb, b, base) < n,
        len > 0 ==> 0 <= base * nb <= mbi_spec(nb, b, base),
        0 <= len <= usize::MAX,
        ivec_spec(nb, b, base, len).fits(n),
{
    assert(base + len <= (base + len) * nb) by (nonlinear_arith)
        requires
            nb >= 1,
            base + len >= 0,
    ;
    if len > 0 {
        assert(base * nb + b + (len - 1) * nb == (base + len) * nb - nb + b) by (nonlinear_arith);
        assert(0 <= base * nb) by (nonlinear_arith)
            requires
                base >= 0,
                nb >= 0,
        ;
        assert(0 <= (len - 1) * nb) by (nonlinear_arith)
            requires
                len >= 1,
                nb >= 0,
        ;
    }
}

pub proof fn lemma_imat_fits(nb: int, b: int, base: int, nrows: int, ncols: int, n: int)
    requires
        nrows > 0,
        ncols > 0,
        room(nb, b, base, nrows * ncols, n),
        nb <= usize::MAX,
    ensures
        mbi_spec(nb, b, base) < n,
        0 <= base * nb <= mbi_spec(nb, b, base),
        nrows <= usize::MAX,
        ncols <= usize::MAX,
        0 <= nrows * nb <= usize::MAX,
        imat_spec(nb, b, base, nrows, ncols).fits(n),
{
    let k = nrows * ncols;
    assert(nrows <= k && ncols <= k && 1 <= k) by (nonlinear_arith)
        requires
            nrows >= 1,
            ncols >= 1,
            k == nrows * ncols,
    ;
    assert(nrows * nb <= (base + k) * nb) by (nonlinear_arith)
        requires
            nrows <= base + k,
            nb >= 0,
    ;
    assert(0 <= nrows * nb) by (nonlinear_arith)
        requires
            nrows >= 0,
            nb >= 0,
    ;
    lemma_ivec_fits(nb, b, base, k, n);
    assert(base * nb + b + (nrows - 1) * nb + (ncols - 1) * (nrows * nb) == (base + k) * nb - nb
        + b) by (nonlinear_arith)
        requires
            k == nrows * ncols,
    ;
}

impl BatchIndices {
    /// Position of entry `i` of batch `b`.
    pub fn mbi(&self, b: u32, i: usize) -> (r: usize)
        requires
            b < self.num_batches,
            i * self.num_batches + b <= usize::MAX,
        ensures
            r == mbi_spec(self.num_batches as int, b as int, i as int),
    {
        assert(0 <= i * self.num_batches) by (nonlinear_arith)
            requires
                i >= 0,
                self.num_batches >= 0,
        ;
        i * self.num_batches as usize + b as usize
    }

    /// Entries `base..base + len` of batch `b`.
    pub fn ivec(&self, b: u32, base: usize, len: usize, n: usize) -> (r: VecView)
        requires
            room(self.num_batches as int, b as int, base as int, len as int, n as int),
        ensures
            r == ivec_spec(self.num_batches as int, b as int, base as int, len as int),
            r.fits(n as int),
    {
        proof {
            lemma_ivec_fits(self.num_batches as int, b as int, base as int, len as int, n as int);
        }
        if len == 0 {
            return VecView { base: 0, stride: self.num_batches as usize, len: 0 };
        }
        VecView { base: self.mbi(b, base), stride: self.num_batches as usize, len: len }
    }

    /// The matrix that starts at entry `base` of batch `b`.
    pub fn imat(&self, b: u32, base: usize, nrows: usize, ncols: usize, n: usize) -> (r: MatView)
        requires
            room(self.num_batches as int, b as int, base as int, nrows * ncols, n as int),
        ensures
            r == imat_spec(
                self.num_batches as int,
                b as int,
                base as int,
                nrows as int,
                ncols as int,
            ),
            r.fits(n as int),
    {
        if nrows == 0 || ncols == 0 {
            return MatView {
                base: 0,
                row_stride: self.num_batches as usize,
                col_stride: 0,
                nrows: nrows,
                ncols: ncols,
            };
        }
        proof {
            lemma_imat_fits(
                self.num_batches as int,
                b as int,
                base as int,
                nrows as int,
                ncols as int,
                n as int,
            );
        }
        MatView {
            base: self.mbi(b, base),
            row_stride: self.num_batches as usize,
            col_stride: nrows * self.num_batches as usize,
            nrows: nrows,
            ncols: ncols,
        }
    }
}

/// The first entry of batch `b` in a buffer of `n` entries that holds one batch
/// of `cap` entries after the other.
pub fn batch_start(b: u32, cap: usize, n: usize) -> (r: usize)
    requires
        (b + 1) * cap <= n,
    ensures
        r == b * cap,
        r + cap <= n,
{
    assert(b * cap + cap == (b + 1) * cap) by (nonlinear_arith);
    assert(0 <= b * cap) by (nonlinear_arith)
        requires
            b >= 0,
            cap >= 0,
    ;
    assert(b <= b * cap || cap == 0) by (nonlinear_arith)
        requires
            cap >= 0,
            b >= 0,
    ;
    if cap == 0 {
        return 0;
    }
    b as usize * cap
}

pub proof fn lemma_batch(b: int, cap: int, n: int)
    requires
        0 <= b,
        0 <= cap,
        (b + 1) * cap <= n,
    ensures
        0 <= b * cap,
        b * cap + cap <= n,
{
    assert(b * cap + cap == (b + 1) * cap) by (nonlinear_arith);
    assert(0 <= b * cap) by (nonlinear_arith)
        requires
            b >= 0,
            cap >= 0,
    ;
}

/// The entries of batch `b` in a buffer that holds one batch of `cap` entries
/// after the other.
pub open spec fn batch_of<T>(buf: Seq<T>, b: int, cap: int) -> Seq<T> {
    buf.subrange(b * cap, b * cap + cap)
}

/// Two buffers agree outside batch `b`.
pub open spec fn same_outside_batch<T>(a: Seq<T>, c: Seq<T>, b: int, cap: int) -> bool {
    &&& a.len() == c.len()
    &&& forall|g: int|
        0 <= g < a.len() && !(b * cap <= g < b * cap + cap) ==> #[trigger] a[g] == c[g]
}

/// The entries of batch `b`.
pub fn batch_slice<T>(buf: &[T], b: u32, cap: usize) -> (r: &[T])
    requires
        (b + 1) * cap <= buf@.len(),
    ensures
        r@ == batch_of(buf@, b as int, cap as int),
{
    let n: usize = buf.len();
    let start: usize = batch_start(b, cap, n);
    vstd::slice::slice_subrange(buf, start, start + cap)
}

/// Entries of distinct batches, and distinct entries of one batch, have
/// distinct positions.
pub proof fn interleaving_is_injective(nb: int, b: int, i: int, b2: int, i2: int)
    requires
        0 <= b < nb,
        0 <= b2 < nb,
        mbi_spec(nb, b, i) == mbi_spec(nb, b2, i2),
    ensures
        b == b2,
        i == i2,
{
    assert(i == i2) by (nonlinear_arith)
        requires
            i * nb + b == i2 * nb + b2,
            0 <= b < nb,
            0 <= b2 < nb,
    ;
}

} // verus!
