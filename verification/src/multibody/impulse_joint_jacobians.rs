//! Jacobians of the impulse joints: one row per side and constraint.
//!
//! A constraint owns one block of the jacobian buffer: the row of side A, its
//! response, the row of side B, its response.
use super::contact_constraints::{link_block, mb_jacobians, wrench_dot};
use super::sweeps::dot_fold;
use super::types::{MultibodyInfo, WorldMassProperties};
use crate::batch::{BatchIndices, room};
use crate::scalar::Scalar;
use crate::space::{Space, Velocity};
use crate::views::{MatView, mat_get, mat_of};
use vstd::prelude::*;

verus! {

/// Where the response of a row starts, right after the row.
pub fn wj_id(j_id: u32, ndofs: u32) -> (r: usize)
    requires
        j_id + ndofs <= u32::MAX,
    ensures
        r == j_id + ndofs,
{
    (j_id + ndofs) as usize
}

/// Number of entries of one constraint's block.
pub open spec fn axis_stride_spec(ndofs_a: int, ndofs_b: int) -> int {
    2 * (ndofs_a + ndofs_b)
}

pub fn axis_stride(ndofs_a: u32, ndofs_b: u32) -> (r: u32)
    requires
        axis_stride_spec(ndofs_a as int, ndofs_b as int) <= u32::MAX,
    ensures
        r == axis_stride_spec(ndofs_a as int, ndofs_b as int),
{
    2 * (ndofs_a + ndofs_b)
}

/// Component `k` of a spatial velocity: the linear axes, then the angular ones.
pub open spec fn spatial_component_spec<S: Scalar, D: Space<S>>(v: Velocity<S, D>, k: int) -> S {
    let lin = D::dimension_spec().lin_spec();
    if k < lin {
        D::vget_spec(v.linear, k)
    } else {
        D::aget_spec(v.angular, k - lin)
    }
}

pub fn spatial_component<S: Scalar, D: Space<S>>(v: Velocity<S, D>, k: u32) -> (r: S)
    requires
        k < D::dimension_spec().spatial_spec(),
    ensures
        r == spatial_component_spec(v, k as int),
{
    let lin: u32 = D::dimension().lin();
    if k < lin {
        D::vget(v.linear, k as usize)
    } else {
        D::aget(v.angular, (k - lin) as usize)
    }
}

/// All components of a spatial velocity.
pub open spec fn spatial_row<S: Scalar, D: Space<S>>(v: Velocity<S, D>) -> Seq<S> {
    Seq::new(
        D::dimension_spec().spatial_spec() as nat,
        |k: int| spatial_component_spec(v, k),
    )
}

fn spatial_vec<S: Scalar, D: Space<S>>(v: Velocity<S, D>) -> (r: Vec<S>)
    ensures
        r@ == spatial_row(v),
{
    let n: u32 = D::dimension().spatial();
    let mut out: Vec<S> = Vec::new();
    let mut k: u32 = 0;
    while k < n
        invariant
            n == D::dimension_spec().spatial_spec(),
            k <= n,
            out@ == spatial_row(v).take(k as int),
        decreases n - k,
    {
        out.push(spatial_component(v, k));
        assert(out@ =~= spatial_row(v).take(k + 1));
        k = k + 1;
    }
    assert(out@ =~= spatial_row(v));
    out
}

/// A row and its response. The response of a multibody is left to a later
/// solve; it is empty here.
pub struct SideRow<S> {
    pub jac: Seq<S>,
    pub response: Seq<S>,
}

/// The row of a free body under a unit force and torque, and its response.
pub open spec fn body_row<S: Scalar, D: Space<S>>(
    f: Velocity<S, D>,
    mp: WorldMassProperties<S, D>,
) -> SideRow<S> {
    let w: Velocity<S, D> = Velocity {
        linear: D::vmul_spec(mp.inv_mass, f.linear),
        angular: D::imul_spec(mp.inv_inertia, f.angular),
    };
    SideRow { jac: spatial_row(f), response: spatial_row(w) }
}

/// Builds the row of a free body and its response.
pub fn fill_body_jacobians<S: Scalar, D: Space<S>>(
    f: Velocity<S, D>,
    mp: WorldMassProperties<S, D>,
) -> (r: (Vec<S>, Vec<S>))
    ensures
        r.0@ == body_row(f, mp).jac,
        r.1@ == body_row(f, mp).response,
{
    let w: Velocity<S, D> = Velocity {
        linear: D::vmul(mp.inv_mass, f.linear),
        angular: D::imul(mp.inv_inertia, f.angular),
    };
    (spatial_vec(f), spatial_vec(w))
}

/// The row of a link under a unit force and torque.
pub open spec fn link_row<S: Scalar, D: Space<S>>(
    jac: Seq<Seq<S>>,
    f: Velocity<S, D>,
    ndofs: int,
) -> Seq<S> {
    Seq::new(
        ndofs as nat,
        |k: int| wrench_dot::<S, D>(jac, k, f, D::dimension_spec().spatial_spec()),
    )
}

/// The product of column `c` of a link's jacobian with a force and a torque.
fn wrench_product<S: Scalar, D: Space<S>>(
    body_jacobians: &[S],
    jv: MatView,
    c: usize,
    f: Velocity<S, D>,
) -> (r: S)
    requires
        jv.fits(body_jacobians@.len() as int),
        jv.nrows == D::dimension_spec().spatial_spec(),
        c < jv.ncols,
    ensures
        r == wrench_dot::<S, D>(
            mat_of(body_jacobians@, jv),
            c as int,
            f,
            D::dimension_spec().spatial_spec(),
        ),
{
    let lin: usize = D::dimension().lin() as usize;
    let sd: usize = D::dimension().spatial() as usize;
    let mut acc = D::vget(f.linear, 0).times(mat_get(body_jacobians, jv, 0, c));
    let mut i: usize = 1;
    while i < sd
        invariant
            jv.fits(body_jacobians@.len() as int),
            jv.nrows == sd,
            sd == D::dimension_spec().spatial_spec(),
            lin == D::dimension_spec().lin_spec(),
            c < jv.ncols,
            1 <= i <= sd,
            acc == wrench_dot::<S, D>(mat_of(body_jacobians@, jv), c as int, f, i as int),
        decreases sd - i,
    {
        let x = if i < lin {
            D::vget(f.linear, i)
        } else {
            D::aget(f.angular, i - lin)
        };
        acc = acc.plus(x.times(mat_get(body_jacobians, jv, i, c)));
        i = i + 1;
    }
    acc
}

/// Builds the row of a link.
pub fn fill_mb_jacobians<S: Scalar, D: Space<S>>(
    mb: &MultibodyInfo,
    link: u32,
    f: Velocity<S, D>,
    body_jacobians: &[S],
    ids: &BatchIndices,
    b: u32,
) -> (r: Vec<S>)
    requires
        link < mb.num_links,
        room(
            ids.num_batches as int,
            b as int,
            mb.jacobian_offset as int,
            mb.num_links * D::dimension_spec().spatial_spec() * mb.ndofs,
            body_jacobians@.len() as int,
        ),
    ensures
        r@ == link_row(
            mb_jacobians::<S, D>(*ids, b as int, *mb, body_jacobians@)(link as int),
            f,
            mb.ndofs as int,
        ),
{
    let n: usize = mb.ndofs as usize;
    let mut out: Vec<S> = Vec::new();
    let ghost goal = link_row(
        mb_jacobians::<S, D>(*ids, b as int, *mb, body_jacobians@)(link as int),
        f,
        n as int,
    );
    if n == 0 {
        assert(out@ =~= goal);
        return out;
    }
    let jv = link_block::<S, D>(
        ids,
        b,
        mb.jacobian_offset as usize,
        n,
        link,
        body_jacobians.len(),
        mb.num_links,
    );
    let mut k: usize = 0;
    while k < n
        invariant
            jv.fits(body_jacobians@.len() as int),
            jv.nrows == D::dimension_spec().spatial_spec(),
            jv.ncols == n,
            goal == link_row(mat_of(body_jacobians@, jv), f, n as int),
            k <= n,
            out@ == goal.take(k as int),
        decreases n - k,
    {
        out.push(wrench_product::<S, D>(body_jacobians, jv, k, f));
        assert(out@ =~= goal.take(k + 1));
        k = k + 1;
    }
    assert(out@ =~= goal);
    out
}

/// The squared length of the first `n` entries of column `c`.
pub open spec fn column_square<S: Scalar>(m: Seq<Seq<S>>, c: int, n: int) -> S
    decreases n,
{
    if n <= 1 {
        m[0][c].times_spec(m[0][c])
    } else {
        column_square(m, c, n - 1).plus_spec(m[n - 1][c].times_spec(m[n - 1][c]))
    }
}

/// The sum of the squared lengths of the first `k` columns.
pub open spec fn frobenius_square<S: Scalar>(m: Seq<Seq<S>>, rows: int, k: int) -> S
    decreases k,
{
    if k <= 0 {
        S::zero_spec()
    } else {
        frobenius_square(m, rows, k - 1).plus_spec(column_square(m, k - 1, rows))
    }
}

/// The relative size below which a row is rounding noise.
pub open spec fn noise_spec<S: Scalar>() -> S {
    S::dec_spec(11920929, (-14) as i32).times_spec(S::dec_spec(1, 3))
}

/// The difference of two rows of one multibody, before noise is removed.
pub open spec fn raw_relative_row<S: Scalar, D: Space<S>>(
    jac_a: Seq<Seq<S>>,
    fa: Velocity<S, D>,
    jac_b: Seq<Seq<S>>,
    fb: Velocity<S, D>,
    ndofs: int,
) -> Seq<S> {
    Seq::new(
        ndofs as nat,
        |k: int|
            link_row(jac_b, fb, ndofs)[k].minus_spec(link_row(jac_a, fa, ndofs)[k]),
    )
}

/// The row of a joint between two links of one multibody: their difference, or
/// zero where the difference is only rounding noise of its operands.
pub open spec fn relative_row<S: Scalar, D: Space<S>>(
    jac_a: Seq<Seq<S>>,
    fa: Velocity<S, D>,
    jac_b: Seq<Seq<S>>,
    fb: Velocity<S, D>,
    ndofs: int,
) -> Seq<S> {
    let sd = D::dimension_spec().spatial_spec();
    let raw = raw_relative_row(jac_a, fa, jac_b, fb, ndofs);
    let fa_sq = D::vdot_spec(fa.linear, fa.linear).plus_spec(
        D::gdot_spec(fa.angular, fa.angular),
    );
    let fb_sq = D::vdot_spec(fb.linear, fb.linear).plus_spec(
        D::gdot_spec(fb.angular, fb.angular),
    );
    let scale = frobenius_square(jac_a, sd, ndofs).times_spec(fa_sq).plus_spec(
        frobenius_square(jac_b, sd, ndofs).times_spec(fb_sq),
    );
    let eps = noise_spec::<S>();
    if dot_fold(raw, raw, ndofs).le_spec(eps.times_spec(eps).times_spec(scale)) {
        Seq::new(ndofs as nat, |k: int| S::zero_spec())
    } else {
        raw
    }
}

fn frobenius<S: Scalar>(buf: &[S], m: MatView) -> (r: S)
    requires
        m.fits(buf@.len() as int),
        m.nrows >= 1,
    ensures
        r == frobenius_square(mat_of(buf@, m), m.nrows as int, m.ncols as int),
{
    let mut acc = S::zero();
    let mut k: usize = 0;
    while k < m.ncols
        invariant
            m.fits(buf@.len() as int),
            m.nrows >= 1,
            k <= m.ncols,
            acc == frobenius_square(mat_of(buf@, m), m.nrows as int, k as int),
        decreases m.ncols - k,
    {
        let x0 = mat_get(buf, m, 0, k);
        let mut col = x0.times(x0);
        let mut i: usize = 1;
        while i < m.nrows
            invariant
                m.fits(buf@.len() as int),
                k < m.ncols,
                1 <= i <= m.nrows,
                col == column_square(mat_of(buf@, m), k as int, i as int),
            decreases m.nrows - i,
        {
            let x = mat_get(buf, m, i, k);
            col = col.plus(x.times(x));
            i = i + 1;
        }
        acc = acc.plus(col);
        k = k + 1;
    }
    acc
}

/// Builds the row of a joint between two links of one multibody.
pub fn fill_relative_mb_jacobians<S: Scalar, D: Space<S>>(
    mb: &MultibodyInfo,
    link_a: u32,
    fa: Velocity<S, D>,
    link_b: u32,
    fb: Velocity<S, D>,
    body_jacobians: &[S],
    ids: &BatchIndices,
    b: u32,
) -> (r: Vec<S>)
    requires
        link_a < mb.num_links,
        link_b < mb.num_links,
        room(
            ids.num_batches as int,
            b as int,
            mb.jacobian_offset as int,
            mb.num_links * D::dimension_spec().spatial_spec() * mb.ndofs,
            body_jacobians@.len() as int,
        ),
    ensures
        r@ == relative_row(
            mb_jacobians::<S, D>(*ids, b as int, *mb, body_jacobians@)(link_a as int),
            fa,
            mb_jacobians::<S, D>(*ids, b as int, *mb, body_jacobians@)(link_b as int),
            fb,
            mb.ndofs as int,
        ),
{
    let n: usize = mb.ndofs as usize;
    let ghost jacs = mb_jacobians::<S, D>(*ids, b as int, *mb, body_jacobians@);
    let ja = fill_mb_jacobians(mb, link_a, fa, body_jacobians, ids, b);
    let jb = fill_mb_jacobians(mb, link_b, fb, body_jacobians, ids, b);
    let ghost raw = raw_relative_row(
        jacs(link_a as int),
        fa,
        jacs(link_b as int),
        fb,
        n as int,
    );
    let mut out: Vec<S> = Vec::new();
    if n == 0 {
        assert(out@ =~= relative_row(
            jacs(link_a as int),
            fa,
            jacs(link_b as int),
            fb,
            n as int,
        ));
        return out;
    }
    let av = link_block::<S, D>(
        ids,
        b,
        mb.jacobian_offset as usize,
        n,
        link_a,
        body_jacobians.len(),
        mb.num_links,
    );
    let bv = link_block::<S, D>(
        ids,
        b,
        mb.jacobian_offset as usize,
        n,
        link_b,
        body_jacobians.len(),
        mb.num_links,
    );
    let mut sq = S::zero();
    let mut k: usize = 0;
    while k < n
        invariant
            ja@ == link_row(jacs(link_a as int), fa, n as int),
            jb@ == link_row(jacs(link_b as int), fb, n as int),
            raw == raw_relative_row(jacs(link_a as int), fa, jacs(link_b as int), fb, n as int),
            k <= n,
            out@ == raw.take(k as int),
            sq == dot_fold(raw, raw, k as int),
        decreases n - k,
    {
        let v = jb[k].minus(ja[k]);
        assert(v == raw[k as int]);
        out.push(v);
        sq = sq.plus(v.times(v));
        assert(out@ =~= raw.take(k + 1));
        k = k + 1;
    }
    assert(out@ =~= raw);
    let fa_sq = D::vdot(fa.linear, fa.linear).plus(D::gdot(fa.angular, fa.angular));
    let fb_sq = D::vdot(fb.linear, fb.linear).plus(D::gdot(fb.angular, fb.angular));
    let scale = frobenius(body_jacobians, av).times(fa_sq).plus(
        frobenius(body_jacobians, bv).times(fb_sq),
    );
    let eps = S::dec(11920929, -14).times(S::dec(1, 3));
    if sq.le(eps.times(eps).times(scale)) {
        let mut k: usize = 0;
        while k < n
            invariant
                out@.len() == n,
                k <= n,
                forall|i: int| 0 <= i < k ==> #[trigger] out@[i] == S::zero_spec(),
            decreases n - k,
        {
            out.set(k, S::zero());
            k = k + 1;
        }
        assert(out@ =~= Seq::new(n as nat, |k: int| S::zero_spec()));
    }
    out
}

} // verus!
