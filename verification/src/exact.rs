//! What the kernels compute when the arithmetic is exact.
use crate::scalar::{Scalar, clamp_spec};
use crate::space::{Dim2, Dim3, Space, V2, V3};
use vstd::prelude::*;

verus! {

/// Under the reading `v` of numbers as reals, every operation is exact.
pub open spec fn exact<S: Scalar>(v: spec_fn(S) -> real) -> bool {
    &&& v(S::zero_spec()) == 0real
    &&& v(S::one_spec()) == 1real
    &&& forall|a: S, b: S| v(#[trigger] a.plus_spec(b)) == v(a) + v(b)
    &&& forall|a: S, b: S| v(#[trigger] a.minus_spec(b)) == v(a) - v(b)
    &&& forall|a: S, b: S| v(#[trigger] a.times_spec(b)) == v(a) * v(b)
    &&& forall|a: S, b: S| v(b) != 0real ==> v(#[trigger] a.over_spec(b)) == v(a) / v(b)
    &&& forall|a: S| v(#[trigger] a.neg_spec()) == -v(a)
    &&& forall|a: S, b: S| #[trigger] a.same_spec(b) <==> v(a) == v(b)
}

// ---- real numbers ----

pub proof fn lemma_zero(a: real)
    ensures
        a * 0real == 0real,
        0real * a == 0real,
{
    assert(a * 0real == 0real) by (nonlinear_arith);
    assert(0real * a == 0real) by (nonlinear_arith);
}

pub proof fn lemma_commute(a: real, b: real)
    ensures
        a * b == b * a,
{
    assert(a * b == b * a) by (nonlinear_arith);
}

pub proof fn lemma_factor(k: real, a: real, b: real)
    ensures
        k * (a + b) == k * a + k * b,
{
    assert(k * (a + b) == k * a + k * b) by (nonlinear_arith);
}

pub proof fn lemma_distribute(a: real, x: real, k: real, c: real)
    ensures
        a * (x + k * c) == a * x + a * (k * c),
{
    lemma_factor(a, x, k * c);
}

pub proof fn lemma_swap(a: real, k: real, c: real)
    ensures
        a * (k * c) == k * (a * c),
{
    assert(a * (k * c) == k * (a * c)) by (nonlinear_arith);
}

pub proof fn lemma_swap_left(a: real, b: real, c: real)
    ensures
        (a * b) * c == b * (a * c),
{
    assert((a * b) * c == b * (a * c)) by (nonlinear_arith);
}

// ---- dot products ----

/// The dot product of entries `lo..hi`, as a real number.
pub open spec fn row_dot<S>(v: spec_fn(S) -> real, row: Seq<S>, x: Seq<S>, lo: int, hi: int) -> real
    decreases hi - lo,
{
    if hi <= lo {
        0real
    } else {
        row_dot(v, row, x, lo, hi - 1) + v(row[hi - 1]) * v(x[hi - 1])
    }
}

pub proof fn lemma_row_dot_congruent<S>(
    v: spec_fn(S) -> real,
    row: Seq<S>,
    x: Seq<S>,
    row2: Seq<S>,
    x2: Seq<S>,
    lo: int,
    hi: int,
)
    requires
        forall|j: int| lo <= j < hi ==> row[j] == row2[j],
        forall|j: int| lo <= j < hi ==> x[j] == x2[j],
    ensures
        row_dot(v, row, x, lo, hi) == row_dot(v, row2, x2, lo, hi),
    decreases hi - lo,
{
    if lo < hi {
        lemma_row_dot_congruent(v, row, x, row2, x2, lo, hi - 1);
    }
}

/// The first term of a dot product, split off.
pub proof fn lemma_row_dot_first<S>(
    v: spec_fn(S) -> real,
    row: Seq<S>,
    x: Seq<S>,
    lo: int,
    hi: int,
)
    requires
        lo < hi,
    ensures
        row_dot(v, row, x, lo, hi) == v(row[lo]) * v(x[lo]) + row_dot(v, row, x, lo + 1, hi),
    decreases hi - lo,
{
    if lo + 1 < hi {
        lemma_row_dot_first(v, row, x, lo, hi - 1);
    } else {
        assert(row_dot(v, row, x, lo, lo) == 0real);
        assert(row_dot(v, row, x, lo + 1, hi) == 0real);
    }
}

/// The sum of the first `w` entries, as a real number.
pub open spec fn real_sum<S>(v: spec_fn(S) -> real, p: Seq<S>, w: int) -> real
    decreases w,
{
    if w <= 0 {
        0real
    } else {
        real_sum(v, p, w - 1) + v(p[w - 1])
    }
}

/// Under the reading `v` of numbers as reals, comparisons are exact, products
/// keep signs, and a factor between zero and one moves no number away from zero.
/// Rounding is allowed.
pub open spec fn ordered<S: Scalar>(v: spec_fn(S) -> real) -> bool {
    &&& v(S::zero_spec()) == 0real
    &&& v(S::one_spec()) == 1real
    &&& forall|a: S, b: S| #[trigger] a.lt_spec(b) <==> v(a) < v(b)
    &&& forall|a: S, b: S| #[trigger] a.le_spec(b) <==> v(a) <= v(b)
    &&& forall|a: S, b: S|
        v(#[trigger] a.maximum_spec(b)) == (if v(a) < v(b) {
            v(b)
        } else {
            v(a)
        })
    &&& forall|a: S, b: S|
        v(#[trigger] a.minimum_spec(b)) == (if v(b) < v(a) {
            v(b)
        } else {
            v(a)
        })
    &&& forall|a: S| 0real <= v(a) ==> v(#[trigger] a.neg_spec()) == -v(a)
    &&& forall|a: S, b: S|
        0real <= v(a) && 0real <= v(b) ==> 0real <= v(#[trigger] a.times_spec(b))
    &&& forall|a: S, b: S|
        0real <= v(a) <= 1real && 0real <= v(b) ==> v(#[trigger] a.times_spec(b)) <= v(b)
    &&& forall|a: S, b: S|
        0real <= v(a) <= 1real && v(b) <= 0real ==> v(b) <= v(#[trigger] a.times_spec(b)) <= 0real
}

/// Under the reading `v`, square roots of numbers that are not negative are
/// exact.
pub open spec fn exact_roots<S: Scalar>(v: spec_fn(S) -> real) -> bool {
    forall|a: S|
        0real <= v(a) ==> {
            let r = v(#[trigger] a.sqrt_spec());
            0real <= r && r * r == v(a)
        }
}

/// Clamping moves a number into a range that is not empty.
pub proof fn clamp_stays_in_range<S: Scalar>(v: spec_fn(S) -> real, x: S, lo: S, hi: S)
    requires
        ordered(v),
        v(lo) <= v(hi),
    ensures
        v(lo) <= v(clamp_spec(x, lo, hi)) <= v(hi),
        v(lo) <= v(x) <= v(hi) ==> v(clamp_spec(x, lo, hi)) == v(x),
{
}

/// Under the reading `v`, the dot products of the space are exact: they are
/// additive and homogeneous in their second argument, masses along a direction add
/// up, and only zero is orthogonal to itself.
pub open spec fn linear_space<S: Scalar, D: Space<S>>(v: spec_fn(S) -> real) -> bool {
    &&& forall|x: D::V, y: D::V, z: D::V, k: S|
        v(#[trigger] D::vdot_spec(x, D::vadd_spec(y, D::vscale_spec(z, k)))) == v(
            D::vdot_spec(x, y),
        ) + v(k) * v(D::vdot_spec(x, z))
    &&& forall|x: D::A, y: D::A, z: D::A, k: S|
        v(#[trigger] D::gdot_spec(x, D::aadd_spec(y, D::ascale_spec(z, k)))) == v(
            D::gdot_spec(x, y),
        ) + v(k) * v(D::gdot_spec(x, z))
    &&& forall|x: D::A, y: D::A|
        v(D::gdot_spec(x, x)) == 0real ==> v(#[trigger] D::gdot_spec(y, x)) == 0real
    &&& forall|x: D::A, y: D::A| v(#[trigger] D::gdot_spec(x, y)) == v(D::gdot_spec(y, x))
    &&& forall|d: D::V, x: D::V, y: D::V|
        v(#[trigger] D::vdot_spec(d, D::vmul_spec(D::vadd_spec(x, y), d))) == v(
            D::vdot_spec(d, D::vmul_spec(d, x)),
        ) + v(D::vdot_spec(d, D::vmul_spec(d, y)))
}

/// Exact arithmetic makes the dot products of the plane exact.
pub proof fn plane_is_linear<S: Scalar>(v: spec_fn(S) -> real)
    requires
        exact(v),
    ensures
        linear_space::<S, Dim2>(v),
{
    assert forall|x: V2<S>, y: V2<S>, z: V2<S>, k: S|
        v(
            #[trigger] <Dim2 as Space<S>>::vdot_spec(
                x,
                <Dim2 as Space<S>>::vadd_spec(y, <Dim2 as Space<S>>::vscale_spec(z, k)),
            ),
        ) == v(<Dim2 as Space<S>>::vdot_spec(x, y)) + v(k) * v(
            <Dim2 as Space<S>>::vdot_spec(x, z),
        ) by {
        lemma_dot2(v(x.x), v(x.y), v(y.x), v(y.y), v(z.x), v(z.y), v(k));
    }
    assert forall|x: S, y: S, z: S, k: S|
        v(
            #[trigger] <Dim2 as Space<S>>::gdot_spec(
                x,
                <Dim2 as Space<S>>::aadd_spec(y, <Dim2 as Space<S>>::ascale_spec(z, k)),
            ),
        ) == v(<Dim2 as Space<S>>::gdot_spec(x, y)) + v(k) * v(
            <Dim2 as Space<S>>::gdot_spec(x, z),
        ) by {
        let a = v(x);
        let b = v(y);
        let c = v(z);
        let d = v(k);
        assert(a * (b + c * d) == a * b + d * (a * c)) by (nonlinear_arith);
    }
    assert forall|x: S, y: S|
        v(#[trigger] <Dim2 as Space<S>>::gdot_spec(x, y)) == v(
            <Dim2 as Space<S>>::gdot_spec(y, x),
        ) by {
        lemma_commute(v(x), v(y));
    }
    assert forall|d: V2<S>, x: V2<S>, y: V2<S>|
        v(
            #[trigger] <Dim2 as Space<S>>::vdot_spec(
                d,
                <Dim2 as Space<S>>::vmul_spec(<Dim2 as Space<S>>::vadd_spec(x, y), d),
            ),
        ) == v(<Dim2 as Space<S>>::vdot_spec(d, <Dim2 as Space<S>>::vmul_spec(d, x))) + v(
            <Dim2 as Space<S>>::vdot_spec(d, <Dim2 as Space<S>>::vmul_spec(d, y)),
        ) by {
        lemma_mass(v(d.x), v(x.x), v(y.x));
        lemma_mass(v(d.y), v(x.y), v(y.y));
    }
    assert forall|x: S, y: S| v(<Dim2 as Space<S>>::gdot_spec(x, x)) == 0real implies v(
        #[trigger] <Dim2 as Space<S>>::gdot_spec(y, x),
    ) == 0real by {
        let a = v(x);
        let b = v(y);
        assert(b * a == 0real) by (nonlinear_arith)
            requires
                a * a == 0real,
        ;
    }
}

proof fn lemma_mass(d: real, x: real, y: real)
    ensures
        d * ((x + y) * d) == d * (d * x) + d * (d * y),
{
    lemma_commute(x + y, d);
    lemma_factor(d, x, y);
    lemma_factor(d, d * x, d * y);
}

pub proof fn lemma_square(a: real)
    ensures
        0real <= a * a,
        a * a == 0real ==> a == 0real,
{
    assert(0real <= a * a) by (nonlinear_arith);
    if a * a == 0real {
        assert(a == 0real) by (nonlinear_arith)
            requires
                a * a == 0real,
        ;
    }
}

proof fn lemma_dot2(a: real, b: real, c: real, d: real, e: real, f: real, k: real)
    ensures
        a * (c + e * k) + b * (d + f * k) == (a * c + b * d) + k * (a * e + b * f),
{
    assert(a * (c + e * k) == a * c + k * (a * e)) by (nonlinear_arith);
    assert(b * (d + f * k) == b * d + k * (b * f)) by (nonlinear_arith);
    assert(k * (a * e + b * f) == k * (a * e) + k * (b * f)) by (nonlinear_arith);
}

proof fn lemma_dot3(x: V3<real>, y: V3<real>, z: V3<real>, k: real)
    ensures
        x.x * (y.x + z.x * k) + x.y * (y.y + z.y * k) + x.z * (y.z + z.z * k) == (x.x * y.x + x.y
            * y.y + x.z * y.z) + k * (x.x * z.x + x.y * z.y + x.z * z.z),
{
    let a = x.x;
    let b = x.y;
    let c = x.z;
    let p = y.x;
    let q = y.y;
    let r = y.z;
    let f = z.x;
    let g = z.y;
    let h = z.z;
    assert(a * (p + f * k) == a * p + k * (a * f)) by (nonlinear_arith);
    assert(b * (q + g * k) == b * q + k * (b * g)) by (nonlinear_arith);
    assert(c * (r + h * k) == c * r + k * (c * h)) by (nonlinear_arith);
    assert(k * (a * f + b * g + c * h) == k * (a * f) + k * (b * g) + k * (c * h))
        by (nonlinear_arith);
}

/// The values of a vector's components.
pub open spec fn v3_value<S: Scalar>(v: spec_fn(S) -> real, x: V3<S>) -> V3<real> {
    V3 { x: v(x.x), y: v(x.y), z: v(x.z) }
}

/// Exact arithmetic makes the dot products of space exact.
pub proof fn space_is_linear<S: Scalar>(v: spec_fn(S) -> real)
    requires
        exact(v),
    ensures
        linear_space::<S, Dim3>(v),
{
    assert forall|x: V3<S>, y: V3<S>, z: V3<S>, k: S|
        v(
            #[trigger] <Dim3 as Space<S>>::vdot_spec(
                x,
                <Dim3 as Space<S>>::vadd_spec(y, <Dim3 as Space<S>>::vscale_spec(z, k)),
            ),
        ) == v(<Dim3 as Space<S>>::vdot_spec(x, y)) + v(k) * v(
            <Dim3 as Space<S>>::vdot_spec(x, z),
        ) by {
        lemma_dot3(v3_value(v, x), v3_value(v, y), v3_value(v, z), v(k));
    }
    assert forall|x: V3<S>, y: V3<S>, z: V3<S>, k: S|
        v(
            #[trigger] <Dim3 as Space<S>>::gdot_spec(
                x,
                <Dim3 as Space<S>>::aadd_spec(y, <Dim3 as Space<S>>::ascale_spec(z, k)),
            ),
        ) == v(<Dim3 as Space<S>>::gdot_spec(x, y)) + v(k) * v(
            <Dim3 as Space<S>>::gdot_spec(x, z),
        ) by {
        lemma_dot3(v3_value(v, x), v3_value(v, y), v3_value(v, z), v(k));
    }
    assert forall|x: V3<S>, y: V3<S>|
        v(#[trigger] <Dim3 as Space<S>>::gdot_spec(x, y)) == v(
            <Dim3 as Space<S>>::gdot_spec(y, x),
        ) by {
        lemma_commute(v(x.x), v(y.x));
        lemma_commute(v(x.y), v(y.y));
        lemma_commute(v(x.z), v(y.z));
    }
    assert forall|d: V3<S>, x: V3<S>, y: V3<S>|
        v(
            #[trigger] <Dim3 as Space<S>>::vdot_spec(
                d,
                <Dim3 as Space<S>>::vmul_spec(<Dim3 as Space<S>>::vadd_spec(x, y), d),
            ),
        ) == v(<Dim3 as Space<S>>::vdot_spec(d, <Dim3 as Space<S>>::vmul_spec(d, x))) + v(
            <Dim3 as Space<S>>::vdot_spec(d, <Dim3 as Space<S>>::vmul_spec(d, y)),
        ) by {
        lemma_mass(v(d.x), v(x.x), v(y.x));
        lemma_mass(v(d.y), v(x.y), v(y.y));
        lemma_mass(v(d.z), v(x.z), v(y.z));
    }
    assert forall|x: V3<S>, y: V3<S>| v(<Dim3 as Space<S>>::gdot_spec(x, x)) == 0real implies v(
        #[trigger] <Dim3 as Space<S>>::gdot_spec(y, x),
    ) == 0real by {
        let a = v(x.x);
        let b = v(x.y);
        let c = v(x.z);
        lemma_square(a);
        lemma_square(b);
        lemma_square(c);
        let p = v(y.x);
        let q = v(y.y);
        let r = v(y.z);
        assert(p * a + q * b + r * c == 0real) by (nonlinear_arith)
            requires
                a == 0real,
                b == 0real,
                c == 0real,
        ;
    }
}

} // verus!
