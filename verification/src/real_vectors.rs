//! Vectors of real numbers: what the vectors of the simulation stand for when the
//! arithmetic is exact.
use crate::exact::{lemma_factor, lemma_zero};
use crate::space::{Mat3, V3};
use vstd::prelude::*;

verus! {

pub open spec fn r3_zero() -> V3<real> {
    V3 { x: 0real, y: 0real, z: 0real }
}

pub open spec fn r3_add(a: V3<real>, b: V3<real>) -> V3<real> {
    V3 { x: a.x + b.x, y: a.y + b.y, z: a.z + b.z }
}

pub open spec fn r3_neg(a: V3<real>) -> V3<real> {
    V3 { x: -a.x, y: -a.y, z: -a.z }
}

pub open spec fn r3_sub(a: V3<real>, b: V3<real>) -> V3<real> {
    V3 { x: a.x - b.x, y: a.y - b.y, z: a.z - b.z }
}

pub open spec fn r3_scale(a: V3<real>, k: real) -> V3<real> {
    V3 { x: a.x * k, y: a.y * k, z: a.z * k }
}

pub open spec fn r3_cross(a: V3<real>, b: V3<real>) -> V3<real> {
    V3 { x: a.y * b.z - b.y * a.z, y: a.z * b.x - b.z * a.x, z: a.x * b.y - b.x * a.y }
}

pub open spec fn r3_dot(a: V3<real>, b: V3<real>) -> real {
    a.x * b.x + a.y * b.y + a.z * b.z
}

/// A matrix times a vector.
pub open spec fn r3_image(m: Mat3<real>, a: V3<real>) -> V3<real> {
    r3_add(r3_add(r3_scale(m.x_axis, a.x), r3_scale(m.y_axis, a.y)), r3_scale(m.z_axis, a.z))
}

/// The sum of `f(c)` weighted by entry `c` of `q`, over `lo..hi`.
pub open spec fn combination<S>(
    v: spec_fn(S) -> real,
    q: Seq<S>,
    f: spec_fn(int) -> V3<real>,
    lo: int,
    hi: int,
) -> V3<real>
    decreases hi - lo,
{
    if hi <= lo {
        r3_zero()
    } else {
        r3_add(combination(v, q, f, lo, hi - 1), r3_scale(f(hi - 1), v(q[hi - 1])))
    }
}

pub proof fn lemma_combined_same<S>(
    v: spec_fn(S) -> real,
    q: Seq<S>,
    f: spec_fn(int) -> V3<real>,
    g: spec_fn(int) -> V3<real>,
    lo: int,
    hi: int,
)
    requires
        forall|c: int| lo <= c < hi ==> #[trigger] f(c) == g(c),
    ensures
        combination(v, q, f, lo, hi) == combination(v, q, g, lo, hi),
    decreases hi - lo,
{
    if lo < hi {
        lemma_combined_same(v, q, f, g, lo, hi - 1);
        assert(f(hi - 1) == g(hi - 1));
    }
}

pub proof fn lemma_combined_none<S>(
    v: spec_fn(S) -> real,
    q: Seq<S>,
    f: spec_fn(int) -> V3<real>,
    lo: int,
    hi: int,
)
    requires
        forall|c: int| lo <= c < hi ==> #[trigger] f(c) == r3_zero(),
    ensures
        combination(v, q, f, lo, hi) == r3_zero(),
    decreases hi - lo,
{
    if lo < hi {
        lemma_combined_none(v, q, f, lo, hi - 1);
        assert(f(hi - 1) == r3_zero());
        lemma_zero(v(q[hi - 1]));
    }
}

pub proof fn lemma_combined_split<S>(
    v: spec_fn(S) -> real,
    q: Seq<S>,
    f: spec_fn(int) -> V3<real>,
    lo: int,
    mid: int,
    hi: int,
)
    requires
        lo <= mid <= hi,
    ensures
        combination(v, q, f, lo, hi) == r3_add(
            combination(v, q, f, lo, mid),
            combination(v, q, f, mid, hi),
        ),
    decreases hi - mid,
{
    if mid < hi {
        lemma_combined_split(v, q, f, lo, mid, hi - 1);
    }
}

pub proof fn lemma_combined_sum<S>(
    v: spec_fn(S) -> real,
    q: Seq<S>,
    f: spec_fn(int) -> V3<real>,
    g: spec_fn(int) -> V3<real>,
    h: spec_fn(int) -> V3<real>,
    lo: int,
    hi: int,
)
    requires
        forall|c: int| lo <= c < hi ==> #[trigger] h(c) == r3_add(f(c), g(c)),
    ensures
        combination(v, q, h, lo, hi) == r3_add(
            combination(v, q, f, lo, hi),
            combination(v, q, g, lo, hi),
        ),
    decreases hi - lo,
{
    if lo < hi {
        lemma_combined_sum(v, q, f, g, h, lo, hi - 1);
        let c = hi - 1;
        assert(h(c) == r3_add(f(c), g(c)));
        let k = v(q[c]);
        lemma_scale_add(f(c), g(c), k);
    }
}

pub proof fn lemma_scale_add(a: V3<real>, b: V3<real>, k: real)
    ensures
        r3_scale(r3_add(a, b), k) == r3_add(r3_scale(a, k), r3_scale(b, k)),
{
    lemma_right(a.x, b.x, k);
    lemma_right(a.y, b.y, k);
    lemma_right(a.z, b.z, k);
}

pub proof fn lemma_right(a: real, b: real, k: real)
    ensures
        (a + b) * k == a * k + b * k,
{
    assert((a + b) * k == a * k + b * k) by (nonlinear_arith);
}

pub proof fn lemma_move_right(a: real, k: real, b: real)
    ensures
        (a * k) * b == (a * b) * k,
        b * (a * k) == (b * a) * k,
{
    assert((a * k) * b == (a * b) * k) by (nonlinear_arith);
    assert(b * (a * k) == (b * a) * k) by (nonlinear_arith);
}

pub proof fn lemma_minus_right(a: real, b: real, k: real)
    ensures
        (a - b) * k == a * k - b * k,
{
    assert((a - b) * k == a * k - b * k) by (nonlinear_arith);
}

/// The cross product with a fixed vector is linear.
pub proof fn lemma_cross_linear(a: V3<real>, b: V3<real>, k: real, s: V3<real>)
    ensures
        r3_cross(r3_add(a, r3_scale(b, k)), s) == r3_add(
            r3_cross(a, s),
            r3_scale(r3_cross(b, s), k),
        ),
{
    lemma_cross_part(a.y, b.y, k, s.z, a.z, b.z, s.y);
    lemma_cross_part(a.z, b.z, k, s.x, a.x, b.x, s.z);
    lemma_cross_part(a.x, b.x, k, s.y, a.y, b.y, s.x);
}

pub proof fn lemma_cross_part(a: real, b: real, k: real, s: real, c: real, d: real, t: real)
    ensures
        (a + b * k) * s - t * (c + d * k) == (a * s - t * c) + (b * s - t * d) * k,
{
    lemma_right(a, b * k, s);
    lemma_move_right(b, k, s);
    lemma_factor(t, c, d * k);
    lemma_move_right(d, k, t);
    lemma_minus_right(b * s, t * d, k);
}

pub proof fn lemma_cross_add(a: V3<real>, b: V3<real>, s: V3<real>)
    ensures
        r3_cross(r3_add(a, b), s) == r3_add(r3_cross(a, s), r3_cross(b, s)),
        r3_cross(s, r3_add(a, b)) == r3_add(r3_cross(s, a), r3_cross(s, b)),
{
    lemma_right(a.x, b.x, s.y);
    lemma_right(a.x, b.x, s.z);
    lemma_right(a.y, b.y, s.x);
    lemma_right(a.y, b.y, s.z);
    lemma_right(a.z, b.z, s.x);
    lemma_right(a.z, b.z, s.y);
    lemma_factor(s.x, a.y, b.y);
    lemma_factor(s.x, a.z, b.z);
    lemma_factor(s.y, a.x, b.x);
    lemma_factor(s.y, a.z, b.z);
    lemma_factor(s.z, a.x, b.x);
    lemma_factor(s.z, a.y, b.y);
}

pub proof fn lemma_cross_zero(s: V3<real>)
    ensures
        r3_cross(r3_zero(), s) == r3_zero(),
        r3_cross(s, r3_zero()) == r3_zero(),
{
    lemma_zero(s.x);
    lemma_zero(s.y);
    lemma_zero(s.z);
}

pub proof fn lemma_combined_cross<S>(
    v: spec_fn(S) -> real,
    q: Seq<S>,
    f: spec_fn(int) -> V3<real>,
    h: spec_fn(int) -> V3<real>,
    s: V3<real>,
    lo: int,
    hi: int,
)
    requires
        forall|c: int| lo <= c < hi ==> #[trigger] h(c) == r3_cross(f(c), s),
    ensures
        combination(v, q, h, lo, hi) == r3_cross(combination(v, q, f, lo, hi), s),
    decreases hi - lo,
{
    if lo < hi {
        lemma_combined_cross(v, q, f, h, s, lo, hi - 1);
        let c = hi - 1;
        assert(h(c) == r3_cross(f(c), s));
        lemma_cross_linear(combination(v, q, f, lo, c), f(c), v(q[c]), s);
    } else {
        lemma_cross_zero(s);
    }
}

pub proof fn lemma_one(a: real)
    ensures
        a * 1real == a,
        1real * a == a,
{
    assert(a * 1real == a) by (nonlinear_arith);
    assert(1real * a == a) by (nonlinear_arith);
}

pub proof fn lemma_dot_sum(x: V3<real>, a: V3<real>, e: V3<real>, k: real)
    ensures
        r3_dot(x, r3_add(a, r3_scale(e, k))) == r3_dot(x, a) + r3_dot(x, e) * k,
        r3_dot(r3_add(a, r3_scale(e, k)), x) == r3_dot(a, x) + r3_dot(e, x) * k,
{
    lemma_factor(x.x, a.x, e.x * k);
    lemma_factor(x.y, a.y, e.y * k);
    lemma_factor(x.z, a.z, e.z * k);
    lemma_move_right(e.x, k, x.x);
    lemma_move_right(e.y, k, x.y);
    lemma_move_right(e.z, k, x.z);
    lemma_right(x.x * e.x, x.y * e.y, k);
    lemma_right(x.x * e.x + x.y * e.y, x.z * e.z, k);
    lemma_right(a.x, e.x * k, x.x);
    lemma_right(a.y, e.y * k, x.y);
    lemma_right(a.z, e.z * k, x.z);
    lemma_right(e.x * x.x, e.y * x.y, k);
    lemma_right(e.x * x.x + e.y * x.y, e.z * x.z, k);
}

pub proof fn lemma_dot_zero(x: V3<real>)
    ensures
        r3_dot(x, r3_zero()) == 0real,
        r3_dot(r3_zero(), x) == 0real,
{
    lemma_zero(x.x);
    lemma_zero(x.y);
    lemma_zero(x.z);
}

pub proof fn lemma_scaled_twice(a: V3<real>, k: real, m: real)
    ensures
        r3_scale(r3_scale(a, k), m) == r3_scale(r3_scale(a, m), k),
{
    lemma_move_right(a.x, k, m);
    lemma_move_right(a.y, k, m);
    lemma_move_right(a.z, k, m);
}

/// A multiple of a combination combines the multiples.
pub proof fn lemma_combined_scale<S>(
    v: spec_fn(S) -> real,
    q: Seq<S>,
    f: spec_fn(int) -> V3<real>,
    m: real,
    h: spec_fn(int) -> V3<real>,
    n: int,
)
    requires
        forall|c: int| 0 <= c < n ==> #[trigger] h(c) == r3_scale(f(c), m),
    ensures
        combination(v, q, h, 0, n) == r3_scale(combination(v, q, f, 0, n), m),
    decreases n,
{
    if n > 0 {
        lemma_combined_scale(v, q, f, m, h, n - 1);
        let c = n - 1;
        assert(h(c) == r3_scale(f(c), m));
        lemma_scale_add(combination(v, q, f, 0, c), r3_scale(f(c), v(q[c])), m);
        lemma_scaled_twice(f(c), v(q[c]), m);
    } else {
        lemma_zero(m);
    }
}

pub proof fn lemma_spread(c: V3<real>, a: real, e: real, k: real)
    ensures
        r3_scale(c, a + e * k) == r3_add(r3_scale(c, a), r3_scale(r3_scale(c, e), k)),
{
    lemma_factor(c.x, a, e * k);
    lemma_factor(c.y, a, e * k);
    lemma_factor(c.z, a, e * k);
    lemma_move_right(e, k, c.x);
    lemma_move_right(e, k, c.y);
    lemma_move_right(e, k, c.z);
}

/// A matrix acts linearly.
pub proof fn lemma_image_linear(m: Mat3<real>, a: V3<real>, e: V3<real>, k: real)
    ensures
        r3_image(m, r3_add(a, r3_scale(e, k))) == r3_add(
            r3_image(m, a),
            r3_scale(r3_image(m, e), k),
        ),
{
    lemma_spread(m.x_axis, a.x, e.x, k);
    lemma_spread(m.y_axis, a.y, e.y, k);
    lemma_spread(m.z_axis, a.z, e.z, k);
    let x = r3_scale(m.x_axis, e.x);
    let y = r3_scale(m.y_axis, e.y);
    let z = r3_scale(m.z_axis, e.z);
    lemma_scale_add(x, y, k);
    lemma_scale_add(r3_add(x, y), z, k);
}

pub proof fn lemma_image_zero(m: Mat3<real>)
    ensures
        r3_image(m, r3_zero()) == r3_zero(),
{
    lemma_zero(m.x_axis.x);
    lemma_zero(m.x_axis.y);
    lemma_zero(m.x_axis.z);
    lemma_zero(m.y_axis.x);
    lemma_zero(m.y_axis.y);
    lemma_zero(m.y_axis.z);
    lemma_zero(m.z_axis.x);
    lemma_zero(m.z_axis.y);
    lemma_zero(m.z_axis.z);
}

pub proof fn lemma_combined_image<S>(
    v: spec_fn(S) -> real,
    q: Seq<S>,
    f: spec_fn(int) -> V3<real>,
    m: Mat3<real>,
    h: spec_fn(int) -> V3<real>,
    n: int,
)
    requires
        forall|c: int| 0 <= c < n ==> #[trigger] h(c) == r3_image(m, f(c)),
    ensures
        combination(v, q, h, 0, n) == r3_image(m, combination(v, q, f, 0, n)),
    decreases n,
{
    if n > 0 {
        lemma_combined_image(v, q, f, m, h, n - 1);
        let c = n - 1;
        assert(h(c) == r3_image(m, f(c)));
        lemma_image_linear(m, combination(v, q, f, 0, c), f(c), v(q[c]));
    } else {
        lemma_image_zero(m);
    }
}

} // verus!
