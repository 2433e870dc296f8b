//! Saturating fixed-point numbers with 16 fractional bits.
//!
//! They give bit-identical simulations on every machine.
use crate::exact::ordered;
use crate::scalar::Scalar;
use vstd::prelude::*;

verus! {

/// The fixed-point number `raw / 65536`.
#[derive(Clone, Copy, Debug, PartialEq, Eq, Structural)]
pub struct Fixed {
    pub raw: i64,
}

/// The nearest representable raw value.
pub open spec fn saturate(x: int) -> int {
    if x < i64::MIN {
        i64::MIN as int
    } else if x > i64::MAX {
        i64::MAX as int
    } else {
        x
    }
}

fn saturate_exec(x: i128) -> (r: i64)
    ensures
        r == saturate(x as int),
{
    if x < i64::MIN as i128 {
        i64::MIN
    } else if x > i64::MAX as i128 {
        i64::MAX
    } else {
        x as i64
    }
}

/// The quotient rounded towards negative infinity, zero for a zero divisor.
pub open spec fn floor_quotient(n: int, d: int) -> int {
    if d == 0 {
        0
    } else if d > 0 {
        n / d
    } else {
        (-n) / (-d)
    }
}

fn floor_div_pos(n: i128, d: i128) -> (r: i128)
    requires
        d > 0,
        -0x4000_0000_0000_0000_0000_0000_0000_0000 <= n <= 0x4000_0000_0000_0000_0000_0000_0000_0000,
        d <= 0x4000_0000_0000_0000_0000_0000_0000_0000,
    ensures
        r == n as int / d as int,
{
    let k: u128 = d as u128;
    if n >= 0 {
        let m: u128 = n as u128;
        let q: u128 = m / k;
        assert(q <= m) by (nonlinear_arith)
            requires
                q == m / k,
                k > 0,
        ;
        q as i128
    } else {
        let m: u128 = (-n) as u128;
        let q: u128 = (m + k - 1) / k;
        let t: u128 = (m + k - 1) as u128;
        assert(q <= t) by (nonlinear_arith)
            requires
                q == t / k,
                k > 0,
        ;
        proof {
            let a = t as int;
            let b = k as int;
            vstd::arithmetic::div_mod::lemma_fundamental_div_mod(a, b);
            vstd::arithmetic::div_mod::lemma_fundamental_div_mod(n as int, b);
            vstd::arithmetic::div_mod::lemma_mod_bound(a, b);
            vstd::arithmetic::div_mod::lemma_mod_bound(n as int, b);
            let x = a / b;
            let y = (n as int) / b;
            assert(a == b * x + a % b);
            assert(n as int == b * y + (n as int) % b);
            assert(b * (x + y) == b * x + b * y) by (nonlinear_arith);
            assert(b * (x + y) == b - 1 - a % b - (n as int) % b);
            assert(x + y == 0) by (nonlinear_arith)
                requires
                    -b < b * (x + y) < b,
                    b > 0,
            ;
        }
        -(q as i128)
    }
}

/// `n / d` rounded towards negative infinity and saturated.
fn quotient(n: i128, d: i64) -> (r: i64)
    requires
        -0x4000_0000_0000_0000_0000_0000_0000_0000 <= n <= 0x4000_0000_0000_0000_0000_0000_0000_0000,
    ensures
        r == saturate(floor_quotient(n as int, d as int)),
{
    if d == 0 {
        0
    } else if d > 0 {
        saturate_exec(floor_div_pos(n, d as i128))
    } else {
        saturate_exec(floor_div_pos(-n, -(d as i128)))
    }
}

/// The raw value of `m * 10^e`, scaled one decimal digit at a time.
pub open spec fn decimal(m: int, e: int) -> int
    decreases
            if e < 0 {
                -e
            } else {
                e
            },
{
    if e > 0 {
        saturate(decimal(m, e - 1) * 10)
    } else if e < 0 {
        decimal(m, e + 1) / 10
    } else {
        m * 65536
    }
}

/// The raw value of the square root: the largest `r` whose square is at most
/// `65536 * x`, and zero for a negative `x`.
pub open spec fn root(x: int) -> int {
    choose|r: int| is_root(x, r)
}

pub open spec fn is_root(x: int, r: int) -> bool {
    if x <= 0 {
        r == 0
    } else {
        0 <= r && r * r <= 65536 * x < (r + 1) * (r + 1)
    }
}

proof fn lemma_root_unique(x: int, a: int, b: int)
    requires
        is_root(x, a),
        is_root(x, b),
    ensures
        a == b,
{
    if x > 0 {
        if a < b {
            assert((a + 1) * (a + 1) <= b * b) by (nonlinear_arith)
                requires
                    0 <= a < b,
            ;
        }
        if b < a {
            assert((b + 1) * (b + 1) <= a * a) by (nonlinear_arith)
                requires
                    0 <= b < a,
            ;
        }
    }
}

fn root_exec(x: i64) -> (r: i64)
    ensures
        r == root(x as int),
{
    if x <= 0 {
        proof {
            assert(is_root(x as int, 0));
            lemma_root_unique(x as int, root(x as int), 0);
        }
        return 0;
    }
    let target: u128 = (x as u128) * 65536;
    let mut lo: u128 = 0;
    let mut hi: u128 = 0x1_0000_0000_0000;
    assert(0x1_0000_0000_0000 * 0x1_0000_0000_0000 > target) by (nonlinear_arith)
        requires
            target <= 0x7fff_ffff_ffff_ffff * 65536,
    ;
    while hi - lo > 1
        invariant
            0 <= lo < hi <= 0x1_0000_0000_0000,
            lo * lo <= target,
            hi * hi > target,
        decreases hi - lo,
    {
        let mid: u128 = lo + (hi - lo) / 2;
        assert(0 <= mid * mid <= 0x1_0000_0000_0000 * 0x1_0000_0000_0000) by (nonlinear_arith)
            requires
                0 <= mid <= 0x1_0000_0000_0000,
        ;
        if mid * mid <= target {
            lo = mid;
        } else {
            hi = mid;
        }
    }
    proof {
        assert(hi == lo + 1);
        assert(is_root(x as int, lo as int));
        lemma_root_unique(x as int, root(x as int), lo as int);
    }
    lo as i64
}

fn decimal_exec(m: i32, e: i32) -> (r: i64)
    requires
        -38 <= e <= 38,
    ensures
        r == decimal(m as int, e as int),
{
    let mut acc: i64 = (m as i64) * 65536;
    let mut k: i32 = 0;
    if e > 0 {
        while k < e
            invariant
                0 <= k <= e <= 38,
                acc == decimal(m as int, k as int),
            decreases e - k,
        {
            acc = saturate_exec((acc as i128) * 10);
            k = k + 1;
        }
    } else {
        while k > e
            invariant
                -38 <= e <= k <= 0,
                acc == decimal(m as int, k as int),
            decreases k - e,
        {
            acc = floor_div_pos(acc as i128, 10) as i64;
            k = k - 1;
        }
    }
    acc
}

fn product(a: i64, b: i64) -> (r: i128)
    ensures
        r == a * b,
        -0x4000_0000_0000_0000_0000_0000_0000_0000 <= r
            <= 0x4000_0000_0000_0000_0000_0000_0000_0000,
{
    assert(-0x4000_0000_0000_0000_0000_0000_0000_0000 <= a * b
        <= 0x4000_0000_0000_0000_0000_0000_0000_0000) by (nonlinear_arith)
        requires
            -0x8000_0000_0000_0000 <= a <= 0x7fff_ffff_ffff_ffff,
            -0x8000_0000_0000_0000 <= b <= 0x7fff_ffff_ffff_ffff,
    ;
    (a as i128) * (b as i128)
}

/// The raw angle `x` as an equal sine between minus and plus a quarter turn. A
/// full turn has raw value 411775.
pub open spec fn first_quadrants(x: int) -> int {
    let t = x % 411775;
    if t <= 102944 {
        t
    } else if t <= 308831 {
        205887 - t
    } else {
        t - 411775
    }
}

fn quadrants(x: i128) -> (r: i64)
    requires
        -0x1_0000_0000_0000_0000 <= x <= 0x1_0000_0000_0000_0000,
    ensures
        r == first_quadrants(x as int),
{
    let q: i128 = floor_div_pos(x, 411775);
    proof {
        vstd::arithmetic::div_mod::lemma_fundamental_div_mod(x as int, 411775);
    }
    let t: i128 = x - 411775 * q;
    if t <= 102944 {
        t as i64
    } else if t <= 308831 {
        (205887 - t) as i64
    } else {
        (t - 411775) as i64
    }
}

/// `x - x^3 / 6 + x^5 / 120 - x^7 / 5040`.
pub open spec fn sine_series(x: Fixed) -> Fixed {
    let x2 = x.times_spec(x);
    let one = Fixed { raw: 65536 };
    let c = one.minus_spec(x2.over_spec(Fixed { raw: 2752512 }));
    let b = one.minus_spec(x2.over_spec(Fixed { raw: 1310720 }).times_spec(c));
    let a = one.minus_spec(x2.over_spec(Fixed { raw: 393216 }).times_spec(b));
    x.times_spec(a)
}

fn series(x: Fixed) -> (r: Fixed)
    ensures
        r == sine_series(x),
{
    let x2 = x.times(x);
    let one = Fixed { raw: 65536 };
    let c = one.minus(x2.over(Fixed { raw: 2752512 }));
    let b = one.minus(x2.over(Fixed { raw: 1310720 }).times(c));
    let a = one.minus(x2.over(Fixed { raw: 393216 }).times(b));
    x.times(a)
}

/// The angle of the point `(x, y)`, by a cubic in the ratio of the smaller
/// coordinate to the larger.
pub open spec fn arc(y: Fixed, x: Fixed) -> Fixed {
    let ax = if x.raw < 0 {
        x.neg_spec()
    } else {
        x
    };
    let ay = if y.raw < 0 {
        y.neg_spec()
    } else {
        y
    };
    let steep = ax.raw < ay.raw;
    let q = if steep {
        ax.over_spec(ay)
    } else {
        ay.over_spec(ax)
    };
    let a = q.times_spec(
        (Fixed { raw: 63727 }).minus_spec(
            (Fixed { raw: 12576 }).times_spec(q.times_spec(q)),
        ),
    );
    let b = if steep {
        (Fixed { raw: 102944 }).minus_spec(a)
    } else {
        a
    };
    let c = if x.raw < 0 {
        (Fixed { raw: 205887 }).minus_spec(b)
    } else {
        b
    };
    if y.raw < 0 {
        c.neg_spec()
    } else {
        c
    }
}

impl Scalar for Fixed {
    open spec fn zero_spec() -> Fixed {
        Fixed { raw: 0 }
    }

    open spec fn one_spec() -> Fixed {
        Fixed { raw: 65536 }
    }

    open spec fn dec_spec(m: i32, e: i32) -> Fixed {
        Fixed { raw: decimal(m as int, e as int) as i64 }
    }

    open spec fn plus_spec(self, o: Fixed) -> Fixed {
        Fixed { raw: saturate(self.raw + o.raw) as i64 }
    }

    open spec fn minus_spec(self, o: Fixed) -> Fixed {
        Fixed { raw: saturate(self.raw - o.raw) as i64 }
    }

    open spec fn times_spec(self, o: Fixed) -> Fixed {
        Fixed { raw: saturate((self.raw * o.raw) / 65536) as i64 }
    }

    open spec fn over_spec(self, o: Fixed) -> Fixed {
        Fixed { raw: saturate(floor_quotient(self.raw * 65536, o.raw as int)) as i64 }
    }

    open spec fn neg_spec(self) -> Fixed {
        Fixed { raw: saturate(-self.raw) as i64 }
    }

    open spec fn sqrt_spec(self) -> Fixed {
        Fixed { raw: root(self.raw as int) as i64 }
    }

    open spec fn sin_spec(self) -> Fixed {
        sine_series(Fixed { raw: first_quadrants(self.raw as int) as i64 })
    }

    open spec fn cos_spec(self) -> Fixed {
        sine_series(Fixed { raw: first_quadrants(self.raw + 102944) as i64 })
    }

    open spec fn atan2_spec(self, x: Fixed) -> Fixed {
        arc(self, x)
    }

    open spec fn maximum_spec(self, o: Fixed) -> Fixed {
        if self.raw < o.raw {
            o
        } else {
            self
        }
    }

    open spec fn minimum_spec(self, o: Fixed) -> Fixed {
        if o.raw < self.raw {
            o
        } else {
            self
        }
    }

    open spec fn lt_spec(self, o: Fixed) -> bool {
        self.raw < o.raw
    }

    open spec fn le_spec(self, o: Fixed) -> bool {
        self.raw <= o.raw
    }

    open spec fn same_spec(self, o: Fixed) -> bool {
        self.raw == o.raw
    }

    fn zero() -> (r: Fixed) {
        Fixed { raw: 0 }
    }

    fn one() -> (r: Fixed) {
        Fixed { raw: 65536 }
    }

    fn dec(m: i32, e: i32) -> (r: Fixed) {
        Fixed { raw: decimal_exec(m, e) }
    }

    fn plus(self, o: Fixed) -> (r: Fixed) {
        Fixed { raw: saturate_exec(self.raw as i128 + o.raw as i128) }
    }

    fn minus(self, o: Fixed) -> (r: Fixed) {
        Fixed { raw: saturate_exec(self.raw as i128 - o.raw as i128) }
    }

    fn times(self, o: Fixed) -> (r: Fixed) {
        let p: i128 = product(self.raw, o.raw);
        Fixed { raw: saturate_exec(floor_div_pos(p, 65536)) }
    }

    fn over(self, o: Fixed) -> (r: Fixed) {
        Fixed { raw: quotient((self.raw as i128) * 65536, o.raw) }
    }

    fn negate(self) -> (r: Fixed) {
        Fixed { raw: saturate_exec(-(self.raw as i128)) }
    }

    fn sqrt(self) -> (r: Fixed) {
        Fixed { raw: root_exec(self.raw) }
    }

    fn sin(self) -> (r: Fixed) {
        series(Fixed { raw: quadrants(self.raw as i128) })
    }

    fn cos(self) -> (r: Fixed) {
        series(Fixed { raw: quadrants(self.raw as i128 + 102944) })
    }

    fn atan2(self, x: Fixed) -> (r: Fixed) {
        let ax = if x.raw < 0 {
            x.negate()
        } else {
            x
        };
        let ay = if self.raw < 0 {
            self.negate()
        } else {
            self
        };
        let (lo, hi) = if ax.raw < ay.raw {
            (ax, ay)
        } else {
            (ay, ax)
        };
        let q = lo.over(hi);
        let a = q.times(Fixed { raw: 63727 }.minus(Fixed { raw: 12576 }.times(q.times(q))));
        let b = if ax.raw < ay.raw {
            Fixed { raw: 102944 }.minus(a)
        } else {
            a
        };
        let c = if x.raw < 0 {
            Fixed { raw: 205887 }.minus(b)
        } else {
            b
        };
        if self.raw < 0 {
            c.negate()
        } else {
            c
        }
    }

    fn maximum(self, o: Fixed) -> (r: Fixed) {
        if self.raw < o.raw {
            o
        } else {
            self
        }
    }

    fn minimum(self, o: Fixed) -> (r: Fixed) {
        if o.raw < self.raw {
            o
        } else {
            self
        }
    }

    fn lt(self, o: Fixed) -> (r: bool) {
        self.raw < o.raw
    }

    fn le(self, o: Fixed) -> (r: bool) {
        self.raw <= o.raw
    }

    fn same(self, o: Fixed) -> (r: bool) {
        self.raw == o.raw
    }
}

/// The real number that a fixed-point number stands for.
pub open spec fn fixed_value() -> spec_fn(Fixed) -> real {
    |x: Fixed| (x.raw as int) as real / 65536real
}

proof fn lemma_scaled_order(a: int, b: int)
    ensures
        a < b <==> (a as real / 65536real) < (b as real / 65536real),
        a <= b <==> (a as real / 65536real) <= (b as real / 65536real),
{
    assert(a < b <==> (a as real / 65536real) < (b as real / 65536real)) by (nonlinear_arith);
    assert(a <= b <==> (a as real / 65536real) <= (b as real / 65536real)) by (nonlinear_arith);
}

proof fn lemma_product_bounds(a: int, b: int)
    ensures
        0 <= a && 0 <= b ==> 0 <= (a * b) / 65536,
        0 <= a <= 65536 && 0 <= b ==> (a * b) / 65536 <= b,
        0 <= a <= 65536 && b <= 0 ==> b <= (a * b) / 65536 <= 0,
{
    if 0 <= a && 0 <= b {
        assert(0 <= a * b) by (nonlinear_arith)
            requires
                0 <= a,
                0 <= b,
        ;
    }
    if 0 <= a <= 65536 && 0 <= b {
        assert(a * b <= 65536 * b) by (nonlinear_arith)
            requires
                0 <= a <= 65536,
                0 <= b,
        ;
    }
    if 0 <= a <= 65536 && b <= 0 {
        assert(65536 * b <= a * b <= 0) by (nonlinear_arith)
            requires
                0 <= a <= 65536,
                b <= 0,
        ;
    }
}

/// Fixed-point numbers compare exactly, and their products keep signs.
pub proof fn fixed_is_ordered()
    ensures
        ordered(fixed_value()),
{
    let v = fixed_value();
    assert(v(Fixed { raw: 0 }) == 0real) by {
        assert(0int as real / 65536real == 0real) by (nonlinear_arith);
    }
    assert(v(Fixed { raw: 65536 }) == 1real) by {
        assert(65536int as real / 65536real == 1real) by (nonlinear_arith);
    }
    assert forall|a: Fixed, b: Fixed| #[trigger] a.lt_spec(b) <==> v(a) < v(b) by {
        lemma_scaled_order(a.raw as int, b.raw as int);
    }
    assert forall|a: Fixed, b: Fixed| #[trigger] a.le_spec(b) <==> v(a) <= v(b) by {
        lemma_scaled_order(a.raw as int, b.raw as int);
    }
    assert forall|a: Fixed, b: Fixed|
        v(#[trigger] a.maximum_spec(b)) == (if v(a) < v(b) {
            v(b)
        } else {
            v(a)
        }) by {
        lemma_scaled_order(a.raw as int, b.raw as int);
    }
    assert forall|a: Fixed, b: Fixed|
        v(#[trigger] a.minimum_spec(b)) == (if v(b) < v(a) {
            v(b)
        } else {
            v(a)
        }) by {
        lemma_scaled_order(b.raw as int, a.raw as int);
    }
    assert forall|a: Fixed| 0real <= v(a) implies v(#[trigger] a.neg_spec()) == -v(a) by {
        lemma_scaled_order(0, a.raw as int);
        let x = a.raw as int;
        assert((-x) as real / 65536real == -(x as real / 65536real)) by (nonlinear_arith);
    }
    assert forall|a: Fixed, b: Fixed| 0real <= v(a) && 0real <= v(b) implies 0real <= v(
        #[trigger] a.times_spec(b),
    ) by {
        lemma_scaled_order(0, a.raw as int);
        lemma_scaled_order(0, b.raw as int);
        lemma_product_bounds(a.raw as int, b.raw as int);
        lemma_scaled_order(0, a.times_spec(b).raw as int);
    }
    assert forall|a: Fixed, b: Fixed| 0real <= v(a) <= 1real && 0real <= v(b) implies v(
        #[trigger] a.times_spec(b),
    ) <= v(b) by {
        lemma_scaled_order(0, a.raw as int);
        lemma_scaled_order(a.raw as int, 65536);
        lemma_scaled_order(0, b.raw as int);
        lemma_product_bounds(a.raw as int, b.raw as int);
        lemma_scaled_order(a.times_spec(b).raw as int, b.raw as int);
    }
    assert forall|a: Fixed, b: Fixed| 0real <= v(a) <= 1real && v(b) <= 0real implies v(b) <= v(
        #[trigger] a.times_spec(b),
    ) <= 0real by {
        lemma_scaled_order(0, a.raw as int);
        lemma_scaled_order(a.raw as int, 65536);
        lemma_scaled_order(b.raw as int, 0);
        lemma_product_bounds(a.raw as int, b.raw as int);
        lemma_scaled_order(b.raw as int, a.times_spec(b).raw as int);
        lemma_scaled_order(a.times_spec(b).raw as int, 0);
    }
}

} // verus!
