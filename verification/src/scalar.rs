//! The number type of the kernels.
//!
//! Every kernel is generic over [`Scalar`], so that one verified body serves
//! single-precision floats (supplied from outside the crate) and the
//! deterministic fixed-point numbers of [`Fixed`].
use vstd::prelude::*;

verus! {

/// Arithmetic that is a function of its operands: each operation has a
/// specification function, and nothing is asked of those functions. In
/// particular no kernel relies on associativity or exactness.
pub trait Scalar: Sized + Copy {
    /// The additive unit.
    spec fn zero_spec() -> Self;

    /// The multiplicative unit.
    spec fn one_spec() -> Self;

    /// The constant `m * 10^e`.
    spec fn dec_spec(m: i32, e: i32) -> Self;

    spec fn plus_spec(self, o: Self) -> Self;

    spec fn minus_spec(self, o: Self) -> Self;

    spec fn times_spec(self, o: Self) -> Self;

    spec fn over_spec(self, o: Self) -> Self;

    spec fn neg_spec(self) -> Self;

    spec fn sqrt_spec(self) -> Self;

    spec fn sin_spec(self) -> Self;

    spec fn cos_spec(self) -> Self;

    /// The angle of the point `(x, self)`.
    spec fn atan2_spec(self, x: Self) -> Self;

    spec fn maximum_spec(self, o: Self) -> Self;

    spec fn minimum_spec(self, o: Self) -> Self;

    spec fn lt_spec(self, o: Self) -> bool;

    spec fn le_spec(self, o: Self) -> bool;

    spec fn same_spec(self, o: Self) -> bool;

    fn zero() -> (r: Self)
        ensures
            r == Self::zero_spec(),
    ;

    fn one() -> (r: Self)
        ensures
            r == Self::one_spec(),
    ;

    fn dec(m: i32, e: i32) -> (r: Self)
        requires
            -38 <= e <= 38,
        ensures
            r == Self::dec_spec(m, e),
    ;

    fn plus(self, o: Self) -> (r: Self)
        ensures
            r == self.plus_spec(o),
    ;

    fn minus(self, o: Self) -> (r: Self)
        ensures
            r == self.minus_spec(o),
    ;

    fn times(self, o: Self) -> (r: Self)
        ensures
            r == self.times_spec(o),
    ;

    fn over(self, o: Self) -> (r: Self)
        ensures
            r == self.over_spec(o),
    ;

    fn negate(self) -> (r: Self)
        ensures
            r == self.neg_spec(),
    ;

    fn sqrt(self) -> (r: Self)
        ensures
            r == self.sqrt_spec(),
    ;

    fn sin(self) -> (r: Self)
        ensures
            r == self.sin_spec(),
    ;

    fn cos(self) -> (r: Self)
        ensures
            r == self.cos_spec(),
    ;

    fn atan2(self, x: Self) -> (r: Self)
        ensures
            r == self.atan2_spec(x),
    ;

    fn maximum(self, o: Self) -> (r: Self)
        ensures
            r == self.maximum_spec(o),
    ;

    fn minimum(self, o: Self) -> (r: Self)
        ensures
            r == self.minimum_spec(o),
    ;

    fn lt(self, o: Self) -> (r: bool)
        ensures
            r == self.lt_spec(o),
    ;

    fn le(self, o: Self) -> (r: bool)
        ensures
            r == self.le_spec(o),
    ;

    /// Equality as the number type compares it.
    fn same(self, o: Self) -> (r: bool)
        ensures
            r == self.same_spec(o),
    ;
}

/// Two.
pub open spec fn two_spec<S: Scalar>() -> S {
    S::dec_spec(2, 0)
}

pub fn two<S: Scalar>() -> (r: S)
    ensures
        r == two_spec::<S>(),
{
    S::dec(2, 0)
}

/// One half.
pub open spec fn half_spec<S: Scalar>() -> S {
    S::dec_spec(5, (-1) as i32)
}

pub fn half<S: Scalar>() -> (r: S)
    ensures
        r == half_spec::<S>(),
{
    S::dec(5, -1)
}

/// The absolute value: `x` itself where `0 <= x`, its negation elsewhere.
pub open spec fn abs_spec<S: Scalar>(x: S) -> S {
    if S::zero_spec().le_spec(x) {
        x
    } else {
        x.neg_spec()
    }
}

pub fn abs<S: Scalar>(x: S) -> (r: S)
    ensures
        r == abs_spec(x),
{
    if S::zero().le(x) {
        x
    } else {
        x.negate()
    }
}

/// `x` moved into `[lo, hi]`; the upper bound has the last word.
pub open spec fn clamp_spec<S: Scalar>(x: S, lo: S, hi: S) -> S {
    let y = if x.lt_spec(lo) {
        lo
    } else {
        x
    };
    if hi.lt_spec(y) {
        hi
    } else {
        y
    }
}

pub fn clamp<S: Scalar>(x: S, lo: S, hi: S) -> (r: S)
    ensures
        r == clamp_spec(x, lo, hi),
{
    let y = if x.lt(lo) {
        lo
    } else {
        x
    };
    if hi.lt(y) {
        hi
    } else {
        y
    }
}

/// `num / denom`, and zero for a zero denominator.
pub open spec fn safe_div_spec<S: Scalar>(num: S, denom: S) -> S {
    if denom.same_spec(S::zero_spec()) {
        S::zero_spec()
    } else {
        num.over_spec(denom)
    }
}

/// Safe division that returns 0 if the denominator is 0.
pub fn safe_div<S: Scalar>(num: S, denom: S) -> (r: S)
    ensures
        r == safe_div_spec(num, denom),
{
    if denom.same(S::zero()) {
        S::zero()
    } else {
        num.over(denom)
    }
}

/// The reciprocal, and zero for zero.
pub open spec fn inv_spec<S: Scalar>(x: S) -> S {
    safe_div_spec(S::one_spec(), x)
}

/// `1 / x`, or 0 if `x` is 0.
pub fn inv<S: Scalar>(x: S) -> (r: S)
    ensures
        r == inv_spec(x),
{
    safe_div(S::one(), x)
}

/// Returns 1/x if x is not zero, otherwise 0.
pub fn maybe_inv<S: Scalar>(x: S) -> (r: S)
    ensures
        r == inv_spec(x),
{
    inv(x)
}

/// The magnitude up to which [`threshold_inv`] takes its argument for zero.
pub open spec fn inv_epsilon_spec<S: Scalar>() -> S {
    S::dec_spec(1, (-20) as i32)
}

/// The reciprocal of `x` outside `[-epsilon, epsilon]`, zero inside.
pub open spec fn threshold_inv_spec<S: Scalar>(x: S) -> S {
    if x.lt_spec(inv_epsilon_spec::<S>().neg_spec()) || inv_epsilon_spec::<S>().lt_spec(x) {
        S::one_spec().over_spec(x)
    } else {
        S::zero_spec()
    }
}

/// The reciprocal of a number away from zero, otherwise 0.
pub fn threshold_inv<S: Scalar>(x: S) -> (r: S)
    ensures
        r == threshold_inv_spec(x),
{
    let eps = S::dec(1, -20);
    if x.lt(eps.negate()) || eps.lt(x) {
        S::one().over(x)
    } else {
        S::zero()
    }
}

/// The largest number that single precision holds, or nearly so.
pub open spec fn max_flt_spec<S: Scalar>() -> S {
    S::dec_spec(34, 37)
}

pub fn max_flt<S: Scalar>() -> (r: S)
    ensures
        r == max_flt_spec::<S>(),
{
    S::dec(34, 37)
}

} // verus!
