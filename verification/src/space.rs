//! The two- and three-dimensional vector spaces of the kernels.
//!
//! A linear quantity is a `V`, an angular one an `A`: a vector in three
//! dimensions, a scalar about the third axis in two.
use crate::scalar::{Scalar, half, half_spec, inv, inv_spec, two, two_spec};
use vstd::prelude::*;

verus! {

/// A choice between the plane and space.
#[derive(Clone, Copy, Debug, PartialEq, Eq, Structural)]
pub enum Dimension {
    Two,
    Three,
}

impl Dimension {
    /// Number of linear axes.
    pub open spec fn lin_spec(self) -> int {
        match self {
            Dimension::Two => 2,
            Dimension::Three => 3,
        }
    }

    /// Number of angular axes.
    pub open spec fn ang_spec(self) -> int {
        match self {
            Dimension::Two => 1,
            Dimension::Three => 3,
        }
    }

    /// Number of axes of a joint: the linear ones, then the angular ones.
    pub open spec fn spatial_spec(self) -> int {
        self.lin_spec() + self.ang_spec()
    }

    pub fn lin(self) -> (r: u32)
        ensures
            r == self.lin_spec(),
    {
        match self {
            Dimension::Two => 2,
            Dimension::Three => 3,
        }
    }

    pub fn ang(self) -> (r: u32)
        ensures
            r == self.ang_spec(),
    {
        match self {
            Dimension::Two => 1,
            Dimension::Three => 3,
        }
    }

    pub fn spatial(self) -> (r: u32)
        ensures
            r == self.spatial_spec(),
    {
        self.lin() + self.ang()
    }
}

/// Linear and angular quantities of one dimension, with their products.
pub trait Space<S: Scalar>: Sized + Copy {
    type V: Copy;

    type A: Copy;

    /// An angular inertia: a linear map of angular quantities.
    type I: Copy;

    /// A rotation.
    type R: Copy;

    /// Which dimension this is.
    spec fn dimension_spec() -> Dimension;

    spec fn vzero_spec() -> Self::V;

    spec fn vadd_spec(a: Self::V, b: Self::V) -> Self::V;

    spec fn vsub_spec(a: Self::V, b: Self::V) -> Self::V;

    spec fn vneg_spec(a: Self::V) -> Self::V;

    spec fn vscale_spec(a: Self::V, s: S) -> Self::V;

    /// The componentwise product.
    spec fn vmul_spec(a: Self::V, b: Self::V) -> Self::V;

    spec fn vdot_spec(a: Self::V, b: Self::V) -> S;

    spec fn vget_spec(a: Self::V, i: int) -> S;

    spec fn azero_spec() -> Self::A;

    spec fn aadd_spec(a: Self::A, b: Self::A) -> Self::A;

    spec fn asub_spec(a: Self::A, b: Self::A) -> Self::A;

    spec fn aneg_spec(a: Self::A) -> Self::A;

    spec fn ascale_spec(a: Self::A, s: S) -> Self::A;

    spec fn gdot_spec(a: Self::A, b: Self::A) -> S;

    spec fn aget_spec(a: Self::A, i: int) -> S;

    /// The moment of `b` about the origin when applied at `a`.
    spec fn gcross_spec(a: Self::V, b: Self::V) -> Self::A;

    /// The velocity at `v` of a rotation about the origin.
    spec fn gcross_av_spec(w: Self::A, v: Self::V) -> Self::V;

    /// The product of two angular quantities: zero in two dimensions.
    spec fn across_spec(a: Self::A, b: Self::A) -> Self::A;

    spec fn imul_spec(i: Self::I, a: Self::A) -> Self::A;

    spec fn rid_spec() -> Self::R;

    spec fn rmul_spec(a: Self::R, b: Self::R) -> Self::R;

    spec fn rinv_spec(a: Self::R) -> Self::R;

    spec fn rapply_spec(r: Self::R, v: Self::V) -> Self::V;

    /// A rotated angular quantity: itself in two dimensions.
    spec fn rapply_ang_spec(r: Self::R, a: Self::A) -> Self::A;

    /// The inertia with principal moments `a` along the axes of `r`.
    spec fn ifrom_spec(r: Self::R, a: Self::A) -> Self::I;

    /// `acc` plus the product of `a` and `b`: `acc` itself in two dimensions.
    spec fn aadd_cross_spec(acc: Self::A, a: Self::A, b: Self::A) -> Self::A;

    /// The reciprocals of the components, zero for zero.
    spec fn ainv_spec(a: Self::A) -> Self::A;

    /// The vector with `s` along axis `i`.
    spec fn vaxis_spec(i: int, s: S) -> Self::V;

    /// The angular quantity with `s` along axis `i`.
    spec fn aaxis_spec(i: int, s: S) -> Self::A;

    /// The image of the unit of angular axis `i`, as a column of the rotation matrix.
    spec fn rcol_spec(q: Self::R, i: int) -> Self::A;

    /// The vector with these components; the third is dropped in two dimensions.
    spec fn vfrom_spec(x: S, y: S, z: S) -> Self::V;

    /// The angular quantity with these components; the first alone in two dimensions.
    spec fn afrom_spec(x: S, y: S, z: S) -> Self::A;

    /// `acc` less the product of `a` and `b`: `acc` itself in two dimensions.
    spec fn asub_cross_spec(acc: Self::A, a: Self::A, b: Self::A) -> Self::A;

    /// The inertia with the gyroscopic term of a time step `dt` at angular velocity `w`.
    spec fn igyro_spec(i: Self::I, w: Self::A, dt: S) -> Self::I;

    /// A direction orthogonal to the unit vector `v`.
    spec fn ortho_spec(v: Self::V) -> Self::V;

    /// The direction that completes the unit normal `n` and its tangent `t`; the
    /// tangent itself in the plane.
    spec fn bitangent_spec(n: Self::V, t: Self::V) -> Self::V;

    /// Axis `i` of the frame with rotation `q`.
    spec fn raxis_spec(q: Self::R, i: int) -> Self::V;

    /// The torque of a unit force along `axis` at distance `r`.
    spec fn lever_spec(r: Self::V, axis: Self::V) -> Self::A;

    /// How axis `i` of the rotation error between `q1` and `q2` responds to angular
    /// velocities.
    spec fn ang_basis_spec(q1: Self::R, q2: Self::R, i: int) -> Self::A;

    /// The rotation error between `q1` and `q2` about axis `i`, as the sine of half the
    /// angle.
    spec fn ang_err_spec(q1: Self::R, q2: Self::R, i: int) -> S;

    /// `a` divided by `k`.
    spec fn vover_spec(a: Self::V, k: S) -> Self::V;

    /// The rotation by the angular displacement `w`.
    spec fn rexp_spec(w: Self::A) -> Self::R;

    /// `q` scaled to a unit.
    spec fn rnormalize_spec(q: Self::R) -> Self::R;

    /// `q` after turning at the rate `w` for a short time `dt`.
    spec fn radvance_spec(q: Self::R, w: Self::A, dt: S) -> Self::R;

    fn dimension() -> (r: Dimension)
        ensures
            r == Self::dimension_spec(),
    ;

    fn vzero() -> (r: Self::V)
        ensures
            r == Self::vzero_spec(),
    ;

    fn vadd(a: Self::V, b: Self::V) -> (r: Self::V)
        ensures
            r == Self::vadd_spec(a, b),
    ;

    fn vsub(a: Self::V, b: Self::V) -> (r: Self::V)
        ensures
            r == Self::vsub_spec(a, b),
    ;

    fn vneg(a: Self::V) -> (r: Self::V)
        ensures
            r == Self::vneg_spec(a),
    ;

    fn vscale(a: Self::V, s: S) -> (r: Self::V)
        ensures
            r == Self::vscale_spec(a, s),
    ;

    fn vmul(a: Self::V, b: Self::V) -> (r: Self::V)
        ensures
            r == Self::vmul_spec(a, b),
    ;

    fn vdot(a: Self::V, b: Self::V) -> (r: S)
        ensures
            r == Self::vdot_spec(a, b),
    ;

    fn vget(a: Self::V, i: usize) -> (r: S)
        requires
            i < Self::dimension_spec().lin_spec(),
        ensures
            r == Self::vget_spec(a, i as int),
    ;

    fn azero() -> (r: Self::A)
        ensures
            r == Self::azero_spec(),
    ;

    fn aadd(a: Self::A, b: Self::A) -> (r: Self::A)
        ensures
            r == Self::aadd_spec(a, b),
    ;

    fn asub(a: Self::A, b: Self::A) -> (r: Self::A)
        ensures
            r == Self::asub_spec(a, b),
    ;

    fn aneg(a: Self::A) -> (r: Self::A)
        ensures
            r == Self::aneg_spec(a),
    ;

    fn ascale(a: Self::A, s: S) -> (r: Self::A)
        ensures
            r == Self::ascale_spec(a, s),
    ;

    fn gdot(a: Self::A, b: Self::A) -> (r: S)
        ensures
            r == Self::gdot_spec(a, b),
    ;

    fn aget(a: Self::A, i: usize) -> (r: S)
        requires
            i < Self::dimension_spec().ang_spec(),
        ensures
            r == Self::aget_spec(a, i as int),
    ;

    fn gcross(a: Self::V, b: Self::V) -> (r: Self::A)
        ensures
            r == Self::gcross_spec(a, b),
    ;

    fn gcross_av(w: Self::A, v: Self::V) -> (r: Self::V)
        ensures
            r == Self::gcross_av_spec(w, v),
    ;

    fn across(a: Self::A, b: Self::A) -> (r: Self::A)
        ensures
            r == Self::across_spec(a, b),
    ;

    fn imul(i: Self::I, a: Self::A) -> (r: Self::A)
        ensures
            r == Self::imul_spec(i, a),
    ;

    fn rid() -> (r: Self::R)
        ensures
            r == Self::rid_spec(),
    ;

    fn rmul(a: Self::R, b: Self::R) -> (r: Self::R)
        ensures
            r == Self::rmul_spec(a, b),
    ;

    fn rinv(a: Self::R) -> (r: Self::R)
        ensures
            r == Self::rinv_spec(a),
    ;

    fn rapply(q: Self::R, v: Self::V) -> (r: Self::V)
        ensures
            r == Self::rapply_spec(q, v),
    ;

    fn rapply_ang(q: Self::R, a: Self::A) -> (r: Self::A)
        ensures
            r == Self::rapply_ang_spec(q, a),
    ;

    fn ifrom(q: Self::R, a: Self::A) -> (r: Self::I)
        ensures
            r == Self::ifrom_spec(q, a),
    ;

    fn aadd_cross(acc: Self::A, a: Self::A, b: Self::A) -> (out: Self::A)
        ensures
            out == Self::aadd_cross_spec(acc, a, b),
    ;

    fn ainv(a: Self::A) -> (out: Self::A)
        ensures
            out == Self::ainv_spec(a),
    ;

    fn vaxis(i: usize, s: S) -> (out: Self::V)
        requires
            i < Self::dimension_spec().lin_spec(),
        ensures
            out == Self::vaxis_spec(i as int, s),
    ;

    fn aaxis(i: usize, s: S) -> (out: Self::A)
        requires
            i < Self::dimension_spec().ang_spec(),
        ensures
            out == Self::aaxis_spec(i as int, s),
    ;

    fn rcol(q: Self::R, i: usize) -> (out: Self::A)
        requires
            i < Self::dimension_spec().ang_spec(),
        ensures
            out == Self::rcol_spec(q, i as int),
    ;

    fn vfrom(x: S, y: S, z: S) -> (out: Self::V)
        ensures
            out == Self::vfrom_spec(x, y, z),
    ;

    fn afrom(x: S, y: S, z: S) -> (out: Self::A)
        ensures
            out == Self::afrom_spec(x, y, z),
    ;

    fn asub_cross(acc: Self::A, a: Self::A, b: Self::A) -> (out: Self::A)
        ensures
            out == Self::asub_cross_spec(acc, a, b),
    ;

    fn igyro(i: Self::I, w: Self::A, dt: S) -> (out: Self::I)
        ensures
            out == Self::igyro_spec(i, w, dt),
    ;

    /// A vector is made of its components.
    proof fn lemma_vparts(v: Self::V)
        ensures
            Self::vfrom_spec(
                Self::vget_spec(v, 0),
                Self::vget_spec(v, 1),
                match Self::dimension_spec() {
                    Dimension::Two => S::zero_spec(),
                    Dimension::Three => Self::vget_spec(v, 2),
                },
            ) == v,
    ;

    /// An angular quantity is made of its components.
    proof fn lemma_aparts(a: Self::A)
        ensures
            (match Self::dimension_spec() {
                Dimension::Two => Self::afrom_spec(
                    Self::aget_spec(a, 0),
                    S::zero_spec(),
                    S::zero_spec(),
                ),
                Dimension::Three => Self::afrom_spec(
                    Self::aget_spec(a, 0),
                    Self::aget_spec(a, 1),
                    Self::aget_spec(a, 2),
                ),
            }) == a,
    ;

    fn ortho(v: Self::V) -> (out: Self::V)
        ensures
            out == Self::ortho_spec(v),
    ;

    fn bitangent(n: Self::V, t: Self::V) -> (out: Self::V)
        ensures
            out == Self::bitangent_spec(n, t),
    ;

    fn raxis(q: Self::R, i: usize) -> (out: Self::V)
        ensures
            out == Self::raxis_spec(q, i as int),
    ;

    fn lever(r: Self::V, axis: Self::V) -> (out: Self::A)
        ensures
            out == Self::lever_spec(r, axis),
    ;

    fn ang_basis(q1: Self::R, q2: Self::R, i: usize) -> (out: Self::A)
        ensures
            out == Self::ang_basis_spec(q1, q2, i as int),
    ;

    fn ang_err(q1: Self::R, q2: Self::R, i: usize) -> (out: S)
        ensures
            out == Self::ang_err_spec(q1, q2, i as int),
    ;

    fn vover(a: Self::V, k: S) -> (out: Self::V)
        ensures
            out == Self::vover_spec(a, k),
    ;

    fn rexp(w: Self::A) -> (out: Self::R)
        ensures
            out == Self::rexp_spec(w),
    ;

    fn rnormalize(q: Self::R) -> (out: Self::R)
        ensures
            out == Self::rnormalize_spec(q),
    ;

    fn radvance(q: Self::R, w: Self::A, dt: S) -> (out: Self::R)
        ensures
            out == Self::radvance_spec(q, w, dt),
    ;
}

/// A vector of the plane.
#[derive(Clone, Copy, Debug)]
pub struct V2<S> {
    pub x: S,
    pub y: S,
}

/// A vector of space.
#[derive(Clone, Copy, Debug)]
pub struct V3<S> {
    pub x: S,
    pub y: S,
    pub z: S,
}

/// A planar rotation by the angle with this cosine and sine.
#[derive(Clone, Copy, Debug)]
pub struct Rot2<S> {
    pub re: S,
    pub im: S,
}

/// A rotation of space as a unit quaternion.
#[derive(Clone, Copy, Debug)]
pub struct Quat<S> {
    pub x: S,
    pub y: S,
    pub z: S,
    pub w: S,
}

/// A 3x3 matrix by columns.
#[derive(Clone, Copy, Debug)]
pub struct Mat3<S> {
    pub x_axis: V3<S>,
    pub y_axis: V3<S>,
    pub z_axis: V3<S>,
}

/// The plane.
#[derive(Clone, Copy, Debug)]
pub struct Dim2;

/// Three-dimensional space.
#[derive(Clone, Copy, Debug)]
pub struct Dim3;

/// A rigid transformation: a rotation followed by a translation.
#[derive(Clone, Copy)]
pub struct Pose<S: Scalar, D: Space<S>> {
    pub rotation: D::R,
    pub translation: D::V,
}

/// A linear and an angular velocity.
#[derive(Clone, Copy)]
pub struct Velocity<S: Scalar, D: Space<S>> {
    pub linear: D::V,
    pub angular: D::A,
}

/// A rotation of the plane scaled to a unit; the identity if it is too small.
pub open spec fn rot_unit_spec<S: Scalar>(q: Rot2<S>) -> Rot2<S> {
    let n = q.re.times_spec(q.re).plus_spec(q.im.times_spec(q.im)).sqrt_spec();
    if S::dec_spec(119209290, (-15) as i32).lt_spec(n) {
        Rot2 { re: q.re.over_spec(n), im: q.im.over_spec(n) }
    } else {
        Rot2 { re: S::one_spec(), im: S::zero_spec() }
    }
}

fn rot_unit<S: Scalar>(q: Rot2<S>) -> (r: Rot2<S>)
    ensures
        r == rot_unit_spec(q),
{
    let n = q.re.times(q.re).plus(q.im.times(q.im)).sqrt();
    if S::dec(119209290, -15).lt(n) {
        Rot2 { re: q.re.over(n), im: q.im.over(n) }
    } else {
        Rot2 { re: S::one(), im: S::zero() }
    }
}

/// A quaternion scaled to a unit.
pub open spec fn quat_unit_spec<S: Scalar>(q: Quat<S>) -> Quat<S> {
    let n = q.x.times_spec(q.x).plus_spec(q.y.times_spec(q.y)).plus_spec(
        q.z.times_spec(q.z),
    ).plus_spec(q.w.times_spec(q.w)).sqrt_spec();
    let k = S::one_spec().over_spec(n);
    Quat {
        x: q.x.times_spec(k),
        y: q.y.times_spec(k),
        z: q.z.times_spec(k),
        w: q.w.times_spec(k),
    }
}

fn quat_unit<S: Scalar>(q: Quat<S>) -> (r: Quat<S>)
    ensures
        r == quat_unit_spec(q),
{
    let n = q.x.times(q.x).plus(q.y.times(q.y)).plus(q.z.times(q.z)).plus(q.w.times(q.w)).sqrt();
    let k = S::one().over(n);
    Quat { x: q.x.times(k), y: q.y.times(k), z: q.z.times(k), w: q.w.times(k) }
}

/// The rotation by the length of `v` about `v`; the identity for zero.
pub open spec fn quat_exp_spec<S: Scalar>(v: V3<S>) -> Quat<S> {
    let n = v.x.times_spec(v.x).plus_spec(v.y.times_spec(v.y)).plus_spec(
        v.z.times_spec(v.z),
    ).sqrt_spec();
    if n.same_spec(S::zero_spec()) {
        Quat { x: S::zero_spec(), y: S::zero_spec(), z: S::zero_spec(), w: S::one_spec() }
    } else {
        let a = n.times_spec(half_spec());
        let s = a.sin_spec();
        Quat {
            x: v.x.over_spec(n).times_spec(s),
            y: v.y.over_spec(n).times_spec(s),
            z: v.z.over_spec(n).times_spec(s),
            w: a.cos_spec(),
        }
    }
}

fn quat_exp<S: Scalar>(v: V3<S>) -> (r: Quat<S>)
    ensures
        r == quat_exp_spec(v),
{
    let n = v.x.times(v.x).plus(v.y.times(v.y)).plus(v.z.times(v.z)).sqrt();
    if n.same(S::zero()) {
        Quat { x: S::zero(), y: S::zero(), z: S::zero(), w: S::one() }
    } else {
        let a = n.times(half());
        let s = a.sin();
        Quat {
            x: v.x.over(n).times(s),
            y: v.y.over(n).times(s),
            z: v.z.over(n).times(s),
            w: a.cos(),
        }
    }
}

/// A unit vector orthogonal to the unit vector `v`.
pub open spec fn ortho3_spec<S: Scalar>(v: V3<S>) -> V3<S> {
    let sign = if v.z.lt_spec(S::zero_spec()) {
        S::one_spec().neg_spec()
    } else {
        S::one_spec()
    };
    let a = S::one_spec().neg_spec().over_spec(sign.plus_spec(v.z));
    V3 {
        x: v.x.times_spec(v.y).times_spec(a),
        y: sign.plus_spec(v.y.times_spec(v.y).times_spec(a)),
        z: v.y.neg_spec(),
    }
}

fn ortho3<S: Scalar>(v: V3<S>) -> (r: V3<S>)
    ensures
        r == ortho3_spec(v),
{
    let sign = if v.z.lt(S::zero()) {
        S::one().negate()
    } else {
        S::one()
    };
    let a = S::one().negate().over(sign.plus(v.z));
    V3 {
        x: v.x.times(v.y).times(a),
        y: sign.plus(v.y.times(v.y).times(a)),
        z: v.y.negate(),
    }
}

impl<S: Scalar> Space<S> for Dim2 {
    type V = V2<S>;

    type A = S;

    type I = S;

    type R = Rot2<S>;

    open spec fn dimension_spec() -> Dimension {
        Dimension::Two
    }

    open spec fn vzero_spec() -> V2<S> {
        V2 { x: S::zero_spec(), y: S::zero_spec() }
    }

    open spec fn vadd_spec(a: V2<S>, b: V2<S>) -> V2<S> {
        V2 { x: a.x.plus_spec(b.x), y: a.y.plus_spec(b.y) }
    }

    open spec fn vsub_spec(a: V2<S>, b: V2<S>) -> V2<S> {
        V2 { x: a.x.minus_spec(b.x), y: a.y.minus_spec(b.y) }
    }

    open spec fn vneg_spec(a: V2<S>) -> V2<S> {
        V2 { x: a.x.neg_spec(), y: a.y.neg_spec() }
    }

    open spec fn vscale_spec(a: V2<S>, s: S) -> V2<S> {
        V2 { x: a.x.times_spec(s), y: a.y.times_spec(s) }
    }

    open spec fn vmul_spec(a: V2<S>, b: V2<S>) -> V2<S> {
        V2 { x: a.x.times_spec(b.x), y: a.y.times_spec(b.y) }
    }

    open spec fn vdot_spec(a: V2<S>, b: V2<S>) -> S {
        a.x.times_spec(b.x).plus_spec(a.y.times_spec(b.y))
    }

    open spec fn vget_spec(a: V2<S>, i: int) -> S {
        if i == 0 {
            a.x
        } else {
            a.y
        }
    }

    open spec fn azero_spec() -> S {
        S::zero_spec()
    }

    open spec fn aadd_spec(a: S, b: S) -> S {
        a.plus_spec(b)
    }

    open spec fn asub_spec(a: S, b: S) -> S {
        a.minus_spec(b)
    }

    open spec fn aneg_spec(a: S) -> S {
        a.neg_spec()
    }

    open spec fn ascale_spec(a: S, s: S) -> S {
        a.times_spec(s)
    }

    open spec fn gdot_spec(a: S, b: S) -> S {
        a.times_spec(b)
    }

    open spec fn aget_spec(a: S, i: int) -> S {
        a
    }

    open spec fn gcross_spec(a: V2<S>, b: V2<S>) -> S {
        a.x.times_spec(b.y).minus_spec(a.y.times_spec(b.x))
    }

    open spec fn gcross_av_spec(w: S, v: V2<S>) -> V2<S> {
        V2 { x: w.neg_spec().times_spec(v.y), y: w.times_spec(v.x) }
    }

    open spec fn across_spec(a: S, b: S) -> S {
        S::zero_spec()
    }

    open spec fn imul_spec(i: S, a: S) -> S {
        i.times_spec(a)
    }

    open spec fn rid_spec() -> Rot2<S> {
        Rot2 { re: S::one_spec(), im: S::zero_spec() }
    }

    open spec fn rmul_spec(a: Rot2<S>, b: Rot2<S>) -> Rot2<S> {
        Rot2 {
            re: a.re.times_spec(b.re).minus_spec(a.im.times_spec(b.im)),
            im: a.im.times_spec(b.re).plus_spec(a.re.times_spec(b.im)),
        }
    }

    open spec fn rinv_spec(a: Rot2<S>) -> Rot2<S> {
        Rot2 { re: a.re, im: a.im.neg_spec() }
    }

    open spec fn rapply_spec(r: Rot2<S>, v: V2<S>) -> V2<S> {
        V2 {
            x: r.re.times_spec(v.x).minus_spec(r.im.times_spec(v.y)),
            y: r.im.times_spec(v.x).plus_spec(r.re.times_spec(v.y)),
        }
    }

    open spec fn rapply_ang_spec(r: Rot2<S>, a: S) -> S {
        a
    }

    open spec fn ifrom_spec(r: Rot2<S>, a: S) -> S {
        a
    }

    open spec fn aadd_cross_spec(acc: S, a: S, b: S) -> S {
        acc
    }

    open spec fn ainv_spec(a: S) -> S {
        inv_spec(a)
    }

    open spec fn vaxis_spec(i: int, s: S) -> V2<S> {
        if i == 0 {
            V2 { x: s, y: S::zero_spec() }
        } else {
            V2 { x: S::zero_spec(), y: s }
        }
    }

    open spec fn aaxis_spec(i: int, s: S) -> S {
        s
    }

    open spec fn rcol_spec(q: Rot2<S>, i: int) -> S {
        S::one_spec()
    }

    open spec fn vfrom_spec(x: S, y: S, z: S) -> V2<S> {
        V2 { x: x, y: y }
    }

    open spec fn afrom_spec(x: S, y: S, z: S) -> S {
        x
    }

    open spec fn asub_cross_spec(acc: S, a: S, b: S) -> S {
        acc
    }

    open spec fn igyro_spec(i: S, w: S, dt: S) -> S {
        i
    }

    open spec fn ortho_spec(v: V2<S>) -> V2<S> {
        V2 { x: v.y.neg_spec(), y: v.x }
    }

    open spec fn bitangent_spec(n: V2<S>, t: V2<S>) -> V2<S> {
        t
    }

    open spec fn raxis_spec(q: Rot2<S>, i: int) -> V2<S> {
        if i == 0 {
            V2 { x: q.re, y: q.im }
        } else {
            V2 { x: q.im.neg_spec(), y: q.re }
        }
    }

    open spec fn lever_spec(r: V2<S>, axis: V2<S>) -> S {
        r.y.neg_spec().times_spec(axis.x).plus_spec(r.x.times_spec(axis.y))
    }

    open spec fn ang_basis_spec(q1: Rot2<S>, q2: Rot2<S>, i: int) -> S {
        S::one_spec()
    }

    open spec fn ang_err_spec(q1: Rot2<S>, q2: Rot2<S>, i: int) -> S {
        rotation_angle_spec(Self::rmul_spec(Self::rinv_spec(q1), q2)).times_spec(half_spec()).sin_spec()
    }

    open spec fn vover_spec(a: V2<S>, k: S) -> V2<S> {
        V2 { x: a.x.over_spec(k), y: a.y.over_spec(k) }
    }

    open spec fn rexp_spec(w: S) -> Rot2<S> {
        Rot2 { re: w.cos_spec(), im: w.sin_spec() }
    }

    open spec fn rnormalize_spec(q: Rot2<S>) -> Rot2<S> {
        rot_unit_spec(q)
    }

    open spec fn radvance_spec(q: Rot2<S>, w: S, dt: S) -> Rot2<S> {
        {
            let d = w.times_spec(dt);
            rot_unit_spec(
                Rot2 {
                    re: q.re.minus_spec(d.times_spec(q.im)),
                    im: q.im.plus_spec(d.times_spec(q.re)),
                },
            )
        }
    }

    fn dimension() -> (r: Dimension) {
        Dimension::Two
    }

    fn vzero() -> (r: V2<S>) {
        V2 { x: S::zero(), y: S::zero() }
    }

    fn vadd(a: V2<S>, b: V2<S>) -> (r: V2<S>) {
        V2 { x: a.x.plus(b.x), y: a.y.plus(b.y) }
    }

    fn vsub(a: V2<S>, b: V2<S>) -> (r: V2<S>) {
        V2 { x: a.x.minus(b.x), y: a.y.minus(b.y) }
    }

    fn vneg(a: V2<S>) -> (r: V2<S>) {
        V2 { x: a.x.negate(), y: a.y.negate() }
    }

    fn vscale(a: V2<S>, s: S) -> (r: V2<S>) {
        V2 { x: a.x.times(s), y: a.y.times(s) }
    }

    fn vmul(a: V2<S>, b: V2<S>) -> (r: V2<S>) {
        V2 { x: a.x.times(b.x), y: a.y.times(b.y) }
    }

    fn vdot(a: V2<S>, b: V2<S>) -> (r: S) {
        a.x.times(b.x).plus(a.y.times(b.y))
    }

    fn vget(a: V2<S>, i: usize) -> (r: S) {
        if i == 0 {
            a.x
        } else {
            a.y
        }
    }

    fn azero() -> (r: S) {
        S::zero()
    }

    fn aadd(a: S, b: S) -> (r: S) {
        a.plus(b)
    }

    fn asub(a: S, b: S) -> (r: S) {
        a.minus(b)
    }

    fn aneg(a: S) -> (r: S) {
        a.negate()
    }

    fn ascale(a: S, s: S) -> (r: S) {
        a.times(s)
    }

    fn gdot(a: S, b: S) -> (r: S) {
        a.times(b)
    }

    fn aget(a: S, i: usize) -> (r: S) {
        a
    }

    fn gcross(a: V2<S>, b: V2<S>) -> (r: S) {
        a.x.times(b.y).minus(a.y.times(b.x))
    }

    fn gcross_av(w: S, v: V2<S>) -> (r: V2<S>) {
        V2 { x: w.negate().times(v.y), y: w.times(v.x) }
    }

    fn across(a: S, b: S) -> (r: S) {
        S::zero()
    }

    fn imul(i: S, a: S) -> (r: S) {
        i.times(a)
    }

    fn rid() -> (r: Rot2<S>) {
        Rot2 { re: S::one(), im: S::zero() }
    }

    fn rmul(a: Rot2<S>, b: Rot2<S>) -> (r: Rot2<S>) {
        Rot2 {
            re: a.re.times(b.re).minus(a.im.times(b.im)),
            im: a.im.times(b.re).plus(a.re.times(b.im)),
        }
    }

    fn rinv(a: Rot2<S>) -> (r: Rot2<S>) {
        Rot2 { re: a.re, im: a.im.negate() }
    }

    fn rapply(q: Rot2<S>, v: V2<S>) -> (r: V2<S>) {
        V2 {
            x: q.re.times(v.x).minus(q.im.times(v.y)),
            y: q.im.times(v.x).plus(q.re.times(v.y)),
        }
    }

    fn rapply_ang(q: Rot2<S>, a: S) -> (r: S) {
        a
    }

    fn ifrom(q: Rot2<S>, a: S) -> (r: S) {
        a
    }

    fn aadd_cross(acc: S, a: S, b: S) -> (out: S) {
        acc
    }

    fn ainv(a: S) -> (out: S) {
        inv(a)
    }

    fn vaxis(i: usize, s: S) -> (out: V2<S>) {
        if i == 0 {
            V2 { x: s, y: S::zero() }
        } else {
            V2 { x: S::zero(), y: s }
        }
    }

    fn aaxis(i: usize, s: S) -> (out: S) {
        s
    }

    fn rcol(q: Rot2<S>, i: usize) -> (out: S) {
        S::one()
    }

    fn vfrom(x: S, y: S, z: S) -> (out: V2<S>) {
        V2 { x: x, y: y }
    }

    fn afrom(x: S, y: S, z: S) -> (out: S) {
        x
    }

    fn asub_cross(acc: S, a: S, b: S) -> (out: S) {
        acc
    }

    fn igyro(i: S, w: S, dt: S) -> (out: S) {
        i
    }

    proof fn lemma_vparts(v: V2<S>) {
    }

    proof fn lemma_aparts(a: S) {
    }

    fn ortho(v: V2<S>) -> (out: V2<S>) {
        V2 { x: v.y.negate(), y: v.x }
    }

    fn bitangent(n: V2<S>, t: V2<S>) -> (out: V2<S>) {
        t
    }

    fn raxis(q: Rot2<S>, i: usize) -> (out: V2<S>) {
        if i == 0 {
            V2 { x: q.re, y: q.im }
        } else {
            V2 { x: q.im.negate(), y: q.re }
        }
    }

    fn lever(r: V2<S>, axis: V2<S>) -> (out: S) {
        r.y.negate().times(axis.x).plus(r.x.times(axis.y))
    }

    fn ang_basis(q1: Rot2<S>, q2: Rot2<S>, i: usize) -> (out: S) {
        S::one()
    }

    fn ang_err(q1: Rot2<S>, q2: Rot2<S>, i: usize) -> (out: S) {
        rotation_angle(Self::rmul(Self::rinv(q1), q2)).times(half()).sin()
    }

    fn vover(a: V2<S>, k: S) -> (out: V2<S>) {
        V2 { x: a.x.over(k), y: a.y.over(k) }
    }

    fn rexp(w: S) -> (out: Rot2<S>) {
        Rot2 { re: w.cos(), im: w.sin() }
    }

    fn rnormalize(q: Rot2<S>) -> (out: Rot2<S>) {
        rot_unit(q)
    }

    fn radvance(q: Rot2<S>, w: S, dt: S) -> (out: Rot2<S>) {
        let d = w.times(dt);
        rot_unit(
            Rot2 { re: q.re.minus(d.times(q.im)), im: q.im.plus(d.times(q.re)) },
        )
    }
}

/// The imaginary part of a quaternion.
pub open spec fn qimag_spec<S: Scalar>(q: Quat<S>) -> V3<S> {
    V3 { x: q.x, y: q.y, z: q.z }
}

/// Gets the imaginary part of a quaternion.
pub fn rotation_imag<S: Scalar>(q: Quat<S>) -> (r: V3<S>)
    ensures
        r == qimag_spec(q),
{
    V3 { x: q.x, y: q.y, z: q.z }
}

pub open spec fn cross_spec<S: Scalar>(a: V3<S>, b: V3<S>) -> V3<S> {
    V3 {
        x: a.y.times_spec(b.z).minus_spec(b.y.times_spec(a.z)),
        y: a.z.times_spec(b.x).minus_spec(b.z.times_spec(a.x)),
        z: a.x.times_spec(b.y).minus_spec(b.x.times_spec(a.y)),
    }
}

fn cross3<S: Scalar>(a: V3<S>, b: V3<S>) -> (r: V3<S>)
    ensures
        r == cross_spec(a, b),
{
    V3 {
        x: a.y.times(b.z).minus(b.y.times(a.z)),
        y: a.z.times(b.x).minus(b.z.times(a.x)),
        z: a.x.times(b.y).minus(b.x.times(a.y)),
    }
}

/// The rotation matrix of a unit quaternion.
pub open spec fn quat_matrix_spec<S: Scalar>(q: Quat<S>) -> Mat3<S> {
    let x2 = q.x.plus_spec(q.x);
    let y2 = q.y.plus_spec(q.y);
    let z2 = q.z.plus_spec(q.z);
    let xx = q.x.times_spec(x2);
    let xy = q.x.times_spec(y2);
    let xz = q.x.times_spec(z2);
    let yy = q.y.times_spec(y2);
    let yz = q.y.times_spec(z2);
    let zz = q.z.times_spec(z2);
    let wx = q.w.times_spec(x2);
    let wy = q.w.times_spec(y2);
    let wz = q.w.times_spec(z2);
    Mat3 {
        x_axis: V3 {
            x: S::one_spec().minus_spec(yy.plus_spec(zz)),
            y: xy.plus_spec(wz),
            z: xz.minus_spec(wy),
        },
        y_axis: V3 {
            x: xy.minus_spec(wz),
            y: S::one_spec().minus_spec(xx.plus_spec(zz)),
            z: yz.plus_spec(wx),
        },
        z_axis: V3 {
            x: xz.plus_spec(wy),
            y: yz.minus_spec(wx),
            z: S::one_spec().minus_spec(xx.plus_spec(yy)),
        },
    }
}

/// Converts a rotation to a rotation matrix.
pub fn rotation_to_matrix<S: Scalar>(q: Quat<S>) -> (r: Mat3<S>)
    ensures
        r == quat_matrix_spec(q),
{
    let x2 = q.x.plus(q.x);
    let y2 = q.y.plus(q.y);
    let z2 = q.z.plus(q.z);
    let xx = q.x.times(x2);
    let xy = q.x.times(y2);
    let xz = q.x.times(z2);
    let yy = q.y.times(y2);
    let yz = q.y.times(z2);
    let zz = q.z.times(z2);
    let wx = q.w.times(x2);
    let wy = q.w.times(y2);
    let wz = q.w.times(z2);
    Mat3 {
        x_axis: V3 { x: S::one().minus(yy.plus(zz)), y: xy.plus(wz), z: xz.minus(wy) },
        y_axis: V3 { x: xy.minus(wz), y: S::one().minus(xx.plus(zz)), z: yz.plus(wx) },
        z_axis: V3 { x: xz.plus(wy), y: yz.minus(wx), z: S::one().minus(xx.plus(yy)) },
    }
}

/// The product of a matrix and a vector.
pub open spec fn mat_vec_spec<S: Scalar>(m: Mat3<S>, v: V3<S>) -> V3<S> {
    V3 {
        x: m.x_axis.x.times_spec(v.x).plus_spec(m.y_axis.x.times_spec(v.y)).plus_spec(
            m.z_axis.x.times_spec(v.z),
        ),
        y: m.x_axis.y.times_spec(v.x).plus_spec(m.y_axis.y.times_spec(v.y)).plus_spec(
            m.z_axis.y.times_spec(v.z),
        ),
        z: m.x_axis.z.times_spec(v.x).plus_spec(m.y_axis.z.times_spec(v.y)).plus_spec(
            m.z_axis.z.times_spec(v.z),
        ),
    }
}

pub fn mat_vec<S: Scalar>(m: Mat3<S>, v: V3<S>) -> (r: V3<S>)
    ensures
        r == mat_vec_spec(m, v),
{
    V3 {
        x: m.x_axis.x.times(v.x).plus(m.y_axis.x.times(v.y)).plus(m.z_axis.x.times(v.z)),
        y: m.x_axis.y.times(v.x).plus(m.y_axis.y.times(v.y)).plus(m.z_axis.y.times(v.z)),
        z: m.x_axis.z.times(v.x).plus(m.y_axis.z.times(v.y)).plus(m.z_axis.z.times(v.z)),
    }
}

/// The product of a matrix and the transpose of another.
pub open spec fn mat_mul_tr_spec<S: Scalar>(m: Mat3<S>, r: Mat3<S>) -> Mat3<S> {
    Mat3 {
        x_axis: mat_vec_spec(m, V3 { x: r.x_axis.x, y: r.y_axis.x, z: r.z_axis.x }),
        y_axis: mat_vec_spec(m, V3 { x: r.x_axis.y, y: r.y_axis.y, z: r.z_axis.y }),
        z_axis: mat_vec_spec(m, V3 { x: r.x_axis.z, y: r.y_axis.z, z: r.z_axis.z }),
    }
}

fn mat_mul_tr<S: Scalar>(m: Mat3<S>, r: Mat3<S>) -> (out: Mat3<S>)
    ensures
        out == mat_mul_tr_spec(m, r),
{
    Mat3 {
        x_axis: mat_vec(m, V3 { x: r.x_axis.x, y: r.y_axis.x, z: r.z_axis.x }),
        y_axis: mat_vec(m, V3 { x: r.x_axis.y, y: r.y_axis.y, z: r.z_axis.y }),
        z_axis: mat_vec(m, V3 { x: r.x_axis.z, y: r.y_axis.z, z: r.z_axis.z }),
    }
}

/// `i + (w x i - skew(i w)) dt`, column by column.
pub open spec fn gyro_inertia_spec<S: Scalar>(i: Mat3<S>, w: V3<S>, dt: S) -> Mat3<S> {
    let l = mat_vec_spec(i, w);
    Mat3 {
        x_axis: gyro_column_spec(
            i.x_axis,
            w,
            V3 { x: S::zero_spec(), y: l.z, z: l.y.neg_spec() },
            dt,
        ),
        y_axis: gyro_column_spec(
            i.y_axis,
            w,
            V3 { x: l.z.neg_spec(), y: S::zero_spec(), z: l.x },
            dt,
        ),
        z_axis: gyro_column_spec(
            i.z_axis,
            w,
            V3 { x: l.y, y: l.x.neg_spec(), z: S::zero_spec() },
            dt,
        ),
    }
}

pub open spec fn gyro_column_spec<S: Scalar>(c: V3<S>, w: V3<S>, skew: V3<S>, dt: S) -> V3<S> {
    let p = cross_spec(w, c);
    V3 {
        x: c.x.plus_spec(p.x.minus_spec(skew.x).times_spec(dt)),
        y: c.y.plus_spec(p.y.minus_spec(skew.y).times_spec(dt)),
        z: c.z.plus_spec(p.z.minus_spec(skew.z).times_spec(dt)),
    }
}

fn gyro_column<S: Scalar>(c: V3<S>, w: V3<S>, skew: V3<S>, dt: S) -> (r: V3<S>)
    ensures
        r == gyro_column_spec(c, w, skew, dt),
{
    let p = cross3(w, c);
    V3 {
        x: c.x.plus(p.x.minus(skew.x).times(dt)),
        y: c.y.plus(p.y.minus(skew.y).times(dt)),
        z: c.z.plus(p.z.minus(skew.z).times(dt)),
    }
}

fn gyro_inertia<S: Scalar>(i: Mat3<S>, w: V3<S>, dt: S) -> (r: Mat3<S>)
    ensures
        r == gyro_inertia_spec(i, w, dt),
{
    let l = mat_vec(i, w);
    Mat3 {
        x_axis: gyro_column(i.x_axis, w, V3 { x: S::zero(), y: l.z, z: l.y.negate() }, dt),
        y_axis: gyro_column(i.y_axis, w, V3 { x: l.z.negate(), y: S::zero(), z: l.x }, dt),
        z_axis: gyro_column(i.z_axis, w, V3 { x: l.y, y: l.x.negate(), z: S::zero() }, dt),
    }
}

/// The angle of a planar rotation.
pub open spec fn rotation_angle_spec<S: Scalar>(r: Rot2<S>) -> S {
    r.im.atan2_spec(r.re)
}

pub fn rotation_angle<S: Scalar>(r: Rot2<S>) -> (a: S)
    ensures
        a == rotation_angle_spec(r),
{
    r.im.atan2(r.re)
}

/// Column `i` of a matrix.
pub open spec fn mat_col_spec<S>(m: Mat3<S>, i: int) -> V3<S> {
    if i == 0 {
        m.x_axis
    } else if i == 1 {
        m.y_axis
    } else {
        m.z_axis
    }
}

fn mat_col<S: Scalar>(m: Mat3<S>, i: usize) -> (r: V3<S>)
    ensures
        r == mat_col_spec(m, i as int),
{
    if i == 0 {
        m.x_axis
    } else if i == 1 {
        m.y_axis
    } else {
        m.z_axis
    }
}

/// Row `i` of a matrix.
pub open spec fn mat_row_spec<S>(m: Mat3<S>, i: int) -> V3<S> {
    if i == 0 {
        V3 { x: m.x_axis.x, y: m.y_axis.x, z: m.z_axis.x }
    } else if i == 1 {
        V3 { x: m.x_axis.y, y: m.y_axis.y, z: m.z_axis.y }
    } else {
        V3 { x: m.x_axis.z, y: m.y_axis.z, z: m.z_axis.z }
    }
}

fn mat_row<S: Scalar>(m: Mat3<S>, i: usize) -> (r: V3<S>)
    ensures
        r == mat_row_spec(m, i as int),
{
    if i == 0 {
        V3 { x: m.x_axis.x, y: m.y_axis.x, z: m.z_axis.x }
    } else if i == 1 {
        V3 { x: m.x_axis.y, y: m.y_axis.y, z: m.z_axis.y }
    } else {
        V3 { x: m.x_axis.z, y: m.y_axis.z, z: m.z_axis.z }
    }
}

/// The matrix of the cross product with `r`.
pub open spec fn cross_matrix_spec<S: Scalar>(r: V3<S>) -> Mat3<S> {
    let o = S::zero_spec();
    Mat3 {
        x_axis: V3 { x: o, y: r.z, z: r.y.neg_spec() },
        y_axis: V3 { x: r.z.neg_spec(), y: o, z: r.x },
        z_axis: V3 { x: r.y, y: r.x.neg_spec(), z: o },
    }
}

pub fn cross_matrix<S: Scalar>(r: V3<S>) -> (m: Mat3<S>)
    ensures
        m == cross_matrix_spec(r),
{
    let o = S::zero();
    Mat3 {
        x_axis: V3 { x: o, y: r.z, z: r.y.negate() },
        y_axis: V3 { x: r.z.negate(), y: o, z: r.x },
        z_axis: V3 { x: r.y, y: r.x.negate(), z: o },
    }
}

/// The dot product of two quaternions.
pub open spec fn quat_dot_spec<S: Scalar>(a: Quat<S>, b: Quat<S>) -> S {
    a.x.times_spec(b.x).plus_spec(a.y.times_spec(b.y)).plus_spec(a.z.times_spec(b.z)).plus_spec(
        a.w.times_spec(b.w),
    )
}

pub fn quat_dot<S: Scalar>(a: Quat<S>, b: Quat<S>) -> (r: S)
    ensures
        r == quat_dot_spec(a, b),
{
    a.x.times(b.x).plus(a.y.times(b.y)).plus(a.z.times(b.z)).plus(a.w.times(b.w))
}

/// One if the quaternions point the same way, minus one if not.
pub open spec fn quat_sign_spec<S: Scalar>(a: Quat<S>, b: Quat<S>) -> S {
    if S::zero_spec().lt_spec(quat_dot_spec(a, b)) {
        S::one_spec()
    } else {
        S::one_spec().neg_spec()
    }
}

fn quat_sign<S: Scalar>(a: Quat<S>, b: Quat<S>) -> (r: S)
    ensures
        r == quat_sign_spec(a, b),
{
    if S::zero().lt(quat_dot(a, b)) {
        S::one()
    } else {
        S::one().negate()
    }
}

/// Column `i` of [`rotation_diff_spec`], from the imaginary parts `v1`, `v2`
/// and the real parts `w1`, `w2`.
pub open spec fn rotation_diff_col<S: Scalar>(
    v1: V3<S>,
    v2: V3<S>,
    w1: S,
    w2: S,
    i: int,
) -> V3<S> {
    let k = if i == 0 {
        v2.x
    } else if i == 1 {
        v2.y
    } else {
        v2.z
    };
    let ww = w1.times_spec(w2);
    let o = S::zero_spec();
    let diag = V3 {
        x: if i == 0 {
            ww
        } else {
            o
        },
        y: if i == 1 {
            ww
        } else {
            o
        },
        z: if i == 2 {
            ww
        } else {
            o
        },
    };
    let tensor = v3_scale_spec(v1, k);
    let sum = mat_col_spec(
        cross_matrix_spec(v3_add_spec(v3_scale_spec(v1, w2), v3_scale_spec(v2, w1))),
        i,
    );
    let prod = mat_vec_spec(cross_matrix_spec(v1), mat_col_spec(cross_matrix_spec(v2), i));
    v3_scale_spec(
        v3_add_spec(v3_sub_spec(v3_add_spec(tensor, diag), sum), prod),
        half_spec(),
    )
}

/// How the imaginary part of `conj(q1) q2` responds to angular velocities.
pub open spec fn rotation_diff_spec<S: Scalar>(q1: Quat<S>, q2: Quat<S>) -> Mat3<S> {
    let v1 = V3 { x: q1.x, y: q1.y, z: q1.z };
    let v2 = V3 { x: q2.x, y: q2.y, z: q2.z };
    Mat3 {
        x_axis: rotation_diff_col(v1, v2, q1.w, q2.w, 0),
        y_axis: rotation_diff_col(v1, v2, q1.w, q2.w, 1),
        z_axis: rotation_diff_col(v1, v2, q1.w, q2.w, 2),
    }
}

fn diff_col<S: Scalar>(v1: V3<S>, v2: V3<S>, w1: S, w2: S, i: usize) -> (r: V3<S>)
    requires
        i < 3,
    ensures
        r == rotation_diff_col(v1, v2, w1, w2, i as int),
{
    let k = if i == 0 {
        v2.x
    } else if i == 1 {
        v2.y
    } else {
        v2.z
    };
    let ww = w1.times(w2);
    let o = S::zero();
    let diag = V3 {
        x: if i == 0 {
            ww
        } else {
            o
        },
        y: if i == 1 {
            ww
        } else {
            o
        },
        z: if i == 2 {
            ww
        } else {
            o
        },
    };
    let tensor = v3_scale(v1, k);
    let sum = mat_col(cross_matrix(v3_add(v3_scale(v1, w2), v3_scale(v2, w1))), i);
    let prod = mat_vec(cross_matrix(v1), mat_col(cross_matrix(v2), i));
    v3_scale(v3_add(v3_sub(v3_add(tensor, diag), sum), prod), half())
}

pub fn rotation_diff_conj1_2<S: Scalar>(q1: Quat<S>, q2: Quat<S>) -> (r: Mat3<S>)
    ensures
        r == rotation_diff_spec(q1, q2),
{
    let v1 = V3 { x: q1.x, y: q1.y, z: q1.z };
    let v2 = V3 { x: q2.x, y: q2.y, z: q2.z };
    Mat3 {
        x_axis: diff_col(v1, v2, q1.w, q2.w, 0),
        y_axis: diff_col(v1, v2, q1.w, q2.w, 1),
        z_axis: diff_col(v1, v2, q1.w, q2.w, 2),
    }
}

pub open spec fn v3_add_spec<S: Scalar>(a: V3<S>, b: V3<S>) -> V3<S> {
    V3 { x: a.x.plus_spec(b.x), y: a.y.plus_spec(b.y), z: a.z.plus_spec(b.z) }
}

fn v3_add<S: Scalar>(a: V3<S>, b: V3<S>) -> (r: V3<S>)
    ensures
        r == v3_add_spec(a, b),
{
    V3 { x: a.x.plus(b.x), y: a.y.plus(b.y), z: a.z.plus(b.z) }
}

pub open spec fn v3_sub_spec<S: Scalar>(a: V3<S>, b: V3<S>) -> V3<S> {
    V3 { x: a.x.minus_spec(b.x), y: a.y.minus_spec(b.y), z: a.z.minus_spec(b.z) }
}

fn v3_sub<S: Scalar>(a: V3<S>, b: V3<S>) -> (r: V3<S>)
    ensures
        r == v3_sub_spec(a, b),
{
    V3 { x: a.x.minus(b.x), y: a.y.minus(b.y), z: a.z.minus(b.z) }
}

pub open spec fn v3_scale_spec<S: Scalar>(a: V3<S>, s: S) -> V3<S> {
    V3 { x: a.x.times_spec(s), y: a.y.times_spec(s), z: a.z.times_spec(s) }
}

fn v3_scale<S: Scalar>(a: V3<S>, s: S) -> (r: V3<S>)
    ensures
        r == v3_scale_spec(a, s),
{
    V3 { x: a.x.times(s), y: a.y.times(s), z: a.z.times(s) }
}

impl<S: Scalar> Space<S> for Dim3 {
    type V = V3<S>;

    type A = V3<S>;

    type I = Mat3<S>;

    type R = Quat<S>;

    open spec fn dimension_spec() -> Dimension {
        Dimension::Three
    }

    open spec fn vzero_spec() -> V3<S> {
        V3 { x: S::zero_spec(), y: S::zero_spec(), z: S::zero_spec() }
    }

    open spec fn vadd_spec(a: V3<S>, b: V3<S>) -> V3<S> {
        V3 { x: a.x.plus_spec(b.x), y: a.y.plus_spec(b.y), z: a.z.plus_spec(b.z) }
    }

    open spec fn vsub_spec(a: V3<S>, b: V3<S>) -> V3<S> {
        V3 { x: a.x.minus_spec(b.x), y: a.y.minus_spec(b.y), z: a.z.minus_spec(b.z) }
    }

    open spec fn vneg_spec(a: V3<S>) -> V3<S> {
        V3 { x: a.x.neg_spec(), y: a.y.neg_spec(), z: a.z.neg_spec() }
    }

    open spec fn vscale_spec(a: V3<S>, s: S) -> V3<S> {
        V3 { x: a.x.times_spec(s), y: a.y.times_spec(s), z: a.z.times_spec(s) }
    }

    open spec fn vmul_spec(a: V3<S>, b: V3<S>) -> V3<S> {
        V3 { x: a.x.times_spec(b.x), y: a.y.times_spec(b.y), z: a.z.times_spec(b.z) }
    }

    open spec fn vdot_spec(a: V3<S>, b: V3<S>) -> S {
        a.x.times_spec(b.x).plus_spec(a.y.times_spec(b.y)).plus_spec(a.z.times_spec(b.z))
    }

    open spec fn vget_spec(a: V3<S>, i: int) -> S {
        if i == 0 {
            a.x
        } else if i == 1 {
            a.y
        } else {
            a.z
        }
    }

    open spec fn azero_spec() -> V3<S> {
        Self::vzero_spec()
    }

    open spec fn aadd_spec(a: V3<S>, b: V3<S>) -> V3<S> {
        Self::vadd_spec(a, b)
    }

    open spec fn asub_spec(a: V3<S>, b: V3<S>) -> V3<S> {
        Self::vsub_spec(a, b)
    }

    open spec fn aneg_spec(a: V3<S>) -> V3<S> {
        Self::vneg_spec(a)
    }

    open spec fn ascale_spec(a: V3<S>, s: S) -> V3<S> {
        Self::vscale_spec(a, s)
    }

    open spec fn gdot_spec(a: V3<S>, b: V3<S>) -> S {
        Self::vdot_spec(a, b)
    }

    open spec fn aget_spec(a: V3<S>, i: int) -> S {
        Self::vget_spec(a, i)
    }

    open spec fn gcross_spec(a: V3<S>, b: V3<S>) -> V3<S> {
        cross_spec(a, b)
    }

    open spec fn gcross_av_spec(w: V3<S>, v: V3<S>) -> V3<S> {
        cross_spec(w, v)
    }

    open spec fn across_spec(a: V3<S>, b: V3<S>) -> V3<S> {
        cross_spec(a, b)
    }

    open spec fn imul_spec(i: Mat3<S>, a: V3<S>) -> V3<S> {
        mat_vec_spec(i, a)
    }

    open spec fn rid_spec() -> Quat<S> {
        Quat { x: S::zero_spec(), y: S::zero_spec(), z: S::zero_spec(), w: S::one_spec() }
    }

    open spec fn rmul_spec(a: Quat<S>, b: Quat<S>) -> Quat<S> {
        Quat {
            x: a.w.times_spec(b.x).plus_spec(a.x.times_spec(b.w)).plus_spec(
                a.y.times_spec(b.z),
            ).minus_spec(a.z.times_spec(b.y)),
            y: a.w.times_spec(b.y).minus_spec(a.x.times_spec(b.z)).plus_spec(
                a.y.times_spec(b.w),
            ).plus_spec(a.z.times_spec(b.x)),
            z: a.w.times_spec(b.z).plus_spec(a.x.times_spec(b.y)).minus_spec(
                a.y.times_spec(b.x),
            ).plus_spec(a.z.times_spec(b.w)),
            w: a.w.times_spec(b.w).minus_spec(a.x.times_spec(b.x)).minus_spec(
                a.y.times_spec(b.y),
            ).minus_spec(a.z.times_spec(b.z)),
        }
    }

    open spec fn rinv_spec(a: Quat<S>) -> Quat<S> {
        Quat { x: a.x.neg_spec(), y: a.y.neg_spec(), z: a.z.neg_spec(), w: a.w }
    }

    open spec fn rapply_spec(r: Quat<S>, v: V3<S>) -> V3<S> {
        let b = qimag_spec(r);
        let b2 = Self::vdot_spec(b, b);
        Self::vadd_spec(
            Self::vadd_spec(
                Self::vscale_spec(v, r.w.times_spec(r.w).minus_spec(b2)),
                Self::vscale_spec(b, Self::vdot_spec(v, b).times_spec(two_spec::<S>())),
            ),
            Self::vscale_spec(cross_spec(b, v), r.w.times_spec(two_spec::<S>())),
        )
    }

    open spec fn rapply_ang_spec(r: Quat<S>, a: V3<S>) -> V3<S> {
        Self::rapply_spec(r, a)
    }

    open spec fn ifrom_spec(r: Quat<S>, a: V3<S>) -> Mat3<S> {
        let m = quat_matrix_spec(r);
        mat_mul_tr_spec(
            Mat3 {
                x_axis: Self::vscale_spec(m.x_axis, a.x),
                y_axis: Self::vscale_spec(m.y_axis, a.y),
                z_axis: Self::vscale_spec(m.z_axis, a.z),
            },
            m,
        )
    }

    open spec fn aadd_cross_spec(acc: V3<S>, a: V3<S>, b: V3<S>) -> V3<S> {
        Self::vadd_spec(acc, cross_spec(a, b))
    }

    open spec fn ainv_spec(a: V3<S>) -> V3<S> {
        V3 { x: inv_spec(a.x), y: inv_spec(a.y), z: inv_spec(a.z) }
    }

    open spec fn vaxis_spec(i: int, s: S) -> V3<S> {
        if i == 0 {
            V3 { x: s, y: S::zero_spec(), z: S::zero_spec() }
        } else if i == 1 {
            V3 { x: S::zero_spec(), y: s, z: S::zero_spec() }
        } else {
            V3 { x: S::zero_spec(), y: S::zero_spec(), z: s }
        }
    }

    open spec fn aaxis_spec(i: int, s: S) -> V3<S> {
        Self::vaxis_spec(i, s)
    }

    open spec fn rcol_spec(q: Quat<S>, i: int) -> V3<S> {
        if i == 0 {
            quat_matrix_spec(q).x_axis
        } else if i == 1 {
            quat_matrix_spec(q).y_axis
        } else {
            quat_matrix_spec(q).z_axis
        }
    }

    open spec fn vfrom_spec(x: S, y: S, z: S) -> V3<S> {
        V3 { x: x, y: y, z: z }
    }

    open spec fn afrom_spec(x: S, y: S, z: S) -> V3<S> {
        V3 { x: x, y: y, z: z }
    }

    open spec fn asub_cross_spec(acc: V3<S>, a: V3<S>, b: V3<S>) -> V3<S> {
        Self::vsub_spec(acc, cross_spec(a, b))
    }

    open spec fn igyro_spec(i: Mat3<S>, w: V3<S>, dt: S) -> Mat3<S> {
        gyro_inertia_spec(i, w, dt)
    }

    open spec fn ortho_spec(v: V3<S>) -> V3<S> {
        ortho3_spec(v)
    }

    open spec fn bitangent_spec(n: V3<S>, t: V3<S>) -> V3<S> {
        cross_spec(n, t)
    }

    open spec fn raxis_spec(q: Quat<S>, i: int) -> V3<S> {
        mat_col_spec(quat_matrix_spec(q), i)
    }

    open spec fn lever_spec(r: V3<S>, axis: V3<S>) -> V3<S> {
        mat_vec_spec(cross_matrix_spec(r), axis)
    }

    open spec fn ang_basis_spec(q1: Quat<S>, q2: Quat<S>, i: int) -> V3<S> {
        Self::vscale_spec(mat_row_spec(rotation_diff_spec(q1, q2), i), quat_sign_spec(q1, q2))
    }

    open spec fn ang_err_spec(q1: Quat<S>, q2: Quat<S>, i: int) -> S {
        {
            let e = Self::rmul_spec(Self::rinv_spec(q1), q2);
            (if i == 0 {
                e.x
            } else if i == 1 {
                e.y
            } else {
                e.z
            }).times_spec(quat_sign_spec(q1, q2))
        }
    }

    open spec fn vover_spec(a: V3<S>, k: S) -> V3<S> {
        V3 { x: a.x.over_spec(k), y: a.y.over_spec(k), z: a.z.over_spec(k) }
    }

    open spec fn rexp_spec(w: V3<S>) -> Quat<S> {
        quat_exp_spec(w)
    }

    open spec fn rnormalize_spec(q: Quat<S>) -> Quat<S> {
        quat_unit_spec(q)
    }

    open spec fn radvance_spec(q: Quat<S>, w: V3<S>, dt: S) -> Quat<S> {
        {
            let h = v3_scale_spec(w, dt.times_spec(half_spec()));
            quat_unit_spec(
                Self::rmul_spec(Quat { x: h.x, y: h.y, z: h.z, w: S::one_spec() }, q),
            )
        }
    }

    fn dimension() -> (r: Dimension) {
        Dimension::Three
    }

    fn vzero() -> (r: V3<S>) {
        V3 { x: S::zero(), y: S::zero(), z: S::zero() }
    }

    fn vadd(a: V3<S>, b: V3<S>) -> (r: V3<S>) {
        V3 { x: a.x.plus(b.x), y: a.y.plus(b.y), z: a.z.plus(b.z) }
    }

    fn vsub(a: V3<S>, b: V3<S>) -> (r: V3<S>) {
        V3 { x: a.x.minus(b.x), y: a.y.minus(b.y), z: a.z.minus(b.z) }
    }

    fn vneg(a: V3<S>) -> (r: V3<S>) {
        V3 { x: a.x.negate(), y: a.y.negate(), z: a.z.negate() }
    }

    fn vscale(a: V3<S>, s: S) -> (r: V3<S>) {
        V3 { x: a.x.times(s), y: a.y.times(s), z: a.z.times(s) }
    }

    fn vmul(a: V3<S>, b: V3<S>) -> (r: V3<S>) {
        V3 { x: a.x.times(b.x), y: a.y.times(b.y), z: a.z.times(b.z) }
    }

    fn vdot(a: V3<S>, b: V3<S>) -> (r: S) {
        a.x.times(b.x).plus(a.y.times(b.y)).plus(a.z.times(b.z))
    }

    fn vget(a: V3<S>, i: usize) -> (r: S) {
        if i == 0 {
            a.x
        } else if i == 1 {
            a.y
        } else {
            a.z
        }
    }

    fn azero() -> (r: V3<S>) {
        Self::vzero()
    }

    fn aadd(a: V3<S>, b: V3<S>) -> (r: V3<S>) {
        Self::vadd(a, b)
    }

    fn asub(a: V3<S>, b: V3<S>) -> (r: V3<S>) {
        Self::vsub(a, b)
    }

    fn aneg(a: V3<S>) -> (r: V3<S>) {
        Self::vneg(a)
    }

    fn ascale(a: V3<S>, s: S) -> (r: V3<S>) {
        Self::vscale(a, s)
    }

    fn gdot(a: V3<S>, b: V3<S>) -> (r: S) {
        Self::vdot(a, b)
    }

    fn aget(a: V3<S>, i: usize) -> (r: S) {
        Self::vget(a, i)
    }

    fn gcross(a: V3<S>, b: V3<S>) -> (r: V3<S>) {
        cross3(a, b)
    }

    fn gcross_av(w: V3<S>, v: V3<S>) -> (r: V3<S>) {
        cross3(w, v)
    }

    fn across(a: V3<S>, b: V3<S>) -> (r: V3<S>) {
        cross3(a, b)
    }

    fn imul(i: Mat3<S>, a: V3<S>) -> (r: V3<S>) {
        mat_vec(i, a)
    }

    fn rid() -> (r: Quat<S>) {
        Quat { x: S::zero(), y: S::zero(), z: S::zero(), w: S::one() }
    }

    fn rmul(a: Quat<S>, b: Quat<S>) -> (r: Quat<S>) {
        Quat {
            x: a.w.times(b.x).plus(a.x.times(b.w)).plus(a.y.times(b.z)).minus(a.z.times(b.y)),
            y: a.w.times(b.y).minus(a.x.times(b.z)).plus(a.y.times(b.w)).plus(a.z.times(b.x)),
            z: a.w.times(b.z).plus(a.x.times(b.y)).minus(a.y.times(b.x)).plus(a.z.times(b.w)),
            w: a.w.times(b.w).minus(a.x.times(b.x)).minus(a.y.times(b.y)).minus(a.z.times(b.z)),
        }
    }

    fn rinv(a: Quat<S>) -> (r: Quat<S>) {
        Quat { x: a.x.negate(), y: a.y.negate(), z: a.z.negate(), w: a.w }
    }

    fn rapply(q: Quat<S>, v: V3<S>) -> (r: V3<S>) {
        let b = rotation_imag(q);
        let b2 = Self::vdot(b, b);
        Self::vadd(
            Self::vadd(
                Self::vscale(v, q.w.times(q.w).minus(b2)),
                Self::vscale(b, Self::vdot(v, b).times(two::<S>())),
            ),
            Self::vscale(cross3(b, v), q.w.times(two::<S>())),
        )
    }

    fn rapply_ang(q: Quat<S>, a: V3<S>) -> (r: V3<S>) {
        Self::rapply(q, a)
    }

    fn ifrom(q: Quat<S>, a: V3<S>) -> (r: Mat3<S>) {
        let m = rotation_to_matrix(q);
        mat_mul_tr(
            Mat3 {
                x_axis: Self::vscale(m.x_axis, a.x),
                y_axis: Self::vscale(m.y_axis, a.y),
                z_axis: Self::vscale(m.z_axis, a.z),
            },
            m,
        )
    }

    fn aadd_cross(acc: V3<S>, a: V3<S>, b: V3<S>) -> (out: V3<S>) {
        Self::vadd(acc, cross3(a, b))
    }

    fn ainv(a: V3<S>) -> (out: V3<S>) {
        V3 { x: inv(a.x), y: inv(a.y), z: inv(a.z) }
    }

    fn vaxis(i: usize, s: S) -> (out: V3<S>) {
        if i == 0 {
            V3 { x: s, y: S::zero(), z: S::zero() }
        } else if i == 1 {
            V3 { x: S::zero(), y: s, z: S::zero() }
        } else {
            V3 { x: S::zero(), y: S::zero(), z: s }
        }
    }

    fn aaxis(i: usize, s: S) -> (out: V3<S>) {
        Self::vaxis(i, s)
    }

    fn rcol(q: Quat<S>, i: usize) -> (out: V3<S>) {
        let m = rotation_to_matrix(q);
        if i == 0 {
            m.x_axis
        } else if i == 1 {
            m.y_axis
        } else {
            m.z_axis
        }
    }

    fn vfrom(x: S, y: S, z: S) -> (out: V3<S>) {
        V3 { x: x, y: y, z: z }
    }

    fn afrom(x: S, y: S, z: S) -> (out: V3<S>) {
        V3 { x: x, y: y, z: z }
    }

    fn asub_cross(acc: V3<S>, a: V3<S>, b: V3<S>) -> (out: V3<S>) {
        Self::vsub(acc, cross3(a, b))
    }

    fn igyro(i: Mat3<S>, w: V3<S>, dt: S) -> (out: Mat3<S>) {
        gyro_inertia(i, w, dt)
    }

    proof fn lemma_vparts(v: V3<S>) {
    }

    proof fn lemma_aparts(a: V3<S>) {
    }

    fn ortho(v: V3<S>) -> (out: V3<S>) {
        ortho3(v)
    }

    fn bitangent(n: V3<S>, t: V3<S>) -> (out: V3<S>) {
        cross3(n, t)
    }

    fn raxis(q: Quat<S>, i: usize) -> (out: V3<S>) {
        mat_col(rotation_to_matrix(q), i)
    }

    fn lever(r: V3<S>, axis: V3<S>) -> (out: V3<S>) {
        mat_vec(cross_matrix(r), axis)
    }

    fn ang_basis(q1: Quat<S>, q2: Quat<S>, i: usize) -> (out: V3<S>) {
        Self::vscale(mat_row(rotation_diff_conj1_2(q1, q2), i), quat_sign(q1, q2))
    }

    fn ang_err(q1: Quat<S>, q2: Quat<S>, i: usize) -> (out: S) {
        let e = Self::rmul(Self::rinv(q1), q2);
        let c = if i == 0 {
            e.x
        } else if i == 1 {
            e.y
        } else {
            e.z
        };
        c.times(quat_sign(q1, q2))
    }

    fn vover(a: V3<S>, k: S) -> (out: V3<S>) {
        V3 { x: a.x.over(k), y: a.y.over(k), z: a.z.over(k) }
    }

    fn rexp(w: V3<S>) -> (out: Quat<S>) {
        quat_exp(w)
    }

    fn rnormalize(q: Quat<S>) -> (out: Quat<S>) {
        quat_unit(q)
    }

    fn radvance(q: Quat<S>, w: V3<S>, dt: S) -> (out: Quat<S>) {
        let h = v3_scale(w, dt.times(half()));
        quat_unit(Self::rmul(Quat { x: h.x, y: h.y, z: h.z, w: S::one() }, q))
    }
}

impl<S: Scalar, D: Space<S>> Pose<S, D> {
    /// The image of a point.
    pub open spec fn point_spec(self, p: D::V) -> D::V {
        D::vadd_spec(D::rapply_spec(self.rotation, p), self.translation)
    }

    pub fn point(self, p: D::V) -> (r: D::V)
        ensures
            r == self.point_spec(p),
    {
        D::vadd(D::rapply(self.rotation, p), self.translation)
    }

    /// The point that this pose maps to `p`.
    pub open spec fn inv_point_spec(self, p: D::V) -> D::V {
        D::rapply_spec(D::rinv_spec(self.rotation), D::vsub_spec(p, self.translation))
    }

    pub fn inv_point(self, p: D::V) -> (r: D::V)
        ensures
            r == self.inv_point_spec(p),
    {
        D::rapply(D::rinv(self.rotation), D::vsub(p, self.translation))
    }

    /// This pose after `o`.
    pub open spec fn after_spec(self, o: Self) -> Self {
        Pose {
            rotation: D::rmul_spec(self.rotation, o.rotation),
            translation: D::vadd_spec(
                D::rapply_spec(self.rotation, o.translation),
                self.translation,
            ),
        }
    }

    pub fn after(self, o: Self) -> (r: Self)
        ensures
            r == self.after_spec(o),
    {
        Pose {
            rotation: D::rmul(self.rotation, o.rotation),
            translation: D::vadd(D::rapply(self.rotation, o.translation), self.translation),
        }
    }

    /// The pose that undoes this one.
    pub open spec fn inverse_spec(self) -> Self {
        let r = D::rinv_spec(self.rotation);
        Pose { rotation: r, translation: D::rapply_spec(r, D::vneg_spec(self.translation)) }
    }

    pub fn inverse(self) -> (r: Self)
        ensures
            r == self.inverse_spec(),
    {
        let r = D::rinv(self.rotation);
        Pose { rotation: r, translation: D::rapply(r, D::vneg(self.translation)) }
    }

    /// The identity.
    pub open spec fn identity_spec() -> Self {
        Pose { rotation: D::rid_spec(), translation: D::vzero_spec() }
    }

    pub fn identity() -> (r: Self)
        ensures
            r == Self::identity_spec(),
    {
        Pose { rotation: D::rid(), translation: D::vzero() }
    }
}

impl<S: Scalar, D: Space<S>> Velocity<S, D> {
    /// At rest.
    pub open spec fn zero_spec() -> Self {
        Velocity { linear: D::vzero_spec(), angular: D::azero_spec() }
    }

    pub fn zero() -> (r: Self)
        ensures
            r == Self::zero_spec(),
    {
        Velocity { linear: D::vzero(), angular: D::azero() }
    }
}

impl<S: Scalar, D: Space<S>> Velocity<S, D> {
    /// The pose after moving at this velocity for a short time `dt`.
    pub open spec fn integrate_linearized_spec(self, dt: S, pose: Pose<S, D>) -> Pose<S, D> {
        Pose {
            rotation: D::radvance_spec(pose.rotation, self.angular, dt),
            translation: D::vadd_spec(pose.translation, D::vscale_spec(self.linear, dt)),
        }
    }

    /// Moves a pose at this velocity for a short time `dt`.
    pub fn integrate_linearized(
        &self,
        dt: S,
        translation: &mut D::V,
        rotation: &mut D::R,
    )
        ensures
            (Pose::<S, D> { rotation: *final(rotation), translation: *final(translation) })
                == self.integrate_linearized_spec(
                dt,
                Pose { rotation: *old(rotation), translation: *old(translation) },
            ),
    {
        *rotation = D::radvance(*rotation, self.angular, dt);
        *translation = D::vadd(*translation, D::vscale(self.linear, dt));
    }
}

impl<S: Scalar, D: Space<S>> Pose<S, D> {
    /// This pose after the translation `t` in its own frame.
    pub open spec fn prepend_translation_spec(self, t: D::V) -> Self {
        Pose {
            rotation: self.rotation,
            translation: D::vadd_spec(self.translation, D::rapply_spec(self.rotation, t)),
        }
    }

    pub fn prepend_translation(self, t: D::V) -> (r: Self)
        ensures
            r == self.prepend_translation_spec(t),
    {
        Pose {
            rotation: self.rotation,
            translation: D::vadd(self.translation, D::rapply(self.rotation, t)),
        }
    }
}

/// The rotation of the plane by `angle`.
pub fn rotation_from_angle<S: Scalar>(angle: S) -> (r: Rot2<S>)
    ensures
        r == (Rot2 { re: angle.cos_spec(), im: angle.sin_spec() }),
{
    Rot2 { re: angle.cos(), im: angle.sin() }
}

/// The rotation by the length of `scaled_axis` about it.
pub fn rotation_from_scaled_axis<S: Scalar>(scaled_axis: V3<S>) -> (r: Quat<S>)
    ensures
        r == quat_exp_spec(scaled_axis),
{
    quat_exp(scaled_axis)
}

/// `q` scaled to a unit.
pub fn rotation_renormalize_fast<S: Scalar>(q: Quat<S>) -> (r: Quat<S>)
    ensures
        r == quat_unit_spec(q),
{
    quat_unit(q)
}

/// A vector of the plane scaled down to a length of at most `limit`.
pub open spec fn cap_magnitude_vec2_spec<S: Scalar>(v: V2<S>, limit: S) -> V2<S> {
    let n = v.x.times_spec(v.x).plus_spec(v.y.times_spec(v.y)).sqrt_spec();
    if limit.lt_spec(n) {
        let k = limit.over_spec(n);
        V2 { x: v.x.times_spec(k), y: v.y.times_spec(k) }
    } else {
        v
    }
}

pub fn cap_magnitude_vec2<S: Scalar>(v: V2<S>, limit: S) -> (r: V2<S>)
    ensures
        r == cap_magnitude_vec2_spec(v, limit),
{
    let n = v.x.times(v.x).plus(v.y.times(v.y)).sqrt();
    if limit.lt(n) {
        let k = limit.over(n);
        V2 { x: v.x.times(k), y: v.y.times(k) }
    } else {
        v
    }
}

} // verus!
