//! What the operations on vectors and rotations mean when the arithmetic is exact.
use super::jacobian_laws::{
    angular_value, lemma_rapply, lemma_turned_linear, lemma_turned_zero, r3_turned, vector_value,
};
use crate::exact::{exact, lemma_commute, lemma_factor, lemma_zero};
use crate::real_vectors::{
    lemma_minus_right, lemma_move_right, lemma_one, lemma_right, r3_add, r3_cross, r3_neg, r3_scale,
    r3_sub, r3_zero,
};
use crate::scalar::{Scalar, two_spec};
use crate::space::{Dim2, Dim3, Quat, Rot2, Space, V2, V3};
use vstd::prelude::*;

verus! {

/// Under the reading `v`, opposites, differences, multiples, moments and products of
/// vectors are those of space.
pub open spec fn spatial<S: Scalar, D: Space<S>>(v: spec_fn(S) -> real) -> bool {
    &&& forall|a: D::V|
        vector_value::<S, D>(v, #[trigger] D::vneg_spec(a)) == r3_neg(vector_value::<S, D>(v, a))
    &&& forall|a: D::V, b: D::V|
        vector_value::<S, D>(v, #[trigger] D::vsub_spec(a, b)) == r3_sub(
            vector_value::<S, D>(v, a),
            vector_value::<S, D>(v, b),
        )
    &&& forall|a: D::V, k: S|
        vector_value::<S, D>(v, #[trigger] D::vscale_spec(a, k)) == r3_scale(
            vector_value::<S, D>(v, a),
            v(k),
        )
    &&& forall|a: D::A|
        angular_value::<S, D>(v, #[trigger] D::aneg_spec(a)) == r3_neg(
            angular_value::<S, D>(v, a),
        )
    &&& forall|a: D::A, b: D::A|
        angular_value::<S, D>(v, #[trigger] D::asub_spec(a, b)) == r3_sub(
            angular_value::<S, D>(v, a),
            angular_value::<S, D>(v, b),
        )
    &&& forall|a: D::A, k: S|
        angular_value::<S, D>(v, #[trigger] D::ascale_spec(a, k)) == r3_scale(
            angular_value::<S, D>(v, a),
            v(k),
        )
    &&& forall|a: D::V, b: D::V|
        angular_value::<S, D>(v, #[trigger] D::gcross_spec(a, b)) == r3_cross(
            vector_value::<S, D>(v, a),
            vector_value::<S, D>(v, b),
        )
    &&& forall|a: D::V, b: D::V|
        angular_value::<S, D>(v, #[trigger] D::lever_spec(a, b)) == r3_cross(
            vector_value::<S, D>(v, a),
            vector_value::<S, D>(v, b),
        )
    &&& forall|a: D::A, b: D::A|
        angular_value::<S, D>(v, #[trigger] D::across_spec(a, b)) == r3_cross(
            angular_value::<S, D>(v, a),
            angular_value::<S, D>(v, b),
        )
    &&& forall|c: D::A, a: D::A, b: D::A|
        angular_value::<S, D>(v, #[trigger] D::aadd_cross_spec(c, a, b)) == r3_add(
            angular_value::<S, D>(v, c),
            r3_cross(angular_value::<S, D>(v, a), angular_value::<S, D>(v, b)),
        )
    &&& forall|c: D::A, a: D::A, b: D::A|
        angular_value::<S, D>(v, #[trigger] D::asub_cross_spec(c, a, b)) == r3_sub(
            angular_value::<S, D>(v, c),
            r3_cross(angular_value::<S, D>(v, a), angular_value::<S, D>(v, b)),
        )
    &&& forall|r: D::R, a: D::V, b: D::V|
        vector_value::<S, D>(v, #[trigger] D::rapply_spec(r, D::vadd_spec(a, b))) == r3_add(
            vector_value::<S, D>(v, D::rapply_spec(r, a)),
            vector_value::<S, D>(v, D::rapply_spec(r, b)),
        )
    &&& forall|r: D::R, a: D::V, k: S|
        vector_value::<S, D>(v, #[trigger] D::rapply_spec(r, D::vscale_spec(a, k))) == r3_scale(
            vector_value::<S, D>(v, D::rapply_spec(r, a)),
            v(k),
        )
    &&& forall|r: D::R, a: D::V, b: D::V|
        vector_value::<S, D>(v, a) == vector_value::<S, D>(v, b) ==> vector_value::<S, D>(
            v,
            #[trigger] D::rapply_spec(r, a),
        ) == vector_value::<S, D>(v, #[trigger] D::rapply_spec(r, b))
    &&& forall|a: D::V|
        vector_value::<S, D>(v, #[trigger] D::rapply_spec(D::rid_spec(), a)) == vector_value::<
            S,
            D,
        >(v, a)
    &&& forall|i: int, s: S|
        0 <= i < D::dimension_spec().lin_spec() ==> vector_value::<S, D>(
            v,
            #[trigger] D::vaxis_spec(i, s),
        ) == along(i, v(s))
}

/// The vector with `s` along axis `i`.
pub open spec fn along(i: int, s: real) -> V3<real> {
    V3 {
        x: if i == 0 {
            s
        } else {
            0real
        },
        y: if i == 1 {
            s
        } else {
            0real
        },
        z: if i == 2 {
            s
        } else {
            0real
        },
    }
}

proof fn lemma_minus_times(a: real, b: real)
    ensures
        (-a) * b == -(a * b),
        a * (-b) == -(a * b),
{
    assert((-a) * b == -(a * b)) by (nonlinear_arith);
    assert(a * (-b) == -(a * b)) by (nonlinear_arith);
}

/// Exact arithmetic makes the operations of the plane those of space.
pub proof fn plane_is_spatial<S: Scalar>(v: spec_fn(S) -> real)
    requires
        exact(v),
    ensures
        spatial::<S, Dim2>(v),
{
    assert forall|a: V2<S>, k: S|
        vector_value::<S, Dim2>(v, #[trigger] <Dim2 as Space<S>>::vscale_spec(a, k)) == r3_scale(
            vector_value::<S, Dim2>(v, a),
            v(k),
        ) by {
        lemma_zero(v(k));
    }
    assert forall|a: S, k: S|
        angular_value::<S, Dim2>(v, #[trigger] <Dim2 as Space<S>>::ascale_spec(a, k)) == r3_scale(
            angular_value::<S, Dim2>(v, a),
            v(k),
        ) by {
        lemma_zero(v(k));
    }
    assert forall|a: V2<S>, b: V2<S>|
        angular_value::<S, Dim2>(v, #[trigger] <Dim2 as Space<S>>::gcross_spec(a, b)) == r3_cross(
            vector_value::<S, Dim2>(v, a),
            vector_value::<S, Dim2>(v, b),
        ) by {
        lemma_plane_cross(v, a, b);
    }
    assert forall|a: V2<S>, b: V2<S>|
        angular_value::<S, Dim2>(v, #[trigger] <Dim2 as Space<S>>::lever_spec(a, b)) == r3_cross(
            vector_value::<S, Dim2>(v, a),
            vector_value::<S, Dim2>(v, b),
        ) by {
        lemma_plane_cross(v, a, b);
        lemma_minus_times(v(a.y), v(b.x));
    }
    assert forall|a: S, b: S|
        angular_value::<S, Dim2>(v, #[trigger] <Dim2 as Space<S>>::across_spec(a, b)) == r3_cross(
            angular_value::<S, Dim2>(v, a),
            angular_value::<S, Dim2>(v, b),
        ) by {
        lemma_zero(v(a));
        lemma_zero(v(b));
    }
    assert forall|c: S, a: S, b: S|
        angular_value::<S, Dim2>(v, #[trigger] <Dim2 as Space<S>>::aadd_cross_spec(c, a, b))
            == r3_add(
            angular_value::<S, Dim2>(v, c),
            r3_cross(angular_value::<S, Dim2>(v, a), angular_value::<S, Dim2>(v, b)),
        ) by {
        lemma_zero(v(a));
        lemma_zero(v(b));
    }
    assert forall|c: S, a: S, b: S|
        angular_value::<S, Dim2>(v, #[trigger] <Dim2 as Space<S>>::asub_cross_spec(c, a, b))
            == r3_sub(
            angular_value::<S, Dim2>(v, c),
            r3_cross(angular_value::<S, Dim2>(v, a), angular_value::<S, Dim2>(v, b)),
        ) by {
        lemma_zero(v(a));
        lemma_zero(v(b));
    }
    assert forall|r: Rot2<S>, a: V2<S>, b: V2<S>|
        vector_value::<S, Dim2>(
            v,
            #[trigger] <Dim2 as Space<S>>::rapply_spec(r, <Dim2 as Space<S>>::vadd_spec(a, b)),
        ) == r3_add(
            vector_value::<S, Dim2>(v, <Dim2 as Space<S>>::rapply_spec(r, a)),
            vector_value::<S, Dim2>(v, <Dim2 as Space<S>>::rapply_spec(r, b)),
        ) by {
        lemma_factor(v(r.re), v(a.x), v(b.x));
        lemma_factor(v(r.re), v(a.y), v(b.y));
        lemma_factor(v(r.im), v(a.x), v(b.x));
        lemma_factor(v(r.im), v(a.y), v(b.y));
    }
    assert forall|r: Rot2<S>, a: V2<S>, k: S|
        vector_value::<S, Dim2>(
            v,
            #[trigger] <Dim2 as Space<S>>::rapply_spec(r, <Dim2 as Space<S>>::vscale_spec(a, k)),
        ) == r3_scale(
            vector_value::<S, Dim2>(v, <Dim2 as Space<S>>::rapply_spec(r, a)),
            v(k),
        ) by {
        let c = v(r.re);
        let s = v(r.im);
        let x = v(a.x);
        let y = v(a.y);
        lemma_zero(v(k));
        lemma_move_right(x, v(k), c);
        lemma_move_right(x, v(k), s);
        lemma_move_right(y, v(k), c);
        lemma_move_right(y, v(k), s);
        lemma_minus_right(c * x, s * y, v(k));
        lemma_right(s * x, c * y, v(k));
    }
    assert forall|a: V2<S>|
        vector_value::<S, Dim2>(
            v,
            #[trigger] <Dim2 as Space<S>>::rapply_spec(<Dim2 as Space<S>>::rid_spec(), a),
        ) == vector_value::<S, Dim2>(v, a) by {
        lemma_one(v(a.x));
        lemma_one(v(a.y));
        lemma_zero(v(a.x));
        lemma_zero(v(a.y));
    }
}

proof fn lemma_plane_cross<S: Scalar>(v: spec_fn(S) -> real, a: V2<S>, b: V2<S>)
    requires
        exact(v),
    ensures
        r3_cross(vector_value::<S, Dim2>(v, a), vector_value::<S, Dim2>(v, b)) == (V3 {
            x: 0real,
            y: 0real,
            z: v(a.x) * v(b.y) - v(a.y) * v(b.x),
        }),
{
    lemma_zero(v(a.x));
    lemma_zero(v(a.y));
    lemma_zero(v(b.x));
    lemma_zero(v(b.y));
    lemma_commute(v(a.y), v(b.x));
}

pub(crate) proof fn lemma_identity_turn(a: V3<real>, two: real)
    ensures
        r3_turned(1real, r3_zero(), two, a) == a,
{
    lemma_one(1real);
    lemma_zero(0real);
    lemma_zero(a.x);
    lemma_zero(a.y);
    lemma_zero(a.z);
    lemma_one(a.x);
    lemma_one(a.y);
    lemma_one(a.z);
    lemma_zero(two);
    lemma_zero(1real * two);
}

/// Exact arithmetic makes the operations of space those of geometry.
pub proof fn space_is_spatial<S: Scalar>(v: spec_fn(S) -> real)
    requires
        exact(v),
    ensures
        spatial::<S, Dim3>(v),
{
    let two = v(two_spec::<S>());
    assert forall|a: V3<S>, b: V3<S>|
        angular_value::<S, Dim3>(v, #[trigger] <Dim3 as Space<S>>::lever_spec(a, b)) == r3_cross(
            vector_value::<S, Dim3>(v, a),
            vector_value::<S, Dim3>(v, b),
        ) by {
        lemma_zero(v(b.x));
        lemma_zero(v(b.y));
        lemma_zero(v(b.z));
        lemma_minus_times(v(a.x), v(b.z));
        lemma_minus_times(v(a.x), v(b.y));
        lemma_minus_times(v(a.y), v(b.x));
        lemma_minus_times(v(a.y), v(b.z));
        lemma_minus_times(v(a.z), v(b.x));
        lemma_minus_times(v(a.z), v(b.y));
        lemma_commute(v(a.x), v(b.z));
        lemma_commute(v(a.x), v(b.y));
        lemma_commute(v(a.y), v(b.x));
        lemma_commute(v(a.y), v(b.z));
        lemma_commute(v(a.z), v(b.x));
        lemma_commute(v(a.z), v(b.y));
    }
    assert forall|r: Quat<S>, a: V3<S>, b: V3<S>|
        vector_value::<S, Dim3>(
            v,
            #[trigger] <Dim3 as Space<S>>::rapply_spec(r, <Dim3 as Space<S>>::vadd_spec(a, b)),
        ) == r3_add(
            vector_value::<S, Dim3>(v, <Dim3 as Space<S>>::rapply_spec(r, a)),
            vector_value::<S, Dim3>(v, <Dim3 as Space<S>>::rapply_spec(r, b)),
        ) by {
        let q = V3 { x: v(r.x), y: v(r.y), z: v(r.z) };
        let x = vector_value::<S, Dim3>(v, a);
        let y = vector_value::<S, Dim3>(v, b);
        lemma_rapply(v, r, <Dim3 as Space<S>>::vadd_spec(a, b));
        lemma_rapply(v, r, a);
        lemma_rapply(v, r, b);
        lemma_turned_linear(v(r.w), q, two, x, y, 1real);
        lemma_unscaled(y);
        lemma_unscaled(r3_turned(v(r.w), q, two, y));
    }
    assert forall|r: Quat<S>, a: V3<S>, k: S|
        vector_value::<S, Dim3>(
            v,
            #[trigger] <Dim3 as Space<S>>::rapply_spec(r, <Dim3 as Space<S>>::vscale_spec(a, k)),
        ) == r3_scale(
            vector_value::<S, Dim3>(v, <Dim3 as Space<S>>::rapply_spec(r, a)),
            v(k),
        ) by {
        let q = V3 { x: v(r.x), y: v(r.y), z: v(r.z) };
        let x = vector_value::<S, Dim3>(v, a);
        lemma_rapply(v, r, <Dim3 as Space<S>>::vscale_spec(a, k));
        lemma_rapply(v, r, a);
        lemma_turned_linear(v(r.w), q, two, r3_zero(), x, v(k));
        lemma_turned_zero(v(r.w), q, two);
        assert(r3_add(r3_zero(), r3_scale(x, v(k))) == r3_scale(x, v(k)));
    }
    assert forall|r: Quat<S>, a: V3<S>, b: V3<S>|
        vector_value::<S, Dim3>(v, a) == vector_value::<S, Dim3>(v, b) implies vector_value::<
        S,
        Dim3,
    >(v, #[trigger] <Dim3 as Space<S>>::rapply_spec(r, a)) == vector_value::<S, Dim3>(
        v,
        #[trigger] <Dim3 as Space<S>>::rapply_spec(r, b),
    ) by {
        lemma_rapply(v, r, a);
        lemma_rapply(v, r, b);
    }
    assert forall|a: V3<S>|
        vector_value::<S, Dim3>(
            v,
            #[trigger] <Dim3 as Space<S>>::rapply_spec(<Dim3 as Space<S>>::rid_spec(), a),
        ) == vector_value::<S, Dim3>(v, a) by {
        lemma_rapply(v, <Dim3 as Space<S>>::rid_spec(), a);
        lemma_identity_turn(vector_value::<S, Dim3>(v, a), two);
    }
}

pub(crate) proof fn lemma_unscaled(a: V3<real>)
    ensures
        r3_scale(a, 1real) == a,
{
    lemma_one(a.x);
    lemma_one(a.y);
    lemma_one(a.z);
}

} // verus!
