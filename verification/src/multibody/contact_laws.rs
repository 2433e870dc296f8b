//! What the contact constraints of a multibody mean when the arithmetic is exact.
use super::contact_constraints::{
    ContactGeometry, NO_LINK, Touch, contact_geometry, contact_jac_row, contact_row,
    slot_directions, touch, world_point, wrench_dot,
};
use super::force_laws::power;
use super::jacobian_laws::{
    angular_value, geometric, plane_is_geometric, space_is_geometric, vector_value,
};
use super::mass_laws::{
    inertial, lemma_weighted_add, lemma_weighted_dot, lemma_weighted_none, plane_is_inertial,
    space_is_inertial, weighted,
};
use super::space_laws::{plane_is_spatial, space_is_spatial, spatial};
use super::sweeps::{column, dot_fold, free_velocity, has_free};
use super::turn_laws::{lemma_cross_signs, lemma_dot_commutes, lemma_dot_neg, lemma_signs};
use super::types::{MultibodyContactConstraint, NO_FREE_BODY, WorldMassProperties};
use super::unit_laws::lemma_triple_product;
use crate::columns::col_of;
use crate::contact::IndexedManifold;
use crate::exact::{exact, lemma_commute, lemma_factor, lemma_zero, ordered};
use crate::real_vectors::{
    combination, lemma_dot_sum, lemma_minus_right, lemma_one, r3_add, r3_cross, r3_dot, r3_neg,
    r3_scale, r3_sub,
};
use crate::scalar::{Scalar, half_spec};
use crate::sim_params::ConstraintSoftness;
use crate::solver::anchor_laws::lemma_cross_orthogonal;
use crate::space::{Dim2, Dim3, Pose, Space, V3, Velocity};
use vstd::prelude::*;

verus! {

// ---- velocities of points ----

/// The velocity at `pt` of a body that turns about `centre`.
pub open spec fn point_velocity(
    linear: V3<real>,
    angular: V3<real>,
    centre: V3<real>,
    pt: V3<real>,
) -> V3<real> {
    r3_add(linear, r3_cross(angular, r3_sub(pt, centre)))
}

/// The linear part of a matrix of spatial columns, applied to generalized velocities.
pub open spec fn columns_linear<S: Scalar, D: Space<S>>(
    v: spec_fn(S) -> real,
    m: Seq<Seq<S>>,
    q: Seq<S>,
) -> V3<real> {
    combination(
        v,
        q,
        |c: int| vector_value::<S, D>(v, col_of::<S, D>(m, c).linear),
        0,
        q.len() as int,
    )
}

/// The angular part of a matrix of spatial columns, applied to generalized velocities.
pub open spec fn columns_angular<S: Scalar, D: Space<S>>(
    v: spec_fn(S) -> real,
    m: Seq<Seq<S>>,
    q: Seq<S>,
) -> V3<real> {
    combination(
        v,
        q,
        |c: int| angular_value::<S, D>(v, col_of::<S, D>(m, c).angular),
        0,
        q.len() as int,
    )
}

/// The velocity at `pt` of the link with jacobian `m`, taken to turn about `centre`.
pub open spec fn link_point_velocity<S: Scalar, D: Space<S>>(
    v: spec_fn(S) -> real,
    m: Seq<Seq<S>>,
    q: Seq<S>,
    centre: D::V,
    pt: D::V,
) -> V3<real> {
    point_velocity(
        columns_linear::<S, D>(v, m, q),
        columns_angular::<S, D>(v, m, q),
        vector_value::<S, D>(v, centre),
        vector_value::<S, D>(v, pt),
    )
}

/// Under the reading `v`, a force and a torque work on a spatial column as power.
pub open spec fn wrenches_work<S: Scalar, D: Space<S>>(v: spec_fn(S) -> real) -> bool {
    forall|m: Seq<Seq<S>>, c: int, f: Velocity<S, D>|
        v(#[trigger] wrench_dot::<S, D>(m, c, f, D::dimension_spec().spatial_spec())) == power(
            v,
            f,
            col_of::<S, D>(m, c),
        )
}

/// Exact arithmetic makes forces and torques of the plane work on columns.
pub proof fn plane_wrenches_work<S: Scalar>(v: spec_fn(S) -> real)
    requires
        exact(v),
    ensures
        wrenches_work::<S, Dim2>(v),
{
    assert forall|m: Seq<Seq<S>>, c: int, f: Velocity<S, Dim2>|
        v(#[trigger] wrench_dot::<S, Dim2>(m, c, f, 3)) == power(
            v,
            f,
            col_of::<S, Dim2>(m, c),
        ) by {
        reveal_with_fuel(wrench_dot, 4);
        lemma_zero(0real);
        lemma_commute(v(f.linear.x), v(m[0][c]));
        lemma_commute(v(f.linear.y), v(m[1][c]));
        lemma_commute(v(f.angular), v(m[2][c]));
    }
}

/// Exact arithmetic makes forces and torques of space work on columns.
pub proof fn space_wrenches_work<S: Scalar>(v: spec_fn(S) -> real)
    requires
        exact(v),
    ensures
        wrenches_work::<S, Dim3>(v),
{
    assert forall|m: Seq<Seq<S>>, c: int, f: Velocity<S, Dim3>|
        v(#[trigger] wrench_dot::<S, Dim3>(m, c, f, 6)) == power(
            v,
            f,
            col_of::<S, Dim3>(m, c),
        ) by {
        reveal_with_fuel(wrench_dot, 7);
        lemma_commute(v(f.linear.x), v(m[0][c]));
        lemma_commute(v(f.linear.y), v(m[1][c]));
        lemma_commute(v(f.linear.z), v(m[2][c]));
        lemma_commute(v(f.angular.x), v(m[3][c]));
        lemma_commute(v(f.angular.y), v(m[4][c]));
        lemma_commute(v(f.angular.z), v(m[5][c]));
    }
}

/// A dot product with generalized velocities as a weighted sum.
pub(crate) proof fn lemma_dot_weighted<S: Scalar>(
    v: spec_fn(S) -> real,
    row: Seq<S>,
    q: Seq<S>,
    n: int,
)
    requires
        exact(v),
    ensures
        v(dot_fold(row, q, n)) == weighted(v, q, |c: int| v(row[c]), n),
    decreases n,
{
    if n > 0 {
        lemma_dot_weighted(v, row, q, n - 1);
    }
}

/// A force `dir` at `pt`, with its torque about `centre`, works at the velocity of the
/// point along `dir`.
pub(crate) proof fn lemma_force_at_point(
    linear: V3<real>,
    angular: V3<real>,
    arm: V3<real>,
    dir: V3<real>,
)
    ensures
        r3_dot(linear, dir) + r3_dot(angular, r3_cross(arm, dir)) == r3_dot(
            dir,
            r3_add(linear, r3_cross(angular, arm)),
        ),
{
    lemma_triple_product(angular, arm, dir);
    lemma_cross_signs(angular, arm);
    let c = r3_cross(angular, arm);
    lemma_dot_neg(r3_cross(arm, angular), dir);
    lemma_dot_commutes(c, dir);
    lemma_dot_commutes(linear, dir);
    super::space_laws::lemma_unscaled(c);
    lemma_dot_sum(dir, linear, c, 1real);
    lemma_one(r3_dot(dir, c));
}

/// What a force and a torque on a link add to the velocity along a row.
proof fn lemma_row_velocity<S: Scalar, D: Space<S>>(
    v: spec_fn(S) -> real,
    prev: Seq<S>,
    m: Seq<Seq<S>>,
    f: Velocity<S, D>,
    q: Seq<S>,
)
    requires
        exact(v),
        wrenches_work::<S, D>(v),
        prev.len() == q.len(),
    ensures
        v(dot_fold(contact_jac_row::<S, D>(prev, m, f), q, q.len() as int)) == v(
            dot_fold(prev, q, q.len() as int),
        ) + r3_dot(columns_linear::<S, D>(v, m, q), vector_value::<S, D>(v, f.linear)) + r3_dot(
            columns_angular::<S, D>(v, m, q),
            angular_value::<S, D>(v, f.angular),
        ),
{
    let n = q.len() as int;
    let row = contact_jac_row::<S, D>(prev, m, f);
    let fl = vector_value::<S, D>(v, f.linear);
    let fa = angular_value::<S, D>(v, f.angular);
    let l = |c: int| vector_value::<S, D>(v, col_of::<S, D>(m, c).linear);
    let w = |c: int| angular_value::<S, D>(v, col_of::<S, D>(m, c).angular);
    let h = |c: int| v(row[c]);
    let p = |c: int| v(prev[c]);
    let x = |c: int| r3_dot(l(c), fl);
    let y = |c: int| r3_dot(w(c), fa);
    let xy = |c: int| x(c) + y(c);
    lemma_dot_weighted(v, row, q, n);
    lemma_dot_weighted(v, prev, q, n);
    assert forall|c: int| 0 <= c < n implies #[trigger] h(c) == p(c) + xy(c) by {
        assert(v(wrench_dot::<S, D>(m, c, f, D::dimension_spec().spatial_spec())) == power(
            v,
            f,
            col_of::<S, D>(m, c),
        ));
    }
    lemma_weighted_add(v, q, p, xy, h, n);
    lemma_weighted_add(v, q, x, y, xy, n);
    lemma_weighted_dot(v, q, fl, l, x, |c: int| r3_dot(fl, l(c)), n);
    lemma_weighted_dot(v, q, fa, w, y, |c: int| r3_dot(fa, w(c)), n);
}

/// The velocity along constraint `i` of a contact point, of generalized velocities `q`
/// and a free body's velocity.
pub open spec fn row_velocity<S: Scalar, D: Space<S>>(
    v: spec_fn(S) -> real,
    c: MultibodyContactConstraint<S, D>,
    jac: Seq<S>,
    q: Seq<S>,
    free: Velocity<S, D>,
) -> real {
    v(dot_fold(jac, q, q.len() as int)) + if has_free(c) {
        v(free_velocity(c, free))
    } else {
        0real
    }
}

/// The velocity along a constraint compares the touched link with the other side, at
/// the contact point.
proof fn lemma_relative<S: Scalar, D: Space<S>>(
    v: spec_fn(S) -> real,
    soft: ConstraintSoftness<S>,
    mb_idx: u32,
    jac: spec_fn(int) -> Seq<Seq<S>>,
    g: ContactGeometry<S, D>,
    pt: D::V,
    dist: S,
    slot: u32,
    i: int,
    q: Seq<S>,
    free: Velocity<S, D>,
)
    requires
        exact(v),
        geometric::<S, D>(v),
        spatial::<S, D>(v),
        inertial::<S, D>(v),
        wrenches_work::<S, D>(v),
        g.free is None <==> g.touch.free_body == NO_FREE_BODY,
    ensures
        ({
            let row = contact_row(soft, mb_idx, q.len() as int, jac, g, pt, dist, slot, i);
            let dir = vector_value::<S, D>(v, slot_directions::<S, D>(g.normal, i).0);
            let own = link_point_velocity::<S, D>(
                v,
                jac(g.touch.link_a as int),
                q,
                g.origin_a,
                pt,
            );
            let other = match g.free {
                None => link_point_velocity::<S, D>(
                    v,
                    jac(g.touch.link_b as int),
                    q,
                    g.origin_b,
                    pt,
                ),
                Some(mp) => point_velocity(
                    vector_value::<S, D>(v, free.linear),
                    angular_value::<S, D>(v, free.angular),
                    vector_value::<S, D>(v, mp.com),
                    vector_value::<S, D>(v, pt),
                ),
            };
            row_velocity(v, row.cons, row.jac, q, free) == r3_dot(dir, r3_sub(own, other))
        }),
{
    let n = q.len() as int;
    let row = contact_row(soft, mb_idx, n, jac, g, pt, dist, slot, i);
    let (d, fd) = slot_directions::<S, D>(g.normal, i);
    let dir = vector_value::<S, D>(v, d);
    let fdir = vector_value::<S, D>(v, fd);
    assert(fdir == r3_neg(dir)) by {
        let nn = vector_value::<S, D>(v, g.normal);
        assert(r3_neg(r3_neg(nn)) == nn);
    }
    let zeros = Seq::new(n as nat, |c: int| S::zero_spec());
    lemma_dot_weighted(v, zeros, q, n);
    lemma_weighted_none(v, q, |c: int| v(zeros[c]), n);
    let ma = jac(g.touch.link_a as int);
    let arm_a = D::vsub_spec(pt, g.origin_a);
    let on_a: Velocity<S, D> = Velocity { linear: d, angular: D::gcross_spec(arm_a, d) };
    let row_a = contact_jac_row::<S, D>(zeros, ma, on_a);
    lemma_row_velocity(v, zeros, ma, on_a, q);
    let la = columns_linear::<S, D>(v, ma, q);
    let wa = columns_angular::<S, D>(v, ma, q);
    lemma_force_at_point(la, wa, vector_value::<S, D>(v, arm_a), dir);
    let own = link_point_velocity::<S, D>(v, ma, q, g.origin_a, pt);
    assert(v(dot_fold(row_a, q, n)) == r3_dot(dir, own));
    let other = match g.free {
        None => {
            let mb = jac(g.touch.link_b as int);
            let arm = D::vsub_spec(pt, g.origin_b);
            let on_b: Velocity<S, D> = Velocity {
                linear: fd,
                angular: D::gcross_spec(arm, fd),
            };
            lemma_row_velocity(v, row_a, mb, on_b, q);
            lemma_force_at_point(
                columns_linear::<S, D>(v, mb, q),
                columns_angular::<S, D>(v, mb, q),
                vector_value::<S, D>(v, arm),
                fdir,
            );
            link_point_velocity::<S, D>(v, mb, q, g.origin_b, pt)
        },
        Some(mp) => {
            let arm = D::vsub_spec(pt, mp.com);
            let fl = vector_value::<S, D>(v, free.linear);
            let fa = angular_value::<S, D>(v, free.angular);
            lemma_force_at_point(fl, fa, vector_value::<S, D>(v, arm), fdir);
            lemma_dot_commutes(fl, fdir);
            lemma_dot_commutes(fa, angular_value::<S, D>(v, D::gcross_spec(arm, fd)));
            point_velocity(
                fl,
                fa,
                vector_value::<S, D>(v, mp.com),
                vector_value::<S, D>(v, pt),
            )
        },
    };
    assert(row_velocity(v, row.cons, row.jac, q, free) == r3_dot(dir, own) + r3_dot(fdir, other));
    lemma_dot_neg(dir, other);
    lemma_dot_difference(dir, own, other);
}

pub(crate) proof fn lemma_dot_difference(x: V3<real>, a: V3<real>, b: V3<real>)
    ensures
        r3_dot(x, r3_sub(a, b)) == r3_dot(x, a) - r3_dot(x, b),
{
    lemma_minus_left(x.x, a.x, b.x);
    lemma_minus_left(x.y, a.y, b.y);
    lemma_minus_left(x.z, a.z, b.z);
}

proof fn lemma_minus_left(k: real, a: real, b: real)
    ensures
        k * (a - b) == k * a - k * b,
{
    assert(k * (a - b) == k * a - k * b) by (nonlinear_arith);
}

// ---- normals ----

/// The velocity at `pt` of the body of collider 1 of a manifold: the touched link, or
/// the free body where the multibody is on the second side.
pub open spec fn first_side<S: Scalar, D: Space<S>>(
    v: spec_fn(S) -> real,
    im: IndexedManifold<S, D>,
    t: Touch,
    poses: Seq<Pose<S, D>>,
    mprops: Seq<WorldMassProperties<S, D>>,
    jac: spec_fn(int) -> Seq<Seq<S>>,
    q: Seq<S>,
    free: Velocity<S, D>,
    pt: D::V,
) -> V3<real> {
    if t.second {
        point_velocity(
            vector_value::<S, D>(v, free.linear),
            angular_value::<S, D>(v, free.angular),
            vector_value::<S, D>(v, mprops[t.free_body as int].com),
            vector_value::<S, D>(v, pt),
        )
    } else {
        link_point_velocity::<S, D>(
            v,
            jac(t.link_a as int),
            q,
            poses[im.colliders[0] as int].translation,
            pt,
        )
    }
}

/// The velocity at `pt` of the body of collider 2 of a manifold: the touched link
/// where the multibody is on the second side, else the free body or the other link.
pub open spec fn second_side<S: Scalar, D: Space<S>>(
    v: spec_fn(S) -> real,
    im: IndexedManifold<S, D>,
    t: Touch,
    poses: Seq<Pose<S, D>>,
    mprops: Seq<WorldMassProperties<S, D>>,
    jac: spec_fn(int) -> Seq<Seq<S>>,
    q: Seq<S>,
    free: Velocity<S, D>,
    pt: D::V,
) -> V3<real> {
    let centre = poses[im.colliders[1] as int].translation;
    if t.second {
        link_point_velocity::<S, D>(v, jac(t.link_a as int), q, centre, pt)
    } else if t.free_body == NO_FREE_BODY {
        link_point_velocity::<S, D>(v, jac(t.link_b as int), q, centre, pt)
    } else {
        point_velocity(
            vector_value::<S, D>(v, free.linear),
            angular_value::<S, D>(v, free.angular),
            vector_value::<S, D>(v, mprops[t.free_body as int].com),
            vector_value::<S, D>(v, pt),
        )
    }
}

proof fn lemma_separation<S: Scalar, D: Space<S>>(
    v: spec_fn(S) -> real,
    soft: ConstraintSoftness<S>,
    mb_idx: u32,
    jac: spec_fn(int) -> Seq<Seq<S>>,
    im: IndexedManifold<S, D>,
    t: Touch,
    poses: Seq<Pose<S, D>>,
    mprops: Seq<WorldMassProperties<S, D>>,
    pt: D::V,
    dist: S,
    slot: u32,
    q: Seq<S>,
    free: Velocity<S, D>,
)
    requires
        exact(v),
        geometric::<S, D>(v),
        spatial::<S, D>(v),
        inertial::<S, D>(v),
        wrenches_work::<S, D>(v),
        t.second ==> t.free_body != NO_FREE_BODY,
    ensures
        ({
            let g = contact_geometry(im, t, poses, mprops);
            let row = contact_row(soft, mb_idx, q.len() as int, jac, g, pt, dist, slot, 0);
            let n = vector_value::<S, D>(
                v,
                D::rapply_spec(poses[im.colliders[0] as int].rotation, im.contact.normal_a),
            );
            let s1 = first_side(v, im, t, poses, mprops, jac, q, free, pt);
            let s2 = second_side(v, im, t, poses, mprops, jac, q, free, pt);
            &&& row_velocity(v, row.cons, row.jac, q, free) == r3_dot(n, r3_sub(s2, s1))
            &&& vector_value::<S, D>(v, row.cons.lin_jac) == (if t.second {
                r3_neg(n)
            } else {
                n
            })
        }),
{
    let g = contact_geometry(im, t, poses, mprops);
    lemma_relative(v, soft, mb_idx, jac, g, pt, dist, slot, 0, q, free);
    let n = vector_value::<S, D>(
        v,
        D::rapply_spec(poses[im.colliders[0] as int].rotation, im.contact.normal_a),
    );
    let s1 = first_side(v, im, t, poses, mprops, jac, q, free, pt);
    let s2 = second_side(v, im, t, poses, mprops, jac, q, free, pt);
    lemma_dot_difference(n, s2, s1);
    lemma_dot_difference(r3_neg(n), s1, s2);
    lemma_dot_neg(n, s1);
    lemma_dot_neg(n, s2);
    assert(r3_neg(r3_neg(n)) == n);
    lemma_dot_difference(n, s2, s1);
}

/// In exact arithmetic, the velocity along the normal constraint of a contact of the plane is
/// the rate at which the two sides part: with `n` the normal from collider 1 to
/// collider 2, the velocity of side 2 less that of side 1 at the contact point, along
/// `n`. The constraint pushes the sides apart, whichever of them is the multibody: a
/// free body on side 2 along `n`, on side 1 against it.
pub proof fn plane_normals_part_the_sides<S: Scalar>(
    v: spec_fn(S) -> real,
    soft: ConstraintSoftness<S>,
    mb_idx: u32,
    jac: spec_fn(int) -> Seq<Seq<S>>,
    im: IndexedManifold<S, Dim2>,
    t: Touch,
    poses: Seq<Pose<S, Dim2>>,
    mprops: Seq<WorldMassProperties<S, Dim2>>,
    pt: <Dim2 as Space<S>>::V,
    dist: S,
    slot: u32,
    q: Seq<S>,
    free: Velocity<S, Dim2>,
)
    requires
        exact(v),
        t.second ==> t.free_body != NO_FREE_BODY,
    ensures
        ({
            let g = contact_geometry(im, t, poses, mprops);
            let row = contact_row(soft, mb_idx, q.len() as int, jac, g, pt, dist, slot, 0);
            let n = vector_value::<S, Dim2>(
                v,
                <Dim2 as Space<S>>::rapply_spec(
                    poses[im.colliders[0] as int].rotation,
                    im.contact.normal_a,
                ),
            );
            let s1 = first_side(v, im, t, poses, mprops, jac, q, free, pt);
            let s2 = second_side(v, im, t, poses, mprops, jac, q, free, pt);
            &&& row_velocity(v, row.cons, row.jac, q, free) == r3_dot(n, r3_sub(s2, s1))
            &&& vector_value::<S, Dim2>(v, row.cons.lin_jac) == (if t.second {
                r3_neg(n)
            } else {
                n
            })
        }),
{
    plane_is_geometric(v);
    plane_is_spatial(v);
    plane_is_inertial(v);
    plane_wrenches_work(v);
    lemma_separation::<S, Dim2>(
        v,
        soft,
        mb_idx,
        jac,
        im,
        t,
        poses,
        mprops,
        pt,
        dist,
        slot,
        q,
        free,
    );
}

/// In exact arithmetic, swapping the two sides of a manifold of the plane, with the normal
/// reversed, gives the same normal constraint: the velocity along it is the same, and
/// it pushes the free body the same way.
pub proof fn plane_sides_can_be_swapped<S: Scalar>(
    v: spec_fn(S) -> real,
    soft: ConstraintSoftness<S>,
    mb_idx: u32,
    jac: spec_fn(int) -> Seq<Seq<S>>,
    im: IndexedManifold<S, Dim2>,
    swapped: IndexedManifold<S, Dim2>,
    link: u32,
    free_body: u32,
    poses: Seq<Pose<S, Dim2>>,
    mprops: Seq<WorldMassProperties<S, Dim2>>,
    pt: <Dim2 as Space<S>>::V,
    dist: S,
    slot: u32,
    q: Seq<S>,
    free: Velocity<S, Dim2>,
)
    requires
        exact(v),
        free_body != NO_FREE_BODY,
        swapped.colliders[0] == im.colliders[1],
        swapped.colliders[1] == im.colliders[0],
        vector_value::<S, Dim2>(
            v,
            <Dim2 as Space<S>>::rapply_spec(
                poses[swapped.colliders[0] as int].rotation,
                swapped.contact.normal_a,
            ),
        ) == r3_neg(
            vector_value::<S, Dim2>(
                v,
                <Dim2 as Space<S>>::rapply_spec(
                    poses[im.colliders[0] as int].rotation,
                    im.contact.normal_a,
                ),
            ),
        ),
    ensures
        ({
            let n = q.len() as int;
            let t1 = Touch {
                link_a: link,
                link_b: NO_LINK,
                free_body: free_body,
                second: false,
            };
            let t2 = Touch { second: true, ..t1 };
            let g1 = contact_geometry(im, t1, poses, mprops);
            let g2 = contact_geometry(swapped, t2, poses, mprops);
            let r1 = contact_row(soft, mb_idx, n, jac, g1, pt, dist, slot, 0);
            let r2 = contact_row(soft, mb_idx, n, jac, g2, pt, dist, slot, 0);
            &&& row_velocity(v, r1.cons, r1.jac, q, free) == row_velocity(
                v,
                r2.cons,
                r2.jac,
                q,
                free,
            )
            &&& vector_value::<S, Dim2>(v, r1.cons.lin_jac) == vector_value::<S, Dim2>(
                v,
                r2.cons.lin_jac,
            )
            &&& r1.cons.rhs == r2.cons.rhs
            &&& r1.cons.rhs_wo_bias == r2.cons.rhs_wo_bias
        }),
{
    let t1 = Touch { link_a: link, link_b: NO_LINK, free_body: free_body, second: false };
    let t2 = Touch { second: true, ..t1 };
    plane_normals_part_the_sides::<S>(
        v,
        soft,
        mb_idx,
        jac,
        im,
        t1,
        poses,
        mprops,
        pt,
        dist,
        slot,
        q,
        free,
    );
    plane_normals_part_the_sides::<S>(
        v,
        soft,
        mb_idx,
        jac,
        swapped,
        t2,
        poses,
        mprops,
        pt,
        dist,
        slot,
        q,
        free,
    );
    let n = vector_value::<S, Dim2>(
        v,
        <Dim2 as Space<S>>::rapply_spec(poses[im.colliders[0] as int].rotation, im.contact.normal_a),
    );
    assert(r3_neg(r3_neg(n)) == n);
    let a = first_side(v, im, t1, poses, mprops, jac, q, free, pt);
    let b = second_side(v, im, t1, poses, mprops, jac, q, free, pt);
    lemma_dot_difference(n, b, a);
    lemma_dot_difference(r3_neg(n), a, b);
    lemma_dot_neg(n, a);
    lemma_dot_neg(n, b);
}

/// In exact arithmetic, a friction constraint of a contact of the plane acts along a unit
/// vector across the unit normal, and on a free body against it.
pub proof fn plane_tangents_lie_across_the_normal<S: Scalar>(
    v: spec_fn(S) -> real,
    normal: <Dim2 as Space<S>>::V,
    i: int,
)
    requires
        exact(v),
        ordered(v),
        0 < i < <Dim2 as Space<S>>::dimension_spec().lin_spec(),
        r3_dot(vector_value::<S, Dim2>(v, normal), vector_value::<S, Dim2>(v, normal)) == 1real,
    ensures
        ({
            let n = vector_value::<S, Dim2>(v, normal);
            let t = vector_value::<S, Dim2>(v, slot_directions::<S, Dim2>(normal, i).0);
            let u = vector_value::<S, Dim2>(v, slot_directions::<S, Dim2>(normal, i).1);
            &&& r3_dot(n, t) == 0real
            &&& r3_dot(t, t) == 1real
            &&& u == r3_neg(t)
        }),
{
    plane_is_spatial(v);
    let m = <Dim2 as Space<S>>::vneg_spec(normal);
    let n = vector_value::<S, Dim2>(v, normal);
    let k = vector_value::<S, Dim2>(v, m);
    lemma_dot_neg(n, n);
    lemma_dot_neg(r3_neg(n), n);
    lemma_dot_commutes(r3_neg(n), n);
    assert(r3_dot(k, k) == 1real);
    let t0 = <Dim2 as Space<S>>::ortho_spec(m);
    let b = vector_value::<S, Dim2>(v, t0);
    plane_ortho_is_across(v, m);
    lemma_dot_neg(n, b);
}

/// In exact arithmetic, the velocity along the normal constraint of a contact of space is
/// the rate at which the two sides part: with `n` the normal from collider 1 to
/// collider 2, the velocity of side 2 less that of side 1 at the contact point, along
/// `n`. The constraint pushes the sides apart, whichever of them is the multibody: a
/// free body on side 2 along `n`, on side 1 against it.
pub proof fn space_normals_part_the_sides<S: Scalar>(
    v: spec_fn(S) -> real,
    soft: ConstraintSoftness<S>,
    mb_idx: u32,
    jac: spec_fn(int) -> Seq<Seq<S>>,
    im: IndexedManifold<S, Dim3>,
    t: Touch,
    poses: Seq<Pose<S, Dim3>>,
    mprops: Seq<WorldMassProperties<S, Dim3>>,
    pt: <Dim3 as Space<S>>::V,
    dist: S,
    slot: u32,
    q: Seq<S>,
    free: Velocity<S, Dim3>,
)
    requires
        exact(v),
        t.second ==> t.free_body != NO_FREE_BODY,
    ensures
        ({
            let g = contact_geometry(im, t, poses, mprops);
            let row = contact_row(soft, mb_idx, q.len() as int, jac, g, pt, dist, slot, 0);
            let n = vector_value::<S, Dim3>(
                v,
                <Dim3 as Space<S>>::rapply_spec(
                    poses[im.colliders[0] as int].rotation,
                    im.contact.normal_a,
                ),
            );
            let s1 = first_side(v, im, t, poses, mprops, jac, q, free, pt);
            let s2 = second_side(v, im, t, poses, mprops, jac, q, free, pt);
            &&& row_velocity(v, row.cons, row.jac, q, free) == r3_dot(n, r3_sub(s2, s1))
            &&& vector_value::<S, Dim3>(v, row.cons.lin_jac) == (if t.second {
                r3_neg(n)
            } else {
                n
            })
        }),
{
    space_is_geometric(v);
    space_is_spatial(v);
    space_is_inertial(v);
    space_wrenches_work(v);
    lemma_separation::<S, Dim3>(
        v,
        soft,
        mb_idx,
        jac,
        im,
        t,
        poses,
        mprops,
        pt,
        dist,
        slot,
        q,
        free,
    );
}

/// In exact arithmetic, swapping the two sides of a manifold of space, with the normal
/// reversed, gives the same normal constraint: the velocity along it is the same, and
/// it pushes the free body the same way.
pub proof fn space_sides_can_be_swapped<S: Scalar>(
    v: spec_fn(S) -> real,
    soft: ConstraintSoftness<S>,
    mb_idx: u32,
    jac: spec_fn(int) -> Seq<Seq<S>>,
    im: IndexedManifold<S, Dim3>,
    swapped: IndexedManifold<S, Dim3>,
    link: u32,
    free_body: u32,
    poses: Seq<Pose<S, Dim3>>,
    mprops: Seq<WorldMassProperties<S, Dim3>>,
    pt: <Dim3 as Space<S>>::V,
    dist: S,
    slot: u32,
    q: Seq<S>,
    free: Velocity<S, Dim3>,
)
    requires
        exact(v),
        free_body != NO_FREE_BODY,
        swapped.colliders[0] == im.colliders[1],
        swapped.colliders[1] == im.colliders[0],
        vector_value::<S, Dim3>(
            v,
            <Dim3 as Space<S>>::rapply_spec(
                poses[swapped.colliders[0] as int].rotation,
                swapped.contact.normal_a,
            ),
        ) == r3_neg(
            vector_value::<S, Dim3>(
                v,
                <Dim3 as Space<S>>::rapply_spec(
                    poses[im.colliders[0] as int].rotation,
                    im.contact.normal_a,
                ),
            ),
        ),
    ensures
        ({
            let n = q.len() as int;
            let t1 = Touch {
                link_a: link,
                link_b: NO_LINK,
                free_body: free_body,
                second: false,
            };
            let t2 = Touch { second: true, ..t1 };
            let g1 = contact_geometry(im, t1, poses, mprops);
            let g2 = contact_geometry(swapped, t2, poses, mprops);
            let r1 = contact_row(soft, mb_idx, n, jac, g1, pt, dist, slot, 0);
            let r2 = contact_row(soft, mb_idx, n, jac, g2, pt, dist, slot, 0);
            &&& row_velocity(v, r1.cons, r1.jac, q, free) == row_velocity(
                v,
                r2.cons,
                r2.jac,
                q,
                free,
            )
            &&& vector_value::<S, Dim3>(v, r1.cons.lin_jac) == vector_value::<S, Dim3>(
                v,
                r2.cons.lin_jac,
            )
            &&& r1.cons.rhs == r2.cons.rhs
            &&& r1.cons.rhs_wo_bias == r2.cons.rhs_wo_bias
        }),
{
    let t1 = Touch { link_a: link, link_b: NO_LINK, free_body: free_body, second: false };
    let t2 = Touch { second: true, ..t1 };
    space_normals_part_the_sides::<S>(
        v,
        soft,
        mb_idx,
        jac,
        im,
        t1,
        poses,
        mprops,
        pt,
        dist,
        slot,
        q,
        free,
    );
    space_normals_part_the_sides::<S>(
        v,
        soft,
        mb_idx,
        jac,
        swapped,
        t2,
        poses,
        mprops,
        pt,
        dist,
        slot,
        q,
        free,
    );
    let n = vector_value::<S, Dim3>(
        v,
        <Dim3 as Space<S>>::rapply_spec(poses[im.colliders[0] as int].rotation, im.contact.normal_a),
    );
    assert(r3_neg(r3_neg(n)) == n);
    let a = first_side(v, im, t1, poses, mprops, jac, q, free, pt);
    let b = second_side(v, im, t1, poses, mprops, jac, q, free, pt);
    lemma_dot_difference(n, b, a);
    lemma_dot_difference(r3_neg(n), a, b);
    lemma_dot_neg(n, a);
    lemma_dot_neg(n, b);
}

/// In exact arithmetic, a friction constraint of a contact of space acts along a unit
/// vector across the unit normal, and on a free body against it.
pub proof fn space_tangents_lie_across_the_normal<S: Scalar>(
    v: spec_fn(S) -> real,
    normal: <Dim3 as Space<S>>::V,
    i: int,
)
    requires
        exact(v),
        ordered(v),
        0 < i < <Dim3 as Space<S>>::dimension_spec().lin_spec(),
        r3_dot(vector_value::<S, Dim3>(v, normal), vector_value::<S, Dim3>(v, normal)) == 1real,
    ensures
        ({
            let n = vector_value::<S, Dim3>(v, normal);
            let t = vector_value::<S, Dim3>(v, slot_directions::<S, Dim3>(normal, i).0);
            let u = vector_value::<S, Dim3>(v, slot_directions::<S, Dim3>(normal, i).1);
            &&& r3_dot(n, t) == 0real
            &&& r3_dot(t, t) == 1real
            &&& u == r3_neg(t)
        }),
{
    space_is_spatial(v);
    let m = <Dim3 as Space<S>>::vneg_spec(normal);
    let n = vector_value::<S, Dim3>(v, normal);
    let k = vector_value::<S, Dim3>(v, m);
    lemma_dot_neg(n, n);
    lemma_dot_neg(r3_neg(n), n);
    lemma_dot_commutes(r3_neg(n), n);
    assert(r3_dot(k, k) == 1real);
    let t0 = <Dim3 as Space<S>>::ortho_spec(m);
    let b = vector_value::<S, Dim3>(v, t0);
    space_ortho_is_across(v, m);
    lemma_dot_neg(n, b);
    if i == 2 {
        let c = r3_cross(k, b);
        lemma_cross_orthogonal(k, b);
        lemma_dot_commutes(c, k);
        lemma_dot_neg(n, c);
        lemma_cross_length(k, b);
        lemma_dot_commutes(b, k);
        lemma_zero(0real);
        lemma_one(1real);
    }
}

/// In exact arithmetic, the tangent of the plane lies across the unit vector that it is
/// made for, a quarter turn ahead of it, and is a unit vector.
pub proof fn plane_ortho_is_across<S: Scalar>(v: spec_fn(S) -> real, n: <Dim2 as Space<S>>::V)
    requires
        exact(v),
        r3_dot(vector_value::<S, Dim2>(v, n), vector_value::<S, Dim2>(v, n)) == 1real,
    ensures
        ({
            let a = vector_value::<S, Dim2>(v, n);
            let t = vector_value::<S, Dim2>(v, <Dim2 as Space<S>>::ortho_spec(n));
            &&& r3_dot(a, t) == 0real
            &&& r3_dot(t, t) == 1real
            &&& r3_cross(a, t) == (V3 { x: 0real, y: 0real, z: 1real })
        }),
{
    let x = v(n.x);
    let y = v(n.y);
    lemma_zero(0real);
    lemma_zero(x);
    lemma_zero(y);
    lemma_signs(x, y);
    lemma_signs(y, y);
    assert((-y) * (-y) == y * y) by (nonlinear_arith);
}

/// In exact arithmetic, the tangent of space lies across the unit vector that it is made
/// for, and is a unit vector.
pub proof fn space_ortho_is_across<S: Scalar>(v: spec_fn(S) -> real, n: <Dim3 as Space<S>>::V)
    requires
        exact(v),
        ordered(v),
        r3_dot(vector_value::<S, Dim3>(v, n), vector_value::<S, Dim3>(v, n)) == 1real,
    ensures
        ({
            let a = vector_value::<S, Dim3>(v, n);
            let t = vector_value::<S, Dim3>(v, <Dim3 as Space<S>>::ortho_spec(n));
            &&& r3_dot(a, t) == 0real
            &&& r3_dot(t, t) == 1real
        }),
{
    let x = v(n.x);
    let y = v(n.y);
    let z = v(n.z);
    let s = if z < 0real {
        -1real
    } else {
        1real
    };
    let d = s + z;
    assert(d != 0real);
    let a = (-1real) / d;
    assert(a * d == -1real) by (nonlinear_arith)
        requires
            a == (-1real) / d,
            d != 0real,
    ;
    // With xx + yy == (s - z) (s + z), both follow from p == z - s.
    let r = x * x + y * y;
    assert(r == (s - z) * d) by {
        assert((s - z) * d == s * s - z * z) by (nonlinear_arith)
            requires
                d == s + z,
        ;
        assert(s * s == 1real) by (nonlinear_arith)
            requires
                s == 1real || s == -1real,
        ;
    }
    let p = a * r;
    assert(p == z - s) by {
        assert(a * ((s - z) * d) == (a * d) * (s - z)) by (nonlinear_arith);
        assert((-1real) * (s - z) == z - s) by (nonlinear_arith);
    }
    let xy = x * y;
    let yy = y * y;
    let xx = x * x;
    let tx = xy * a;
    let ty = s + yy * a;
    lemma_factor(a, xx, yy);
    // n . t == y (a (xx + yy) + s - z)
    assert(x * tx == y * (a * xx)) by (nonlinear_arith)
        requires
            tx == xy * a,
            xy == x * y,
            xx == x * x,
    ;
    lemma_factor(y, s, yy * a);
    lemma_commute(yy, a);
    assert(z * (-y) == -(y * z)) by (nonlinear_arith);
    lemma_factor(y, a * xx, a * yy);
    assert(y * (z - s) == y * z - y * s) by (nonlinear_arith);
    // t . t == 1 + yy (a p + 2 s a + 1)
    let ap = a * p;
    assert(tx * tx == yy * (a * (a * xx))) by {
        assert((xy * a) * (xy * a) == (xy * xy) * (a * a)) by (nonlinear_arith);
        assert(xy * xy == xx * yy) by (nonlinear_arith)
            requires
                xy == x * y,
                xx == x * x,
                yy == y * y,
        ;
        let aa = a * a;
        assert((xx * yy) * aa == yy * (aa * xx)) by (nonlinear_arith);
        assert((a * a) * xx == a * (a * xx)) by (nonlinear_arith);
    }
    let ya = yy * a;
    assert(ty * ty == s * s + 2real * (s * ya) + ya * ya) by (nonlinear_arith)
        requires
            ty == s + ya,
    ;
    assert(ya * ya == yy * (a * (a * yy))) by {
        let ay = a * yy;
        assert(ya == ay);
        assert(ya * ay == yy * (a * ay)) by (nonlinear_arith)
            requires
                ya == yy * a,
        ;
    }
    assert(s * ya == yy * (s * a)) by (nonlinear_arith)
        requires
            ya == yy * a,
    ;
    assert((-y) * (-y) == yy) by (nonlinear_arith)
        requires
            yy == y * y,
    ;
    assert(s * s == 1real) by (nonlinear_arith)
        requires
            s == 1real || s == -1real,
    ;
    lemma_factor(a, a * xx, a * yy);
    lemma_factor(yy, a * (a * xx), a * (a * yy));
    let sa = s * a;
    // a p + 2 s a + 1 == a (z - s) + 2 s a + 1 == a (z + s) + 1 == 0
    assert(a * (z - s) == a * d - 2real * sa) by (nonlinear_arith)
        requires
            d == s + z,
            sa == s * a,
    ;
    assert(ap == -1real - 2real * sa);
    let m = -1real - 2real * sa;
    assert(yy * ap + 2real * (yy * sa) + yy == 0real) by (nonlinear_arith)
        requires
            ap == -1real - 2real * sa,
    ;
}

/// The length of the product of two unit vectors across each other.
proof fn lemma_cross_length(a: V3<real>, b: V3<real>)
    requires
        r3_dot(a, a) == 1real,
        r3_dot(b, b) == 1real,
        r3_dot(a, b) == 0real,
    ensures
        r3_dot(r3_cross(a, b), r3_cross(a, b)) == 1real,
{
    super::unit_laws::lemma_cross_square(a, b);
    lemma_zero(0real);
    lemma_one(1real);
}

// ---- targets ----

/// In exact arithmetic, what a contact asks for: across a gap it lets the sides close
/// the gap within the step and no more, it corrects the penetration beyond what is
/// allowed at the contacts' rate, up to the bound on the corrective velocity, and it
/// never pulls. Friction asks for no sliding.
pub proof fn contacts_ask_to_part<S: Scalar, D: Space<S>>(
    v: spec_fn(S) -> real,
    soft: ConstraintSoftness<S>,
    mb_idx: u32,
    ndofs: int,
    jac: spec_fn(int) -> Seq<Seq<S>>,
    g: ContactGeometry<S, D>,
    pt: D::V,
    dist: S,
    slot: u32,
    i: int,
    t: real,
)
    requires
        exact(v),
        ordered(v),
        0real <= v(soft.max_corr_velocity),
        v(soft.inv_dt) * t == 1real,
    ensures
        ({
            let c = contact_row(soft, mb_idx, ndofs, jac, g, pt, dist, slot, i).cons;
            let u = -v(c.rhs_wo_bias);
            let push = v(c.rhs_wo_bias) - v(c.rhs);
            let rate = v(soft.erp_inv_dt);
            let depth = v(dist) + v(soft.allowed_lin_err);
            &&& i == 0 && 0real < v(dist) ==> v(dist) + t * u == 0real
            &&& i == 0 && v(dist) <= 0real ==> u == 0real
            &&& i == 0 ==> 0real <= push <= v(soft.max_corr_velocity)
            &&& i == 0 && 0real <= depth && 0real <= rate ==> push == 0real
            &&& i == 0 && depth <= 0real && 0real <= rate && -(rate * depth) <= v(
                soft.max_corr_velocity,
            ) ==> depth + t * push == (1real - t * rate) * depth
            &&& i != 0 ==> v(c.rhs) == 0real && u == 0real
        }),
{
    let x = v(dist);
    let k = v(soft.inv_dt);
    assert(t * -(x * k) == -((k * t) * x)) by (nonlinear_arith);
    lemma_one(x);
    let rate = v(soft.erp_inv_dt);
    let depth = x + v(soft.allowed_lin_err);
    if 0real <= depth && 0real <= rate {
        assert(0real <= rate * depth) by (nonlinear_arith)
            requires
                0real <= depth,
                0real <= rate,
        ;
    }
    if depth <= 0real && 0real <= rate {
        assert(rate * depth <= 0real) by (nonlinear_arith)
            requires
                depth <= 0real,
                0real <= rate,
        ;
        assert(t * -(rate * depth) == -((t * rate) * depth)) by (nonlinear_arith);
        lemma_minus_right(1real, t * rate, depth);
        lemma_one(depth);
    }
}

/// In exact arithmetic, the point where a contact acts lies midway between the two
/// surfaces: between its point on the first one and the point `dist` further along the
/// normal.
proof fn lemma_midway<S: Scalar, D: Space<S>>(
    v: spec_fn(S) -> real,
    im: IndexedManifold<S, D>,
    pose1: Pose<S, D>,
    k: int,
)
    requires
        exact(v),
        geometric::<S, D>(v),
        spatial::<S, D>(v),
        v(half_spec::<S>()) == 1real / 2real,
    ensures
        ({
            let p = im.contact.points_a[k];
            let near = vector_value::<S, D>(v, pose1.point_spec(p.pt));
            let n = vector_value::<S, D>(
                v,
                D::rapply_spec(pose1.rotation, im.contact.normal_a),
            );
            let far = r3_add(near, r3_scale(n, v(p.dist)));
            let mid = vector_value::<S, D>(v, world_point(im, pose1, k));
            r3_add(mid, mid) == r3_add(near, far)
        }),
{
    let p = im.contact.points_a[k];
    let n = vector_value::<S, D>(v, D::rapply_spec(pose1.rotation, im.contact.normal_a));
    let d = v(p.dist);
    lemma_halves(n.x, d);
    lemma_halves(n.y, d);
    lemma_halves(n.z, d);
}

proof fn lemma_halves(n: real, d: real)
    ensures
        n * (d * (1real / 2real)) + n * (d * (1real / 2real)) == n * d,
{
    let h = d * (1real / 2real);
    assert(h + h == d) by (nonlinear_arith)
        requires
            h == d * (1real / 2real),
    ;
    lemma_factor(n, h, h);
}

/// In exact arithmetic, the point where a contact of the plane acts lies midway between the two
/// surfaces: between its point on the first one and the point `dist` further along the
/// normal.
pub proof fn plane_contacts_act_midway<S: Scalar>(
    v: spec_fn(S) -> real,
    im: IndexedManifold<S, Dim2>,
    pose1: Pose<S, Dim2>,
    k: int,
)
    requires
        exact(v),
        v(half_spec::<S>()) == 1real / 2real,
    ensures
        ({
            let p = im.contact.points_a[k];
            let near = vector_value::<S, Dim2>(v, pose1.point_spec(p.pt));
            let n = vector_value::<S, Dim2>(
                v,
                <Dim2 as Space<S>>::rapply_spec(pose1.rotation, im.contact.normal_a),
            );
            let far = r3_add(near, r3_scale(n, v(p.dist)));
            let mid = vector_value::<S, Dim2>(v, world_point(im, pose1, k));
            r3_add(mid, mid) == r3_add(near, far)
        }),
{
    plane_is_geometric(v);
    plane_is_spatial(v);
    lemma_midway::<S, Dim2>(v, im, pose1, k);
}

/// In exact arithmetic, the point where a contact of space acts lies midway between the two
/// surfaces: between its point on the first one and the point `dist` further along the
/// normal.
pub proof fn space_contacts_act_midway<S: Scalar>(
    v: spec_fn(S) -> real,
    im: IndexedManifold<S, Dim3>,
    pose1: Pose<S, Dim3>,
    k: int,
)
    requires
        exact(v),
        v(half_spec::<S>()) == 1real / 2real,
    ensures
        ({
            let p = im.contact.points_a[k];
            let near = vector_value::<S, Dim3>(v, pose1.point_spec(p.pt));
            let n = vector_value::<S, Dim3>(
                v,
                <Dim3 as Space<S>>::rapply_spec(pose1.rotation, im.contact.normal_a),
            );
            let far = r3_add(near, r3_scale(n, v(p.dist)));
            let mid = vector_value::<S, Dim3>(v, world_point(im, pose1, k));
            r3_add(mid, mid) == r3_add(near, far)
        }),
{
    space_is_geometric(v);
    space_is_spatial(v);
    lemma_midway::<S, Dim3>(v, im, pose1, k);
}

/// In exact arithmetic, the velocity along each constraint of a contact of the plane, the
/// normal one and those of friction, is that of the touched link less that of the
/// other side, at the contact point and along the direction of the constraint.
pub proof fn plane_rows_compare_their_sides<S: Scalar>(
    v: spec_fn(S) -> real,
    soft: ConstraintSoftness<S>,
    mb_idx: u32,
    jac: spec_fn(int) -> Seq<Seq<S>>,
    g: ContactGeometry<S, Dim2>,
    pt: <Dim2 as Space<S>>::V,
    dist: S,
    slot: u32,
    i: int,
    q: Seq<S>,
    free: Velocity<S, Dim2>,
)
    requires
        exact(v),
        g.free is None <==> g.touch.free_body == NO_FREE_BODY,
    ensures
        ({
            let row = contact_row(soft, mb_idx, q.len() as int, jac, g, pt, dist, slot, i);
            let dir = vector_value::<S, Dim2>(v, slot_directions::<S, Dim2>(g.normal, i).0);
            let own = link_point_velocity::<S, Dim2>(
                v,
                jac(g.touch.link_a as int),
                q,
                g.origin_a,
                pt,
            );
            let other = match g.free {
                None => link_point_velocity::<S, Dim2>(
                    v,
                    jac(g.touch.link_b as int),
                    q,
                    g.origin_b,
                    pt,
                ),
                Some(mp) => point_velocity(
                    vector_value::<S, Dim2>(v, free.linear),
                    angular_value::<S, Dim2>(v, free.angular),
                    vector_value::<S, Dim2>(v, mp.com),
                    vector_value::<S, Dim2>(v, pt),
                ),
            };
            row_velocity(v, row.cons, row.jac, q, free) == r3_dot(dir, r3_sub(own, other))
        }),
{
    plane_is_geometric(v);
    plane_is_spatial(v);
    plane_is_inertial(v);
    plane_wrenches_work(v);
    lemma_relative::<S, Dim2>(v, soft, mb_idx, jac, g, pt, dist, slot, i, q, free);
}

/// In exact arithmetic, the velocity along each constraint of a contact of space, the
/// normal one and those of friction, is that of the touched link less that of the
/// other side, at the contact point and along the direction of the constraint.
pub proof fn space_rows_compare_their_sides<S: Scalar>(
    v: spec_fn(S) -> real,
    soft: ConstraintSoftness<S>,
    mb_idx: u32,
    jac: spec_fn(int) -> Seq<Seq<S>>,
    g: ContactGeometry<S, Dim3>,
    pt: <Dim3 as Space<S>>::V,
    dist: S,
    slot: u32,
    i: int,
    q: Seq<S>,
    free: Velocity<S, Dim3>,
)
    requires
        exact(v),
        g.free is None <==> g.touch.free_body == NO_FREE_BODY,
    ensures
        ({
            let row = contact_row(soft, mb_idx, q.len() as int, jac, g, pt, dist, slot, i);
            let dir = vector_value::<S, Dim3>(v, slot_directions::<S, Dim3>(g.normal, i).0);
            let own = link_point_velocity::<S, Dim3>(
                v,
                jac(g.touch.link_a as int),
                q,
                g.origin_a,
                pt,
            );
            let other = match g.free {
                None => link_point_velocity::<S, Dim3>(
                    v,
                    jac(g.touch.link_b as int),
                    q,
                    g.origin_b,
                    pt,
                ),
                Some(mp) => point_velocity(
                    vector_value::<S, Dim3>(v, free.linear),
                    angular_value::<S, Dim3>(v, free.angular),
                    vector_value::<S, Dim3>(v, mp.com),
                    vector_value::<S, Dim3>(v, pt),
                ),
            };
            row_velocity(v, row.cons, row.jac, q, free) == r3_dot(dir, r3_sub(own, other))
        }),
{
    space_is_geometric(v);
    space_is_spatial(v);
    space_is_inertial(v);
    space_wrenches_work(v);
    lemma_relative::<S, Dim3>(v, soft, mb_idx, jac, g, pt, dist, slot, i, q, free);
}

} // verus!
