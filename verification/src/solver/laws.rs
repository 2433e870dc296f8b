//! What the solver guarantees.
use super::constraint::{
    ConstraintRow, TwoBodyConstraint, TwoBodyConstraintElement, TwoBodyModel,
};
use super::passes::{Pass, PassState, color_pass, contact_done};
use super::step::{
    gathered, lemma_solved_elements, max_manifold_points_spec, normal_impulse, pushed_normal,
    pushed_tangent,
    row_error, solved, solved_constraint, tangent_impulse, unbiased,
};
use super::utils::{BodyPair, bare_row};
use crate::exact::{
    clamp_stays_in_range, exact, exact_roots, lemma_commute, lemma_factor, lemma_square,
    linear_space, ordered,
};
use crate::scalar::{Scalar, inv_spec, two_spec};
use crate::space::{
    Dim2, Dim3, Dimension, Pose, Space, V2, V3, Velocity, cap_magnitude_vec2_spec,
};
use vstd::prelude::*;

verus! {

// ---- impulses ----

/// One pass over a contact leaves its normal impulses at zero or more: contacts
/// push, they never pull.
pub proof fn normals_never_pull<S: Scalar, D: Space<S>>(
    v: spec_fn(S) -> real,
    c: TwoBodyModel<S, D>,
    v1: Velocity<S, D>,
    v2: Velocity<S, D>,
    k: int,
)
    requires
        ordered(v),
        0real <= v(c.cfm_factor),
        0 <= k < c.len <= c.elements.len(),
    ensures
        0real <= v(solved_constraint(c, v1, v2).elements[k].normal_part.impulse),
{
    lemma_solved_elements(c, v1, v2, c.len as int);
}

/// In the plane, one pass over a contact leaves the tangent impulse of each point
/// within the friction coefficient times its normal impulse.
pub proof fn plane_friction_stays_in_cone<S: Scalar, D: Space<S>>(
    v: spec_fn(S) -> real,
    c: TwoBodyModel<S, D>,
    v1: Velocity<S, D>,
    v2: Velocity<S, D>,
    k: int,
)
    requires
        ordered(v),
        D::dimension_spec() == Dimension::Two,
        0real <= v(c.cfm_factor) <= 1real,
        0real <= v(c.limit),
        0 <= k < c.len <= c.elements.len(),
    ensures
        ({
            let e = solved_constraint(c, v1, v2).elements[k];
            let limit = v(e.normal_part.impulse.times_spec(c.limit));
            -limit <= v(e.tangent0.impulse) <= limit
        }),
{
    lemma_solved_elements(c, v1, v2, c.len as int);
    normals_never_pull(v, c, v1, v2, k);
    let s = solved(c, v1, v2, k);
    let e0 = c.elements[k];
    let n = normal_impulse(c, e0.normal_part, s.v1, s.v2);
    let dn = n.minus_spec(e0.normal_part.impulse);
    let w1 = pushed_normal(c, e0.normal_part, true, s.v1, dn);
    let w2 = pushed_normal(c, e0.normal_part, false, s.v2, dn);
    let limit = n.times_spec(c.limit);
    let t0 = super::utils::tangent0_of::<S, D>(c.dir_a, c.tangent_a);
    let raw = e0.tangent0.impulse.minus_spec(
        e0.tangent0.r.times_spec(row_error(e0.tangent0, t0, w1, w2)),
    );
    assert(0real <= v(n));
    assert(0real <= v(limit));
    clamp_stays_in_range(v, raw, limit.neg_spec(), limit);
}

/// In exact arithmetic, capping leaves a vector of the plane no longer than the limit.
pub proof fn capped_vectors_are_short<S: Scalar>(v: spec_fn(S) -> real, p: V2<S>, limit: S)
    requires
        exact(v),
        ordered(v),
        exact_roots(v),
        0real <= v(limit),
    ensures
        ({
            let r = cap_magnitude_vec2_spec(p, limit);
            v(r.x) * v(r.x) + v(r.y) * v(r.y) <= v(limit) * v(limit)
        }),
{
    let x = v(p.x);
    let y = v(p.y);
    let l = v(limit);
    lemma_square(x);
    lemma_square(y);
    let norm = p.x.times_spec(p.x).plus_spec(p.y.times_spec(p.y)).sqrt_spec();
    let n = v(norm);
    assert(n * n == x * x + y * y);
    if limit.lt_spec(norm) {
        let q = v(limit.over_spec(norm));
        assert(q == l / n);
        assert(q * n == l) by (nonlinear_arith)
            requires
                q == l / n,
                n > 0real,
        ;
        lemma_scaled_square(x, q);
        lemma_scaled_square(y, q);
        lemma_scaled_square(n, q);
        lemma_factor(q * q, x * x, y * y);
        lemma_commute(q, n);
    } else {
        assert(n * n <= l * l) by (nonlinear_arith)
            requires
                0real <= n <= l,
        ;
    }
}

proof fn lemma_scaled_square(x: real, q: real)
    ensures
        (x * q) * (x * q) == (q * q) * (x * x),
{
    assert((x * q) * (x * q) == (q * q) * (x * x)) by (nonlinear_arith);
}

/// In space and in exact arithmetic, one pass over a contact leaves the tangent
/// impulse of each point within the friction cone: no longer than the friction
/// coefficient times its normal impulse.
pub proof fn space_friction_stays_in_cone<S: Scalar, D: Space<S>>(
    v: spec_fn(S) -> real,
    c: TwoBodyModel<S, D>,
    v1: Velocity<S, D>,
    v2: Velocity<S, D>,
    k: int,
)
    requires
        exact(v),
        ordered(v),
        exact_roots(v),
        D::dimension_spec() == Dimension::Three,
        0real <= v(c.cfm_factor),
        0real <= v(c.limit),
        0 <= k < c.len <= c.elements.len(),
    ensures
        ({
            let e = solved_constraint(c, v1, v2).elements[k];
            let x = v(e.tangent0.impulse);
            let y = v(e.tangent1.impulse);
            let limit = v(e.normal_part.impulse.times_spec(c.limit));
            x * x + y * y <= limit * limit
        }),
{
    lemma_solved_elements(c, v1, v2, c.len as int);
    normals_never_pull(v, c, v1, v2, k);
    let s = solved(c, v1, v2, k);
    let e0 = c.elements[k];
    let n = normal_impulse(c, e0.normal_part, s.v1, s.v2);
    let dn = n.minus_spec(e0.normal_part.impulse);
    let w1 = pushed_normal(c, e0.normal_part, true, s.v1, dn);
    let w2 = pushed_normal(c, e0.normal_part, false, s.v2, dn);
    let limit = n.times_spec(c.limit);
    assert(0real <= v(n));
    assert(0real <= v(limit));
    lemma_tangent_capped(v, c, e0, w1, w2, limit);
}

proof fn lemma_tangent_capped<S: Scalar, D: Space<S>>(
    v: spec_fn(S) -> real,
    c: TwoBodyModel<S, D>,
    e: TwoBodyConstraintElement<S, D>,
    v1: Velocity<S, D>,
    v2: Velocity<S, D>,
    limit: S,
)
    requires
        exact(v),
        ordered(v),
        exact_roots(v),
        D::dimension_spec() == Dimension::Three,
        0real <= v(limit),
    ensures
        ({
            let t = tangent_impulse(c, e, v1, v2, limit);
            v(t.0) * v(t.0) + v(t.1) * v(t.1) <= v(limit) * v(limit)
        }),
{
    let t0 = super::utils::tangent0_of::<S, D>(c.dir_a, c.tangent_a);
    let d0 = row_error(e.tangent0, t0, v1, v2);
    let d1 = row_error(e.tangent1, D::bitangent_spec(c.dir_a, t0), v1, v2);
    let d00 = d0.times_spec(d0);
    let d11 = d1.times_spec(d1);
    let d01 = d0.times_spec(d1);
    let inv_lhs = d00.plus_spec(d11).times_spec(
        crate::scalar::threshold_inv_spec(
            d00.times_spec(e.tangent0.r).plus_spec(d11.times_spec(e.tangent1.r)).plus_spec(
                d01.times_spec(e.tangent_coupling),
            ),
        ),
    );
    capped_vectors_are_short(
        v,
        V2 {
            x: e.tangent0.impulse.minus_spec(inv_lhs.times_spec(d0)),
            y: e.tangent1.impulse.minus_spec(inv_lhs.times_spec(d1)),
        },
        limit,
    );
}

// ---- one step ----

/// The normal row of a contact between the bodies of `p`, as it is built, with any
/// right-hand side and any impulse.
pub open spec fn is_normal_row<S: Scalar, D: Space<S>>(
    p: BodyPair<S, D>,
    dir: D::V,
    dp1: D::V,
    dp2: D::V,
    row: ConstraintRow<S, D>,
) -> bool {
    let bare = bare_row(p, dir, dp1, dp2);
    row == (ConstraintRow {
        rhs: row.rhs,
        rhs_wo_bias: row.rhs_wo_bias,
        impulse: row.impulse,
        r: inv_spec(bare.r),
        ..bare
    })
}

/// In exact arithmetic a step of a normal that neither its bound nor compliance
/// changes removes the whole velocity error along it.
pub proof fn free_normal_step_removes_error<S: Scalar, D: Space<S>>(
    v: spec_fn(S) -> real,
    p: BodyPair<S, D>,
    dp1: D::V,
    dp2: D::V,
    c: TwoBodyModel<S, D>,
    row: ConstraintRow<S, D>,
    v1: Velocity<S, D>,
    v2: Velocity<S, D>,
)
    requires
        exact(v),
        ordered(v),
        linear_space::<S, D>(v),
        c.im_a == p.mprops1.inv_mass,
        c.im_b == p.mprops2.inv_mass,
        is_normal_row(p, c.dir_a, dp1, dp2, row),
        v(bare_row(p, c.dir_a, dp1, dp2).r) != 0real,
        v(c.cfm_factor) == 1real,
        0real <= v(
            row.impulse.minus_spec(row.r.times_spec(row_error(row, c.dir_a, v1, v2))),
        ),
    ensures
        ({
            let dn = normal_impulse(c, row, v1, v2).minus_spec(row.impulse);
            v(
                row_error(
                    row,
                    c.dir_a,
                    pushed_normal(c, row, true, v1, dn),
                    pushed_normal(c, row, false, v2, dn),
                ),
            ) == 0real
        }),
{
    let dir = c.dir_a;
    let bare = bare_row(p, dir, dp1, dp2);
    let dn = normal_impulse(c, row, v1, v2).minus_spec(row.impulse);
    let err = v(row_error(row, dir, v1, v2));
    let k = v(bare.r);
    let r = v(row.r);
    assert(r == 1real / k);
    assert(r * k == 1real) by (nonlinear_arith)
        requires
            r == 1real / k,
            k != 0real,
    ;
    let x = row.impulse.minus_spec(row.r.times_spec(row_error(row, dir, v1, v2)));
    assert(v(x.maximum_spec(S::zero_spec())) == v(x));
    assert(1real * v(x) == v(x)) by (nonlinear_arith);
    let d = v(dn);
    assert(d == -(r * err));
    lemma_pushed_error(v, p, dp1, dp2, c, row, v1, v2, dn);
    assert(d * k == -err) by (nonlinear_arith)
        requires
            d == -(r * err),
            r * k == 1real,
    ;
}

/// How an impulse along a normal changes the velocity error along it.
pub(crate) proof fn lemma_pushed_error<S: Scalar, D: Space<S>>(
    v: spec_fn(S) -> real,
    p: BodyPair<S, D>,
    dp1: D::V,
    dp2: D::V,
    c: TwoBodyModel<S, D>,
    row: ConstraintRow<S, D>,
    v1: Velocity<S, D>,
    v2: Velocity<S, D>,
    dn: S,
)
    requires
        exact(v),
        linear_space::<S, D>(v),
        c.im_a == p.mprops1.inv_mass,
        c.im_b == p.mprops2.inv_mass,
        is_normal_row(p, c.dir_a, dp1, dp2, row),
    ensures
        v(
            row_error(
                row,
                c.dir_a,
                pushed_normal(c, row, true, v1, dn),
                pushed_normal(c, row, false, v2, dn),
            ),
        ) == v(row_error(row, c.dir_a, v1, v2)) + v(dn) * v(
            bare_row(p, c.dir_a, dp1, dp2).r,
        ),
{
    let dir = c.dir_a;
    let d = v(dn);
    let ma = v(D::vdot_spec(dir, D::vmul_spec(dir, c.im_a)));
    let mb = v(D::vdot_spec(dir, D::vmul_spec(dir, c.im_b)));
    let ia = v(D::gdot_spec(row.torque_dir_a, row.ii_torque_dir_a));
    let ib = v(D::gdot_spec(row.torque_dir_b, row.ii_torque_dir_b));
    assert(v(
        D::vdot_spec(
            dir,
            D::vadd_spec(v1.linear, D::vscale_spec(D::vmul_spec(dir, c.im_a), dn)),
        ),
    ) == v(D::vdot_spec(dir, v1.linear)) + d * ma);
    assert(v(
        D::vdot_spec(
            dir,
            D::vadd_spec(v2.linear, D::vscale_spec(D::vmul_spec(dir, c.im_b), dn.neg_spec())),
        ),
    ) == v(D::vdot_spec(dir, v2.linear)) + (-d) * mb);
    assert(v(
        D::gdot_spec(
            row.torque_dir_a,
            D::aadd_spec(v1.angular, D::ascale_spec(row.ii_torque_dir_a, dn)),
        ),
    ) == v(D::gdot_spec(row.torque_dir_a, v1.angular)) + d * ia);
    assert(v(
        D::gdot_spec(
            row.torque_dir_b,
            D::aadd_spec(v2.angular, D::ascale_spec(row.ii_torque_dir_b, dn)),
        ),
    ) == v(D::gdot_spec(row.torque_dir_b, v2.angular)) + d * ib);
    let bare = bare_row(p, dir, dp1, dp2);
    assert(v(
        D::vdot_spec(dir, D::vmul_spec(D::vadd_spec(p.mprops1.inv_mass, p.mprops2.inv_mass), dir)),
    ) == ma + mb);
    assert(v(D::gdot_spec(row.ii_torque_dir_a, row.torque_dir_a)) == ia);
    assert(v(D::gdot_spec(row.ii_torque_dir_b, row.torque_dir_b)) == ib);
    assert(v(bare.r) == ma + mb + ia + ib);
    assert((-d) * mb == -(d * mb)) by (nonlinear_arith);
    lemma_factor(d, ma + mb + ia, ib);
    lemma_factor(d, ma + mb, ia);
    lemma_factor(d, ma, mb);
}

// ---- bias ----

/// Removing compliance and bias twice is removing them once, and afterwards every
/// point asks for the velocity without bias.
pub proof fn unbiasing_is_idempotent<S: Scalar, D: Space<S>>(c: TwoBodyModel<S, D>, k: int)
    requires
        0 <= k < c.len <= c.elements.len(),
        c.len <= max_manifold_points_spec(D::dimension_spec()),
    ensures
        unbiased(unbiased(c)) == unbiased(c),
        unbiased(c).cfm_factor == S::one_spec(),
        unbiased(c).elements[k].normal_part.rhs == c.elements[k].normal_part.rhs_wo_bias,
{
    assert(unbiased(unbiased(c)).elements =~= unbiased(c).elements);
}

// ---- warm starts ----

/// The batch after the impulses of contacts `from..to` of the list `ids`, contact
/// by contact.
pub open spec fn scattered<S: Scalar, D: Space<S>>(
    ids: Seq<u32>,
    st: PassState<S, D>,
    from: int,
    to: int,
) -> PassState<S, D>
    decreases to - from,
{
    if to <= from {
        st
    } else {
        contact_done(
            Pass::Warmstart,
            scattered(ids, st, from, to - 1),
            ids[to - 1] as int,
        )
    }
}

/// A body that gathers the impulses of its contacts ends at the same velocity as
/// when the contacts apply them to both of their bodies in that order.
pub proof fn gathering_matches_scattering<S: Scalar, D: Space<S>>(
    body: u32,
    ids: Seq<u32>,
    cs: Seq<TwoBodyConstraint<S, D>>,
    st: PassState<S, D>,
    from: int,
    to: int,
)
    requires
        st.cs.len() == cs.len(),
        forall|i: int| 0 <= i < cs.len() ==> #[trigger] st.cs[i] == cs[i]@,
        body < st.vels.len(),
        forall|j: int|
            from <= j < to ==> {
                let c = cs[(#[trigger] ids[j]) as int];
                &&& ids[j] < cs.len()
                &&& c.solver_body_a != c.solver_body_b
                &&& c.solver_body_a == body || c.solver_body_b == body
                &&& c.solver_body_a < st.vels.len()
                &&& c.solver_body_b < st.vels.len()
            },
    ensures
        scattered(ids, st, from, to).cs == st.cs,
        scattered(ids, st, from, to).vels.len() == st.vels.len(),
        scattered(ids, st, from, to).vels[body as int] == gathered(
            body,
            ids,
            cs,
            st.vels[body as int],
            from,
            to,
        ),
    decreases to - from,
{
    if from < to {
        gathering_matches_scattering(body, ids, cs, st, from, to - 1);
        let c = cs[ids[to - 1] as int];
        assert(c@ == st.cs[ids[to - 1] as int]);
    }
}

// ---- colors ----

/// Two contacts share no body.
pub open spec fn apart<S: Scalar, D: Space<S>>(
    c: TwoBodyModel<S, D>,
    d: TwoBodyModel<S, D>,
) -> bool {
    &&& c.solver_body_a != d.solver_body_a
    &&& c.solver_body_a != d.solver_body_b
    &&& c.solver_body_b != d.solver_body_a
    &&& c.solver_body_b != d.solver_body_b
}

/// The contacts of `list` exist, each once, and those of one color share no body.
pub open spec fn colored<S: Scalar, D: Space<S>>(
    st: PassState<S, D>,
    colors: Seq<u32>,
    color: u32,
    list: Seq<int>,
) -> bool {
    &&& forall|k: int|
        0 <= k < list.len() ==> {
            &&& 0 <= (#[trigger] list[k]) < st.cs.len()
            &&& st.cs[list[k]].solver_body_a < st.vels.len()
            &&& st.cs[list[k]].solver_body_b < st.vels.len()
        }
    &&& forall|k: int, l: int|
        0 <= k < l < list.len() ==> #[trigger] list[k] != #[trigger] list[l]
    &&& forall|k: int, l: int|
        0 <= k < l < list.len() && colors[list[k]] == color && colors[list[l]] == color ==> apart(
            st.cs[#[trigger] list[k]],
            st.cs[#[trigger] list[l]],
        )
}

/// Some contact of the color in `list` is at `body`.
pub open spec fn touched<S: Scalar, D: Space<S>>(
    st: PassState<S, D>,
    colors: Seq<u32>,
    color: u32,
    list: Seq<int>,
    body: int,
) -> bool {
    exists|k: int|
        0 <= k < list.len() && colors[#[trigger] list[k]] == color && (
        st.cs[list[k]].solver_body_a == body || st.cs[list[k]].solver_body_b == body)
}

/// A pass over the contacts of one color treats each as if it were the only one:
/// a contact sees the velocities from before the color, and so does each body.
pub proof fn contacts_of_a_color_are_independent<S: Scalar, D: Space<S>>(
    pass: Pass,
    st: PassState<S, D>,
    colors: Seq<u32>,
    color: u32,
    list: Seq<int>,
)
    requires
        colored(st, colors, color, list),
    ensures
        ({
            let out = color_pass(pass, st, colors, color, list);
            &&& out.cs.len() == st.cs.len()
            &&& out.vels.len() == st.vels.len()
            &&& forall|k: int|
                0 <= k < list.len() && colors[list[k]] == color ==> {
                    let i = #[trigger] list[k];
                    let one = contact_done(pass, st, i);
                    &&& out.cs[i] == one.cs[i]
                    &&& out.vels[st.cs[i].solver_body_a as int]
                        == one.vels[st.cs[i].solver_body_a as int]
                    &&& out.vels[st.cs[i].solver_body_b as int]
                        == one.vels[st.cs[i].solver_body_b as int]
                }
            &&& forall|i: int|
                0 <= i < st.cs.len() && !(list.contains(i) && colors[i] == color) ==> (
                #[trigger] out.cs[i]) == st.cs[i]
            &&& forall|b: int|
                0 <= b < st.vels.len() && !touched(st, colors, color, list, b) ==> (
                #[trigger] out.vels[b]) == st.vels[b]
        }),
    decreases list.len(),
{
    if list.len() > 0 {
        let q = list.drop_last();
        let i = list.last();
        let m = list.len() - 1;
        assert(list[m] == i);
        assert forall|k: int| 0 <= k < q.len() implies #[trigger] q[k] == list[k] by {}
        assert(colored(st, colors, color, q));
        contacts_of_a_color_are_independent(pass, st, colors, color, q);
        let p = color_pass(pass, st, colors, color, q);
        let out = color_pass(pass, st, colors, color, list);
        let a = st.cs[i].solver_body_a as int;
        let b = st.cs[i].solver_body_b as int;
        assert(!q.contains(i)) by {
            if q.contains(i) {
                let k = choose|k: int| 0 <= k < q.len() && q[k] == i;
                assert(list[k] == list[m]);
            }
        }
        assert(p.cs[i] == st.cs[i]);
        if colors[i] == color {
            assert(!touched(st, colors, color, q, a)) by {
                if touched(st, colors, color, q, a) {
                    let k = choose|k: int|
                        0 <= k < q.len() && colors[#[trigger] q[k]] == color && (
                        st.cs[q[k]].solver_body_a == a || st.cs[q[k]].solver_body_b == a);
                    assert(apart(st.cs[list[k]], st.cs[list[m]]));
                }
            }
            assert(!touched(st, colors, color, q, b)) by {
                if touched(st, colors, color, q, b) {
                    let k = choose|k: int|
                        0 <= k < q.len() && colors[#[trigger] q[k]] == color && (
                        st.cs[q[k]].solver_body_a == b || st.cs[q[k]].solver_body_b == b);
                    assert(apart(st.cs[list[k]], st.cs[list[m]]));
                }
            }
            assert(p.vels[a] == st.vels[a]);
            assert(p.vels[b] == st.vels[b]);
        }
        assert forall|k: int| 0 <= k < list.len() && colors[list[k]] == color implies {
            let j = #[trigger] list[k];
            let one = contact_done(pass, st, j);
            &&& out.cs[j] == one.cs[j]
            &&& out.vels[st.cs[j].solver_body_a as int] == one.vels[st.cs[j].solver_body_a as int]
            &&& out.vels[st.cs[j].solver_body_b as int] == one.vels[st.cs[j].solver_body_b as int]
        } by {
            if k < m {
                assert(q[k] == list[k]);
                assert(list[k] != list[m]);
                if colors[i] == color {
                    assert(apart(st.cs[list[k]], st.cs[list[m]]));
                }
            }
        }
        assert forall|j: int|
            0 <= j < st.cs.len() && !(list.contains(j) && colors[j] == color) implies (
        #[trigger] out.cs[j]) == st.cs[j] by {
            if q.contains(j) {
                let k = choose|k: int| 0 <= k < q.len() && q[k] == j;
                assert(list[k] == j);
            }
            if j == i {
                assert(list.contains(j));
            }
        }
        assert forall|x: int|
            0 <= x < st.vels.len() && !touched(st, colors, color, list, x) implies (
        #[trigger] out.vels[x]) == st.vels[x] by {
            if touched(st, colors, color, q, x) {
                let k = choose|k: int|
                    0 <= k < q.len() && colors[#[trigger] q[k]] == color && (
                    st.cs[q[k]].solver_body_a == x || st.cs[q[k]].solver_body_b == x);
                assert(list[k] == q[k]);
            }
            if colors[i] == color && (a == x || b == x) {
                assert(colors[list[m]] == color);
            }
        }
    }
}

/// The order in which the contacts of one color run does not matter.
pub proof fn color_order_does_not_matter<S: Scalar, D: Space<S>>(
    pass: Pass,
    st: PassState<S, D>,
    colors: Seq<u32>,
    color: u32,
    list: Seq<int>,
    other: Seq<int>,
)
    requires
        colored(st, colors, color, list),
        colored(st, colors, color, other),
        forall|i: int| #[trigger] list.contains(i) <==> other.contains(i),
    ensures
        color_pass(pass, st, colors, color, list) == color_pass(pass, st, colors, color, other),
{
    contacts_of_a_color_are_independent(pass, st, colors, color, list);
    contacts_of_a_color_are_independent(pass, st, colors, color, other);
    let x = color_pass(pass, st, colors, color, list);
    let y = color_pass(pass, st, colors, color, other);
    assert forall|i: int| 0 <= i < st.cs.len() implies x.cs[i] == y.cs[i] by {
        if list.contains(i) && colors[i] == color {
            let k = choose|k: int| 0 <= k < list.len() && list[k] == i;
            let l = choose|l: int| 0 <= l < other.len() && other[l] == i;
            assert(other.contains(i));
            assert(list[k] == i && other[l] == i);
        } else {
            assert(x.cs[i] == st.cs[i]);
            assert(!(other.contains(i) && colors[i] == color));
            assert(y.cs[i] == st.cs[i]);
        }
    }
    assert forall|b: int| 0 <= b < st.vels.len() implies x.vels[b] == y.vels[b] by {
        if touched(st, colors, color, list, b) {
            let k = choose|k: int|
                0 <= k < list.len() && colors[#[trigger] list[k]] == color && (
                st.cs[list[k]].solver_body_a == b || st.cs[list[k]].solver_body_b == b);
            let i = list[k];
            assert(list.contains(i));
            assert(other.contains(i));
            let l = choose|l: int| 0 <= l < other.len() && other[l] == i;
            assert(other[l] == i);
        } else {
            assert(!touched(st, colors, color, other, b)) by {
                if touched(st, colors, color, other, b) {
                    let l = choose|l: int|
                        0 <= l < other.len() && colors[#[trigger] other[l]] == color && (
                        st.cs[other[l]].solver_body_a == b || st.cs[other[l]].solver_body_b == b);
                    let i = other[l];
                    assert(other.contains(i));
                    assert(list.contains(i));
                    let k = choose|k: int| 0 <= k < list.len() && list[k] == i;
                    assert(colors[list[k]] == color);
                }
            }
            assert(x.vels[b] == st.vels[b]);
            assert(y.vels[b] == st.vels[b]);
        }
    }
    assert(x.cs =~= y.cs);
    assert(x.vels =~= y.vels);
}

// ---- poses ----

proof fn lemma_odd(a: real, b: real)
    ensures
        a * (-b) == -(a * b),
        (-b) * a == -(b * a),
{
    assert(a * (-b) == -(a * b)) by (nonlinear_arith);
    assert((-b) * a == -(b * a)) by (nonlinear_arith);
}

/// In exact arithmetic, centring a body of the plane at its centre of mass and back
/// gives its pose back.
pub proof fn plane_poses_come_back<S: Scalar>(
    v: spec_fn(S) -> real,
    pose: Pose<S, Dim2>,
    com: V2<S>,
)
    requires
        exact(v),
    ensures
        ({
            let back = pose.prepend_translation_spec(com).prepend_translation_spec(
                <Dim2 as Space<S>>::vneg_spec(com),
            );
            &&& back.rotation == pose.rotation
            &&& v(back.translation.x) == v(pose.translation.x)
            &&& v(back.translation.y) == v(pose.translation.y)
        }),
{
    let re = v(pose.rotation.re);
    let im = v(pose.rotation.im);
    lemma_odd(re, v(com.x));
    lemma_odd(im, v(com.y));
    lemma_odd(im, v(com.x));
    lemma_odd(re, v(com.y));
}

/// In exact arithmetic, centring a body of space at its centre of mass and back
/// gives its pose back.
pub proof fn space_poses_come_back<S: Scalar>(
    v: spec_fn(S) -> real,
    pose: Pose<S, Dim3>,
    com: V3<S>,
)
    requires
        exact(v),
    ensures
        ({
            let back = pose.prepend_translation_spec(com).prepend_translation_spec(
                <Dim3 as Space<S>>::vneg_spec(com),
            );
            &&& back.rotation == pose.rotation
            &&& v(back.translation.x) == v(pose.translation.x)
            &&& v(back.translation.y) == v(pose.translation.y)
            &&& v(back.translation.z) == v(pose.translation.z)
        }),
{
    let q = pose.rotation;
    let x = v(com.x);
    let y = v(com.y);
    let z = v(com.z);
    let a = v(q.x);
    let b = v(q.y);
    let c = v(q.z);
    let w = v(q.w);
    let two = v(two_spec::<S>());
    let k = v(q.w) * v(q.w) - (a * a + b * b + c * c);
    lemma_odd(k, x);
    lemma_odd(k, y);
    lemma_odd(k, z);
    lemma_odd(a, x);
    lemma_odd(b, y);
    lemma_odd(c, z);
    let dot = x * a + y * b + z * c;
    lemma_odd(two, dot);
    lemma_odd(a, dot * two);
    lemma_odd(b, dot * two);
    lemma_odd(c, dot * two);
    lemma_odd(b, z);
    lemma_odd(c, y);
    lemma_odd(c, x);
    lemma_odd(a, z);
    lemma_odd(a, y);
    lemma_odd(b, x);
    lemma_odd(w * two, b * z - c * y);
    lemma_odd(w * two, c * x - a * z);
    lemma_odd(w * two, a * y - b * x);
}

// ---- momentum ----

/// Under the reading `v`, sums and products of vectors go by components.
pub open spec fn componentwise<S: Scalar, D: Space<S>>(v: spec_fn(S) -> real) -> bool {
    &&& forall|a: D::V, b: D::V, i: int|
        v(#[trigger] D::vget_spec(D::vadd_spec(a, b), i)) == v(D::vget_spec(a, i)) + v(
            D::vget_spec(b, i),
        )
    &&& forall|a: D::V, k: S, i: int|
        v(#[trigger] D::vget_spec(D::vscale_spec(a, k), i)) == v(D::vget_spec(a, i)) * v(k)
    &&& forall|a: D::V, b: D::V, i: int|
        v(#[trigger] D::vget_spec(D::vmul_spec(a, b), i)) == v(D::vget_spec(a, i)) * v(
            D::vget_spec(b, i),
        )
}

/// Exact arithmetic makes the vectors of the plane componentwise.
pub proof fn plane_is_componentwise<S: Scalar>(v: spec_fn(S) -> real)
    requires
        exact(v),
    ensures
        componentwise::<S, Dim2>(v),
{
}

/// Exact arithmetic makes the vectors of space componentwise.
pub proof fn space_is_componentwise<S: Scalar>(v: spec_fn(S) -> real)
    requires
        exact(v),
    ensures
        componentwise::<S, Dim3>(v),
{
}

/// Component `i` of the joint linear momentum of the two bodies of a contact, times
/// both inverse masses along that axis.
pub open spec fn joint_momentum<S: Scalar, D: Space<S>>(
    v: spec_fn(S) -> real,
    c: TwoBodyModel<S, D>,
    v1: Velocity<S, D>,
    v2: Velocity<S, D>,
    i: int,
) -> real {
    v(D::vget_spec(c.im_b, i)) * v(D::vget_spec(v1.linear, i)) + v(D::vget_spec(c.im_a, i)) * v(
        D::vget_spec(v2.linear, i),
    )
}

proof fn lemma_opposite(a: real, b: real, ma: real, mb: real, d: real, x: real)
    ensures
        mb * (a + (d * ma) * x) + ma * (b + (d * mb) * (-x)) == mb * a + ma * b,
{
    lemma_factor(mb, a, (d * ma) * x);
    lemma_factor(ma, b, (d * mb) * (-x));
    let p = (d * ma) * x;
    let q = (d * mb) * (-x);
    assert(mb * p == (d * x) * (ma * mb)) by (nonlinear_arith)
        requires
            p == (d * ma) * x,
    ;
    assert(ma * q == -((d * x) * (ma * mb))) by (nonlinear_arith)
        requires
            q == (d * mb) * (-x),
    ;
}

proof fn lemma_opposite2(a: real, b: real, ma: real, mb: real, s: real, t: real)
    requires
        t == -s,
    ensures
        mb * (a + s * ma) + ma * (b + t * mb) == mb * a + ma * b,
{
    lemma_factor(mb, a, s * ma);
    lemma_factor(ma, b, t * mb);
    assert(mb * (s * ma) == s * (ma * mb)) by (nonlinear_arith);
    assert(ma * (t * mb) == t * (ma * mb)) by (nonlinear_arith);
    assert(t * (ma * mb) == -(s * (ma * mb))) by (nonlinear_arith)
        requires
            t == -s,
    ;
}

proof fn lemma_normal_momentum<S: Scalar, D: Space<S>>(
    v: spec_fn(S) -> real,
    c: TwoBodyModel<S, D>,
    row: ConstraintRow<S, D>,
    v1: Velocity<S, D>,
    v2: Velocity<S, D>,
    x: S,
    i: int,
)
    requires
        exact(v),
        componentwise::<S, D>(v),
    ensures
        joint_momentum(
            v,
            c,
            pushed_normal(c, row, true, v1, x),
            pushed_normal(c, row, false, v2, x),
            i,
        ) == joint_momentum(v, c, v1, v2, i),
{
    lemma_opposite(
        v(D::vget_spec(v1.linear, i)),
        v(D::vget_spec(v2.linear, i)),
        v(D::vget_spec(c.im_a, i)),
        v(D::vget_spec(c.im_b, i)),
        v(D::vget_spec(c.dir_a, i)),
        v(x),
    );
}

proof fn lemma_tangent_momentum<S: Scalar, D: Space<S>>(
    v: spec_fn(S) -> real,
    c: TwoBodyModel<S, D>,
    e: TwoBodyConstraintElement<S, D>,
    v1: Velocity<S, D>,
    v2: Velocity<S, D>,
    x: (S, S),
    i: int,
)
    requires
        exact(v),
        componentwise::<S, D>(v),
    ensures
        joint_momentum(
            v,
            c,
            pushed_tangent(c, e, true, v1, x),
            pushed_tangent(c, e, false, v2, x),
            i,
        ) == joint_momentum(v, c, v1, v2, i),
{
    let t0 = super::utils::tangent0_of::<S, D>(c.dir_a, c.tangent_a);
    let t1 = D::bitangent_spec(c.dir_a, t0);
    let a = v(D::vget_spec(v1.linear, i));
    let b = v(D::vget_spec(v2.linear, i));
    let ma = v(D::vget_spec(c.im_a, i));
    let mb = v(D::vget_spec(c.im_b, i));
    let p = v(D::vget_spec(t0, i));
    let q = v(D::vget_spec(t1, i));
    match D::dimension_spec() {
        Dimension::Two => {
            lemma_opposite(a, b, ma, mb, p, v(x.0));
        },
        Dimension::Three => {
            lemma_odd(p, v(x.0));
            lemma_odd(q, v(x.1));
            lemma_opposite2(
                a,
                b,
                ma,
                mb,
                p * v(x.0) + q * v(x.1),
                p * (-v(x.0)) + q * (-v(x.1)),
            );
        },
    }
}

/// In exact arithmetic, solving a contact conserves the joint linear momentum of its
/// two bodies.
pub proof fn contacts_conserve_momentum<S: Scalar, D: Space<S>>(
    v: spec_fn(S) -> real,
    c: TwoBodyModel<S, D>,
    v1: Velocity<S, D>,
    v2: Velocity<S, D>,
    n: int,
    i: int,
)
    requires
        exact(v),
        componentwise::<S, D>(v),
    ensures
        joint_momentum(v, c, solved(c, v1, v2, n).v1, solved(c, v1, v2, n).v2, i)
            == joint_momentum(v, c, v1, v2, i),
    decreases n,
{
    if n > 0 {
        contacts_conserve_momentum(v, c, v1, v2, n - 1, i);
        let s = solved(c, v1, v2, n - 1);
        let e = c.elements[n - 1];
        let x = normal_impulse(c, e.normal_part, s.v1, s.v2);
        let dn = x.minus_spec(e.normal_part.impulse);
        let w1 = pushed_normal(c, e.normal_part, true, s.v1, dn);
        let w2 = pushed_normal(c, e.normal_part, false, s.v2, dn);
        let t = tangent_impulse(c, e, w1, w2, x.times_spec(c.limit));
        let dt = (t.0.minus_spec(e.tangent0.impulse), t.1.minus_spec(e.tangent1.impulse));
        lemma_normal_momentum(v, c, e.normal_part, s.v1, s.v2, dn, i);
        lemma_tangent_momentum(v, c, e, w1, w2, dt, i);
    }
}

} // verus!
