//! Generalized accelerations: force assembly, factorization and solve in one
//! pass over a multibody.
//!
//! The tiers share the force assembly. The lane tiers factor in a shared tile
//! and sum over its lanes; the serial tier factors in the mass-matrix buffer.
use super::gravity::{
    accelerated, apply_damping, assemble_link, assembled, damped, fill_zero, jac_of, parents_first,
};
use super::kinematics::dofs_in_range;
use super::lu::{
    apply_pivots, lemma_packed_tile_fits, lu_apply_pivots, lu_decompose, lu_factors, lu_pivots,
    lu_pivots_in_range, lu_solve, lu_solve_in_place, lu_triangular_solve_in_place, sm_idx_packed,
    triangular_solve,
};
use super::types::{MultibodyInfo, MultibodyLinkStatic, MultibodyLinkWorkspace};
use crate::batch::{BatchIndices, imat_spec, ivec_spec, lemma_ivec_fits, mbi_spec, room};
use crate::joint::{
    FORCE_BASED, free_axes, has_axis, lemma_free_axes_bound, lemma_free_axes_split, test_axis,
};
use crate::scalar::{Scalar, clamp, clamp_spec};
use crate::space::Space;
use crate::views::{
    MatView, VecView, copy_mat, copy_vec, mat_of, same_outside_mat, same_outside_vec, vec_get,
    vec_of, vec_set,
};
use vstd::prelude::*;

verus! {

// ---- the force-based motors ----

/// The torque of a force-based motor: proportional-derivative, and at most
/// the motor's maximum force.
pub open spec fn pd_torque<S: Scalar>(
    stiffness: S,
    damping: S,
    max_force: S,
    target: S,
    q: S,
    v: S,
) -> S {
    clamp_spec(
        stiffness.times_spec(target.minus_spec(q)).minus_spec(damping.times_spec(v)),
        max_force.neg_spec(),
        max_force,
    )
}

/// Whether axis `axis` of a joint is driven by a force-based motor.
pub open spec fn force_driven<S: Scalar, D: Space<S>>(
    st: MultibodyLinkStatic<S, D>,
    axis: int,
) -> bool {
    &&& !has_axis(st.data.locked_axes, axis)
    &&& has_axis(st.data.motor_axes, axis)
    &&& st.data.motors[axis].model == FORCE_BASED
}

/// The generalized forces after the motors of axes `0..axis` of one link.
/// `prev` is the target of the previous control step, where it still holds.
pub open spec fn pd_axes<S: Scalar, D: Space<S>>(
    tau: Seq<S>,
    st: MultibodyLinkStatic<S, D>,
    coords: Seq<S>,
    vel: Seq<S>,
    prev: Option<S>,
    axis: int,
) -> Seq<S>
    decreases axis,
{
    if axis <= 0 {
        tau
    } else {
        let t = pd_axes(tau, st, coords, vel, prev, axis - 1);
        if force_driven(st, axis - 1) {
            let motor = st.data.motors[axis - 1];
            let d = st.assembly_id + free_axes(st.data.locked_axes, 0, axis - 1);
            let target = match prev {
                Some(p) => p,
                None => motor.target_pos,
            };
            t.update(
                d,
                t[d].plus_spec(
                    pd_torque(
                        motor.stiffness,
                        motor.damping,
                        motor.max_force,
                        target,
                        coords[axis - 1],
                        vel[d],
                    ),
                ),
            )
        } else {
            t
        }
    }
}

/// The target of the previous control step for link `l` of the batch, while
/// the actuator delay lasts.
pub open spec fn delayed_target<S: Scalar>(delay: Seq<S>, l: int) -> Option<S> {
    if delay[0].lt_spec(delay[1]) {
        Some(delay[2 + l])
    } else {
        None
    }
}

/// The generalized forces after the motors of the first `k` links.
pub open spec fn pd_links<S: Scalar, D: Space<S>>(
    tau: Seq<S>,
    st: Seq<MultibodyLinkStatic<S, D>>,
    ws: Seq<MultibodyLinkWorkspace<S, D>>,
    vel: Seq<S>,
    delay: Seq<S>,
    first_link: int,
    k: int,
) -> Seq<S>
    decreases k,
{
    if k <= 0 {
        tau
    } else {
        let t = pd_links(tau, st, ws, vel, delay, first_link, k - 1);
        if st[k - 1].kinematic != 0 {
            t
        } else {
            pd_axes(
                t,
                st[k - 1],
                ws[k - 1].coords@,
                vel,
                delayed_target(delay, first_link + k - 1),
                D::dimension_spec().spatial_spec(),
            )
        }
    }
}

pub(crate) proof fn lemma_pd_axes_len<S: Scalar, D: Space<S>>(
    tau: Seq<S>,
    st: MultibodyLinkStatic<S, D>,
    coords: Seq<S>,
    vel: Seq<S>,
    prev: Option<S>,
    axis: int,
)
    requires
        0 <= axis <= D::dimension_spec().spatial_spec(),
        st.assembly_id + free_axes(st.data.locked_axes, 0, D::dimension_spec().spatial_spec())
            <= tau.len(),
    ensures
        pd_axes(tau, st, coords, vel, prev, axis).len() == tau.len(),
    decreases axis,
{
    if axis > 0 {
        lemma_pd_axes_len(tau, st, coords, vel, prev, axis - 1);
        lemma_dof_in_range::<S, D>(st, axis - 1);
    }
}

/// A free axis has its degree of freedom among those of the joint.
proof fn lemma_dof_in_range<S: Scalar, D: Space<S>>(st: MultibodyLinkStatic<S, D>, axis: int)
    requires
        0 <= axis < D::dimension_spec().spatial_spec(),
    ensures
        0 <= free_axes(st.data.locked_axes, 0, axis),
        !has_axis(st.data.locked_axes, axis) ==> free_axes(st.data.locked_axes, 0, axis)
            < free_axes(st.data.locked_axes, 0, D::dimension_spec().spatial_spec()),
{
    let locked = st.data.locked_axes;
    let n = D::dimension_spec().spatial_spec();
    lemma_free_axes_split(locked, 0, axis + 1, n);
    lemma_free_axes_bound(locked, axis + 1, n);
    lemma_free_axes_bound(locked, 0, axis);
}

fn apply_link_pd<S: Scalar, D: Space<S>>(
    st: &MultibodyLinkStatic<S, D>,
    coords: &[S; 6],
    dof: &[S],
    velv: VecView,
    tau: &mut [S],
    tv: VecView,
    prev: Option<S>,
)
    requires
        velv.fits(dof@.len() as int),
        tv.fits(old(tau)@.len() as int),
        velv.len == tv.len,
        st.assembly_id + free_axes(st.data.locked_axes, 0, D::dimension_spec().spatial_spec())
            <= tv.len,
    ensures
        vec_of(final(tau)@, tv) == pd_axes(
            vec_of(old(tau)@, tv),
            *st,
            coords@,
            vec_of(dof@, velv),
            prev,
            D::dimension_spec().spatial_spec(),
        ),
        same_outside_vec(old(tau)@, final(tau)@, tv),
{
    let ghost t0 = vec_of(tau@, tv);
    let ghost vel = vec_of(dof@, velv);
    let locked: u32 = st.data.locked_axes;
    let n: u32 = D::dimension().spatial();
    let mut free: u32 = 0;
    let mut axis: u32 = 0;
    while axis < n
        invariant
            velv.fits(dof@.len() as int),
            tv.fits(old(tau)@.len() as int),
            velv.len == tv.len,
            n == D::dimension_spec().spatial_spec(),
            locked == st.data.locked_axes,
            st.assembly_id + free_axes(locked, 0, n as int) <= tv.len,
            axis <= n <= 6,
            free == free_axes(locked, 0, axis as int),
            free <= axis,
            t0 == vec_of(old(tau)@, tv),
            vel == vec_of(dof@, velv),
            vec_of(tau@, tv) == pd_axes(t0, *st, coords@, vel, prev, axis as int),
            same_outside_vec(old(tau)@, tau@, tv),
        decreases n - axis,
    {
        proof {
            lemma_dof_in_range::<S, D>(*st, axis as int);
        }
        if !test_axis(locked, axis) {
            if test_axis(st.data.motor_axes, axis) {
                let motor = st.data.motors[axis as usize];
                if motor.model == FORCE_BASED {
                    let q = coords[axis as usize];
                    let d: usize = st.assembly_id as usize + free as usize;
                    let v = vec_get(dof, velv, d);
                    let target = match prev {
                        Some(p) => p,
                        None => motor.target_pos,
                    };
                    let torque = clamp(
                        motor.stiffness.times(target.minus(q)).minus(motor.damping.times(v)),
                        motor.max_force.negate(),
                        motor.max_force,
                    );
                    let x = vec_get(tau, tv, d).plus(torque);
                    vec_set(tau, tv, d, x);
                }
            }
            free = free + 1;
        }
        axis = axis + 1;
    }
}

/// Adds the torques of the force-based motors of one multibody, and counts
/// the physics step in `delay` if asked to.
///
/// `delay` holds the step counter, the delay in steps, and the targets of the
/// previous control step by link of the batch.
pub fn apply_force_based_pd<S: Scalar, D: Space<S>>(
    stat: &[MultibodyLinkStatic<S, D>],
    ws: &[MultibodyLinkWorkspace<S, D>],
    lv: VecView,
    dof: &[S],
    velv: VecView,
    tau: &mut [S],
    tv: VecView,
    delay: &mut [S],
    dv: VecView,
    first_link: u32,
    bump_tick: bool,
)
    requires
        lv.fits(stat@.len() as int),
        lv.fits(ws@.len() as int),
        velv.fits(dof@.len() as int),
        tv.fits(old(tau)@.len() as int),
        dv.fits(old(delay)@.len() as int),
        velv.len == tv.len,
        dv.len >= 2 + first_link + lv.len,
        dofs_in_range(vec_of(stat@, lv), tv.len as int),
    ensures
        vec_of(final(tau)@, tv) == pd_links(
            vec_of(old(tau)@, tv),
            vec_of(stat@, lv),
            vec_of(ws@, lv),
            vec_of(dof@, velv),
            vec_of(old(delay)@, dv),
            first_link as int,
            lv.len as int,
        ),
        same_outside_vec(old(tau)@, final(tau)@, tv),
        vec_of(final(delay)@, dv) == (if bump_tick {
            vec_of(old(delay)@, dv).update(
                0,
                vec_of(old(delay)@, dv)[0].plus_spec(S::one_spec()),
            )
        } else {
            vec_of(old(delay)@, dv)
        }),
        same_outside_vec(old(delay)@, final(delay)@, dv),
{
    let ghost st = vec_of(stat@, lv);
    let ghost wk = vec_of(ws@, lv);
    let ghost t0 = vec_of(tau@, tv);
    let ghost vel = vec_of(dof@, velv);
    let ghost dl = vec_of(delay@, dv);
    let tick = vec_get(delay, dv, 0);
    let use_prev = tick.lt(vec_get(delay, dv, 1));
    let mut k: usize = 0;
    while k < lv.len
        invariant
            lv.fits(stat@.len() as int),
            lv.fits(ws@.len() as int),
            velv.fits(dof@.len() as int),
            tv.fits(old(tau)@.len() as int),
            dv.fits(delay@.len() as int),
            velv.len == tv.len,
            dv.len >= 2 + first_link + lv.len,
            k <= lv.len,
            st == vec_of(stat@, lv),
            wk == vec_of(ws@, lv),
            t0 == vec_of(old(tau)@, tv),
            vel == vec_of(dof@, velv),
            dl == vec_of(delay@, dv),
            use_prev == dl[0].lt_spec(dl[1]),
            dofs_in_range(st, tv.len as int),
            vec_of(tau@, tv) == pd_links(t0, st, wk, vel, dl, first_link as int, k as int),
            same_outside_vec(old(tau)@, tau@, tv),
        decreases lv.len - k,
    {
        let s = vec_get(stat, lv, k);
        let w = vec_get(ws, lv, k);
        if s.kinematic == 0 {
            let prev = if use_prev {
                Some(vec_get(delay, dv, 2 + first_link as usize + k))
            } else {
                None
            };
            assert(st[k as int] == s);
            apply_link_pd(&s, &w.coords, dof, velv, tau, tv, prev);
        }
        k = k + 1;
    }
    if bump_tick {
        vec_set(delay, dv, 0, tick.plus(S::one()));
    }
}

// ---- the assembly of one multibody ----

/// The jacobian blocks of the links, stacked from entry `joff`.
pub open spec fn jac_blocks(nb: int, b: int, joff: int, sd: int, ndofs: int) -> spec_fn(
    int,
) -> MatView {
    |k: int| imat_spec(nb, b, joff + k * sd * ndofs, sd, ndofs)
}

pub proof fn lemma_block_room(nb: int, b: int, joff: int, sd: int, ndofs: int, links: int, k: int, n: int)
    requires
        room(nb, b, joff, links * sd * ndofs, n),
        0 <= k < links,
        0 <= sd,
        0 <= ndofs,
    ensures
        0 <= k * sd,
        0 <= k * sd * ndofs,
        room(nb, b, joff + k * sd * ndofs, sd * ndofs, n),
        ndofs > 0 ==> k * sd <= k * sd * ndofs,
        joff + k * sd * ndofs <= n,
{
    let e = sd * ndofs;
    assert(0 <= k * sd && 0 <= e && 0 <= k * sd * ndofs) by (nonlinear_arith)
        requires
            k >= 0,
            sd >= 0,
            ndofs >= 0,
            e == sd * ndofs,
    ;
    assert(k * sd * ndofs + sd * ndofs <= links * sd * ndofs) by (nonlinear_arith)
        requires
            k + 1 <= links,
            sd >= 0,
            ndofs >= 0,
    ;
    assert((joff + k * sd * ndofs + e) * nb <= (joff + links * sd * ndofs) * nb)
        by (nonlinear_arith)
        requires
            joff + k * sd * ndofs + e <= joff + links * sd * ndofs,
            nb >= 0,
    ;
    assert(joff + k * sd * ndofs + e <= (joff + k * sd * ndofs + e) * nb) by (nonlinear_arith)
        requires
            nb >= 1,
            joff + k * sd * ndofs + e >= 0,
    ;
    if ndofs > 0 {
        assert(k * sd <= k * sd * ndofs) by (nonlinear_arith)
            requires
                k * sd >= 0,
                ndofs >= 1,
        ;
    }
}

/// Gravity and inertia forces of every link, projected on the degrees of
/// freedom; the links' accelerations are published on the way.
pub fn assemble_forces<S: Scalar, D: Space<S>>(
    ids: &BatchIndices,
    b: u32,
    joff: usize,
    stat: &[MultibodyLinkStatic<S, D>],
    ws: &mut [MultibodyLinkWorkspace<S, D>],
    lv: VecView,
    jac: &[S],
    tau: &mut [S],
    tv: VecView,
    g: D::V,
)
    requires
        lv.fits(stat@.len() as int),
        lv.fits(old(ws)@.len() as int),
        tv.fits(old(tau)@.len() as int),
        room(
            ids.num_batches as int,
            b as int,
            joff as int,
            lv.len * D::dimension_spec().spatial_spec() * tv.len,
            jac@.len() as int,
        ),
        parents_first(vec_of(stat@, lv)),
    ensures
        vec_of(final(ws)@, lv) == accelerated(
            vec_of(stat@, lv),
            vec_of(old(ws)@, lv),
            lv.len as int,
        ),
        same_outside_vec(old(ws)@, final(ws)@, lv),
        vec_of(final(tau)@, tv) == assembled(
            vec_of(stat@, lv),
            vec_of(old(ws)@, lv),
            jac_of(
                jac@,
                jac_blocks(
                    ids.num_batches as int,
                    b as int,
                    joff as int,
                    D::dimension_spec().spatial_spec(),
                    tv.len as int,
                ),
            ),
            g,
            tv.len as int,
            lv.len as int,
        ),
        same_outside_vec(old(tau)@, final(tau)@, tv),
{
    let ghost st = vec_of(stat@, lv);
    let ghost ws0 = vec_of(ws@, lv);
    let ghost nb = ids.num_batches as int;
    let ghost sdg = D::dimension_spec().spatial_spec();
    let ghost blocks = jac_blocks(nb, b as int, joff as int, sdg, tv.len as int);
    let sd: usize = D::dimension().spatial() as usize;
    fill_zero(tau, tv);
    assert(ws0 =~= accelerated(st, ws0, 0));
    let mut k: usize = 0;
    while k < lv.len
        invariant
            lv.fits(stat@.len() as int),
            lv.fits(old(ws)@.len() as int),
            tv.fits(old(tau)@.len() as int),
            sd == sdg,
            3 <= sd <= 6,
            sdg == D::dimension_spec().spatial_spec(),
            nb == ids.num_batches,
            room(nb, b as int, joff as int, lv.len * sdg * tv.len, jac@.len() as int),
            parents_first(st),
            k <= lv.len,
            st == vec_of(stat@, lv),
            ws0 == vec_of(old(ws)@, lv),
            blocks == jac_blocks(nb, b as int, joff as int, sdg, tv.len as int),
            vec_of(ws@, lv) == accelerated(st, ws0, k as int),
            same_outside_vec(old(ws)@, ws@, lv),
            vec_of(tau@, tv) == assembled(
                st,
                ws0,
                jac_of(jac@, blocks),
                g,
                tv.len as int,
                k as int,
            ),
            same_outside_vec(old(tau)@, tau@, tv),
        decreases lv.len - k,
    {
        proof {
            lemma_block_room(
                nb,
                b as int,
                joff as int,
                sdg,
                tv.len as int,
                lv.len as int,
                k as int,
                jac@.len() as int,
            );
        }
        let jv = if tv.len == 0 {
            MatView {
                base: 0,
                row_stride: ids.num_batches as usize,
                col_stride: 0,
                nrows: sd,
                ncols: 0,
            }
        } else {
            ids.imat(b, joff + k * sd * tv.len, sd, tv.len, jac.len())
        };
        assert(jv == blocks(k as int));
        assemble_link(stat, ws, lv, jac, jv, tau, tv, g, k, Ghost(ws0));
        k = k + 1;
    }
}

/// The right-hand side of one multibody: gravity and inertia, then damping,
/// then the force-based motors.
pub open spec fn mb_rhs<S: Scalar, D: Space<S>>(
    st: Seq<MultibodyLinkStatic<S, D>>,
    ws: Seq<MultibodyLinkWorkspace<S, D>>,
    jac: spec_fn(int) -> Seq<Seq<S>>,
    g: D::V,
    damping: Seq<S>,
    vel: Seq<S>,
    delay: Seq<S>,
    first_link: int,
) -> Seq<S> {
    let n = st.len() as int;
    pd_links(
        damped(assembled(st, ws, jac, g, vel.len() as int, n), damping, vel),
        st,
        ws,
        vel,
        delay,
        first_link,
        n,
    )
}

/// The motors read coordinates only, which the published accelerations leave
/// alone.
proof fn lemma_pd_ignores_acc<S: Scalar, D: Space<S>>(
    tau: Seq<S>,
    st: Seq<MultibodyLinkStatic<S, D>>,
    ws: Seq<MultibodyLinkWorkspace<S, D>>,
    vel: Seq<S>,
    delay: Seq<S>,
    first_link: int,
    k: int,
)
    requires
        0 <= k <= ws.len(),
    ensures
        pd_links(tau, st, accelerated(st, ws, ws.len() as int), vel, delay, first_link, k)
            == pd_links(tau, st, ws, vel, delay, first_link, k),
    decreases k,
{
    if k > 0 {
        lemma_pd_ignores_acc(tau, st, ws, vel, delay, first_link, k - 1);
    }
}

/// The descriptor of multibody `i` of batch `b`.
pub open spec fn mb_at_spec(
    ids: BatchIndices,
    b: int,
    i: int,
    info: Seq<MultibodyInfo>,
) -> MultibodyInfo {
    info[mbi_spec(ids.num_batches as int, b, i)]
}

/// The descriptor of multibody `i` of batch `b` is there.
pub open spec fn mb_listed(ids: BatchIndices, b: int, i: int, info: Seq<MultibodyInfo>) -> bool {
    0 <= b < ids.num_batches && mbi_spec(ids.num_batches as int, b, i) < info.len()
}

pub fn mb_at(ids: &BatchIndices, b: u32, i: u32, info: &[MultibodyInfo]) -> (r: MultibodyInfo)
    requires
        mb_listed(*ids, b as int, i as int, info@),
    ensures
        r == mb_at_spec(*ids, b as int, i as int, info@),
{
    let n: usize = info.len();
    assert(0 <= i * ids.num_batches) by (nonlinear_arith)
        requires
            i >= 0,
            ids.num_batches >= 0,
    ;
    info[ids.mbi(b, i as usize)]
}

/// Where the data of one multibody lives in the shared buffers.
#[derive(Clone, Copy)]
pub struct MbViews {
    pub links: VecView,
    pub dofs: VecView,
    pub damping: VecView,
    pub mass: MatView,
    pub delay: VecView,
    pub joff: usize,
}

/// The views of multibody `mb` of batch `b`.
pub open spec fn mb_views_spec(ids: BatchIndices, b: int, mb: MultibodyInfo) -> MbViews {
    let nb = ids.num_batches as int;
    MbViews {
        links: ivec_spec(nb, b, mb.first_link as int, mb.num_links as int),
        dofs: ivec_spec(nb, b, mb.first_dof as int, mb.ndofs as int),
        damping: ivec_spec(nb, b, ids.dof_batch_capacity + mb.first_dof, mb.ndofs as int),
        mass: imat_spec(nb, b, mb.mass_matrix_offset as int, mb.ndofs as int, mb.ndofs as int),
        delay: VecView {
            base: (b * (2 + ids.links_batch_capacity)) as usize,
            stride: 1,
            len: (2 + ids.links_batch_capacity) as usize,
        },
        joff: mb.jacobian_offset as usize,
    }
}

/// The data of multibody `mb` of batch `b` lies inside the buffers.
pub open spec fn mb_room<S: Scalar, D: Space<S>>(
    ids: BatchIndices,
    b: int,
    mb: MultibodyInfo,
    stat: Seq<MultibodyLinkStatic<S, D>>,
    ws: Seq<MultibodyLinkWorkspace<S, D>>,
    jac: Seq<S>,
    tau: Seq<S>,
    mass: Seq<S>,
    pivots: Seq<u32>,
    dof: Seq<S>,
    delay: Seq<S>,
) -> bool {
    let nb = ids.num_batches as int;
    let sd = D::dimension_spec().spatial_spec();
    &&& room(nb, b, mb.first_link as int, mb.num_links as int, stat.len() as int)
    &&& room(nb, b, mb.first_link as int, mb.num_links as int, ws.len() as int)
    &&& room(nb, b, mb.first_dof as int, mb.ndofs as int, tau.len() as int)
    &&& room(nb, b, mb.first_dof as int, mb.ndofs as int, pivots.len() as int)
    &&& room(nb, b, mb.first_dof as int, mb.ndofs as int, dof.len() as int)
    &&& room(nb, b, ids.dof_batch_capacity + mb.first_dof, mb.ndofs as int, dof.len() as int)
    &&& room(nb, b, mb.mass_matrix_offset as int, mb.ndofs * mb.ndofs, mass.len() as int)
    &&& room(nb, b, mb.jacobian_offset as int, mb.num_links * sd * mb.ndofs, jac.len() as int)
    &&& delay.len() <= usize::MAX
    &&& (b + 1) * (2 + ids.links_batch_capacity) <= delay.len()
    &&& mb.first_link + mb.num_links <= ids.links_batch_capacity
    &&& parents_first(vec_of(stat, mb_views_spec(ids, b, mb).links))
    &&& dofs_in_range(vec_of(stat, mb_views_spec(ids, b, mb).links), mb.ndofs as int)
}

/// The right-hand side of multibody `mb` of batch `b`.
pub open spec fn mb_force<S: Scalar, D: Space<S>>(
    ids: BatchIndices,
    b: int,
    mb: MultibodyInfo,
    stat: Seq<MultibodyLinkStatic<S, D>>,
    ws: Seq<MultibodyLinkWorkspace<S, D>>,
    jac: Seq<S>,
    dof: Seq<S>,
    delay: Seq<S>,
    g: D::V,
) -> Seq<S> {
    let v = mb_views_spec(ids, b, mb);
    mb_rhs(
        vec_of(stat, v.links),
        vec_of(ws, v.links),
        jac_of(
            jac,
            jac_blocks(
                ids.num_batches as int,
                b,
                v.joff as int,
                D::dimension_spec().spatial_spec(),
                mb.ndofs as int,
            ),
        ),
        g,
        vec_of(dof, v.damping),
        vec_of(dof, v.dofs),
        vec_of(delay, v.delay),
        mb.first_link as int,
    )
}

/// The delay state after one multibody: multibody 0 of a batch counts the
/// step.
pub open spec fn mb_delay<S: Scalar>(
    ids: BatchIndices,
    b: int,
    mb: MultibodyInfo,
    delay: Seq<S>,
    bump: bool,
) -> Seq<S> {
    let d = vec_of(delay, mb_views_spec(ids, b, mb).delay);
    if bump {
        d.update(0, d[0].plus_spec(S::one_spec()))
    } else {
        d
    }
}

fn mb_views<S: Scalar, D: Space<S>>(
    ids: &BatchIndices,
    b: u32,
    mb: &MultibodyInfo,
    stat: &[MultibodyLinkStatic<S, D>],
    ws: &[MultibodyLinkWorkspace<S, D>],
    jac: &[S],
    tau: &[S],
    mass: &[S],
    pivots: &[u32],
    dof: &[S],
    delay: &[S],
) -> (v: MbViews)
    requires
        mb_room(
            *ids,
            b as int,
            *mb,
            stat@,
            ws@,
            jac@,
            tau@,
            mass@,
            pivots@,
            dof@,
            delay@,
        ),
    ensures
        v == mb_views_spec(*ids, b as int, *mb),
        v.links.fits(stat@.len() as int),
        v.links.fits(ws@.len() as int),
        v.links.len == mb.num_links,
        v.dofs.fits(tau@.len() as int),
        v.dofs.fits(pivots@.len() as int),
        v.dofs.fits(dof@.len() as int),
        v.dofs.len == mb.ndofs,
        v.damping.fits(dof@.len() as int),
        v.damping.len == mb.ndofs,
        v.mass.fits(mass@.len() as int),
        v.mass.nrows == mb.ndofs,
        v.mass.ncols == mb.ndofs,
        v.delay.fits(delay@.len() as int),
        v.delay.len == 2 + ids.links_batch_capacity,
{
    let first_dof: usize = mb.first_dof as usize;
    let ndofs: usize = mb.ndofs as usize;
    proof {
        let nb = ids.num_batches as int;
        lemma_ivec_fits(nb, b as int, mb.first_link as int, mb.num_links as int, ws@.len() as int);
        lemma_ivec_fits(nb, b as int, mb.first_dof as int, mb.ndofs as int, pivots@.len() as int);
        lemma_ivec_fits(nb, b as int, mb.first_dof as int, mb.ndofs as int, dof@.len() as int);
        let dcap = ids.dof_batch_capacity + mb.first_dof;
        lemma_ivec_fits(nb, b as int, dcap, mb.ndofs as int, dof@.len() as int);
        assert(dcap + mb.ndofs <= (dcap + mb.ndofs) * nb) by (nonlinear_arith)
            requires
                nb >= 1,
                dcap + mb.ndofs >= 0,
        ;
        let stride = 2 + ids.links_batch_capacity as int;
        assert((b + 1) * stride == b * stride + stride && 0 <= b * stride && stride <= (b + 1)
            * stride) by (nonlinear_arith)
            requires
                b >= 0,
                stride >= 0,
        ;
    }
    let stride: usize = 2 + ids.links_batch_capacity as usize;
    MbViews {
        links: ids.ivec(b, mb.first_link as usize, mb.num_links as usize, stat.len()),
        dofs: ids.ivec(b, first_dof, ndofs, tau.len()),
        damping: ids.ivec(b, ids.dof_batch_capacity as usize + first_dof, ndofs, dof.len()),
        mass: ids.imat(b, mb.mass_matrix_offset as usize, ndofs, ndofs, mass.len()),
        delay: VecView { base: b as usize * stride, stride: 1, len: stride },
        joff: mb.jacobian_offset as usize,
    }
}

/// Phases 1 and 2 of every tier: the right-hand side of one multibody.
fn assemble_rhs<S: Scalar, D: Space<S>>(
    ids: &BatchIndices,
    b: u32,
    first_link: u32,
    v: MbViews,
    stat: &[MultibodyLinkStatic<S, D>],
    ws: &mut [MultibodyLinkWorkspace<S, D>],
    jac: &[S],
    tau: &mut [S],
    dof: &[S],
    g: D::V,
    delay: &mut [S],
    bump: bool,
)
    requires
        v.links.fits(stat@.len() as int),
        v.links.fits(old(ws)@.len() as int),
        v.dofs.fits(old(tau)@.len() as int),
        v.dofs.fits(dof@.len() as int),
        v.damping.fits(dof@.len() as int),
        v.damping.len == v.dofs.len,
        v.delay.fits(old(delay)@.len() as int),
        v.delay.len >= 2 + first_link + v.links.len,
        room(
            ids.num_batches as int,
            b as int,
            v.joff as int,
            v.links.len * D::dimension_spec().spatial_spec() * v.dofs.len,
            jac@.len() as int,
        ),
        parents_first(vec_of(stat@, v.links)),
        dofs_in_range(vec_of(stat@, v.links), v.dofs.len as int),
    ensures
        vec_of(final(ws)@, v.links) == accelerated(
            vec_of(stat@, v.links),
            vec_of(old(ws)@, v.links),
            v.links.len as int,
        ),
        same_outside_vec(old(ws)@, final(ws)@, v.links),
        vec_of(final(tau)@, v.dofs) == mb_rhs(
            vec_of(stat@, v.links),
            vec_of(old(ws)@, v.links),
            jac_of(
                jac@,
                jac_blocks(
                    ids.num_batches as int,
                    b as int,
                    v.joff as int,
                    D::dimension_spec().spatial_spec(),
                    v.dofs.len as int,
                ),
            ),
            g,
            vec_of(dof@, v.damping),
            vec_of(dof@, v.dofs),
            vec_of(old(delay)@, v.delay),
            first_link as int,
        ),
        same_outside_vec(old(tau)@, final(tau)@, v.dofs),
        vec_of(final(delay)@, v.delay) == (if bump {
            vec_of(old(delay)@, v.delay).update(
                0,
                vec_of(old(delay)@, v.delay)[0].plus_spec(S::one_spec()),
            )
        } else {
            vec_of(old(delay)@, v.delay)
        }),
        same_outside_vec(old(delay)@, final(delay)@, v.delay),
{
    let ghost st = vec_of(stat@, v.links);
    let ghost ws0 = vec_of(ws@, v.links);
    assemble_forces(ids, b, v.joff, stat, ws, v.links, jac, tau, v.dofs, g);
    apply_damping(tau, v.dofs, dof, v.damping, v.dofs);
    proof {
        lemma_pd_ignores_acc(
            vec_of(tau@, v.dofs),
            st,
            ws0,
            vec_of(dof@, v.dofs),
            vec_of(delay@, v.delay),
            first_link as int,
            v.links.len as int,
        );
    }
    apply_force_based_pd(
        stat,
        ws,
        v.links,
        dof,
        v.dofs,
        tau,
        v.dofs,
        delay,
        v.delay,
        first_link,
        bump,
    );
}

/// Phases 3 and 4 of the lane tiers: factor and solve on a tile.
fn solve_on_tile<S: Scalar>(
    n: usize,
    mass: &mut [S],
    mv: MatView,
    pivots: &mut [u32],
    dv: VecView,
    tau: &mut [S],
    mat: &mut [S],
    tile: MatView,
    x: &mut [S],
    partial: &mut [S],
    seg: VecView,
)
    requires
        n <= u32::MAX,
        mv.fits(old(mass)@.len() as int),
        mv.nrows == n,
        mv.ncols == n,
        dv.fits(old(pivots)@.len() as int),
        dv.fits(old(tau)@.len() as int),
        dv.len == n,
        tile.fits(old(mat)@.len() as int),
        tile.nrows == n,
        tile.ncols == n,
        seg.fits(old(x)@.len() as int),
        seg.fits(old(partial)@.len() as int),
        seg.len >= n,
        seg.len > 0,
    ensures
        mat_of(final(mass)@, mv) == lu_factors(mat_of(old(mass)@, mv), n as int),
        same_outside_mat(old(mass)@, final(mass)@, mv),
        vec_of(final(pivots)@, dv) == lu_pivots(mat_of(old(mass)@, mv)),
        same_outside_vec(old(pivots)@, final(pivots)@, dv),
        vec_of(final(tau)@, dv) == triangular_solve(
            lu_factors(mat_of(old(mass)@, mv), n as int),
            apply_pivots(vec_of(old(tau)@, dv), lu_pivots(mat_of(old(mass)@, mv)), n as int),
            seg.len as int,
        ),
        same_outside_vec(old(tau)@, final(tau)@, dv),
        same_outside_mat(old(mat)@, final(mat)@, tile),
        same_outside_vec(old(x)@, final(x)@, seg),
        same_outside_vec(old(partial)@, final(partial)@, seg),
{
    let xv = VecView { base: seg.base, stride: seg.stride, len: n };
    assert(n > 0 ==> (n - 1) * seg.stride <= (seg.len - 1) * seg.stride) by (nonlinear_arith)
        requires
            n <= seg.len,
            seg.stride >= 0,
    ;
    assert(xv.fits(x@.len() as int));
    copy_mat(mass, mv, mat, tile);
    copy_vec(tau, dv, x, xv);
    proof {
        assert forall|k: int| xv.holds(k) implies seg.holds(k) by {
            let i = choose|i: int| 0 <= i < xv.len && #[trigger] xv.idx_spec(i) == k;
            assert(seg.idx_spec(i) == k);
        }
    }
    lu_decompose(mat, tile, pivots, dv);
    proof {
        lu_pivots_in_range(mat_of(old(mass)@, mv));
    }
    copy_mat(mat, tile, mass, mv);
    lu_apply_pivots(pivots, dv, x, xv);
    lu_triangular_solve_in_place(mat, tile, x, xv, partial, seg);
    copy_vec(x, xv, tau, dv);
}

/// What one pass over multibody `i` of batch `b` changes: the links' published
/// accelerations, the mass matrix (its factors take its place), the row
/// exchanges, the generalized forces (`solution` takes their place) and the
/// step counter. Everything else in the buffers stays.
pub open spec fn mb_step<S: Scalar, D: Space<S>>(
    ids: BatchIndices,
    b: int,
    i: int,
    mb: MultibodyInfo,
    stat: Seq<MultibodyLinkStatic<S, D>>,
    ws0: Seq<MultibodyLinkWorkspace<S, D>>,
    ws1: Seq<MultibodyLinkWorkspace<S, D>>,
    tau0: Seq<S>,
    tau1: Seq<S>,
    mass0: Seq<S>,
    mass1: Seq<S>,
    pivots0: Seq<u32>,
    pivots1: Seq<u32>,
    delay0: Seq<S>,
    delay1: Seq<S>,
    solution: Seq<S>,
) -> bool {
    let v = mb_views_spec(ids, b, mb);
    let m = mat_of(mass0, v.mass);
    &&& vec_of(ws1, v.links) == accelerated(
        vec_of(stat, v.links),
        vec_of(ws0, v.links),
        mb.num_links as int,
    )
    &&& same_outside_vec(ws0, ws1, v.links)
    &&& mat_of(mass1, v.mass) == lu_factors(m, mb.ndofs as int)
    &&& same_outside_mat(mass0, mass1, v.mass)
    &&& vec_of(pivots1, v.dofs) == lu_pivots(m)
    &&& same_outside_vec(pivots0, pivots1, v.dofs)
    &&& vec_of(tau1, v.dofs) == solution
    &&& same_outside_vec(tau0, tau1, v.dofs)
    &&& vec_of(delay1, v.delay) == mb_delay(ids, b, mb, delay0, i == 0)
    &&& same_outside_vec(delay0, delay1, v.delay)
}

/// The accelerations of multibody `mb` as a lane tier solves for them.
pub open spec fn mb_accelerations_tree<S: Scalar, D: Space<S>>(
    ids: BatchIndices,
    b: int,
    mb: MultibodyInfo,
    mass: Seq<S>,
    rhs: Seq<S>,
    lanes: int,
) -> Seq<S> {
    let m = mat_of(mass, mb_views_spec(ids, b, mb).mass);
    triangular_solve(
        lu_factors(m, mb.ndofs as int),
        apply_pivots(rhs, lu_pivots(m), mb.ndofs as int),
        lanes,
    )
}

/// The accelerations of multibody `mb` as the serial tier solves for them.
pub open spec fn mb_accelerations_serial<S: Scalar, D: Space<S>>(
    ids: BatchIndices,
    b: int,
    mb: MultibodyInfo,
    mass: Seq<S>,
    rhs: Seq<S>,
) -> Seq<S> {
    let m = mat_of(mass, mb_views_spec(ids, b, mb).mass);
    lu_solve(lu_factors(m, mb.ndofs as int), lu_pivots(m), rhs)
}

/// Accelerations of one multibody, factored in the shared tile `mat`.
pub fn gpu_mb_gravity_and_lu<S: Scalar, D: Space<S>>(
    mb_idx: u32,
    b: u32,
    multibody_info: &[MultibodyInfo],
    links_static: &[MultibodyLinkStatic<S, D>],
    links_workspace: &mut [MultibodyLinkWorkspace<S, D>],
    body_jacobians: &[S],
    gen_forces: &mut [S],
    mass_matrices: &mut [S],
    pivots: &mut [u32],
    dof_state: &[S],
    gravity: D::V,
    ids: &BatchIndices,
    motor_delay_state: &mut [S],
    mat: &mut [S],
    x: &mut [S],
    partial: &mut [S],
)
    requires
        mb_listed(*ids, b as int, mb_idx as int, multibody_info@),
        ({
            let mb = mb_at_spec(*ids, b as int, mb_idx as int, multibody_info@);
            &&& mb.ndofs <= 64
            &&& mb_room(
                *ids,
                b as int,
                mb,
                links_static@,
                old(links_workspace)@,
                body_jacobians@,
                old(gen_forces)@,
                old(mass_matrices)@,
                old(pivots)@,
                dof_state@,
                old(motor_delay_state)@,
            )
        }),
        old(mat)@.len() == 4096,
        old(x)@.len() == 64,
        old(partial)@.len() == 64,
    ensures
        ({
            let mb = mb_at_spec(*ids, b as int, mb_idx as int, multibody_info@);
            let rhs = mb_force(
                *ids,
                b as int,
                mb,
                links_static@,
                old(links_workspace)@,
                body_jacobians@,
                dof_state@,
                old(motor_delay_state)@,
                gravity,
            );
            mb_step(
                *ids,
                b as int,
                mb_idx as int,
                mb,
                links_static@,
                old(links_workspace)@,
                final(links_workspace)@,
                old(gen_forces)@,
                final(gen_forces)@,
                old(mass_matrices)@,
                final(mass_matrices)@,
                old(pivots)@,
                final(pivots)@,
                old(motor_delay_state)@,
                final(motor_delay_state)@,
                mb_accelerations_tree::<S, D>(*ids, b as int, mb, old(mass_matrices)@, rhs, 64),
            )
        }),
        final(mat)@.len() == 4096,
        final(x)@.len() == 64,
        final(partial)@.len() == 64,
{
    let mb = mb_at(ids, b, mb_idx, multibody_info);
    let v = mb_views(
        ids,
        b,
        &mb,
        links_static,
        links_workspace,
        body_jacobians,
        gen_forces,
        mass_matrices,
        pivots,
        dof_state,
        motor_delay_state,
    );
    assemble_rhs(
        ids,
        b,
        mb.first_link,
        v,
        links_static,
        links_workspace,
        body_jacobians,
        gen_forces,
        dof_state,
        gravity,
        motor_delay_state,
        mb_idx == 0,
    );
    let n: usize = mb.ndofs as usize;
    let tile = MatView { base: 0, row_stride: 1, col_stride: 64, nrows: n, ncols: n };
    let seg = VecView { base: 0, stride: 1, len: 64 };
    solve_on_tile(
        n,
        mass_matrices,
        v.mass,
        pivots,
        v.dofs,
        gen_forces,
        mat,
        tile,
        x,
        partial,
        seg,
    );
}

// ---- the flattened tiers ----

/// Which multibody a flat position stands for: the batch and the multibody
/// within it, or nothing past the last one.
pub open spec fn flat_decode_spec(ids: BatchIndices, flat: int) -> Option<(int, int)> {
    let num_mb = ids.multibodies_len as int;
    if num_mb > 0 && 0 <= flat < num_mb * ids.num_batches {
        Some((flat / num_mb, flat % num_mb))
    } else {
        None
    }
}

/// Every multibody of every batch has exactly one flat position.
pub proof fn flat_decode_is_bijective(ids: BatchIndices, b: int, i: int, flat: int)
    requires
        0 <= b < ids.num_batches,
        0 <= i < ids.multibodies_len,
    ensures
        flat_decode_spec(ids, flat) == Some((b, i)) <==> flat == b * ids.multibodies_len + i,
{
    let m = ids.multibodies_len as int;
    let nb = ids.num_batches as int;
    if flat == b * m + i {
        vstd::arithmetic::div_mod::lemma_fundamental_div_mod_converse(flat, m, b, i);
        assert(0 <= flat < m * nb) by (nonlinear_arith)
            requires
                flat == b * m + i,
                0 <= b < nb,
                0 <= i < m,
        ;
    }
    if flat_decode_spec(ids, flat) == Some((b, i)) {
        vstd::arithmetic::div_mod::lemma_fundamental_div_mod(flat, m);
        assert(m * b == b * m) by (nonlinear_arith);
    }
}

/// The multibody at a flat position.
pub fn flat_decode(ids: &BatchIndices, flat: u64) -> (r: Option<(u32, u32)>)
    ensures
        match (r, flat_decode_spec(*ids, flat as int)) {
            (Some(x), Some(y)) => x.0 == y.0 && x.1 == y.1,
            (None, None) => true,
            _ => false,
        },
{
    let num_mb: u64 = ids.multibodies_len as u64;
    assert(0 <= num_mb * ids.num_batches <= 0xffff_ffff * 0xffff_ffff) by (nonlinear_arith)
        requires
            0 <= num_mb <= 0xffff_ffff,
            0 <= ids.num_batches <= 0xffff_ffff,
    ;
    if num_mb == 0 || flat >= num_mb * ids.num_batches as u64 {
        return None;
    }
    let q: u64 = flat / num_mb;
    let r: u64 = flat % num_mb;
    assert(q < ids.num_batches && r < num_mb) by (nonlinear_arith)
        requires
            q == flat / num_mb,
            r == flat % num_mb,
            num_mb > 0,
            flat < num_mb * ids.num_batches,
    ;
    Some((q as u32, r as u32))
}

/// The data of the multibody at a flat position, if there is one, lies inside
/// the buffers, and it has at most `t` degrees of freedom.
pub open spec fn slot_room<S: Scalar, D: Space<S>>(
    ids: BatchIndices,
    flat: int,
    t: int,
    info: Seq<MultibodyInfo>,
    stat: Seq<MultibodyLinkStatic<S, D>>,
    ws: Seq<MultibodyLinkWorkspace<S, D>>,
    jac: Seq<S>,
    tau: Seq<S>,
    mass: Seq<S>,
    pivots: Seq<u32>,
    dof: Seq<S>,
    delay: Seq<S>,
) -> bool {
    match flat_decode_spec(ids, flat) {
        Some((b, i)) => {
            let mb = mb_at_spec(ids, b, i, info);
            &&& mb_listed(ids, b, i, info)
            &&& mb.ndofs <= t
            &&& mb_room(ids, b, mb, stat, ws, jac, tau, mass, pivots, dof, delay)
        },
        None => true,
    }
}

/// What the tier with `t` lanes per multibody changes at a flat position; past
/// the last multibody, nothing.
pub open spec fn slot_step<S: Scalar, D: Space<S>>(
    ids: BatchIndices,
    flat: int,
    t: int,
    info: Seq<MultibodyInfo>,
    stat: Seq<MultibodyLinkStatic<S, D>>,
    ws0: Seq<MultibodyLinkWorkspace<S, D>>,
    ws1: Seq<MultibodyLinkWorkspace<S, D>>,
    jac: Seq<S>,
    tau0: Seq<S>,
    tau1: Seq<S>,
    mass0: Seq<S>,
    mass1: Seq<S>,
    pivots0: Seq<u32>,
    pivots1: Seq<u32>,
    dof: Seq<S>,
    g: D::V,
    delay0: Seq<S>,
    delay1: Seq<S>,
) -> bool {
    match flat_decode_spec(ids, flat) {
        Some((b, i)) => {
            let mb = mb_at_spec(ids, b, i, info);
            let rhs = mb_force(ids, b, mb, stat, ws0, jac, dof, delay0, g);
            mb_step(
                ids,
                b,
                i,
                mb,
                stat,
                ws0,
                ws1,
                tau0,
                tau1,
                mass0,
                mass1,
                pivots0,
                pivots1,
                delay0,
                delay1,
                mb_accelerations_tree::<S, D>(ids, b, mb, mass0, rhs, t),
            )
        },
        None => {
            &&& ws1 == ws0
            &&& tau1 == tau0
            &&& mass1 == mass0
            &&& pivots1 == pivots0
            &&& delay1 == delay0
        },
    }
}

/// One slot of a packed workgroup: `64 / T` multibodies share the tile
/// memory, each owning `T` lanes and a `T x T` tile.
pub fn gravity_and_lu_packed_impl<S: Scalar, D: Space<S>, const T: u32>(
    wg_id: u32,
    slot: u32,
    multibody_info: &[MultibodyInfo],
    links_static: &[MultibodyLinkStatic<S, D>],
    links_workspace: &mut [MultibodyLinkWorkspace<S, D>],
    body_jacobians: &[S],
    gen_forces: &mut [S],
    mass_matrices: &mut [S],
    pivots: &mut [u32],
    dof_state: &[S],
    gravity: D::V,
    ids: &BatchIndices,
    motor_delay_state: &mut [S],
    mat: &mut [S],
    x: &mut [S],
    partial: &mut [S],
)
    requires
        1 <= T <= 64,
        slot * T + T <= 64,
        slot_room(
            *ids,
            wg_id * (64u32 / T) + slot,
            T as int,
            multibody_info@,
            links_static@,
            old(links_workspace)@,
            body_jacobians@,
            old(gen_forces)@,
            old(mass_matrices)@,
            old(pivots)@,
            dof_state@,
            old(motor_delay_state)@,
        ),
        old(mat)@.len() == 64 * T,
        old(x)@.len() == 64,
        old(partial)@.len() == 64,
    ensures
        slot_step(
            *ids,
            wg_id * (64u32 / T) + slot,
            T as int,
            multibody_info@,
            links_static@,
            old(links_workspace)@,
            final(links_workspace)@,
            body_jacobians@,
            old(gen_forces)@,
            final(gen_forces)@,
            old(mass_matrices)@,
            final(mass_matrices)@,
            old(pivots)@,
            final(pivots)@,
            dof_state@,
            gravity,
            old(motor_delay_state)@,
            final(motor_delay_state)@,
        ),
        final(mat)@.len() == 64 * T,
        final(x)@.len() == 64,
        final(partial)@.len() == 64,
{
    assert(0 <= wg_id * (64u32 / T) + slot <= 0xffff_ffff * 64 + 64 && 0 <= slot * T)
        by (nonlinear_arith)
        requires
            0 <= wg_id <= 0xffff_ffff,
            1 <= T <= 64,
            slot * T <= 64,
            slot >= 0,
    ;
    let slots: u64 = (64 / T) as u64;
    assert(0 <= wg_id * slots <= 0xffff_ffff * 64) by (nonlinear_arith)
        requires
            0 <= wg_id <= 0xffff_ffff,
            0 <= slots <= 64,
    ;
    let (b, mb_idx): (u32, u32) = match flat_decode(ids, wg_id as u64 * slots + slot as u64) {
        Some(p) => p,
        None => {
            return ;
        },
    };
    let mb = mb_at(ids, b, mb_idx, multibody_info);
    let v = mb_views(
        ids,
        b,
        &mb,
        links_static,
        links_workspace,
        body_jacobians,
        gen_forces,
        mass_matrices,
        pivots,
        dof_state,
        motor_delay_state,
    );
    assemble_rhs(
        ids,
        b,
        mb.first_link,
        v,
        links_static,
        links_workspace,
        body_jacobians,
        gen_forces,
        dof_state,
        gravity,
        motor_delay_state,
        mb_idx == 0,
    );
    let n: usize = mb.ndofs as usize;
    proof {
        lemma_packed_tile_fits(T as usize, slot as usize, n, mat@.len() as int);
    }
    let base: usize = sm_idx_packed::<T>(slot, 0, 0);
    let tile = MatView { base: base, row_stride: 1, col_stride: T as usize, nrows: n, ncols: n };
    let seg = VecView { base: (slot * T) as usize, stride: 1, len: T as usize };
    solve_on_tile(
        n,
        mass_matrices,
        v.mass,
        pivots,
        v.dofs,
        gen_forces,
        mat,
        tile,
        x,
        partial,
        seg,
    );
}

/// Slot `slot` of a workgroup of the tier for up to 8 degrees of freedom:
/// 8 multibodies per workgroup.
pub fn gpu_mb_gravity_and_lu_t8<S: Scalar, D: Space<S>>(
    wg_id: u32,
    slot: u32,
    multibody_info: &[MultibodyInfo],
    links_static: &[MultibodyLinkStatic<S, D>],
    links_workspace: &mut [MultibodyLinkWorkspace<S, D>],
    body_jacobians: &[S],
    gen_forces: &mut [S],
    mass_matrices: &mut [S],
    pivots: &mut [u32],
    dof_state: &[S],
    gravity: D::V,
    ids: &BatchIndices,
    motor_delay_state: &mut [S],
    mat: &mut [S],
    x: &mut [S],
    partial: &mut [S],
)
    requires
        slot < 8,
        slot_room(
            *ids,
            wg_id * 8 + slot,
            8,
            multibody_info@,
            links_static@,
            old(links_workspace)@,
            body_jacobians@,
            old(gen_forces)@,
            old(mass_matrices)@,
            old(pivots)@,
            dof_state@,
            old(motor_delay_state)@,
        ),
        old(mat)@.len() == 512,
        old(x)@.len() == 64,
        old(partial)@.len() == 64,
    ensures
        slot_step(
            *ids,
            wg_id * 8 + slot,
            8,
            multibody_info@,
            links_static@,
            old(links_workspace)@,
            final(links_workspace)@,
            body_jacobians@,
            old(gen_forces)@,
            final(gen_forces)@,
            old(mass_matrices)@,
            final(mass_matrices)@,
            old(pivots)@,
            final(pivots)@,
            dof_state@,
            gravity,
            old(motor_delay_state)@,
            final(motor_delay_state)@,
        ),
        final(mat)@.len() == 512,
        final(x)@.len() == 64,
        final(partial)@.len() == 64,
{
    gravity_and_lu_packed_impl::<S, D, 8>(
        wg_id,
        slot,
        multibody_info,
        links_static,
        links_workspace,
        body_jacobians,
        gen_forces,
        mass_matrices,
        pivots,
        dof_state,
        gravity,
        ids,
        motor_delay_state,
        mat,
        x,
        partial,
    );
}

/// Slot `slot` of a workgroup of the tier for up to 16 degrees of freedom:
/// 4 multibodies per workgroup.
pub fn gpu_mb_gravity_and_lu_t16<S: Scalar, D: Space<S>>(
    wg_id: u32,
    slot: u32,
    multibody_info: &[MultibodyInfo],
    links_static: &[MultibodyLinkStatic<S, D>],
    links_workspace: &mut [MultibodyLinkWorkspace<S, D>],
    body_jacobians: &[S],
    gen_forces: &mut [S],
    mass_matrices: &mut [S],
    pivots: &mut [u32],
    dof_state: &[S],
    gravity: D::V,
    ids: &BatchIndices,
    motor_delay_state: &mut [S],
    mat: &mut [S],
    x: &mut [S],
    partial: &mut [S],
)
    requires
        slot < 4,
        slot_room(
            *ids,
            wg_id * 4 + slot,
            16,
            multibody_info@,
            links_static@,
            old(links_workspace)@,
            body_jacobians@,
            old(gen_forces)@,
            old(mass_matrices)@,
            old(pivots)@,
            dof_state@,
            old(motor_delay_state)@,
        ),
        old(mat)@.len() == 1024,
        old(x)@.len() == 64,
        old(partial)@.len() == 64,
    ensures
        slot_step(
            *ids,
            wg_id * 4 + slot,
            16,
            multibody_info@,
            links_static@,
            old(links_workspace)@,
            final(links_workspace)@,
            body_jacobians@,
            old(gen_forces)@,
            final(gen_forces)@,
            old(mass_matrices)@,
            final(mass_matrices)@,
            old(pivots)@,
            final(pivots)@,
            dof_state@,
            gravity,
            old(motor_delay_state)@,
            final(motor_delay_state)@,
        ),
        final(mat)@.len() == 1024,
        final(x)@.len() == 64,
        final(partial)@.len() == 64,
{
    gravity_and_lu_packed_impl::<S, D, 16>(
        wg_id,
        slot,
        multibody_info,
        links_static,
        links_workspace,
        body_jacobians,
        gen_forces,
        mass_matrices,
        pivots,
        dof_state,
        gravity,
        ids,
        motor_delay_state,
        mat,
        x,
        partial,
    );
}

/// Slot `slot` of a workgroup of the tier for up to 32 degrees of freedom:
/// 2 multibodies per workgroup.
pub fn gpu_mb_gravity_and_lu_t32<S: Scalar, D: Space<S>>(
    wg_id: u32,
    slot: u32,
    multibody_info: &[MultibodyInfo],
    links_static: &[MultibodyLinkStatic<S, D>],
    links_workspace: &mut [MultibodyLinkWorkspace<S, D>],
    body_jacobians: &[S],
    gen_forces: &mut [S],
    mass_matrices: &mut [S],
    pivots: &mut [u32],
    dof_state: &[S],
    gravity: D::V,
    ids: &BatchIndices,
    motor_delay_state: &mut [S],
    mat: &mut [S],
    x: &mut [S],
    partial: &mut [S],
)
    requires
        slot < 2,
        slot_room(
            *ids,
            wg_id * 2 + slot,
            32,
            multibody_info@,
            links_static@,
            old(links_workspace)@,
            body_jacobians@,
            old(gen_forces)@,
            old(mass_matrices)@,
            old(pivots)@,
            dof_state@,
            old(motor_delay_state)@,
        ),
        old(mat)@.len() == 2048,
        old(x)@.len() == 64,
        old(partial)@.len() == 64,
    ensures
        slot_step(
            *ids,
            wg_id * 2 + slot,
            32,
            multibody_info@,
            links_static@,
            old(links_workspace)@,
            final(links_workspace)@,
            body_jacobians@,
            old(gen_forces)@,
            final(gen_forces)@,
            old(mass_matrices)@,
            final(mass_matrices)@,
            old(pivots)@,
            final(pivots)@,
            dof_state@,
            gravity,
            old(motor_delay_state)@,
            final(motor_delay_state)@,
        ),
        final(mat)@.len() == 2048,
        final(x)@.len() == 64,
        final(partial)@.len() == 64,
{
    gravity_and_lu_packed_impl::<S, D, 32>(
        wg_id,
        slot,
        multibody_info,
        links_static,
        links_workspace,
        body_jacobians,
        gen_forces,
        mass_matrices,
        pivots,
        dof_state,
        gravity,
        ids,
        motor_delay_state,
        mat,
        x,
        partial,
    );
}

/// Serial tier: one thread per multibody, everything in place.
pub fn gpu_mb_gravity_and_lu_t1<S: Scalar, D: Space<S>>(
    flat: u32,
    multibody_info: &[MultibodyInfo],
    links_static: &[MultibodyLinkStatic<S, D>],
    links_workspace: &mut [MultibodyLinkWorkspace<S, D>],
    body_jacobians: &[S],
    gen_forces: &mut [S],
    mass_matrices: &mut [S],
    pivots: &mut [u32],
    dof_state: &[S],
    gravity: D::V,
    ids: &BatchIndices,
    motor_delay_state: &mut [S],
)
    requires
        match flat_decode_spec(*ids, flat as int) {
            Some((b, i)) => {
                let mb = mb_at_spec(*ids, b, i, multibody_info@);
                &&& mb_listed(*ids, b, i, multibody_info@)
                &&& mb_room(
                    *ids,
                    b,
                    mb,
                    links_static@,
                    old(links_workspace)@,
                    body_jacobians@,
                    old(gen_forces)@,
                    old(mass_matrices)@,
                    old(pivots)@,
                    dof_state@,
                    old(motor_delay_state)@,
                )
            },
            None => true,
        },
    ensures
        match flat_decode_spec(*ids, flat as int) {
            Some((b, i)) => {
                let mb = mb_at_spec(*ids, b, i, multibody_info@);
                let rhs = mb_force(
                    *ids,
                    b,
                    mb,
                    links_static@,
                    old(links_workspace)@,
                    body_jacobians@,
                    dof_state@,
                    old(motor_delay_state)@,
                    gravity,
                );
                if mb.ndofs != 0 {
                    mb_step(
                        *ids,
                        b,
                        i,
                        mb,
                        links_static@,
                        old(links_workspace)@,
                        final(links_workspace)@,
                        old(gen_forces)@,
                        final(gen_forces)@,
                        old(mass_matrices)@,
                        final(mass_matrices)@,
                        old(pivots)@,
                        final(pivots)@,
                        old(motor_delay_state)@,
                        final(motor_delay_state)@,
                        mb_accelerations_serial::<S, D>(*ids, b, mb, old(mass_matrices)@, rhs),
                    )
                } else {
                    &&& final(links_workspace)@ == old(links_workspace)@
                    &&& final(gen_forces)@ == old(gen_forces)@
                    &&& final(mass_matrices)@ == old(mass_matrices)@
                    &&& final(pivots)@ == old(pivots)@
                    &&& final(motor_delay_state)@ == old(motor_delay_state)@
                }
            },
            None => {
                &&& final(links_workspace)@ == old(links_workspace)@
                &&& final(gen_forces)@ == old(gen_forces)@
                &&& final(mass_matrices)@ == old(mass_matrices)@
                &&& final(pivots)@ == old(pivots)@
                &&& final(motor_delay_state)@ == old(motor_delay_state)@
            },
        },
{
    let (b, mb_idx): (u32, u32) = match flat_decode(ids, flat as u64) {
        Some(p) => p,
        None => {
            return ;
        },
    };
    let mb = mb_at(ids, b, mb_idx, multibody_info);
    if mb.ndofs == 0 {
        return ;
    }
    let v = mb_views(
        ids,
        b,
        &mb,
        links_static,
        links_workspace,
        body_jacobians,
        gen_forces,
        mass_matrices,
        pivots,
        dof_state,
        motor_delay_state,
    );
    assemble_rhs(
        ids,
        b,
        mb.first_link,
        v,
        links_static,
        links_workspace,
        body_jacobians,
        gen_forces,
        dof_state,
        gravity,
        motor_delay_state,
        mb_idx == 0,
    );
    lu_decompose(mass_matrices, v.mass, pivots, v.dofs);
    proof {
        lu_pivots_in_range(mat_of(old(mass_matrices)@, v.mass));
    }
    lu_solve_in_place(mass_matrices, v.mass, pivots, v.dofs, gen_forces, v.dofs);
}

} // verus!
