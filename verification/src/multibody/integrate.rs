//! Semi-implicit Euler integration of the degrees of freedom.
//!
//! Velocities come first, then each link's coordinates and joint rotation.
use super::gravity_and_lu::{flat_decode, flat_decode_spec, mb_at, mb_at_spec, mb_listed};
use super::kinematics::{dofs_in_range, find_free, lemma_nth_free, nth_free};
use super::solve_constraints::dof_view;
use super::types::{MultibodyInfo, MultibodyLinkStatic, MultibodyLinkWorkspace};
use crate::batch::{BatchIndices, ivec_spec, room};
use crate::exact::ordered;
use crate::joint::{
    count_free_ang_dofs, free_axes, free_dofs_split, has_axis, lemma_free_axes_bound,
    lemma_free_axes_split, test_axis,
};
use crate::scalar::Scalar;
use crate::space::{Dimension, Space};
use crate::views::{VecView, load_vec, same_outside_vec, store_vec, vec_get, vec_of, vec_set};
use vstd::prelude::*;

verus! {

/// Velocities after the accelerations `acc` have acted for `dt`.
pub open spec fn accelerated_by<S: Scalar>(vel: Seq<S>, acc: Seq<S>, dt: S) -> Seq<S> {
    Seq::new(vel.len(), |d: int| vel[d].plus_spec(acc[d].times_spec(dt)))
}

/// Advances the velocities of the multibody at a flat position: `v += a dt`.
pub fn gpu_mb_integrate_velocities<S: Scalar>(
    flat: u32,
    multibody_info: &[MultibodyInfo],
    dof_state: &mut [S],
    gen_accelerations: &[S],
    dt: S,
    ids: &BatchIndices,
)
    requires
        match flat_decode_spec(*ids, flat as int) {
            None => true,
            Some((b, i)) => {
                let mb = mb_at_spec(*ids, b, i, multibody_info@);
                let nb = ids.num_batches as int;
                &&& mb_listed(*ids, b, i, multibody_info@)
                &&& room(
                nb,
                b,
                mb.first_dof as int,
                mb.ndofs as int,
                old(dof_state)@.len() as int,
            )
                &&& room(
                nb,
                b,
                mb.first_dof as int,
                mb.ndofs as int,
                gen_accelerations@.len() as int,
            )
            },
        },
    ensures
        match flat_decode_spec(*ids, flat as int) {
            None => final(dof_state)@ == old(dof_state)@,
            Some((b, i)) => {
                let dv = dof_view(*ids, b, mb_at_spec(*ids, b, i, multibody_info@));
                &&& vec_of(final(dof_state)@, dv) == accelerated_by(
                vec_of(old(dof_state)@, dv),
                vec_of(gen_accelerations@, dv),
                dt,
            )
                &&& same_outside_vec(old(dof_state)@, final(dof_state)@, dv)
            },
        },
{
    if let Some((b, i)) = flat_decode(ids, flat as u64) {
        let mb = mb_at(ids, b, i, multibody_info);
        let n: usize = dof_state.len();
        let m: usize = gen_accelerations.len();
        let dv = ids.ivec(b, mb.first_dof as usize, mb.ndofs as usize, n);
        let av = ids.ivec(b, mb.first_dof as usize, mb.ndofs as usize, m);
        let mut vel: Vec<S> = load_vec(dof_state, dv);
        let ghost v0 = vel@;
        let ghost acc = vec_of(gen_accelerations@, dv);
        let mut d: usize = 0;
        while d < dv.len
            invariant
                d <= dv.len,
                dv == av,
                av.fits(gen_accelerations@.len() as int),
                acc == vec_of(gen_accelerations@, dv),
                vel@.len() == dv.len,
                v0.len() == dv.len,
                forall|j: int|
                    0 <= j < dv.len ==> #[trigger] vel@[j] == (if j < d {
                        accelerated_by(v0, acc, dt)[j]
                    } else {
                        v0[j]
                    }),
            decreases dv.len - d,
        {
            let a = vec_get(gen_accelerations, av, d);
            let x = vel[d].plus(a.times(dt));
            vel.set(d, x);
            d = d + 1;
        }
        assert(vel@ =~= accelerated_by(v0, acc, dt));
        store_vec(&vel, dof_state, dv);
    }
}

/// Entries of `v` kept within plus and minus the limits `l`.
pub open spec fn limited<S: Scalar>(v: Seq<S>, l: Seq<S>) -> Seq<S> {
    Seq::new(v.len(), |d: int| v[d].maximum_spec(l[d].neg_spec()).minimum_spec(l[d]))
}

/// Section `k` of the state of a multibody's degrees of freedom.
pub open spec fn section_view(ids: BatchIndices, b: int, mb: MultibodyInfo, k: int) -> VecView {
    ivec_spec(
        ids.num_batches as int,
        b,
        mb.first_dof + k * ids.dof_batch_capacity,
        mb.ndofs as int,
    )
}

/// The velocities and section `k` of a multibody lie in a buffer of `n` entries.
pub open spec fn sections_fit(ids: BatchIndices, b: int, mb: MultibodyInfo, k: int, n: int) -> bool {
    let nb = ids.num_batches as int;
    &&& room(nb, b, mb.first_dof as int, mb.ndofs as int, n)
    &&& room(nb, b, mb.first_dof + k * ids.dof_batch_capacity, mb.ndofs as int, n)
}

/// Keeps the velocities of a multibody within the limits in section `k`.
fn limit_velocities<S: Scalar>(
    b: u32,
    mb: &MultibodyInfo,
    k: u32,
    dof_state: &mut [S],
    ids: &BatchIndices,
)
    requires
        k <= 8,
        sections_fit(*ids, b as int, *mb, k as int, old(dof_state)@.len() as int),
    ensures
        vec_of(final(dof_state)@, dof_view(*ids, b as int, *mb)) == limited(
            vec_of(old(dof_state)@, dof_view(*ids, b as int, *mb)),
            vec_of(old(dof_state)@, section_view(*ids, b as int, *mb, k as int)),
        ),
        same_outside_vec(old(dof_state)@, final(dof_state)@, dof_view(*ids, b as int, *mb)),
{
    let n: usize = dof_state.len();
    let ghost base = mb.first_dof + k * ids.dof_batch_capacity;
    if mb.ndofs == 0 {
        let ghost dv = dof_view(*ids, b as int, *mb);
        assert(vec_of(dof_state@, dv) =~= limited(
            vec_of(dof_state@, dv),
            vec_of(dof_state@, section_view(*ids, b as int, *mb, k as int)),
        ));
        return ;
    }
    assert(k * ids.dof_batch_capacity <= 8 * ids.dof_batch_capacity) by (nonlinear_arith)
        requires
            0 <= k <= 8,
            ids.dof_batch_capacity >= 0,
    ;
    assert(base <= (base + mb.ndofs) * ids.num_batches) by (nonlinear_arith)
        requires
            base >= 0,
            mb.ndofs >= 0,
            ids.num_batches >= 1,
    ;
    let off: u64 = k as u64 * ids.dof_batch_capacity as u64;
    let dv = ids.ivec(b, mb.first_dof as usize, mb.ndofs as usize, n);
    let lv = ids.ivec(b, (mb.first_dof as u64 + off) as usize, mb.ndofs as usize, n);
    let mut vel: Vec<S> = load_vec(dof_state, dv);
    let lim: Vec<S> = load_vec(dof_state, lv);
    let ghost v0 = vel@;
    let mut d: usize = 0;
    while d < dv.len
        invariant
            d <= dv.len,
            vel@.len() == dv.len,
            v0.len() == dv.len,
            lim@.len() == dv.len,
            forall|j: int|
                0 <= j < dv.len ==> #[trigger] vel@[j] == (if j < d {
                    limited(v0, lim@)[j]
                } else {
                    v0[j]
                }),
        decreases dv.len - d,
    {
        let l = lim[d];
        let x = vel[d].maximum(l.negate()).minimum(l);
        vel.set(d, x);
        d = d + 1;
    }
    assert(vel@ =~= limited(v0, lim@));
    store_vec(&vel, dof_state, dv);
}

/// Section of the velocity limits that hold from step to step.
pub const STEP_LIMITS: u32 = 4;

/// Section of the velocity limits that hold when positions advance.
pub const SUBSTEP_LIMITS: u32 = 5;

/// Keeps the velocities that the previous step left to the multibody at a flat
/// position within their limits.
pub fn gpu_mb_clamp_dof_velocities<S: Scalar>(
    flat: u32,
    multibody_info: &[MultibodyInfo],
    dof_state: &mut [S],
    ids: &BatchIndices,
)
    requires
        match flat_decode_spec(*ids, flat as int) {
            None => true,
            Some((b, i)) => mb_listed(*ids, b, i, multibody_info@) && sections_fit(
                *ids,
                b,
                mb_at_spec(*ids, b, i, multibody_info@),
                STEP_LIMITS as int,
                old(dof_state)@.len() as int,
            ),
        },
    ensures
        match flat_decode_spec(*ids, flat as int) {
            None => final(dof_state)@ == old(dof_state)@,
            Some((b, i)) => {
                let mb = mb_at_spec(*ids, b, i, multibody_info@);
                let dv = dof_view(*ids, b, mb);
                &&& vec_of(final(dof_state)@, dv) == limited(
                vec_of(old(dof_state)@, dv),
                vec_of(old(dof_state)@, section_view(*ids, b, mb, STEP_LIMITS as int)),
            )
                &&& same_outside_vec(old(dof_state)@, final(dof_state)@, dv)
            },
        },
{
    if let Some((b, i)) = flat_decode(ids, flat as u64) {
        let mb = mb_at(ids, b, i, multibody_info);
        limit_velocities(b, &mb, STEP_LIMITS, dof_state, ids);
    }
}

// ---- positions ----

/// The number of free angular axes.
pub open spec fn free_angles(dim: Dimension, locked: u32) -> int {
    free_axes(locked, dim.lin_spec(), dim.spatial_spec())
}

/// Whether the coordinate of axis `i` advances. Joints with two free angular
/// axes keep their angles.
pub open spec fn axis_moves(dim: Dimension, locked: u32, i: int) -> bool {
    &&& !has_axis(locked, i)
    &&& i < dim.lin_spec() || (i < dim.spatial_spec() && (free_angles(dim, locked) == 1
        || free_angles(dim, locked) == 3))
}

/// The coordinates of a link after moving at the velocities `vel` for `dt`.
pub open spec fn moved_coords<S: Scalar>(
    dim: Dimension,
    locked: u32,
    coords: Seq<S>,
    vel: Seq<S>,
    first: int,
    dt: S,
) -> Seq<S> {
    Seq::new(
        coords.len(),
        |i: int|
            if axis_moves(dim, locked, i) {
                coords[i].plus_spec(vel[first + free_axes(locked, 0, i)].times_spec(dt))
            } else {
                coords[i]
            },
    )
}

/// The joint rotation of a link after moving at the velocities `vel` for `dt`:
/// that of the new angle about a single free axis, or a turn by the angular
/// velocity.
pub open spec fn moved_rot<S: Scalar, D: Space<S>>(
    locked: u32,
    rot: D::R,
    coords: Seq<S>,
    vel: Seq<S>,
    first: int,
    dt: S,
) -> D::R {
    let dim = D::dimension_spec();
    let lin = dim.lin_spec();
    let at = first + free_axes(locked, 0, lin);
    if free_angles(dim, locked) == 1 {
        let i = nth_free(locked, lin, dim.spatial_spec(), 0);
        D::rexp_spec(
            D::aaxis_spec(i - lin, moved_coords(dim, locked, coords, vel, first, dt)[i]),
        )
    } else if free_angles(dim, locked) == 3 {
        D::rnormalize_spec(
            D::rmul_spec(
                D::rexp_spec(
                    D::ascale_spec(D::afrom_spec(vel[at], vel[at + 1], vel[at + 2]), dt),
                ),
                rot,
            ),
        )
    } else {
        rot
    }
}

/// `w1` is the workspace `w0` of a link after moving at the velocities `vel` for
/// `dt`.
pub open spec fn link_moved<S: Scalar, D: Space<S>>(
    stat: MultibodyLinkStatic<S, D>,
    w0: MultibodyLinkWorkspace<S, D>,
    vel: Seq<S>,
    dt: S,
    w1: MultibodyLinkWorkspace<S, D>,
) -> bool {
    let locked = stat.data.locked_axes;
    let first = stat.assembly_id as int;
    &&& w1.coords@ == moved_coords(D::dimension_spec(), locked, w0.coords@, vel, first, dt)
    &&& w1 == (MultibodyLinkWorkspace {
        coords: w1.coords,
        joint_rot: moved_rot::<S, D>(locked, w0.joint_rot, w0.coords@, vel, first, dt),
        ..w0
    })
}

proof fn lemma_sole_angle(dim: Dimension, locked: u32, i: int)
    requires
        free_angles(dim, locked) == 1,
        i == nth_free(locked, dim.lin_spec(), dim.spatial_spec(), 0),
    ensures
        dim.lin_spec() <= i < dim.spatial_spec(),
        !has_axis(locked, i),
        free_axes(locked, 0, i) == free_axes(locked, 0, dim.lin_spec()),
        forall|j: int| dim.lin_spec() <= j < dim.spatial_spec() && j != i ==> has_axis(locked, j),
{
    let lo = dim.lin_spec();
    let hi = dim.spatial_spec();
    lemma_nth_free(locked, lo, hi, 0);
    lemma_nth_is_free(locked, lo, hi, 0);
    lemma_free_axes_split(locked, 0, lo, i);
    assert forall|j: int| lo <= j < hi && j != i implies has_axis(locked, j) by {
        let a = if i < j {
            i
        } else {
            j
        };
        let c = if i < j {
            j
        } else {
            i
        };
        lemma_free_axes_split(locked, lo, a, hi);
        lemma_free_axes_split(locked, a, a + 1, hi);
        lemma_free_axes_split(locked, a + 1, c, hi);
        lemma_free_axes_split(locked, c, c + 1, hi);
        lemma_free_axes_bound(locked, lo, a);
        lemma_free_axes_bound(locked, a + 1, c);
        lemma_free_axes_bound(locked, c + 1, hi);
        assert(free_axes(locked, a, a) == 0);
        assert(free_axes(locked, c, c) == 0);
    }
}

proof fn lemma_nth_is_free(locked: u32, lo: int, hi: int, c: int)
    requires
        lo <= hi,
        0 <= c < free_axes(locked, lo, hi),
    ensures
        !has_axis(locked, nth_free(locked, lo, hi, c)),
        free_axes(locked, lo, nth_free(locked, lo, hi, c)) == c,
    decreases hi - lo,
{
    if lo < hi {
        if !(!has_axis(locked, hi - 1) && free_axes(locked, lo, hi - 1) == c) {
            lemma_nth_is_free(locked, lo, hi - 1, c);
        }
    }
}

/// Where all angles are free, none is locked.
proof fn lemma_all_free(dim: Dimension, locked: u32)
    requires
        free_angles(dim, locked) == 3,
    ensures
        dim == Dimension::Three,
        !has_axis(locked, 3),
        !has_axis(locked, 4),
        !has_axis(locked, 5),
        free_axes(locked, 0, 4) == free_axes(locked, 0, 3) + 1,
        free_axes(locked, 0, 5) == free_axes(locked, 0, 3) + 2,
{
    let lo = dim.lin_spec();
    let hi = dim.spatial_spec();
    lemma_free_axes_bound(locked, lo, hi);
    reveal_with_fuel(free_axes, 4);
    assert(free_axes(locked, 3, 3) == 0);
    assert(free_axes(locked, 3, 4) == if has_axis(locked, 3) {
        0int
    } else {
        1
    });
}

/// Moves one link at the velocities of its joint for `dt`.
pub fn integrate_link<S: Scalar, D: Space<S>>(
    stat: &MultibodyLinkStatic<S, D>,
    ws: &mut MultibodyLinkWorkspace<S, D>,
    dof_vel: &[S],
    vv: VecView,
    dt: S,
)
    requires
        vv.fits(dof_vel@.len() as int),
        stat.assembly_id + free_axes(
            stat.data.locked_axes,
            0,
            D::dimension_spec().spatial_spec(),
        ) <= vv.len,
    ensures
        link_moved(*stat, *old(ws), vec_of(dof_vel@, vv), dt, *final(ws)),
{
    let ghost w0 = *ws;
    let ghost c0 = ws.coords@;
    let ghost vel = vec_of(dof_vel@, vv);
    let dim = D::dimension();
    let locked: u32 = stat.data.locked_axes;
    let aid: usize = stat.assembly_id as usize;
    let ghost first = stat.assembly_id as int;
    let lin: u32 = dim.lin();
    let ghost goal = moved_coords(dim, locked, c0, vel, first, dt);
    proof {
        free_dofs_split(dim, locked);
        lemma_free_axes_bound(locked, lin as int, dim.spatial_spec());
    }
    let mut free: usize = 0;
    let mut i: u32 = 0;
    while i < lin
        invariant
            i <= lin,
            lin == dim.lin_spec(),
            dim == D::dimension_spec(),
            vel == vec_of(dof_vel@, vv),
            vv.fits(dof_vel@.len() as int),
            free == free_axes(locked, 0, i as int),
            free <= i,
            aid == first,
            first + free_axes(locked, 0, lin as int) <= vv.len,
            goal == moved_coords(dim, locked, c0, vel, first, dt),
            c0.len() == 6,
            *ws == (MultibodyLinkWorkspace { coords: ws.coords, ..w0 }),
            forall|j: int|
                0 <= j < 6 ==> #[trigger] ws.coords@[j] == (if j < i {
                    goal[j]
                } else {
                    c0[j]
                }),
        decreases lin - i,
    {
        if !test_axis(locked, i) {
            proof {
                lemma_free_axes_split(locked, 0, i + 1, lin as int);
                lemma_free_axes_bound(locked, i + 1, lin as int);
            }
            let v = vec_get(dof_vel, vv, aid + free);
            let cur = ws.coords[i as usize];
            ws.coords[i as usize] = cur.plus(v.times(dt));
            free = free + 1;
        }
        i = i + 1;
    }
    let num_ang: u32 = count_free_ang_dofs(dim, locked);
    if num_ang == 1 {
        let spatial: u32 = dim.spatial();
        let k: u32 = find_free(locked, lin, spatial, 0);
        proof {
            lemma_sole_angle(dim, locked, k as int);
        }
        let v = vec_get(dof_vel, vv, aid + free);
        let x = ws.coords[k as usize].plus(v.times(dt));
        ws.coords[k as usize] = x;
        ws.joint_rot = D::rexp(D::aaxis((k - lin) as usize, x));
        assert(ws.coords@ =~= goal);
    } else if num_ang == 3 {
        proof {
            lemma_all_free(dim, locked);
        }
        let vx = vec_get(dof_vel, vv, aid + free);
        let vy = vec_get(dof_vel, vv, aid + free + 1);
        let vz = vec_get(dof_vel, vv, aid + free + 2);
        let disp = D::rexp(D::ascale(D::afrom(vx, vy, vz), dt));
        ws.joint_rot = D::rnormalize(D::rmul(disp, ws.joint_rot));
        let x = ws.coords[3].plus(vx.times(dt));
        let y = ws.coords[4].plus(vy.times(dt));
        let z = ws.coords[5].plus(vz.times(dt));
        ws.coords[3] = x;
        ws.coords[4] = y;
        ws.coords[5] = z;
        assert(ws.coords@ =~= goal);
    } else {
        assert(ws.coords@ =~= goal);
    }
}

/// Advances the coordinates of the multibody at a flat position, after keeping
/// its velocities within their limits.
pub fn gpu_mb_integrate<S: Scalar, D: Space<S>>(
    flat: u32,
    multibody_info: &[MultibodyInfo],
    links_static: &[MultibodyLinkStatic<S, D>],
    links_workspace: &mut [MultibodyLinkWorkspace<S, D>],
    dof_state: &mut [S],
    dt: S,
    ids: &BatchIndices,
)
    requires
        match flat_decode_spec(*ids, flat as int) {
            None => true,
            Some((b, i)) => {
                let mb = mb_at_spec(*ids, b, i, multibody_info@);
                let nb = ids.num_batches as int;
                &&& mb_listed(*ids, b, i, multibody_info@)
                &&& sections_fit(*ids, b, mb, SUBSTEP_LIMITS as int, old(dof_state)@.len() as int)
                &&& room(
                nb,
                b,
                mb.first_link as int,
                mb.num_links as int,
                links_static@.len() as int,
            )
                &&& room(
                nb,
                b,
                mb.first_link as int,
                mb.num_links as int,
                old(links_workspace)@.len() as int,
            )
                &&& dofs_in_range(
                vec_of(links_static@, links_view(*ids, b, mb)),
                mb.ndofs as int,
            )
            },
        },
    ensures
        match flat_decode_spec(*ids, flat as int) {
            None => final(dof_state)@ == old(dof_state)@ && final(links_workspace)@ == old(
                links_workspace,
            )@,
            Some((b, i)) => {
                let mb = mb_at_spec(*ids, b, i, multibody_info@);
                let dv = dof_view(*ids, b, mb);
                let lv = links_view(*ids, b, mb);
                let vel = limited(
                    vec_of(old(dof_state)@, dv),
                    vec_of(old(dof_state)@, section_view(*ids, b, mb, SUBSTEP_LIMITS as int)),
                );
                &&& vec_of(final(dof_state)@, dv) == vel
                &&& same_outside_vec(old(dof_state)@, final(dof_state)@, dv)
                &&& forall|k: int|
                0 <= k < mb.num_links ==> link_moved(
                    vec_of(links_static@, lv)[k],
                    vec_of(old(links_workspace)@, lv)[k],
                    vel,
                    dt,
                    #[trigger] vec_of(final(links_workspace)@, lv)[k],
                )
                &&& same_outside_vec(old(links_workspace)@, final(links_workspace)@, lv)
            },
        },
{
    if let Some((b, i)) = flat_decode(ids, flat as u64) {
        let mb = mb_at(ids, b, i, multibody_info);
        limit_velocities(b, &mb, SUBSTEP_LIMITS, dof_state, ids);
        let nd: usize = dof_state.len();
        let ns: usize = links_static.len();
        let nw: usize = links_workspace.len();
        let dv = ids.ivec(b, mb.first_dof as usize, mb.ndofs as usize, nd);
        let sv = ids.ivec(b, mb.first_link as usize, mb.num_links as usize, ns);
        let lv = ids.ivec(b, mb.first_link as usize, mb.num_links as usize, nw);
        let ghost w0 = links_workspace@;
        let ghost ws0 = vec_of(w0, lv);
        let ghost st = vec_of(links_static@, sv);
        let ghost vel = vec_of(dof_state@, dv);
        let mut k: usize = 0;
        while k < lv.len
            invariant
                k <= lv.len,
                sv == lv,
                dv.fits(dof_state@.len() as int),
                sv.fits(links_static@.len() as int),
                lv.fits(w0.len() as int),
                links_workspace@.len() == w0.len(),
                dv.len == mb.ndofs,
                st == vec_of(links_static@, sv),
                ws0 == vec_of(w0, lv),
                vel == vec_of(dof_state@, dv),
                dofs_in_range(st, mb.ndofs as int),
                same_outside_vec(w0, links_workspace@, lv),
                forall|j: int|
                    0 <= j < k ==> link_moved(
                        st[j],
                        ws0[j],
                        vel,
                        dt,
                        #[trigger] vec_of(links_workspace@, lv)[j],
                    ),
                forall|j: int|
                    k <= j < lv.len ==> #[trigger] vec_of(links_workspace@, lv)[j] == ws0[j],
            decreases lv.len - k,
        {
            let stat = vec_get(links_static, sv, k);
            let mut ws = vec_get(links_workspace, lv, k);
            assert(st[k as int] == stat);
            integrate_link(&stat, &mut ws, dof_state, dv, dt);
            vec_set(links_workspace, lv, k, ws);
            k = k + 1;
        }
    }
}

/// The links of a multibody.
pub open spec fn links_view(ids: BatchIndices, b: int, mb: MultibodyInfo) -> VecView {
    ivec_spec(ids.num_batches as int, b, mb.first_link as int, mb.num_links as int)
}

/// Limited velocities lie within their limits, where these are not negative: one that
/// lies within stays, and one beyond a limit becomes the limit.
pub proof fn limited_velocities_stay_in_limits<S: Scalar>(
    v: spec_fn(S) -> real,
    vel: Seq<S>,
    limits: Seq<S>,
    d: int,
)
    requires
        ordered(v),
        0 <= d < vel.len(),
        0real <= v(limits[d]),
    ensures
        -v(limits[d]) <= v(limited(vel, limits)[d]) <= v(limits[d]),
        -v(limits[d]) <= v(vel[d]) <= v(limits[d]) ==> v(limited(vel, limits)[d]) == v(vel[d]),
        v(limits[d]) <= v(vel[d]) ==> v(limited(vel, limits)[d]) == v(limits[d]),
        v(vel[d]) <= -v(limits[d]) ==> v(limited(vel, limits)[d]) == -v(limits[d]),
{
}

} // verus!
