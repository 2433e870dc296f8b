//! What remains of the mass matrix at rest.
use super::dynamics::{
    MassOptions, cor_col, cor_inherited, cor_joint, cor_settled, coriolis_impulse, dyn_room,
    dyn_step, lemma_jac_ignores_velocity, mass_entry, mass_matrix, pose_view_spec, quad_entry,
    settled_links, spatial_product,
};
use super::gravity::{has_mass, link_world_inertia_spec, parents_first};
use super::jacobian_laws::{angular_value, geometric, vector_value};
use super::kinematics::{
    dofs_in_range, jac_col, joint_column_spec, joint_frame_rot, joint_lin_vel, joint_velocity,
    lemma_nth_free, link_velocity, local_joint_velocity, moving, nth_free, placed, root_pose_spec,
};
use super::mass_laws::{chains_complete, chains_keep_the_mass_matrix, inertia_value, inertial};
use super::tier_laws::{lemma_same_vec, read_alike};
use super::types::{MultibodyInfo, MultibodyLinkStatic, MultibodyLinkWorkspace};
use crate::batch::{BatchIndices, imat_spec, ivec_spec};
use crate::exact::{exact, lemma_zero};
use crate::joint::{free_axes, has_axis, lemma_free_axes_bound, lemma_free_axes_split};
use crate::real_vectors::{lemma_cross_zero, lemma_dot_zero, lemma_image_zero, r3_zero};
use crate::scalar::{Scalar, two_spec};
use crate::space::{
    Dim2, Dim3, Mat3, Pose, Quat, Rot2, Space, V2, V3, Velocity, cross_spec, gyro_inertia_spec,
    mat_vec_spec, qimag_spec,
};
use crate::views::{VecView, mat_of, vec_of};
use vstd::prelude::*;

verus! {

/// Under the reading `v`, what is made of zero vectors and of the velocity zero is
/// zero, and no gyroscopic term remains.
pub open spec fn rests<S: Scalar, D: Space<S>>(v: spec_fn(S) -> real) -> bool {
    &&& forall|i: int, s: S|
        0 <= i < D::dimension_spec().lin_spec() && v(s) == 0real ==> vector_value::<S, D>(
            v,
            #[trigger] D::vaxis_spec(i, s),
        ) == r3_zero()
    &&& forall|i: int, s: S|
        0 <= i < D::dimension_spec().ang_spec() && v(s) == 0real ==> angular_value::<S, D>(
            v,
            #[trigger] D::aaxis_spec(i, s),
        ) == r3_zero()
    &&& forall|x: S, y: S, z: S|
        v(x) == 0real && v(y) == 0real && v(z) == 0real ==> angular_value::<S, D>(
            v,
            #[trigger] D::afrom_spec(x, y, z),
        ) == r3_zero()
    &&& forall|r: D::R, a: D::V|
        vector_value::<S, D>(v, a) == r3_zero() ==> vector_value::<S, D>(
            v,
            #[trigger] D::rapply_spec(r, a),
        ) == r3_zero()
    &&& forall|r: D::R, a: D::A|
        angular_value::<S, D>(v, a) == r3_zero() ==> angular_value::<S, D>(
            v,
            #[trigger] D::rapply_ang_spec(r, a),
        ) == r3_zero()
    &&& forall|x: D::A, a: D::A, b: D::A|
        angular_value::<S, D>(v, a) == r3_zero() ==> angular_value::<S, D>(
            v,
            #[trigger] D::aadd_cross_spec(x, a, b),
        ) == angular_value::<S, D>(v, x)
    &&& forall|x: D::A, a: D::A, b: D::A|
        angular_value::<S, D>(v, a) == r3_zero() ==> angular_value::<S, D>(
            v,
            #[trigger] D::asub_cross_spec(x, a, b),
        ) == angular_value::<S, D>(v, x)
    &&& forall|a: D::A, k: S|
        angular_value::<S, D>(v, a) == r3_zero() ==> angular_value::<S, D>(
            v,
            #[trigger] D::ascale_spec(a, k),
        ) == r3_zero()
    &&& forall|m: D::I, w: D::A, dt: S, a: D::A|
        angular_value::<S, D>(v, w) == r3_zero() ==> angular_value::<S, D>(
            v,
            #[trigger] D::imul_spec(D::igyro_spec(m, w, dt), a),
        ) == angular_value::<S, D>(v, D::imul_spec(m, a))
}

// ---- velocities ----

/// The link and its joint rest.
pub open spec fn resting<S: Scalar, D: Space<S>>(
    v: spec_fn(S) -> real,
    ws: MultibodyLinkWorkspace<S, D>,
) -> bool {
    &&& vector_value::<S, D>(v, ws.rb_vels.linear) == r3_zero()
    &&& angular_value::<S, D>(v, ws.rb_vels.angular) == r3_zero()
    &&& vector_value::<S, D>(v, ws.joint_velocity.linear) == r3_zero()
    &&& angular_value::<S, D>(v, ws.joint_velocity.angular) == r3_zero()
}

/// Every generalized velocity is zero.
pub open spec fn all_zero<S: Scalar>(v: spec_fn(S) -> real, q: Seq<S>) -> bool {
    forall|i: int| 0 <= i < q.len() ==> v(#[trigger] q[i]) == 0real
}

proof fn lemma_linear_rest<S: Scalar, D: Space<S>>(
    v: spec_fn(S) -> real,
    locked: u32,
    q: Seq<S>,
    aid: int,
    i: int,
)
    requires
        geometric::<S, D>(v),
        rests::<S, D>(v),
        all_zero(v, q),
        0 <= aid,
        0 <= i <= D::dimension_spec().lin_spec(),
        aid + free_axes(locked, 0, D::dimension_spec().lin_spec()) <= q.len(),
    ensures
        vector_value::<S, D>(v, joint_lin_vel::<S, D>(locked, q, aid, i)) == r3_zero(),
    decreases i,
{
    if i > 0 {
        lemma_linear_rest::<S, D>(v, locked, q, aid, i - 1);
        if !has_axis(locked, i - 1) {
            let dim = D::dimension_spec().lin_spec();
            lemma_free_axes_split(locked, 0, i, dim);
            lemma_free_axes_bound(locked, i, dim);
            lemma_free_axes_bound(locked, 0, i - 1);
            let s = q[aid + free_axes(locked, 0, i - 1)];
            assert(v(s) == 0real);
            assert(vector_value::<S, D>(v, D::vaxis_spec(i - 1, s)) == r3_zero());
        }
    }
}

proof fn lemma_joint_rest<S: Scalar, D: Space<S>>(
    v: spec_fn(S) -> real,
    st: MultibodyLinkStatic<S, D>,
    q: Seq<S>,
)
    requires
        geometric::<S, D>(v),
        rests::<S, D>(v),
        all_zero(v, q),
        st.assembly_id + free_axes(
            st.data.locked_axes,
            0,
            D::dimension_spec().spatial_spec(),
        ) <= q.len(),
    ensures
        vector_value::<S, D>(v, local_joint_velocity(st, q).linear) == r3_zero(),
        angular_value::<S, D>(v, local_joint_velocity(st, q).angular) == r3_zero(),
{
    let locked = st.data.locked_axes;
    let dim = D::dimension_spec().lin_spec();
    let sd = D::dimension_spec().spatial_spec();
    let aid = st.assembly_id as int;
    lemma_free_axes_split(locked, 0, dim, sd);
    lemma_free_axes_bound(locked, 0, dim);
    lemma_free_axes_bound(locked, dim, sd);
    lemma_linear_rest::<S, D>(v, locked, q, aid, dim);
    let at = aid + free_axes(locked, 0, dim);
    let ang = free_axes(locked, dim, sd);
    if ang == 1 {
        lemma_nth_free(locked, dim, sd, 0);
        assert(v(q[at]) == 0real);
        let i = nth_free(locked, dim, sd, 0) - dim;
        assert(angular_value::<S, D>(v, D::aaxis_spec(i, q[at])) == r3_zero());
    } else if ang == 3 {
        assert(v(q[at]) == 0real);
        assert(v(q[at + 1]) == 0real);
        assert(v(q[at + 2]) == 0real);
        assert(angular_value::<S, D>(v, D::afrom_spec(q[at], q[at + 1], q[at + 2])) == r3_zero());
    }
}

proof fn lemma_link_rest<S: Scalar, D: Space<S>>(
    v: spec_fn(S) -> real,
    st: Seq<MultibodyLinkStatic<S, D>>,
    ws: Seq<MultibodyLinkWorkspace<S, D>>,
    q: Seq<S>,
    k: int,
)
    requires
        geometric::<S, D>(v),
        rests::<S, D>(v),
        all_zero(v, q),
        0 <= k < st.len(),
        dofs_in_range(st, q.len() as int),
    ensures
        vector_value::<S, D>(v, joint_velocity(st, ws, q, k).linear) == r3_zero(),
        angular_value::<S, D>(v, joint_velocity(st, ws, q, k).angular) == r3_zero(),
        vector_value::<S, D>(v, link_velocity(st, ws, q, k).linear) == r3_zero(),
        angular_value::<S, D>(v, link_velocity(st, ws, q, k).angular) == r3_zero(),
    decreases k,
{
    assert(st[k].assembly_id + free_axes(
        st[k].data.locked_axes,
        0,
        D::dimension_spec().spatial_spec(),
    ) <= q.len());
    lemma_joint_rest(v, st[k], q);
    let p = st[k].parent_link_id as int;
    if 0 <= p < k {
        lemma_link_rest(v, st, ws, q, p);
        let shift = D::vsub_spec(
            ws[k].local_to_world.point_spec(st[k].local_mprops.com),
            ws[p].local_to_world.point_spec(st[p].local_mprops.com),
        );
        lemma_cross_zero(vector_value::<S, D>(v, shift));
        lemma_cross_zero(vector_value::<S, D>(v, ws[k].shift23));
    }
}

// ---- Coriolis columns ----

proof fn lemma_cor_rest<S: Scalar, D: Space<S>>(
    v: spec_fn(S) -> real,
    st: Seq<MultibodyLinkStatic<S, D>>,
    ws: Seq<MultibodyLinkWorkspace<S, D>>,
    k: int,
    c: int,
)
    requires
        geometric::<S, D>(v),
        inertial::<S, D>(v),
        rests::<S, D>(v),
        0 <= k < st.len(),
        forall|i: int| 0 <= i < st.len() ==> resting(v, #[trigger] ws[i]),
    ensures
        vector_value::<S, D>(v, cor_col(st, ws, k, c).linear) == r3_zero(),
        angular_value::<S, D>(v, cor_col(st, ws, k, c).angular) == r3_zero(),
    decreases k,
{
    let p = st[k].parent_link_id as int;
    let w = ws[k];
    assert(resting(v, ws[k]));
    lemma_cross_zero(vector_value::<S, D>(v, w.shift02));
    lemma_cross_zero(vector_value::<S, D>(v, w.shift23));
    lemma_zero(v(two_spec::<S>()));
    if has_mass(st[k].local_mprops) {
        let ja = jac_col(st, ws, k, c).angular;
        let start = if 0 <= p < k {
            lemma_cor_rest(v, st, ws, p, c);
            assert(resting(v, ws[p]));
            let pw = ws[p].rb_vels.angular;
            let pc = cor_col(st, ws, p, c);
            let pja = jac_col(st, ws, p, c).angular;
            lemma_cross_zero(angular_value::<S, D>(v, pja));
            lemma_cross_zero(vector_value::<S, D>(v, D::gcross_av_spec(pja, w.shift02)));
            let inh = cor_inherited(pc, pja, w, pw);
            assert(vector_value::<S, D>(v, inh.linear) == r3_zero());
            let j = joint_column_spec::<S, D>(
                st[k].data.locked_axes,
                joint_frame_rot(st, ws, k),
                c - st[k].assembly_id,
            );
            lemma_cross_zero(vector_value::<S, D>(v, j.linear));
            let out = cor_joint(
                inh,
                st[k],
                pw,
                joint_frame_rot(st, ws, k),
                c - st[k].assembly_id,
            );
            assert(vector_value::<S, D>(v, out.linear) == r3_zero());
            out
        } else {
            Velocity::zero_spec()
        };
        assert(angular_value::<S, D>(v, start.angular) == r3_zero());
        lemma_cross_zero(angular_value::<S, D>(v, ja));
        lemma_cross_zero(vector_value::<S, D>(v, D::gcross_av_spec(ja, w.shift23)));
        assert(cor_col(st, ws, k, c) == cor_settled(start, ja, w));
    }
}

// ---- the mass matrix ----

proof fn lemma_entry_rest<S: Scalar, D: Space<S>>(
    v: spec_fn(S) -> real,
    st: Seq<MultibodyLinkStatic<S, D>>,
    ws: Seq<MultibodyLinkWorkspace<S, D>>,
    opt: MassOptions<S>,
    k: int,
    i: int,
    j: int,
)
    requires
        exact(v),
        geometric::<S, D>(v),
        inertial::<S, D>(v),
        rests::<S, D>(v),
        0 <= k <= st.len(),
        forall|a: int| 0 <= a < st.len() ==> resting(v, #[trigger] ws[a]),
    ensures
        v(mass_entry(st, ws, (MassOptions { coriolis: true, ..opt }), k, i, j)) == v(
            mass_entry(st, ws, (MassOptions { coriolis: false, ..opt }), k, i, j),
        ),
    decreases k,
{
    if k > 0 {
        lemma_entry_rest(v, st, ws, opt, k - 1, i, j);
        let a = k - 1;
        let lmp = st[a].local_mprops;
        if has_mass(lmp) {
            assert(resting(v, ws[a]));
            let mass = S::one_spec().over_spec(D::vget_spec(lmp.inv_mass, 0));
            let inertia = link_world_inertia_spec(ws[a], lmp);
            let full = D::igyro_spec(inertia, ws[a].rb_vels.angular, opt.dt);
            let ji = jac_col(st, ws, a, i);
            let jj = jac_col(st, ws, a, j);
            assert(angular_value::<S, D>(v, D::imul_spec(full, jj.angular)) == angular_value::<
                S,
                D,
            >(v, D::imul_spec(inertia, jj.angular)));
            assert(v(D::gdot_spec(ji.angular, D::imul_spec(full, jj.angular))) == v(
                D::gdot_spec(ji.angular, D::imul_spec(inertia, jj.angular)),
            ));
            assert(v(quad_entry(ji, jj, mass, full)) == v(quad_entry(ji, jj, mass, inertia)));
            lemma_cor_rest(v, st, ws, a, j);
            let col = cor_col(st, ws, a, j);
            let imp = coriolis_impulse(st, ws, opt.dt, a, j);
            lemma_zero(v(mass.times_spec(opt.dt)));
            lemma_image_zero(inertia_value::<S, D>(v, inertia));
            assert(vector_value::<S, D>(v, imp.linear) == r3_zero());
            assert(angular_value::<S, D>(v, D::imul_spec(inertia, col.angular)) == r3_zero());
            assert(angular_value::<S, D>(v, imp.angular) == r3_zero());
            lemma_dot_zero(vector_value::<S, D>(v, ji.linear));
            lemma_dot_zero(angular_value::<S, D>(v, ji.angular));
            assert(v(spatial_product(ji, imp)) == 0real);
        }
    }
}

/// In exact arithmetic, the mass matrix with Coriolis terms is the one without them
/// while every generalized velocity is zero, whether or not either is restricted to
/// chains.
pub proof fn coriolis_terms_vanish_at_rest<S: Scalar, D: Space<S>>(
    v: spec_fn(S) -> real,
    st: Seq<MultibodyLinkStatic<S, D>>,
    ws: Seq<MultibodyLinkWorkspace<S, D>>,
    with: MassOptions<S>,
    without: MassOptions<S>,
    damping: Seq<S>,
    armature: Seq<S>,
    q: Seq<S>,
    i: int,
    j: int,
)
    requires
        exact(v),
        geometric::<S, D>(v),
        inertial::<S, D>(v),
        rests::<S, D>(v),
        ws.len() == st.len(),
        dofs_in_range(st, q.len() as int),
        with.coriolis,
        !without.coriolis,
        with.dt == without.dt,
        with.chain != without.chain ==> parents_first(st) && chains_complete(
            st,
            damping.len() as int,
        ),
        all_zero(v, q),
        0 <= i < damping.len(),
        0 <= j < damping.len(),
    ensures
        ({
            let w = moving(st, ws, q, st.len() as int);
            v(mass_matrix(st, w, with, damping, armature)[i][j]) == v(
                mass_matrix(st, w, without, damping, armature)[i][j],
            )
        }),
{
    let n = st.len() as int;
    let w = moving(st, ws, q, n);
    assert forall|a: int| 0 <= a < st.len() implies resting(v, #[trigger] w[a]) by {
        lemma_link_rest(v, st, ws, q, a);
    }
    lemma_entry_rest(v, st, w, with, n, i, j);
    let same = MassOptions { coriolis: false, ..with };
    assert(with == (MassOptions { coriolis: true, ..with }));
    if with.chain != without.chain {
        chains_keep_the_mass_matrix(v, st, w, same, n, i as u32, j as u32);
        if with.chain {
            assert(same == (MassOptions { chain: true, ..same }));
            assert(without == (MassOptions { chain: false, ..same }));
        } else {
            assert(same == (MassOptions { chain: false, ..same }));
            assert(without == (MassOptions { chain: true, ..same }));
        }
    } else {
        assert(same == without);
    }
}

/// In exact arithmetic, a pass with Coriolis terms and one without them leave a
/// resting multibody alike.
pub proof fn resting_passes_agree<S: Scalar, D: Space<S>>(
    v: spec_fn(S) -> real,
    ids: BatchIndices,
    b: int,
    mb: MultibodyInfo,
    stat: Seq<MultibodyLinkStatic<S, D>>,
    ws: Seq<MultibodyLinkWorkspace<S, D>>,
    poses: Seq<Pose<S, D>>,
    jac: Seq<S>,
    mass: Seq<S>,
    dof: Seq<S>,
    with: MassOptions<S>,
    without: MassOptions<S>,
    ws1: Seq<MultibodyLinkWorkspace<S, D>>,
    poses1: Seq<Pose<S, D>>,
    jac1: Seq<S>,
    mass1: Seq<S>,
    ws2: Seq<MultibodyLinkWorkspace<S, D>>,
    poses2: Seq<Pose<S, D>>,
    jac2: Seq<S>,
    mass2: Seq<S>,
)
    requires
        exact(v),
        geometric::<S, D>(v),
        inertial::<S, D>(v),
        rests::<S, D>(v),
        dyn_room(ids, b, mb, stat, ws, poses, jac, mass, dof),
        with.coriolis,
        !without.coriolis,
        with.dt == without.dt,
        with.chain != without.chain ==> chains_complete(
            vec_of(stat, link_view(ids, b, mb)),
            mb.ndofs as int,
        ),
        all_zero(
            v,
            vec_of(
                dof,
                ivec_spec(ids.num_batches as int, b, mb.first_dof as int, mb.ndofs as int),
            ),
        ),
        dyn_step(ids, b, mb, stat, ws, ws1, poses, poses1, jac, jac1, mass, mass1, dof, with),
        dyn_step(ids, b, mb, stat, ws, ws2, poses, poses2, jac, jac2, mass, mass2, dof, without),
    ensures
        ws1 == ws2,
        poses1 == poses2,
        read_alike(v, mass1, mass2),
{
    let nb = ids.num_batches as int;
    let n = mb.ndofs as int;
    let links = link_view(ids, b, mb);
    let st = vec_of(stat, links);
    let w0 = vec_of(ws, links);
    let pv = pose_view_spec(ids, b);
    let q = vec_of(dof, ivec_spec(nb, b, mb.first_dof as int, n));
    let damping = vec_of(dof, ivec_spec(nb, b, ids.dof_batch_capacity + mb.first_dof, n));
    let armature = vec_of(dof, ivec_spec(nb, b, 2 * ids.dof_batch_capacity + mb.first_dof, n));
    let mv = imat_spec(nb, b, mb.mass_matrix_offset as int, n, n);
    let done = settled_links(mb, st, w0, vec_of(poses, pv), q);
    lemma_same_vec(ws, ws1, ws2, links);
    lemma_same_vec(poses, poses1, poses2, pv);
    let m1 = mass_matrix(st, done, with, damping, armature);
    let m2 = mass_matrix(st, done, without, damping, armature);
    assert forall|i: int, j: int| 0 <= i < n && 0 <= j < n implies v(#[trigger] m1[i][j]) == v(
        m2[i][j],
    ) by {
        if st.len() > 0 {
            let root = root_pose_spec(mb.root_is_dynamic != 0, st, w0, vec_of(poses, pv));
            coriolis_terms_vanish_at_rest(
                v,
                st,
                placed(st, w0, root, st.len() as int),
                with,
                without,
                damping,
                armature,
                q,
                i,
                j,
            );
        }
    }
    assert(mat_of(mass1, mv) == m1);
    assert(mat_of(mass2, mv) == m2);
    assert forall|k: int| 0 <= k < mass1.len() implies v(#[trigger] mass1[k]) == v(mass2[k]) by {
        if mv.holds(k) {
            let (i, j) = choose|i: int, j: int|
                0 <= i < mv.nrows && 0 <= j < mv.ncols && #[trigger] mv.idx_spec(i, j) == k;
            assert(mat_of(mass1, mv)[i][j] == mass1[k]);
            assert(mat_of(mass2, mv)[i][j] == mass2[k]);
            assert(v(m1[i][j]) == v(m2[i][j]));
        } else {
            assert(mass[k] == mass1[k] && mass[k] == mass2[k]);
        }
    }
}

/// Where the links of multibody `mb` of batch `b` are.
pub open spec fn link_view(ids: BatchIndices, b: int, mb: MultibodyInfo) -> VecView {
    ivec_spec(ids.num_batches as int, b, mb.first_link as int, mb.num_links as int)
}

proof fn lemma_entry_ignores_velocity<S: Scalar, D: Space<S>>(
    st: Seq<MultibodyLinkStatic<S, D>>,
    ws: Seq<MultibodyLinkWorkspace<S, D>>,
    opt: MassOptions<S>,
    q: Seq<S>,
    k: int,
    i: int,
    j: int,
)
    requires
        !opt.coriolis,
        0 <= k <= ws.len(),
    ensures
        mass_entry(st, moving(st, ws, q, ws.len() as int), opt, k, i, j) == mass_entry(
            st,
            ws,
            opt,
            k,
            i,
            j,
        ),
    decreases k,
{
    if k > 0 {
        lemma_entry_ignores_velocity(st, ws, opt, q, k - 1, i, j);
        lemma_jac_ignores_velocity(st, ws, q, k - 1, i);
        lemma_jac_ignores_velocity(st, ws, q, k - 1, j);
    }
}

/// The mass matrix without Coriolis terms does not depend on the generalized
/// velocities.
pub proof fn mass_matrix_ignores_velocities<S: Scalar, D: Space<S>>(
    st: Seq<MultibodyLinkStatic<S, D>>,
    ws: Seq<MultibodyLinkWorkspace<S, D>>,
    opt: MassOptions<S>,
    damping: Seq<S>,
    armature: Seq<S>,
    q: Seq<S>,
    q2: Seq<S>,
)
    requires
        !opt.coriolis,
        ws.len() == st.len(),
    ensures
        mass_matrix(st, moving(st, ws, q, st.len() as int), opt, damping, armature)
            == mass_matrix(st, moving(st, ws, q2, st.len() as int), opt, damping, armature),
{
    let n = st.len() as int;
    let a = mass_matrix(st, moving(st, ws, q, n), opt, damping, armature);
    let b = mass_matrix(st, moving(st, ws, q2, n), opt, damping, armature);
    assert forall|i: int| 0 <= i < a.len() implies #[trigger] a[i] == b[i] by {
        assert forall|j: int| 0 <= j < a.len() implies #[trigger] a[i][j] == b[i][j] by {
            lemma_entry_ignores_velocity(st, ws, opt, q, n, i, j);
            lemma_entry_ignores_velocity(st, ws, opt, q2, n, i, j);
        }
        assert(a[i] =~= b[i]);
    }
    assert(a =~= b);
}

// ---- the plane and space ----

/// Exact arithmetic makes what is made of zero zero in the plane.
pub proof fn plane_rests<S: Scalar>(v: spec_fn(S) -> real)
    requires
        exact(v),
    ensures
        rests::<S, Dim2>(v),
{
    assert forall|r: Rot2<S>, a: V2<S>| vector_value::<S, Dim2>(v, a)
        == r3_zero() implies vector_value::<S, Dim2>(
        v,
        #[trigger] <Dim2 as Space<S>>::rapply_spec(r, a),
    ) == r3_zero() by {
        lemma_zero(v(r.re));
        lemma_zero(v(r.im));
    }
    assert forall|a: S, k: S| angular_value::<S, Dim2>(v, a)
        == r3_zero() implies angular_value::<S, Dim2>(
        v,
        #[trigger] <Dim2 as Space<S>>::ascale_spec(a, k),
    ) == r3_zero() by {
        lemma_zero(v(k));
    }
}

proof fn lemma_turned_zero<S: Scalar>(v: spec_fn(S) -> real, r: Quat<S>, a: V3<S>)
    requires
        exact(v),
        vector_value::<S, Dim3>(v, a) == r3_zero(),
    ensures
        vector_value::<S, Dim3>(v, <Dim3 as Space<S>>::rapply_spec(r, a)) == r3_zero(),
{
    let b = qimag_spec(r);
    let b2 = <Dim3 as Space<S>>::vdot_spec(b, b);
    lemma_zero(v(r.w.times_spec(r.w).minus_spec(b2)));
    lemma_zero(v(b.x));
    lemma_zero(v(b.y));
    lemma_zero(v(b.z));
    assert(v(<Dim3 as Space<S>>::vdot_spec(a, b)) == 0real);
    lemma_zero(v(two_spec::<S>()));
    lemma_zero(v(r.w.times_spec(two_spec::<S>())));
}

proof fn lemma_crossed_zero<S: Scalar>(v: spec_fn(S) -> real, a: V3<S>, b: V3<S>)
    requires
        exact(v),
        vector_value::<S, Dim3>(v, a) == r3_zero(),
    ensures
        vector_value::<S, Dim3>(v, cross_spec(a, b)) == r3_zero(),
{
    lemma_zero(v(b.x));
    lemma_zero(v(b.y));
    lemma_zero(v(b.z));
}

proof fn lemma_gyro_rest<S: Scalar>(v: spec_fn(S) -> real, m: Mat3<S>, w: V3<S>, dt: S, a: V3<S>)
    requires
        exact(v),
        vector_value::<S, Dim3>(v, w) == r3_zero(),
    ensures
        vector_value::<S, Dim3>(v, mat_vec_spec(gyro_inertia_spec(m, w, dt), a)) == vector_value::<
            S,
            Dim3,
        >(v, mat_vec_spec(m, a)),
{
    let l = mat_vec_spec(m, w);
    lemma_zero(v(m.x_axis.x));
    lemma_zero(v(m.x_axis.y));
    lemma_zero(v(m.x_axis.z));
    lemma_zero(v(m.y_axis.x));
    lemma_zero(v(m.y_axis.y));
    lemma_zero(v(m.y_axis.z));
    lemma_zero(v(m.z_axis.x));
    lemma_zero(v(m.z_axis.y));
    lemma_zero(v(m.z_axis.z));
    assert(v(l.x) == 0real && v(l.y) == 0real && v(l.z) == 0real);
    lemma_zero(v(dt));
    lemma_crossed_zero(v, w, m.x_axis);
    lemma_crossed_zero(v, w, m.y_axis);
    lemma_crossed_zero(v, w, m.z_axis);
    let g = gyro_inertia_spec(m, w, dt);
    assert(v(g.x_axis.x) == v(m.x_axis.x));
    assert(v(g.x_axis.y) == v(m.x_axis.y));
    assert(v(g.x_axis.z) == v(m.x_axis.z));
    assert(v(g.y_axis.x) == v(m.y_axis.x));
    assert(v(g.y_axis.y) == v(m.y_axis.y));
    assert(v(g.y_axis.z) == v(m.y_axis.z));
    assert(v(g.z_axis.x) == v(m.z_axis.x));
    assert(v(g.z_axis.y) == v(m.z_axis.y));
    assert(v(g.z_axis.z) == v(m.z_axis.z));
}

/// Exact arithmetic makes what is made of zero zero in space.
pub proof fn space_rests<S: Scalar>(v: spec_fn(S) -> real)
    requires
        exact(v),
    ensures
        rests::<S, Dim3>(v),
{
    assert forall|r: Quat<S>, a: V3<S>| vector_value::<S, Dim3>(v, a)
        == r3_zero() implies vector_value::<S, Dim3>(
        v,
        #[trigger] <Dim3 as Space<S>>::rapply_spec(r, a),
    ) == r3_zero() by {
        lemma_turned_zero(v, r, a);
    }
    assert forall|r: Quat<S>, a: V3<S>| angular_value::<S, Dim3>(v, a)
        == r3_zero() implies angular_value::<S, Dim3>(
        v,
        #[trigger] <Dim3 as Space<S>>::rapply_ang_spec(r, a),
    ) == r3_zero() by {
        lemma_turned_zero(v, r, a);
    }
    assert forall|x: V3<S>, a: V3<S>, b: V3<S>| angular_value::<S, Dim3>(v, a)
        == r3_zero() implies angular_value::<S, Dim3>(
        v,
        #[trigger] <Dim3 as Space<S>>::aadd_cross_spec(x, a, b),
    ) == angular_value::<S, Dim3>(v, x) by {
        lemma_crossed_zero(v, a, b);
    }
    assert forall|x: V3<S>, a: V3<S>, b: V3<S>| angular_value::<S, Dim3>(v, a)
        == r3_zero() implies angular_value::<S, Dim3>(
        v,
        #[trigger] <Dim3 as Space<S>>::asub_cross_spec(x, a, b),
    ) == angular_value::<S, Dim3>(v, x) by {
        lemma_crossed_zero(v, a, b);
    }
    assert forall|a: V3<S>, k: S| angular_value::<S, Dim3>(v, a)
        == r3_zero() implies angular_value::<S, Dim3>(
        v,
        #[trigger] <Dim3 as Space<S>>::ascale_spec(a, k),
    ) == r3_zero() by {
        lemma_zero(v(k));
    }
    assert forall|m: Mat3<S>, w: V3<S>, dt: S, a: V3<S>| angular_value::<S, Dim3>(v, w)
        == r3_zero() implies angular_value::<S, Dim3>(
        v,
        #[trigger] <Dim3 as Space<S>>::imul_spec(
            <Dim3 as Space<S>>::igyro_spec(m, w, dt),
            a,
        ),
    ) == angular_value::<S, Dim3>(v, <Dim3 as Space<S>>::imul_spec(m, a)) by {
        lemma_gyro_rest(v, m, w, dt, a);
    }
}

} // verus!
