//! The generalized mass matrix of a multibody, with the semi-implicit
//! Coriolis terms.
//!
//! One pass per multibody: forward kinematics, link jacobians, velocity
//! propagation, then the mass matrix as a sum over the links.
use super::gravity::{has_mass, link_world_inertia, link_world_inertia_spec, parents_first};
use super::gravity_and_lu::{
    flat_decode, flat_decode_spec, jac_blocks, lemma_block_room, mb_at, mb_at_spec, mb_listed,
};
use super::kinematics::{
    bodies_in_range, dofs_in_range, forward_kinematics, jac_col, jacobian_column, joint_column_spec,
    joint_frame_rot, joint_jacobian_column, moving, placed, propagate_velocities, published,
    root_pose_spec,
};
use super::types::{MultibodyInfo, MultibodyLinkStatic, MultibodyLinkWorkspace};
use crate::batch::{BatchIndices, imat_spec, ivec_spec, lemma_imat_fits, mbi_spec, room};
use crate::columns::{
    ang_cols_of, cols_of, disjoint, get_ang_col, get_col, get_lin_col, lemma_disjoint_keeps,
    lemma_disjoint_keeps_two, lemma_imat_disjoint, lemma_imat_entry, lin_cols_of, same_outside_two, set_ang_col, set_col, set_lin_col,
};
use crate::scalar::{Scalar, two, two_spec};
use crate::space::{Dimension, Pose, Space, Velocity};
use crate::views::{
    MatView, VecView, mat_get, mat_of, mat_set, same_outside_mat, same_outside_vec, vec_get, vec_of,
};
use vstd::prelude::*;

verus! {

// ---- blocks of one multibody ----

/// The entries that the blocks of all links cover.
pub open spec fn block_region(nb: int, b: int, off: int, rows: int, ndofs: int, links: int) -> VecView {
    ivec_spec(nb, b, off, links * rows * ndofs)
}

/// Blocks of different links share no entry, and all lie in the region.
proof fn lemma_blocks(
    nb: int,
    b: int,
    off: int,
    stride: int,
    rows: int,
    ndofs: int,
    links: int,
    k: int,
    n: int,
)
    requires
        room(nb, b, off, links * stride * ndofs, n),
        nb <= usize::MAX,
        0 <= k < links,
        0 <= rows <= stride <= 6,
        0 <= ndofs <= u32::MAX,
        n <= usize::MAX,
    ensures
        room(nb, b, off + k * stride * ndofs, rows * ndofs, n),
        imat_spec(nb, b, off + k * stride * ndofs, rows, ndofs).fits(n),
        forall|j: int|
            0 <= j < links && j != k ==> #[trigger] disjoint(
                imat_spec(nb, b, off + j * stride * ndofs, rows, ndofs),
                imat_spec(nb, b, off + k * stride * ndofs, rows, ndofs),
            ),
        forall|e: int|
            imat_spec(nb, b, off + k * stride * ndofs, rows, ndofs).holds(e)
                ==> #[trigger] block_region(nb, b, off, stride, ndofs, links).holds(e),
{
    assert(rows * ndofs <= stride * ndofs && 0 <= rows * ndofs) by (nonlinear_arith)
        requires
            0 <= rows <= stride,
            ndofs >= 0,
    ;
    assert forall|j: int| 0 <= j < links implies #[trigger] room(
        nb,
        b,
        off + j * stride * ndofs,
        rows * ndofs,
        n,
    ) by {
        lemma_block_room(nb, b, off, stride, ndofs, links, j, n);
        assert((off + j * stride * ndofs + rows * ndofs) * nb <= (off + j * stride * ndofs + stride
            * ndofs) * nb) by (nonlinear_arith)
            requires
                rows * ndofs <= stride * ndofs,
                nb >= 0,
        ;
    }
    let m = imat_spec(nb, b, off + k * stride * ndofs, rows, ndofs);
    assert(room(nb, b, off + k * stride * ndofs, rows * ndofs, n));
    if rows > 0 && ndofs > 0 {
        lemma_imat_fits(nb, b, off + k * stride * ndofs, rows, ndofs, n);
    }
    assert forall|j: int| 0 <= j < links && j != k implies #[trigger] disjoint(
        imat_spec(nb, b, off + j * stride * ndofs, rows, ndofs),
        m,
    ) by {
        assert(room(nb, b, off + j * stride * ndofs, rows * ndofs, n));
        if j < k {
            assert(j * stride * ndofs + stride * ndofs <= k * stride * ndofs) by (nonlinear_arith)
                requires
                    j + 1 <= k,
                    stride >= 0,
                    ndofs >= 0,
            ;
        } else {
            assert(k * stride * ndofs + stride * ndofs <= j * stride * ndofs) by (nonlinear_arith)
                requires
                    k + 1 <= j,
                    stride >= 0,
                    ndofs >= 0,
            ;
        }
        lemma_imat_disjoint(
            nb,
            b,
            off + j * stride * ndofs,
            rows,
            ndofs,
            off + k * stride * ndofs,
            rows,
            ndofs,
            n,
        );
    }
    let region = block_region(nb, b, off, stride, ndofs, links);
    assert forall|e: int| m.holds(e) implies #[trigger] region.holds(e) by {
        lemma_imat_entry(nb, b, off + k * stride * ndofs, rows, ndofs, n, e);
        let i = choose|i: int|
            off + k * stride * ndofs <= i < off + k * stride * ndofs + rows * ndofs && e
                == #[trigger] mbi_spec(nb, b, i);
        lemma_block_room(nb, b, off, stride, ndofs, links, k, n);
        assert(k * stride * ndofs + stride * ndofs <= links * stride * ndofs) by (nonlinear_arith)
            requires
                k + 1 <= links,
                stride >= 0,
                ndofs >= 0,
        ;
        crate::batch::lemma_ivec_fits(nb, b, off, links * stride * ndofs, n);
        let d = i - off;
        assert(0 <= d < links * stride * ndofs);
        assert((off * nb + b) + d * nb == i * nb + b) by (nonlinear_arith)
            requires
                d == i - off,
        ;
        assert(region.idx_spec(d) == e);
    }
}

// ---- jacobians ----

/// The jacobian of link `k` by columns.
pub open spec fn link_jac<S: Scalar, D: Space<S>>(
    st: Seq<MultibodyLinkStatic<S, D>>,
    ws: Seq<MultibodyLinkWorkspace<S, D>>,
    ndofs: int,
    k: int,
) -> Seq<Velocity<S, D>> {
    Seq::new(ndofs as nat, |c: int| jac_col(st, ws, k, c))
}

/// Builds the jacobian of every link, parents before children.
pub fn update_body_jacobians<S: Scalar, D: Space<S>>(
    ids: &BatchIndices,
    b: u32,
    joff: usize,
    ndofs: usize,
    stat: &[MultibodyLinkStatic<S, D>],
    ws: &[MultibodyLinkWorkspace<S, D>],
    lv: VecView,
    jac: &mut [S],
)
    requires
        lv.fits(stat@.len() as int),
        lv.fits(ws@.len() as int),
        ndofs <= u32::MAX,
        room(
            ids.num_batches as int,
            b as int,
            joff as int,
            lv.len * D::dimension_spec().spatial_spec() * ndofs,
            old(jac)@.len() as int,
        ),
        parents_first(vec_of(stat@, lv)),
    ensures
        ({
            let sd = D::dimension_spec().spatial_spec();
            let nb = ids.num_batches as int;
            &&& forall|k: int|
                0 <= k < lv.len ==> cols_of::<S, D>(
                    final(jac)@,
                    #[trigger] jac_blocks(nb, b as int, joff as int, sd, ndofs as int)(k),
                ) == link_jac(vec_of(stat@, lv), vec_of(ws@, lv), ndofs as int, k)
            &&& same_outside_vec(
                old(jac)@,
                final(jac)@,
                block_region(nb, b as int, joff as int, sd, ndofs as int, lv.len as int),
            )
        }),
{
    let ghost st = vec_of(stat@, lv);
    let ghost wk = vec_of(ws@, lv);
    let ghost nb = ids.num_batches as int;
    let ghost sdg = D::dimension_spec().spatial_spec();
    let ghost blocks = jac_blocks(nb, b as int, joff as int, sdg, ndofs as int);
    let ghost region = block_region(nb, b as int, joff as int, sdg, ndofs as int, lv.len as int);
    let sd: usize = D::dimension().spatial() as usize;
    if ndofs == 0 {
        proof {
            assert forall|k: int| 0 <= k < lv.len implies cols_of::<S, D>(
                jac@,
                #[trigger] blocks(k),
            ) == link_jac(st, wk, 0, k) by {
                assert(cols_of::<S, D>(jac@, blocks(k)) =~= link_jac(st, wk, 0, k));
            }
        }
        return ;
    }
    let mut k: usize = 0;
    while k < lv.len
        invariant
            lv.fits(stat@.len() as int),
            lv.fits(ws@.len() as int),
            0 < ndofs <= u32::MAX,
            sd == sdg,
            sdg == D::dimension_spec().spatial_spec(),
            3 <= sd <= 6,
            nb == ids.num_batches,
            old(jac)@.len() == jac@.len(),
            room(nb, b as int, joff as int, lv.len * sdg * ndofs, jac@.len() as int),
            parents_first(st),
            k <= lv.len,
            st == vec_of(stat@, lv),
            wk == vec_of(ws@, lv),
            blocks == jac_blocks(nb, b as int, joff as int, sdg, ndofs as int),
            region == block_region(
                nb,
                b as int,
                joff as int,
                sdg,
                ndofs as int,
                lv.len as int,
            ),
            forall|j: int|
                0 <= j < k ==> cols_of::<S, D>(jac@, #[trigger] blocks(j)) == link_jac(
                    st,
                    wk,
                    ndofs as int,
                    j,
                ),
            same_outside_vec(old(jac)@, jac@, region),
        decreases lv.len - k,
    {
        let ghost n = jac@.len() as int;
        proof {
            lemma_blocks(
                nb,
                b as int,
                joff as int,
                sdg,
                sdg,
                ndofs as int,
                lv.len as int,
                k as int,
                n,
            );
            lemma_block_room(
                nb,
                b as int,
                joff as int,
                sdg,
                ndofs as int,
                lv.len as int,
                k as int,
                n,
            );
        }
        let jv = ids.imat(b, joff + k * sd * ndofs, sd, ndofs, jac.len());
        assert(jv == blocks(k as int));
        let s = vec_get(stat, lv, k);
        assert(st[k as int] == s);
        let w = vec_get(ws, lv, k);
        let has_parent = k != 0;
        let p: usize = if has_parent {
            s.parent_link_id as usize
        } else {
            0
        };
        let rot = if has_parent {
            vec_get(ws, lv, p).local_to_world.rotation
        } else {
            D::rid()
        };
        let frame_rot = D::rmul(rot, s.data.local_frame_a.rotation);
        proof {
            lemma_block_room(
                nb,
                b as int,
                joff as int,
                sdg,
                ndofs as int,
                lv.len as int,
                p as int,
                n,
            );
        }
        let pv = ids.imat(b, joff + p * sd * ndofs, sd, ndofs, jac.len());
        assert(pv == blocks(p as int));
        let ghost jac0 = jac@;
        let mut c: usize = 0;
        while c < ndofs
            invariant
                jv.fits(jac@.len() as int),
                pv.fits(jac@.len() as int),
                jv.nrows == sd,
                pv.nrows == sd,
                jv.ncols == ndofs,
                pv.ncols == ndofs,
                sd == D::dimension_spec().spatial_spec(),
                c <= ndofs,
                ndofs <= u32::MAX,
                0 <= k < st.len(),
                s == st[k as int],
                w == wk[k as int],
                has_parent == (k != 0),
                has_parent ==> p == st[k as int].parent_link_id && p < k,
                has_parent ==> disjoint(pv, jv),
                has_parent ==> cols_of::<S, D>(jac0, pv) == link_jac(
                    st,
                    wk,
                    ndofs as int,
                    p as int,
                ),
                frame_rot == joint_frame_rot(st, wk, k as int),
                same_outside_mat(jac0, jac@, jv),
                forall|i: int|
                    0 <= i < c ==> #[trigger] cols_of::<S, D>(jac@, jv)[i] == jac_col(
                        st,
                        wk,
                        k as int,
                        i,
                    ),
            decreases ndofs - c,
        {
            let parent = if has_parent {
                proof {
                    lemma_disjoint_keeps(jac0, jac@, jv, pv);
                }
                Some(get_col::<S, D>(jac, pv, c))
            } else {
                None
            };
            let v = jacobian_column(&s, &w, frame_rot, parent, c as u32);
            set_col::<S, D>(jac, jv, c, v);
            c = c + 1;
        }
        proof {
            assert(cols_of::<S, D>(jac@, jv) =~= link_jac(st, wk, ndofs as int, k as int));
            assert forall|j: int| 0 <= j < k + 1 implies cols_of::<S, D>(jac@, #[trigger] blocks(j))
                == link_jac(st, wk, ndofs as int, j) by {
                if j < k {
                    lemma_blocks(
                        nb,
                        b as int,
                        joff as int,
                        sdg,
                        sdg,
                        ndofs as int,
                        lv.len as int,
                        j,
                        n,
                    );
                    assert(disjoint(blocks(j), jv));
                    lemma_disjoint_keeps(jac0, jac@, jv, blocks(j));
                }
            }
        }
        k = k + 1;
    }
}

// ---- Coriolis columns ----

/// Column `c` of the Coriolis matrices of link `k`: the derivative in time of
/// its jacobian column, as the semi-implicit scheme takes it. A link without
/// mass has none.
pub open spec fn cor_col<S: Scalar, D: Space<S>>(
    st: Seq<MultibodyLinkStatic<S, D>>,
    ws: Seq<MultibodyLinkWorkspace<S, D>>,
    k: int,
    c: int,
) -> Velocity<S, D>
    decreases k,
{
    let p = st[k].parent_link_id as int;
    if !has_mass(st[k].local_mprops) {
        Velocity::zero_spec()
    } else {
        let start = if 0 <= p < k {
            cor_joint(
                cor_inherited(
                    cor_col(st, ws, p, c),
                    jac_col(st, ws, p, c).angular,
                    ws[k],
                    ws[p].rb_vels.angular,
                ),
                st[k],
                ws[p].rb_vels.angular,
                joint_frame_rot(st, ws, k),
                c - st[k].assembly_id,
            )
        } else {
            Velocity::zero_spec()
        };
        cor_settled(start, jac_col(st, ws, k, c).angular, ws[k])
    }
}

/// What a Coriolis column takes over from the parent's columns.
pub open spec fn cor_inherited<S: Scalar, D: Space<S>>(
    parent: Velocity<S, D>,
    parent_jac_ang: D::A,
    ws: MultibodyLinkWorkspace<S, D>,
    parent_w: D::A,
) -> Velocity<S, D> {
    let dvel = D::vadd_spec(
        D::gcross_av_spec(ws.rb_vels.angular, ws.shift02),
        D::vscale_spec(ws.joint_velocity.linear, two_spec::<S>()),
    );
    let v1 = D::vadd_spec(parent.linear, D::gcross_av_spec(parent.angular, ws.shift02));
    let v2 = D::vadd_spec(v1, D::gcross_av_spec(parent_jac_ang, dvel));
    let v3 = D::vadd_spec(v2, D::gcross_av_spec(parent_jac_ang, ws.joint_velocity.linear));
    Velocity {
        linear: D::vadd_spec(
            v3,
            D::gcross_av_spec(parent_w, D::gcross_av_spec(parent_jac_ang, ws.shift02)),
        ),
        angular: D::asub_cross_spec(parent.angular, ws.joint_velocity.angular, parent_jac_ang),
    }
}

/// The rotation of the joint axis with the parent; none for a kinematic joint.
pub open spec fn cor_joint<S: Scalar, D: Space<S>>(
    col: Velocity<S, D>,
    st: MultibodyLinkStatic<S, D>,
    parent_w: D::A,
    rot: D::R,
    c: int,
) -> Velocity<S, D> {
    if st.kinematic == 0 && 0 <= c < st.ndofs {
        let j = joint_column_spec::<S, D>(st.data.locked_axes, rot, c);
        Velocity {
            linear: D::vadd_spec(
                col.linear,
                D::vscale_spec(D::gcross_av_spec(parent_w, j.linear), two_spec::<S>()),
            ),
            angular: D::aadd_cross_spec(col.angular, parent_w, j.angular),
        }
    } else {
        col
    }
}

/// A Coriolis column moved from the joint to the centre of mass.
pub open spec fn cor_settled<S: Scalar, D: Space<S>>(
    col: Velocity<S, D>,
    jac_ang: D::A,
    ws: MultibodyLinkWorkspace<S, D>,
) -> Velocity<S, D> {
    let w = ws.rb_vels.angular;
    let v1 = D::vadd_spec(col.linear, D::gcross_av_spec(col.angular, ws.shift23));
    let v2 = D::vadd_spec(v1, D::gcross_av_spec(jac_ang, D::gcross_av_spec(w, ws.shift23)));
    Velocity {
        linear: D::vadd_spec(
            v2,
            D::gcross_av_spec(w, D::gcross_av_spec(jac_ang, ws.shift23)),
        ),
        angular: col.angular,
    }
}

/// What a link with mass takes from its parent: the parent's Coriolis column,
/// the angular part of its jacobian column, and its angular velocity.
pub struct CoriolisParent<S: Scalar, D: Space<S>> {
    pub cor: Velocity<S, D>,
    pub jac_ang: D::A,
    pub w: D::A,
}

pub fn coriolis_column<S: Scalar, D: Space<S>>(
    st: &MultibodyLinkStatic<S, D>,
    ws: &MultibodyLinkWorkspace<S, D>,
    frame_rot: D::R,
    jac_ang: D::A,
    parent: Option<CoriolisParent<S, D>>,
    c: u32,
) -> (r: Velocity<S, D>)
    ensures
        r == cor_settled(
            match parent {
                Some(p) => cor_joint(
                    cor_inherited(p.cor, p.jac_ang, *ws, p.w),
                    *st,
                    p.w,
                    frame_rot,
                    c - st.assembly_id,
                ),
                None => Velocity::zero_spec(),
            },
            jac_ang,
            *ws,
        ),
{
    let start: Velocity<S, D> = match parent {
        Some(p) => {
            let dvel = D::vadd(
                D::gcross_av(ws.rb_vels.angular, ws.shift02),
                D::vscale(ws.joint_velocity.linear, two::<S>()),
            );
            let v1 = D::vadd(p.cor.linear, D::gcross_av(p.cor.angular, ws.shift02));
            let v2 = D::vadd(v1, D::gcross_av(p.jac_ang, dvel));
            let v3 = D::vadd(v2, D::gcross_av(p.jac_ang, ws.joint_velocity.linear));
            let mut linear = D::vadd(v3, D::gcross_av(p.w, D::gcross_av(p.jac_ang, ws.shift02)));
            let mut angular = D::asub_cross(p.cor.angular, ws.joint_velocity.angular, p.jac_ang);
            if st.kinematic == 0 && c >= st.assembly_id && c - st.assembly_id < st.ndofs {
                let j = joint_jacobian_column(st, frame_rot, c - st.assembly_id);
                linear = D::vadd(linear, D::vscale(D::gcross_av(p.w, j.linear), two::<S>()));
                angular = D::aadd_cross(angular, p.w, j.angular);
            }
            Velocity { linear: linear, angular: angular }
        },
        None => Velocity::zero(),
    };
    let w = ws.rb_vels.angular;
    let v1 = D::vadd(start.linear, D::gcross_av(start.angular, ws.shift23));
    let v2 = D::vadd(v1, D::gcross_av(jac_ang, D::gcross_av(w, ws.shift23)));
    Velocity {
        linear: D::vadd(v2, D::gcross_av(w, D::gcross_av(jac_ang, ws.shift23))),
        angular: start.angular,
    }
}

/// The blocks of linear Coriolis columns, stacked from entry `off`.
pub open spec fn cor_v_blocks<S: Scalar, D: Space<S>>(
    nb: int,
    b: int,
    off: int,
    ndofs: int,
) -> spec_fn(int) -> MatView {
    let dim = D::dimension_spec().lin_spec();
    |k: int| imat_spec(nb, b, off + k * dim * ndofs, dim, ndofs)
}

/// The blocks of angular Coriolis columns, with the stride of the linear ones.
pub open spec fn cor_w_blocks<S: Scalar, D: Space<S>>(
    nb: int,
    b: int,
    off: int,
    ndofs: int,
) -> spec_fn(int) -> MatView {
    let dim = D::dimension_spec().lin_spec();
    |k: int| imat_spec(nb, b, off + k * dim * ndofs, D::dimension_spec().ang_spec(), ndofs)
}

/// What the angular block of a link leaves of the space of a linear one.
pub open spec fn cor_pad_blocks<S: Scalar, D: Space<S>>(
    nb: int,
    b: int,
    off: int,
    ndofs: int,
) -> spec_fn(int) -> MatView {
    let dim = D::dimension_spec().lin_spec();
    let ang = D::dimension_spec().ang_spec();
    |k: int| imat_spec(nb, b, off + k * dim * ndofs + ang * ndofs, dim - ang, ndofs)
}

/// Whether entry `e` belongs to the block of one of the links.
pub open spec fn in_blocks(blocks: spec_fn(int) -> MatView, links: int, e: int) -> bool {
    exists|k: int| 0 <= k < links && (#[trigger] blocks(k)).holds(e)
}

/// Whether entry `e` belongs to the block of one of the first `n` links, and the link
/// has no mass.
pub open spec fn in_massless_blocks<S: Scalar, D: Space<S>>(
    blocks: spec_fn(int) -> MatView,
    st: Seq<MultibodyLinkStatic<S, D>>,
    n: int,
    e: int,
) -> bool {
    exists|k: int|
        0 <= k < n && !has_mass(st[k].local_mprops) && (#[trigger] blocks(k)).holds(e)
}

/// The Coriolis blocks of link `k` hold its Coriolis columns.
pub open spec fn cor_block_ok<S: Scalar, D: Space<S>>(
    cor: Seq<S>,
    vb: MatView,
    wb: MatView,
    st: Seq<MultibodyLinkStatic<S, D>>,
    ws: Seq<MultibodyLinkWorkspace<S, D>>,
    k: int,
) -> bool {
    &&& lin_cols_of::<S, D>(cor, vb) == Seq::new(
        vb.ncols as nat,
        |c: int| cor_col(st, ws, k, c).linear,
    )
    &&& ang_cols_of::<S, D>(cor, wb) == Seq::new(
        wb.ncols as nat,
        |c: int| cor_col(st, ws, k, c).angular,
    )
}

/// Linear and angular blocks of a multibody share no entry.
proof fn lemma_cor_cross<S: Scalar, D: Space<S>>(
    nb: int,
    b: int,
    voff: int,
    woff: int,
    ndofs: int,
    links: int,
    n: int,
)
    requires
        room(nb, b, voff, links * D::dimension_spec().lin_spec() * ndofs, n),
        room(nb, b, woff, links * D::dimension_spec().lin_spec() * ndofs, n),
        voff + links * D::dimension_spec().lin_spec() * ndofs <= woff,
        nb <= usize::MAX,
        0 <= links,
        0 <= ndofs <= u32::MAX,
        n <= usize::MAX,
    ensures
        forall|j: int, k: int|
            0 <= j < links && 0 <= k < links ==> disjoint(
                #[trigger] cor_v_blocks::<S, D>(nb, b, voff, ndofs)(j),
                #[trigger] cor_w_blocks::<S, D>(nb, b, woff, ndofs)(k),
            ) && disjoint(
                cor_w_blocks::<S, D>(nb, b, woff, ndofs)(k),
                cor_v_blocks::<S, D>(nb, b, voff, ndofs)(j),
            ),
{
    let dim = D::dimension_spec().lin_spec();
    let ang = D::dimension_spec().ang_spec();
    assert forall|j: int, k: int| 0 <= j < links && 0 <= k < links implies disjoint(
        #[trigger] cor_v_blocks::<S, D>(nb, b, voff, ndofs)(j),
        #[trigger] cor_w_blocks::<S, D>(nb, b, woff, ndofs)(k),
    ) && disjoint(
        cor_w_blocks::<S, D>(nb, b, woff, ndofs)(k),
        cor_v_blocks::<S, D>(nb, b, voff, ndofs)(j),
    ) by {
        lemma_blocks(nb, b, voff, dim, dim, ndofs, links, j, n);
        lemma_blocks(nb, b, woff, dim, ang, ndofs, links, k, n);
        assert(j * dim * ndofs + dim * ndofs <= links * dim * ndofs && 0 <= k * dim * ndofs)
            by (nonlinear_arith)
            requires
                j + 1 <= links,
                0 <= k,
                dim >= 0,
                ndofs >= 0,
        ;
        lemma_imat_disjoint(
            nb,
            b,
            voff + j * dim * ndofs,
            dim,
            ndofs,
            woff + k * dim * ndofs,
            ang,
            ndofs,
            n,
        );
        lemma_imat_disjoint(
            nb,
            b,
            woff + k * dim * ndofs,
            ang,
            ndofs,
            voff + j * dim * ndofs,
            dim,
            ndofs,
            n,
        );
    }
}

/// Writes the Coriolis columns of link `k` into its blocks `vb` and `wb`; the
/// parent's blocks are `pvb` and `pwb`.
fn write_coriolis_blocks<S: Scalar, D: Space<S>>(
    s: &MultibodyLinkStatic<S, D>,
    w: &MultibodyLinkWorkspace<S, D>,
    parent_w: Option<D::A>,
    frame_rot: D::R,
    jac: &[S],
    jv: MatView,
    pjv: MatView,
    cor: &mut [S],
    vb: MatView,
    wb: MatView,
    pvb: MatView,
    pwb: MatView,
    Ghost(st): Ghost<Seq<MultibodyLinkStatic<S, D>>>,
    Ghost(ws): Ghost<Seq<MultibodyLinkWorkspace<S, D>>>,
    Ghost(k): Ghost<int>,
)
    requires
        0 <= k < st.len(),
        *s == st[k],
        *w == ws[k],
        frame_rot == joint_frame_rot(st, ws, k),
        vb.ncols <= u32::MAX,
        jv.fits(jac@.len() as int),
        pjv.fits(jac@.len() as int),
        vb.fits(old(cor)@.len() as int),
        wb.fits(old(cor)@.len() as int),
        pvb.fits(old(cor)@.len() as int),
        pwb.fits(old(cor)@.len() as int),
        jv.nrows == D::dimension_spec().spatial_spec(),
        pjv.nrows == D::dimension_spec().spatial_spec(),
        vb.nrows == D::dimension_spec().lin_spec(),
        wb.nrows == D::dimension_spec().ang_spec(),
        pvb.nrows == D::dimension_spec().lin_spec(),
        pwb.nrows == D::dimension_spec().ang_spec(),
        jv.ncols == vb.ncols,
        pjv.ncols == vb.ncols,
        wb.ncols == vb.ncols,
        pvb.ncols == vb.ncols,
        pwb.ncols == vb.ncols,
        disjoint(vb, wb),
        disjoint(wb, vb),
        cols_of::<S, D>(jac@, jv) == link_jac(st, ws, vb.ncols as int, k),
        match parent_w {
            Some(pw) => {
                let p = st[k].parent_link_id as int;
                &&& 0 <= p < k
                &&& pw == ws[p].rb_vels.angular
                &&& cols_of::<S, D>(jac@, pjv) == link_jac(st, ws, vb.ncols as int, p)
                &&& cor_block_ok(old(cor)@, pvb, pwb, st, ws, p)
                &&& disjoint(pvb, vb)
                &&& disjoint(pvb, wb)
                &&& disjoint(pwb, vb)
                &&& disjoint(pwb, wb)
            },
            None => k == 0,
        },
    ensures
        cor_block_ok(final(cor)@, vb, wb, st, ws, k),
        same_outside_two(old(cor)@, final(cor)@, vb, wb),
{
    let massive = !D::vget(s.local_mprops.inv_mass, 0).same(S::zero());
    let n: usize = vb.ncols;
    let mut c: usize = 0;
    while c < n
        invariant
            0 <= k < st.len(),
            *s == st[k],
            *w == ws[k],
            frame_rot == joint_frame_rot(st, ws, k),
            massive == has_mass(st[k].local_mprops),
            n == vb.ncols,
            n <= u32::MAX,
            c <= n,
            jv.fits(jac@.len() as int),
            pjv.fits(jac@.len() as int),
            vb.fits(old(cor)@.len() as int),
            wb.fits(old(cor)@.len() as int),
            pvb.fits(old(cor)@.len() as int),
            pwb.fits(old(cor)@.len() as int),
            jv.nrows == D::dimension_spec().spatial_spec(),
            pjv.nrows == D::dimension_spec().spatial_spec(),
            vb.nrows == D::dimension_spec().lin_spec(),
            wb.nrows == D::dimension_spec().ang_spec(),
            pvb.nrows == D::dimension_spec().lin_spec(),
            pwb.nrows == D::dimension_spec().ang_spec(),
            jv.ncols == n,
            pjv.ncols == n,
            wb.ncols == n,
            pvb.ncols == n,
            pwb.ncols == n,
            disjoint(vb, wb),
            disjoint(wb, vb),
            cols_of::<S, D>(jac@, jv) == link_jac(st, ws, n as int, k),
            match parent_w {
                Some(pw) => {
                    let p = st[k].parent_link_id as int;
                    &&& 0 <= p < k
                    &&& pw == ws[p].rb_vels.angular
                    &&& cols_of::<S, D>(jac@, pjv) == link_jac(st, ws, n as int, p)
                    &&& cor_block_ok(old(cor)@, pvb, pwb, st, ws, p)
                    &&& disjoint(pvb, vb)
                    &&& disjoint(pvb, wb)
                    &&& disjoint(pwb, vb)
                    &&& disjoint(pwb, wb)
                },
                None => k == 0,
            },
            same_outside_two(old(cor)@, cor@, vb, wb),
            forall|i: int|
                0 <= i < c ==> #[trigger] lin_cols_of::<S, D>(cor@, vb)[i] == cor_col(
                    st,
                    ws,
                    k,
                    i,
                ).linear,
            forall|i: int|
                0 <= i < c ==> #[trigger] ang_cols_of::<S, D>(cor@, wb)[i] == cor_col(
                    st,
                    ws,
                    k,
                    i,
                ).angular,
        decreases n - c,
    {
        let col: Velocity<S, D> = if massive {
            let jac_ang = get_col::<S, D>(jac, jv, c).angular;
            let parent = match parent_w {
                Some(pw) => {
                    proof {
                        lemma_disjoint_keeps_two(old(cor)@, cor@, vb, wb, pvb);
                        lemma_disjoint_keeps_two(old(cor)@, cor@, vb, wb, pwb);
                    }
                    Some(
                        CoriolisParent {
                            cor: Velocity {
                                linear: get_lin_col::<S, D>(cor, pvb, c),
                                angular: get_ang_col::<S, D>(cor, pwb, c),
                            },
                            jac_ang: get_col::<S, D>(jac, pjv, c).angular,
                            w: pw,
                        },
                    )
                },
                None => None,
            };
            coriolis_column(s, w, frame_rot, jac_ang, parent, c as u32)
        } else {
            Velocity::zero()
        };
        assert(col == cor_col(st, ws, k, c as int));
        let ghost c0 = cor@;
        set_lin_col::<S, D>(cor, vb, c, col.linear);
        let ghost c1 = cor@;
        proof {
            lemma_disjoint_keeps(c0, c1, vb, wb);
        }
        set_ang_col::<S, D>(cor, wb, c, col.angular);
        proof {
            lemma_disjoint_keeps(c1, cor@, wb, vb);
            assert(lin_cols_of::<S, D>(cor@, vb) =~= lin_cols_of::<S, D>(c1, vb));
            assert(ang_cols_of::<S, D>(c0, wb) =~= ang_cols_of::<S, D>(c1, wb));
        }
        c = c + 1;
    }
    proof {
        assert(lin_cols_of::<S, D>(cor@, vb) =~= Seq::new(
            vb.ncols as nat,
            |c: int| cor_col(st, ws, k, c).linear,
        ));
        assert(ang_cols_of::<S, D>(cor@, wb) =~= Seq::new(
            wb.ncols as nat,
            |c: int| cor_col(st, ws, k, c).angular,
        ));
    }
}

/// Builds the Coriolis blocks of every link, parents before children.
fn update_coriolis<S: Scalar, D: Space<S>>(
    ids: &BatchIndices,
    b: u32,
    joff: usize,
    voff: usize,
    woff: usize,
    ndofs: usize,
    stat: &[MultibodyLinkStatic<S, D>],
    ws: &[MultibodyLinkWorkspace<S, D>],
    lv: VecView,
    jac: &[S],
    cor: &mut [S],
)
    requires
        lv.fits(stat@.len() as int),
        lv.fits(ws@.len() as int),
        ndofs <= u32::MAX,
        parents_first(vec_of(stat@, lv)),
        ({
            let nb = ids.num_batches as int;
            let sd = D::dimension_spec().spatial_spec();
            let dim = D::dimension_spec().lin_spec();
            &&& room(nb, b as int, joff as int, lv.len * sd * ndofs, jac@.len() as int)
            &&& room(nb, b as int, voff as int, lv.len * dim * ndofs, old(cor)@.len() as int)
            &&& room(nb, b as int, woff as int, lv.len * dim * ndofs, old(cor)@.len() as int)
            &&& voff + lv.len * dim * ndofs <= woff
            &&& forall|k: int|
                0 <= k < lv.len ==> cols_of::<S, D>(
                    jac@,
                    #[trigger] jac_blocks(nb, b as int, joff as int, sd, ndofs as int)(k),
                ) == link_jac(vec_of(stat@, lv), vec_of(ws@, lv), ndofs as int, k)
        }),
    ensures
        ({
            let nb = ids.num_batches as int;
            &&& forall|k: int|
                0 <= k < lv.len ==> cor_block_ok(
                    final(cor)@,
                    #[trigger] cor_v_blocks::<S, D>(nb, b as int, voff as int, ndofs as int)(k),
                    cor_w_blocks::<S, D>(nb, b as int, woff as int, ndofs as int)(k),
                    vec_of(stat@, lv),
                    vec_of(ws@, lv),
                    k,
                )
            &&& final(cor)@.len() == old(cor)@.len()
            &&& forall|e: int|
                0 <= e < old(cor)@.len() && !in_blocks(
                    cor_v_blocks::<S, D>(nb, b as int, voff as int, ndofs as int),
                    lv.len as int,
                    e,
                ) && !in_blocks(
                    cor_w_blocks::<S, D>(nb, b as int, woff as int, ndofs as int),
                    lv.len as int,
                    e,
                ) ==> #[trigger] final(cor)@[e] == old(cor)@[e]
        }),
{
    let ghost st = vec_of(stat@, lv);
    let ghost wk = vec_of(ws@, lv);
    let ghost nb = ids.num_batches as int;
    let ghost sdg = D::dimension_spec().spatial_spec();
    let ghost dimg = D::dimension_spec().lin_spec();
    let ghost angg = D::dimension_spec().ang_spec();
    let ghost jb = jac_blocks(nb, b as int, joff as int, sdg, ndofs as int);
    let ghost vbs = cor_v_blocks::<S, D>(nb, b as int, voff as int, ndofs as int);
    let ghost wbs = cor_w_blocks::<S, D>(nb, b as int, woff as int, ndofs as int);
    let d = D::dimension();
    let sd: usize = d.spatial() as usize;
    let dim: usize = d.lin() as usize;
    let ang: usize = d.ang() as usize;
    if ndofs == 0 {
        proof {
            assert forall|k: int| 0 <= k < lv.len implies cor_block_ok(
                cor@,
                #[trigger] vbs(k),
                wbs(k),
                st,
                wk,
                k,
            ) by {
                assert(lin_cols_of::<S, D>(cor@, vbs(k)) =~= Seq::new(
                    0,
                    |c: int| cor_col(st, wk, k, c).linear,
                ));
                assert(ang_cols_of::<S, D>(cor@, wbs(k)) =~= Seq::new(
                    0,
                    |c: int| cor_col(st, wk, k, c).angular,
                ));
            }
        }
        return ;
    }
    proof {
        lemma_cor_cross::<S, D>(
            nb,
            b as int,
            voff as int,
            woff as int,
            ndofs as int,
            lv.len as int,
            cor@.len() as int,
        );
    }
    let mut k: usize = 0;
    while k < lv.len
        invariant
            lv.fits(stat@.len() as int),
            lv.fits(ws@.len() as int),
            0 < ndofs <= u32::MAX,
            sd == sdg,
            dim == dimg,
            ang == angg,
            sdg == D::dimension_spec().spatial_spec(),
            dimg == D::dimension_spec().lin_spec(),
            angg == D::dimension_spec().ang_spec(),
            nb == ids.num_batches,
            old(cor)@.len() == cor@.len(),
            room(nb, b as int, joff as int, lv.len * sdg * ndofs, jac@.len() as int),
            room(nb, b as int, voff as int, lv.len * dimg * ndofs, cor@.len() as int),
            room(nb, b as int, woff as int, lv.len * dimg * ndofs, cor@.len() as int),
            parents_first(st),
            k <= lv.len,
            st == vec_of(stat@, lv),
            wk == vec_of(ws@, lv),
            jb == jac_blocks(nb, b as int, joff as int, sdg, ndofs as int),
            vbs == cor_v_blocks::<S, D>(nb, b as int, voff as int, ndofs as int),
            wbs == cor_w_blocks::<S, D>(nb, b as int, woff as int, ndofs as int),
            forall|j: int, i: int|
                0 <= j < lv.len && 0 <= i < lv.len ==> disjoint(
                    #[trigger] vbs(j),
                    #[trigger] wbs(i),
                ) && disjoint(wbs(i), vbs(j)),
            forall|j: int|
                0 <= j < lv.len ==> cols_of::<S, D>(jac@, #[trigger] jb(j)) == link_jac(
                    st,
                    wk,
                    ndofs as int,
                    j,
                ),
            forall|j: int|
                0 <= j < k ==> cor_block_ok(cor@, #[trigger] vbs(j), wbs(j), st, wk, j),
            forall|e: int|
                0 <= e < cor@.len() && !in_blocks(vbs, lv.len as int, e) && !in_blocks(
                    wbs,
                    lv.len as int,
                    e,
                ) ==> #[trigger] cor@[e] == old(cor)@[e],
        decreases lv.len - k,
    {
        let ghost n = cor@.len() as int;
        let ghost links = lv.len as int;
        let s = vec_get(stat, lv, k);
        assert(st[k as int] == s);
        let w = vec_get(ws, lv, k);
        let p: usize = if k != 0 {
            s.parent_link_id as usize
        } else {
            0
        };
        proof {
            lemma_blocks(nb, b as int, voff as int, dimg, dimg, ndofs as int, links, k as int, n);
            lemma_blocks(nb, b as int, woff as int, dimg, angg, ndofs as int, links, k as int, n);
            lemma_blocks(nb, b as int, voff as int, dimg, dimg, ndofs as int, links, p as int, n);
            lemma_blocks(nb, b as int, woff as int, dimg, angg, ndofs as int, links, p as int, n);
            lemma_block_room(nb, b as int, voff as int, dimg, ndofs as int, links, k as int, n);
            lemma_block_room(nb, b as int, woff as int, dimg, ndofs as int, links, k as int, n);
            lemma_block_room(nb, b as int, voff as int, dimg, ndofs as int, links, p as int, n);
            lemma_block_room(nb, b as int, woff as int, dimg, ndofs as int, links, p as int, n);
            let nj = jac@.len() as int;
            lemma_block_room(nb, b as int, joff as int, sdg, ndofs as int, links, k as int, nj);
            lemma_block_room(nb, b as int, joff as int, sdg, ndofs as int, links, p as int, nj);
        }
        let vb = ids.imat(b, voff + k * dim * ndofs, dim, ndofs, cor.len());
        let wb = ids.imat(b, woff + k * dim * ndofs, ang, ndofs, cor.len());
        let pvb = ids.imat(b, voff + p * dim * ndofs, dim, ndofs, cor.len());
        let pwb = ids.imat(b, woff + p * dim * ndofs, ang, ndofs, cor.len());
        let jv = ids.imat(b, joff + k * sd * ndofs, sd, ndofs, jac.len());
        let pjv = ids.imat(b, joff + p * sd * ndofs, sd, ndofs, jac.len());
        assert(vb == vbs(k as int) && wb == wbs(k as int));
        assert(pvb == vbs(p as int) && pwb == wbs(p as int));
        assert(jv == jb(k as int) && pjv == jb(p as int));
        let parent_w = if k != 0 {
            Some(vec_get(ws, lv, p).rb_vels.angular)
        } else {
            None
        };
        let rot = if k != 0 {
            vec_get(ws, lv, p).local_to_world.rotation
        } else {
            D::rid()
        };
        let frame_rot = D::rmul(rot, s.data.local_frame_a.rotation);
        let ghost c0 = cor@;
        write_coriolis_blocks(
            &s,
            &w,
            parent_w,
            frame_rot,
            jac,
            jv,
            pjv,
            cor,
            vb,
            wb,
            pvb,
            pwb,
            Ghost(st),
            Ghost(wk),
            Ghost(k as int),
        );
        proof {
            assert forall|j: int| 0 <= j < k + 1 implies cor_block_ok(
                cor@,
                #[trigger] vbs(j),
                wbs(j),
                st,
                wk,
                j,
            ) by {
                if j < k {
                    lemma_blocks(nb, b as int, voff as int, dimg, dimg, ndofs as int, links, j, n);
                    lemma_blocks(nb, b as int, woff as int, dimg, angg, ndofs as int, links, j, n);
                    assert(disjoint(vbs(j), vb));
                    assert(disjoint(wbs(j), wb));
                    assert(disjoint(vbs(j), wbs(k as int)));
                    assert(disjoint(vbs(k as int), wbs(j)) && disjoint(wbs(j), vbs(k as int)));
                    lemma_disjoint_keeps_two(c0, cor@, vb, wb, vbs(j));
                    lemma_disjoint_keeps_two(c0, cor@, vb, wb, wbs(j));
                    assert(lin_cols_of::<S, D>(c0, vbs(j)) =~= lin_cols_of::<S, D>(cor@, vbs(j)));
                    assert(ang_cols_of::<S, D>(c0, wbs(j)) =~= ang_cols_of::<S, D>(cor@, wbs(j)));
                }
            }
            assert forall|e: int| 0 <= e < cor@.len() && !in_blocks(vbs, links, e) && !in_blocks(
                wbs,
                links,
                e,
            ) implies #[trigger] cor@[e] == old(cor)@[e] by {
                assert(!vbs(k as int).holds(e) && !wbs(k as int).holds(e));
                assert(c0[e] == cor@[e]);
            }
        }
        k = k + 1;
    }
}

// ---- mass matrix ----

/// `J_i^T diag(m, I) J_j`, one entry.
pub open spec fn quad_entry<S: Scalar, D: Space<S>>(
    ji: Velocity<S, D>,
    jj: Velocity<S, D>,
    mass: S,
    inertia: D::I,
) -> S {
    D::vdot_spec(ji.linear, D::vscale_spec(jj.linear, mass)).plus_spec(
        D::gdot_spec(ji.angular, D::imul_spec(inertia, jj.angular)),
    )
}

/// The product of two spatial columns.
pub open spec fn spatial_product<S: Scalar, D: Space<S>>(
    a: Velocity<S, D>,
    b: Velocity<S, D>,
) -> S {
    D::vdot_spec(a.linear, b.linear).plus_spec(D::gdot_spec(a.angular, b.angular))
}

/// The impulse per unit of velocity `c` that the Coriolis terms of link `k`
/// ask for over a time step.
pub open spec fn coriolis_impulse<S: Scalar, D: Space<S>>(
    st: Seq<MultibodyLinkStatic<S, D>>,
    ws: Seq<MultibodyLinkWorkspace<S, D>>,
    dt: S,
    k: int,
    c: int,
) -> Velocity<S, D> {
    let lmp = st[k].local_mprops;
    let mass = S::one_spec().over_spec(D::vget_spec(lmp.inv_mass, 0));
    let col = cor_col(st, ws, k, c);
    Velocity {
        linear: D::vscale_spec(col.linear, mass.times_spec(dt)),
        angular: D::ascale_spec(
            D::imul_spec(link_world_inertia_spec(ws[k], lmp), col.angular),
            dt,
        ),
    }
}

/// The degrees of freedom of link `a` and of up to `fuel - 1` of its
/// ancestors.
pub open spec fn chain_dofs<S: Scalar, D: Space<S>>(
    st: Seq<MultibodyLinkStatic<S, D>>,
    a: int,
    fuel: int,
) -> Seq<u32>
    decreases fuel,
{
    if fuel <= 0 {
        Seq::empty()
    } else {
        let own = Seq::new(st[a].ndofs as nat, |i: int| (st[a].assembly_id + i) as u32);
        if a == 0 {
            own
        } else {
            own + chain_dofs(st, st[a].parent_link_id as int, fuel - 1)
        }
    }
}

/// How the mass matrix is assembled.
#[derive(Clone, Copy)]
pub struct MassOptions<S: Scalar> {
    /// The time step.
    pub dt: S,
    /// Whether the Coriolis terms are added.
    pub coriolis: bool,
    /// Whether the inertia terms are restricted to each link's own chain.
    pub chain: bool,
}

/// Link `k` adds its inertia term to entry `(i, j)`. Parents come first, so that the
/// chain of link `k` to the root has at most `k + 1` links.
pub open spec fn touches<S: Scalar, D: Space<S>>(
    st: Seq<MultibodyLinkStatic<S, D>>,
    chain: bool,
    k: int,
    i: int,
    j: int,
) -> bool {
    let own = chain_dofs(st, k, k + 1);
    chain ==> own.contains(i as u32) && own.contains(j as u32)
}

/// Entry `(i, j)` of the mass matrix after the first `k` links.
pub open spec fn mass_entry<S: Scalar, D: Space<S>>(
    st: Seq<MultibodyLinkStatic<S, D>>,
    ws: Seq<MultibodyLinkWorkspace<S, D>>,
    opt: MassOptions<S>,
    k: int,
    i: int,
    j: int,
) -> S
    decreases k,
{
    if k <= 0 {
        S::zero_spec()
    } else {
        mass_entry_step(st, ws, opt, k - 1, i, j, mass_entry(st, ws, opt, k - 1, i, j))
    }
}

/// What link `k` makes of entry `(i, j)`: the inertia term, then the Coriolis
/// term. A link without mass adds nothing.
pub open spec fn mass_entry_step<S: Scalar, D: Space<S>>(
    st: Seq<MultibodyLinkStatic<S, D>>,
    ws: Seq<MultibodyLinkWorkspace<S, D>>,
    opt: MassOptions<S>,
    k: int,
    i: int,
    j: int,
    m: S,
) -> S {
    let lmp = st[k].local_mprops;
    if !has_mass(lmp) {
        m
    } else {
        let mass = S::one_spec().over_spec(D::vget_spec(lmp.inv_mass, 0));
        let inertia = link_world_inertia_spec(ws[k], lmp);
        let ji = jac_col(st, ws, k, i);
        let full = if opt.coriolis {
            D::igyro_spec(inertia, ws[k].rb_vels.angular, opt.dt)
        } else {
            inertia
        };
        let m1 = if touches(st, opt.chain, k, i, j) {
            m.plus_spec(quad_entry(ji, jac_col(st, ws, k, j), mass, full))
        } else {
            m
        };
        if opt.coriolis {
            m1.plus_spec(spatial_product(ji, coriolis_impulse(st, ws, opt.dt, k, j)))
        } else {
            m1
        }
    }
}

/// The mass matrix of a multibody: the links' terms, then damping over the
/// time step and armature on the diagonal.
pub open spec fn mass_matrix<S: Scalar, D: Space<S>>(
    st: Seq<MultibodyLinkStatic<S, D>>,
    ws: Seq<MultibodyLinkWorkspace<S, D>>,
    opt: MassOptions<S>,
    damping: Seq<S>,
    armature: Seq<S>,
) -> Seq<Seq<S>> {
    let n = damping.len();
    Seq::new(
        n,
        |i: int|
            Seq::new(
                n,
                |j: int|
                    {
                        let m = mass_entry(st, ws, opt, st.len() as int, i, j);
                        if i == j {
                            m.plus_spec(damping[i].times_spec(opt.dt)).plus_spec(armature[i])
                        } else {
                            m
                        }
                    },
            ),
    )
}

fn collect_chain<S: Scalar, D: Space<S>>(
    stat: &[MultibodyLinkStatic<S, D>],
    lv: VecView,
    k: usize,
) -> (r: Vec<u32>)
    requires
        lv.fits(stat@.len() as int),
        k < lv.len,
        parents_first(vec_of(stat@, lv)),
        chain_ids_fit(vec_of(stat@, lv)),
    ensures
        r@ == chain_dofs(vec_of(stat@, lv), k as int, k + 1),
{
    let ghost st = vec_of(stat@, lv);
    let mut out: Vec<u32> = Vec::new();
    let mut a: usize = k;
    let mut fuel: usize = k + 1;
    let mut done = false;
    while fuel > 0 && !done
        invariant
            lv.fits(stat@.len() as int),
            st == vec_of(stat@, lv),
            parents_first(st),
            chain_ids_fit(st),
            a < lv.len,
            chain_dofs(st, k as int, k + 1) == out@ + (if done {
                Seq::empty()
            } else {
                chain_dofs(st, a as int, fuel as int)
            }),
        decreases fuel,
    {
        let s = vec_get(stat, lv, a);
        assert(st[a as int] == s);
        let ghost before = out@;
        let ghost own = Seq::new(s.ndofs as nat, |i: int| (s.assembly_id + i) as u32);
        let mut i: u32 = 0;
        while i < s.ndofs
            invariant
                i <= s.ndofs,
                s.assembly_id + s.ndofs <= u32::MAX,
                own == Seq::new(s.ndofs as nat, |i: int| (s.assembly_id + i) as u32),
                out@ == before + own.take(i as int),
            decreases s.ndofs - i,
        {
            out.push(s.assembly_id + i);
            assert(own.take(i + 1) =~= own.take(i as int).push(own[i as int]));
            i = i + 1;
        }
        assert(own.take(s.ndofs as int) =~= own);
        if a == 0 {
            done = true;
            assert(out@ + Seq::<u32>::empty() =~= out@);
        } else {
            a = s.parent_link_id as usize;
            assert(before + (own + chain_dofs(st, a as int, fuel - 1)) =~= (before + own)
                + chain_dofs(st, a as int, fuel - 1));
        }
        fuel = fuel - 1;
    }
    assert(out@ + Seq::<u32>::empty() =~= out@);
    out
}

/// Every degree-of-freedom index of a joint is representable.
pub open spec fn chain_ids_fit<S: Scalar, D: Space<S>>(
    st: Seq<MultibodyLinkStatic<S, D>>,
) -> bool {
    forall|k: int|
        0 <= k < st.len() ==> (#[trigger] st[k]).assembly_id + st[k].ndofs <= u32::MAX
}

fn list_contains(v: &Vec<u32>, x: u32) -> (r: bool)
    ensures
        r == v@.contains(x),
{
    let mut i: usize = 0;
    while i < v.len()
        invariant
            i <= v@.len(),
            forall|j: int| 0 <= j < i ==> v@[j] != x,
        decreases v@.len() - i,
    {
        if v[i] == x {
            assert(v@[i as int] == x);
            return true;
        }
        i = i + 1;
    }
    false
}

/// Adds the terms of link `k` to every entry of the mass matrix.
fn accumulate_link<S: Scalar, D: Space<S>>(
    s: &MultibodyLinkStatic<S, D>,
    w: &MultibodyLinkWorkspace<S, D>,
    opt: MassOptions<S>,
    chain: &Vec<u32>,
    jac: &[S],
    jv: MatView,
    cor: &[S],
    vb: MatView,
    wb: MatView,
    mass: &mut [S],
    mv: MatView,
    Ghost(st): Ghost<Seq<MultibodyLinkStatic<S, D>>>,
    Ghost(ws): Ghost<Seq<MultibodyLinkWorkspace<S, D>>>,
    Ghost(k): Ghost<int>,
)
    requires
        0 <= k < st.len(),
        *s == st[k],
        *w == ws[k],
        opt.chain ==> chain@ == chain_dofs(st, k, k + 1),
        mv.nrows == mv.ncols,
        mv.nrows <= u32::MAX,
        mv.fits(old(mass)@.len() as int),
        jv.fits(jac@.len() as int),
        jv.nrows == D::dimension_spec().spatial_spec(),
        jv.ncols == mv.ncols,
        cols_of::<S, D>(jac@, jv) == link_jac(st, ws, mv.ncols as int, k),
        opt.coriolis ==> {
            &&& vb.fits(cor@.len() as int)
            &&& wb.fits(cor@.len() as int)
            &&& vb.nrows == D::dimension_spec().lin_spec()
            &&& wb.nrows == D::dimension_spec().ang_spec()
            &&& vb.ncols == mv.ncols
            &&& wb.ncols == mv.ncols
            &&& cor_block_ok(cor@, vb, wb, st, ws, k)
        },
        forall|i: int, j: int|
            0 <= i < mv.nrows && 0 <= j < mv.ncols ==> #[trigger] mat_of(old(mass)@, mv)[i][j]
                == mass_entry(st, ws, opt, k, i, j),
    ensures
        forall|i: int, j: int|
            0 <= i < mv.nrows && 0 <= j < mv.ncols ==> #[trigger] mat_of(final(mass)@, mv)[i][j]
                == mass_entry(st, ws, opt, k + 1, i, j),
        same_outside_mat(old(mass)@, final(mass)@, mv),
{
    let lmp = s.local_mprops;
    let inv_mass = D::vget(lmp.inv_mass, 0);
    if inv_mass.same(S::zero()) {
        return ;
    }
    let m = S::one().over(inv_mass);
    let inertia = link_world_inertia(w, &lmp);
    let full = if opt.coriolis {
        D::igyro(inertia, w.rb_vels.angular, opt.dt)
    } else {
        inertia
    };
    let n: usize = mv.nrows;
    let mut j: usize = 0;
    while j < n
        invariant
            0 <= k < st.len(),
            *s == st[k],
            *w == ws[k],
            lmp == s.local_mprops,
            has_mass(lmp),
            m == S::one_spec().over_spec(D::vget_spec(lmp.inv_mass, 0)),
            inertia == link_world_inertia_spec(ws[k], lmp),
            full == (if opt.coriolis {
                D::igyro_spec(inertia, ws[k].rb_vels.angular, opt.dt)
            } else {
                inertia
            }),
            opt.chain ==> chain@ == chain_dofs(st, k, k + 1),
            n == mv.nrows,
            n == mv.ncols,
            n <= u32::MAX,
            mv.fits(old(mass)@.len() as int),
            jv.fits(jac@.len() as int),
            jv.nrows == D::dimension_spec().spatial_spec(),
            jv.ncols == n,
            cols_of::<S, D>(jac@, jv) == link_jac(st, ws, n as int, k),
            opt.coriolis ==> {
                &&& vb.fits(cor@.len() as int)
                &&& wb.fits(cor@.len() as int)
                &&& vb.nrows == D::dimension_spec().lin_spec()
                &&& wb.nrows == D::dimension_spec().ang_spec()
                &&& vb.ncols == n
                &&& wb.ncols == n
                &&& cor_block_ok(cor@, vb, wb, st, ws, k)
            },
            j <= n,
            same_outside_mat(old(mass)@, mass@, mv),
            forall|i: int, c: int|
                0 <= i < n && 0 <= c < n ==> #[trigger] mat_of(mass@, mv)[i][c] == mass_entry(
                    st,
                    ws,
                    opt,
                    if c < j {
                        k + 1
                    } else {
                        k
                    },
                    i,
                    c,
                ),
        decreases n - j,
    {
        let jj = get_col::<S, D>(jac, jv, j);
        let j_on = !opt.chain || list_contains(chain, j as u32);
        let icdt: Velocity<S, D> = if opt.coriolis {
            Velocity {
                linear: D::vscale(get_lin_col::<S, D>(cor, vb, j), m.times(opt.dt)),
                angular: D::ascale(
                    D::imul(inertia, get_ang_col::<S, D>(cor, wb, j)),
                    opt.dt,
                ),
            }
        } else {
            Velocity::zero()
        };
        assert(opt.coriolis ==> icdt == coriolis_impulse(st, ws, opt.dt, k, j as int));
        let mut i: usize = 0;
        while i < n
            invariant
                0 <= k < st.len(),
                lmp == st[k].local_mprops,
                has_mass(lmp),
                m == S::one_spec().over_spec(D::vget_spec(lmp.inv_mass, 0)),
                inertia == link_world_inertia_spec(ws[k], lmp),
                full == (if opt.coriolis {
                    D::igyro_spec(inertia, ws[k].rb_vels.angular, opt.dt)
                } else {
                    inertia
                }),
                opt.chain ==> chain@ == chain_dofs(st, k, k + 1),
                n == mv.nrows,
                n == mv.ncols,
                n <= u32::MAX,
                mv.fits(old(mass)@.len() as int),
                jv.fits(jac@.len() as int),
                jv.nrows == D::dimension_spec().spatial_spec(),
                jv.ncols == n,
                cols_of::<S, D>(jac@, jv) == link_jac(st, ws, n as int, k),
                i <= n,
                j < n,
                jj == jac_col(st, ws, k, j as int),
                j_on == (opt.chain ==> chain@.contains(j as u32)),
                opt.coriolis ==> icdt == coriolis_impulse(st, ws, opt.dt, k, j as int),
                same_outside_mat(old(mass)@, mass@, mv),
                forall|r: int, c: int|
                    0 <= r < n && 0 <= c < n ==> #[trigger] mat_of(mass@, mv)[r][c] == mass_entry(
                        st,
                        ws,
                        opt,
                        if c < j || (c == j && r < i) {
                            k + 1
                        } else {
                            k
                        },
                        r,
                        c,
                    ),
            decreases n - i,
        {
            let ji = get_col::<S, D>(jac, jv, i);
            let mut x = mat_get(mass, mv, i, j);
            if j_on && (!opt.chain || list_contains(chain, i as u32)) {
                let q = D::vdot(ji.linear, D::vscale(jj.linear, m)).plus(
                    D::gdot(ji.angular, D::imul(full, jj.angular)),
                );
                x = x.plus(q);
            }
            if opt.coriolis {
                x = x.plus(
                    D::vdot(ji.linear, icdt.linear).plus(D::gdot(ji.angular, icdt.angular)),
                );
            }
            assert(x == mass_entry(st, ws, opt, k + 1, i as int, j as int));
            mat_set(mass, mv, i, j, x);
            i = i + 1;
        }
        j = j + 1;
    }
}

/// Jacobians depend on poses and offsets only, not on velocities.
pub(crate) proof fn lemma_jac_ignores_velocity<S: Scalar, D: Space<S>>(
    st: Seq<MultibodyLinkStatic<S, D>>,
    ws: Seq<MultibodyLinkWorkspace<S, D>>,
    vel: Seq<S>,
    k: int,
    c: int,
)
    requires
        0 <= k < ws.len(),
    ensures
        jac_col(st, moving(st, ws, vel, ws.len() as int), k, c) == jac_col(st, ws, k, c),
    decreases k,
{
    let p = st[k].parent_link_id as int;
    if 0 <= p < k {
        lemma_jac_ignores_velocity(st, ws, vel, p, c);
    }
}

/// Zeroes a viewed matrix.
fn fill_mat_zero<S: Scalar>(buf: &mut [S], m: MatView)
    requires
        m.fits(old(buf)@.len() as int),
    ensures
        forall|i: int, j: int|
            0 <= i < m.nrows && 0 <= j < m.ncols ==> #[trigger] mat_of(final(buf)@, m)[i][j]
                == S::zero_spec(),
        same_outside_mat(old(buf)@, final(buf)@, m),
{
    let mut j: usize = 0;
    while j < m.ncols
        invariant
            m.fits(old(buf)@.len() as int),
            j <= m.ncols,
            same_outside_mat(old(buf)@, buf@, m),
            forall|r: int, c: int|
                0 <= r < m.nrows && 0 <= c < j ==> #[trigger] mat_of(buf@, m)[r][c]
                    == S::zero_spec(),
        decreases m.ncols - j,
    {
        let mut i: usize = 0;
        while i < m.nrows
            invariant
                m.fits(old(buf)@.len() as int),
                j < m.ncols,
                i <= m.nrows,
                same_outside_mat(old(buf)@, buf@, m),
                forall|r: int, c: int|
                    0 <= r < m.nrows && 0 <= c < m.ncols && (c < j || (c == j && r < i))
                        ==> #[trigger] mat_of(buf@, m)[r][c] == S::zero_spec(),
            decreases m.nrows - i,
        {
            mat_set(buf, m, i, j, S::zero());
            i = i + 1;
        }
        j = j + 1;
    }
}

/// Assembles the mass matrix from the links' jacobian and Coriolis blocks.
fn assemble_mass<S: Scalar, D: Space<S>>(
    ids: &BatchIndices,
    b: u32,
    joff: usize,
    voff: usize,
    woff: usize,
    stat: &[MultibodyLinkStatic<S, D>],
    ws: &[MultibodyLinkWorkspace<S, D>],
    lv: VecView,
    jac: &[S],
    cor: &[S],
    mass: &mut [S],
    mv: MatView,
    dof: &[S],
    damping: VecView,
    armature: VecView,
    opt: MassOptions<S>,
)
    requires
        lv.fits(stat@.len() as int),
        lv.fits(ws@.len() as int),
        mv.fits(old(mass)@.len() as int),
        mv.nrows == mv.ncols,
        mv.nrows <= u32::MAX,
        damping.fits(dof@.len() as int),
        armature.fits(dof@.len() as int),
        damping.len == mv.nrows,
        armature.len == mv.nrows,
        parents_first(vec_of(stat@, lv)),
        chain_ids_fit(vec_of(stat@, lv)),
        ({
            let nb = ids.num_batches as int;
            let n = mv.ncols as int;
            let sd = D::dimension_spec().spatial_spec();
            let dim = D::dimension_spec().lin_spec();
            &&& room(nb, b as int, joff as int, lv.len * sd * n, jac@.len() as int)
            &&& forall|k: int|
                0 <= k < lv.len ==> cols_of::<S, D>(
                    jac@,
                    #[trigger] jac_blocks(nb, b as int, joff as int, sd, n)(k),
                ) == link_jac(vec_of(stat@, lv), vec_of(ws@, lv), n, k)
            &&& opt.coriolis ==> {
                &&& room(nb, b as int, voff as int, lv.len * dim * n, cor@.len() as int)
                &&& room(nb, b as int, woff as int, lv.len * dim * n, cor@.len() as int)
                &&& forall|k: int|
                    0 <= k < lv.len ==> cor_block_ok(
                        cor@,
                        #[trigger] cor_v_blocks::<S, D>(nb, b as int, voff as int, n)(k),
                        cor_w_blocks::<S, D>(nb, b as int, woff as int, n)(k),
                        vec_of(stat@, lv),
                        vec_of(ws@, lv),
                        k,
                    )
            }
        }),
    ensures
        mat_of(final(mass)@, mv) == mass_matrix(
            vec_of(stat@, lv),
            vec_of(ws@, lv),
            opt,
            vec_of(dof@, damping),
            vec_of(dof@, armature),
        ),
        same_outside_mat(old(mass)@, final(mass)@, mv),
{
    let ghost st = vec_of(stat@, lv);
    let ghost wk = vec_of(ws@, lv);
    let ghost nb = ids.num_batches as int;
    let ghost sdg = D::dimension_spec().spatial_spec();
    let ghost dimg = D::dimension_spec().lin_spec();
    let ghost angg = D::dimension_spec().ang_spec();
    let d = D::dimension();
    let sd: usize = d.spatial() as usize;
    let dim: usize = d.lin() as usize;
    let ang: usize = d.ang() as usize;
    let n: usize = mv.ncols;
    let ghost jb = jac_blocks(nb, b as int, joff as int, sdg, n as int);
    let ghost vbs = cor_v_blocks::<S, D>(nb, b as int, voff as int, n as int);
    let ghost wbs = cor_w_blocks::<S, D>(nb, b as int, woff as int, n as int);
    if n == 0 {
        assert(mat_of(mass@, mv) =~= mass_matrix(
            st,
            wk,
            opt,
            vec_of(dof@, damping),
            vec_of(dof@, armature),
        ));
        return ;
    }
    fill_mat_zero(mass, mv);
    let mut k: usize = 0;
    while k < lv.len
        invariant
            lv.fits(stat@.len() as int),
            lv.fits(ws@.len() as int),
            mv.fits(old(mass)@.len() as int),
            mv.nrows == mv.ncols,
            n == mv.ncols,
            0 < n <= u32::MAX,
            parents_first(st),
            chain_ids_fit(st),
            sd == sdg,
            dim == dimg,
            ang == angg,
            sdg == D::dimension_spec().spatial_spec(),
            dimg == D::dimension_spec().lin_spec(),
            angg == D::dimension_spec().ang_spec(),
            nb == ids.num_batches,
            st == vec_of(stat@, lv),
            wk == vec_of(ws@, lv),
            k <= lv.len,
            jb == jac_blocks(nb, b as int, joff as int, sdg, n as int),
            vbs == cor_v_blocks::<S, D>(nb, b as int, voff as int, n as int),
            wbs == cor_w_blocks::<S, D>(nb, b as int, woff as int, n as int),
            room(nb, b as int, joff as int, lv.len * sdg * n, jac@.len() as int),
            forall|j: int|
                0 <= j < lv.len ==> cols_of::<S, D>(jac@, #[trigger] jb(j)) == link_jac(
                    st,
                    wk,
                    n as int,
                    j,
                ),
            opt.coriolis ==> {
                &&& room(nb, b as int, voff as int, lv.len * dimg * n, cor@.len() as int)
                &&& room(nb, b as int, woff as int, lv.len * dimg * n, cor@.len() as int)
                &&& forall|j: int|
                    0 <= j < lv.len ==> cor_block_ok(cor@, #[trigger] vbs(j), wbs(j), st, wk, j)
            },
            same_outside_mat(old(mass)@, mass@, mv),
            forall|i: int, j: int|
                0 <= i < n && 0 <= j < n ==> #[trigger] mat_of(mass@, mv)[i][j] == mass_entry(
                    st,
                    wk,
                    opt,
                    k as int,
                    i,
                    j,
                ),
        decreases lv.len - k,
    {
        let ghost links = lv.len as int;
        proof {
            lemma_block_room(
                nb,
                b as int,
                joff as int,
                sdg,
                n as int,
                links,
                k as int,
                jac@.len() as int,
            );
        }
        let jv = ids.imat(b, joff + k * sd * n, sd, n, jac.len());
        assert(jv == jb(k as int));
        let (vb, wb): (MatView, MatView) = if opt.coriolis {
            proof {
                let m = cor@.len() as int;
                lemma_blocks(nb, b as int, voff as int, dimg, dimg, n as int, links, k as int, m);
                lemma_blocks(nb, b as int, woff as int, dimg, angg, n as int, links, k as int, m);
                lemma_block_room(nb, b as int, voff as int, dimg, n as int, links, k as int, m);
                lemma_block_room(nb, b as int, woff as int, dimg, n as int, links, k as int, m);
            }
            (
                ids.imat(b, voff + k * dim * n, dim, n, cor.len()),
                ids.imat(b, woff + k * dim * n, ang, n, cor.len()),
            )
        } else {
            (jv, jv)
        };
        assert(opt.coriolis ==> vb == vbs(k as int) && wb == wbs(k as int));
        let s = vec_get(stat, lv, k);
        let w = vec_get(ws, lv, k);
        let chain: Vec<u32> = if opt.chain {
            collect_chain(stat, lv, k)
        } else {
            Vec::new()
        };
        accumulate_link(
            &s,
            &w,
            opt,
            &chain,
            jac,
            jv,
            cor,
            vb,
            wb,
            mass,
            mv,
            Ghost(st),
            Ghost(wk),
            Ghost(k as int),
        );
        k = k + 1;
    }
    let ghost damp = vec_of(dof@, damping);
    let ghost arm = vec_of(dof@, armature);
    let ghost out = mass_matrix(st, wk, opt, damp, arm);
    let mut e: usize = 0;
    while e < n
        invariant
            mv.fits(old(mass)@.len() as int),
            mv.nrows == mv.ncols,
            n == mv.ncols,
            damping.fits(dof@.len() as int),
            armature.fits(dof@.len() as int),
            damping.len == n,
            armature.len == n,
            damp == vec_of(dof@, damping),
            arm == vec_of(dof@, armature),
            out == mass_matrix(st, wk, opt, damp, arm),
            st.len() == lv.len,
            e <= n,
            same_outside_mat(old(mass)@, mass@, mv),
            forall|i: int, j: int|
                0 <= i < n && 0 <= j < n ==> #[trigger] mat_of(mass@, mv)[i][j] == (if i == j && i
                    < e {
                    out[i][j]
                } else {
                    mass_entry(st, wk, opt, st.len() as int, i, j)
                }),
        decreases n - e,
    {
        let x = mat_get(mass, mv, e, e).plus(vec_get(dof, damping, e).times(opt.dt)).plus(
            vec_get(dof, armature, e),
        );
        mat_set(mass, mv, e, e, x);
        e = e + 1;
    }
    proof {
        let fin = mat_of(mass@, mv);
        assert forall|i: int| 0 <= i < n implies #[trigger] fin[i] == out[i] by {
            assert(fin[i] =~= out[i]);
        }
        assert(fin =~= out);
    }
}

// ---- the rest of the Coriolis buffer ----

/// The last of the first `n` links that has mass, or -1.
pub open spec fn last_massive<S: Scalar, D: Space<S>>(
    st: Seq<MultibodyLinkStatic<S, D>>,
    n: int,
) -> int
    decreases n,
{
    if n <= 0 {
        -1
    } else if has_mass(st[n - 1].local_mprops) {
        n - 1
    } else {
        last_massive(st, n - 1)
    }
}

proof fn lemma_last_massive<S: Scalar, D: Space<S>>(st: Seq<MultibodyLinkStatic<S, D>>, n: int)
    requires
        0 <= n,
    ensures
        -1 <= last_massive(st, n) < n,
    decreases n,
{
    if n > 0 {
        lemma_last_massive(st, n - 1);
    }
}

/// Where the sections of the Coriolis buffer are: linear blocks, angular blocks, and
/// the impulses of one link.
pub open spec fn cor_sections<S: Scalar, D: Space<S>>(
    nb: int,
    b: int,
    voff: int,
    woff: int,
    ioff: int,
    ndofs: int,
    links: int,
    n: int,
) -> bool {
    let size = links * D::dimension_spec().lin_spec() * ndofs;
    &&& room(nb, b, voff, size, n)
    &&& room(nb, b, woff, size, n)
    &&& room(nb, b, ioff, D::dimension_spec().spatial_spec() * ndofs, n)
    &&& voff + size <= woff
    &&& woff + size <= ioff
}

/// The unused entries of link `k` belong to no block and to no other link, and the
/// impulses belong to none of them.
proof fn lemma_cor_sections<S: Scalar, D: Space<S>>(
    nb: int,
    b: int,
    voff: int,
    woff: int,
    ioff: int,
    ndofs: int,
    links: int,
    n: int,
    k: int,
)
    requires
        cor_sections::<S, D>(nb, b, voff, woff, ioff, ndofs, links, n),
        nb <= usize::MAX,
        0 <= k < links,
        0 <= ndofs <= u32::MAX,
    ensures
        ({
            let dim = D::dimension_spec().lin_spec();
            let ang = D::dimension_spec().ang_spec();
            let sd = D::dimension_spec().spatial_spec();
            let vbs = cor_v_blocks::<S, D>(nb, b, voff, ndofs);
            let wbs = cor_w_blocks::<S, D>(nb, b, woff, ndofs);
            let pads = cor_pad_blocks::<S, D>(nb, b, woff, ndofs);
            let iv = imat_spec(nb, b, ioff, sd, ndofs);
            &&& 0 <= k * dim * ndofs
            &&& 0 <= k * dim
            &&& 0 <= ang * ndofs <= dim * ndofs
            &&& room(nb, b, woff + k * dim * ndofs + ang * ndofs, (dim - ang) * ndofs, n)
            &&& room(nb, b, voff + k * dim * ndofs, dim * ndofs, n)
            &&& room(nb, b, woff + k * dim * ndofs, ang * ndofs, n)
            &&& vbs(k).fits(n)
            &&& wbs(k).fits(n)
            &&& pads(k).fits(n)
            &&& iv.fits(n)
            &&& disjoint(vbs(k), iv)
            &&& disjoint(wbs(k), iv)
            &&& disjoint(pads(k), iv)
            &&& forall|j: int|
                0 <= j < links ==> disjoint(#[trigger] vbs(j), pads(k)) && disjoint(
                    wbs(j),
                    pads(k),
                )
            &&& forall|j: int| 0 <= j < links && j != k ==> disjoint(#[trigger] pads(j), pads(k))
        }),
{
    let dim = D::dimension_spec().lin_spec();
    let ang = D::dimension_spec().ang_spec();
    let sd = D::dimension_spec().spatial_spec();
    let pad = dim - ang;
    let size = links * dim * ndofs;
    assert(ang * ndofs + pad * ndofs == dim * ndofs && 0 <= ang * ndofs && 0 <= pad * ndofs)
        by (nonlinear_arith)
        requires
            pad == dim - ang,
            pad >= 0,
            ang >= 0,
            ndofs >= 0,
    ;
    assert(0 <= sd * ndofs) by (nonlinear_arith)
        requires
            sd >= 0,
            ndofs >= 0,
    ;
    let vbs = cor_v_blocks::<S, D>(nb, b, voff, ndofs);
    let wbs = cor_w_blocks::<S, D>(nb, b, woff, ndofs);
    let pads = cor_pad_blocks::<S, D>(nb, b, woff, ndofs);
    let iv = imat_spec(nb, b, ioff, sd, ndofs);
    assert forall|j: int| 0 <= j < links implies {
        &&& 0 <= #[trigger] link_entry(j, dim, ndofs)
        &&& link_entry(j, dim, ndofs) + dim * ndofs <= size
        &&& room(nb, b, voff + link_entry(j, dim, ndofs), dim * ndofs, n)
        &&& room(nb, b, woff + link_entry(j, dim, ndofs), ang * ndofs, n)
        &&& room(nb, b, woff + link_entry(j, dim, ndofs) + ang * ndofs, pad * ndofs, n)
        &&& j < k ==> link_entry(j, dim, ndofs) + dim * ndofs <= link_entry(k, dim, ndofs)
        &&& k < j ==> link_entry(k, dim, ndofs) + dim * ndofs <= link_entry(j, dim, ndofs)
    } by {
        lemma_link_entry(j, links, dim, ndofs);
        if j < k {
            lemma_link_entry(j, k, dim, ndofs);
        }
        if k < j {
            lemma_link_entry(k, j, dim, ndofs);
        }
        let e = link_entry(j, dim, ndofs);
        lemma_subroom(nb, b, voff, size, n, voff + e, dim * ndofs);
        lemma_subroom(nb, b, woff, size, n, woff + e, ang * ndofs);
        lemma_subroom(nb, b, woff, size, n, woff + e + ang * ndofs, pad * ndofs);
    }
    let ek = link_entry(k, dim, ndofs);
    assert(0 <= ek);
    assert(0 <= k * dim) by (nonlinear_arith)
        requires
            k >= 0,
            dim >= 0,
    ;
    let pk = woff + ek + ang * ndofs;
    if ndofs > 0 {
        lemma_imat_fits(nb, b, voff + ek, dim, ndofs, n);
        lemma_imat_fits(nb, b, woff + ek, ang, ndofs, n);
        lemma_imat_fits(nb, b, ioff, sd, ndofs, n);
        if pad > 0 {
            lemma_imat_fits(nb, b, pk, pad, ndofs, n);
        }
    }
    lemma_imat_disjoint(nb, b, voff + ek, dim, ndofs, ioff, sd, ndofs, n);
    lemma_imat_disjoint(nb, b, woff + ek, ang, ndofs, ioff, sd, ndofs, n);
    lemma_imat_disjoint(nb, b, pk, pad, ndofs, ioff, sd, ndofs, n);
    assert forall|j: int| 0 <= j < links implies disjoint(#[trigger] vbs(j), pads(k)) && disjoint(
        wbs(j),
        pads(k),
    ) by {
        let e = link_entry(j, dim, ndofs);
        assert(0 <= e);
        lemma_imat_disjoint(nb, b, voff + e, dim, ndofs, pk, pad, ndofs, n);
        lemma_imat_disjoint(nb, b, woff + e, ang, ndofs, pk, pad, ndofs, n);
    }
    assert forall|j: int| 0 <= j < links && j != k implies disjoint(
        #[trigger] pads(j),
        pads(k),
    ) by {
        let e = link_entry(j, dim, ndofs);
        assert(0 <= e);
        lemma_imat_disjoint(nb, b, woff + e + ang * ndofs, pad, ndofs, pk, pad, ndofs, n);
    }
}

/// The first entry of link `j` in a section.
spec fn link_entry(j: int, dim: int, ndofs: int) -> int {
    j * dim * ndofs
}

proof fn lemma_link_entry(j: int, k: int, dim: int, ndofs: int)
    requires
        0 <= j < k,
        0 <= dim,
        0 <= ndofs,
    ensures
        0 <= link_entry(j, dim, ndofs),
        link_entry(j, dim, ndofs) + dim * ndofs <= k * dim * ndofs,
{
    assert(0 <= j * dim * ndofs && j * dim * ndofs + dim * ndofs <= k * dim * ndofs)
        by (nonlinear_arith)
        requires
            0 <= j,
            j + 1 <= k,
            0 <= dim,
            0 <= ndofs,
    ;
}

proof fn lemma_subroom(nb: int, b: int, base: int, len: int, n: int, base2: int, len2: int)
    requires
        room(nb, b, base, len, n),
        base <= base2,
        0 <= len2,
        base2 + len2 <= base + len,
    ensures
        room(nb, b, base2, len2, n),
{
    assert((base2 + len2) * nb <= (base + len) * nb) by (nonlinear_arith)
        requires
            base2 + len2 <= base + len,
            nb >= 0,
    ;
}

/// A matrix of zeros.
pub open spec fn zeros<S: Scalar>(nrows: int, ncols: int) -> Seq<Seq<S>> {
    Seq::new(nrows as nat, |r: int| Seq::new(ncols as nat, |c: int| S::zero_spec()))
}

/// Zeroes the unused entries of the links without mass.
fn clear_padding<S: Scalar, D: Space<S>>(
    ids: &BatchIndices,
    b: u32,
    woff: usize,
    ndofs: usize,
    stat: &[MultibodyLinkStatic<S, D>],
    lv: VecView,
    cor: &mut [S],
    Ghost(ws): Ghost<Seq<MultibodyLinkWorkspace<S, D>>>,
    Ghost(voff): Ghost<int>,
    Ghost(ioff): Ghost<int>,
)
    requires
        lv.fits(stat@.len() as int),
        0 < ndofs <= u32::MAX,
        cor_sections::<S, D>(
            ids.num_batches as int,
            b as int,
            voff,
            woff as int,
            ioff,
            ndofs as int,
            lv.len as int,
            old(cor)@.len() as int,
        ),
        forall|k: int|
            0 <= k < lv.len ==> cor_block_ok(
                old(cor)@,
                #[trigger] cor_v_blocks::<S, D>(
                    ids.num_batches as int,
                    b as int,
                    voff,
                    ndofs as int,
                )(k),
                cor_w_blocks::<S, D>(
                    ids.num_batches as int,
                    b as int,
                    woff as int,
                    ndofs as int,
                )(k),
                vec_of(stat@, lv),
                ws,
                k,
            ),
    ensures
        ({
            let nb = ids.num_batches as int;
            let st = vec_of(stat@, lv);
            let n = ndofs as int;
            let dim = D::dimension_spec();
            let pads = cor_pad_blocks::<S, D>(nb, b as int, woff as int, n);
            &&& forall|k: int|
                0 <= k < lv.len ==> cor_block_ok(
                    final(cor)@,
                    #[trigger] cor_v_blocks::<S, D>(nb, b as int, voff, n)(k),
                    cor_w_blocks::<S, D>(nb, b as int, woff as int, n)(k),
                    st,
                    ws,
                    k,
                )
            &&& forall|k: int|
                0 <= k < lv.len && !has_mass(st[k].local_mprops) ==> mat_of(
                    final(cor)@,
                    #[trigger] pads(k),
                ) == zeros::<S>(dim.lin_spec() - dim.ang_spec(), n)
            &&& final(cor)@.len() == old(cor)@.len()
            &&& forall|e: int|
                0 <= e < old(cor)@.len() && !in_massless_blocks(pads, st, lv.len as int, e)
                    ==> #[trigger] final(cor)@[e] == old(cor)@[e]
        }),
{
    let ghost nb = ids.num_batches as int;
    let ghost st = vec_of(stat@, lv);
    let ghost links = lv.len as int;
    let ghost vbs = cor_v_blocks::<S, D>(nb, b as int, voff, ndofs as int);
    let ghost wbs = cor_w_blocks::<S, D>(nb, b as int, woff as int, ndofs as int);
    let ghost pads = cor_pad_blocks::<S, D>(nb, b as int, woff as int, ndofs as int);
    let d = D::dimension();
    let dim: usize = d.lin() as usize;
    let ang: usize = d.ang() as usize;
    let mut k: usize = 0;
    while k < lv.len
        invariant
            lv.fits(stat@.len() as int),
            0 < ndofs <= u32::MAX,
            nb == ids.num_batches,
            links == lv.len,
            st == vec_of(stat@, lv),
            dim == D::dimension_spec().lin_spec(),
            ang == D::dimension_spec().ang_spec(),
            vbs == cor_v_blocks::<S, D>(nb, b as int, voff, ndofs as int),
            wbs == cor_w_blocks::<S, D>(nb, b as int, woff as int, ndofs as int),
            pads == cor_pad_blocks::<S, D>(nb, b as int, woff as int, ndofs as int),
            cor@.len() == old(cor)@.len(),
            cor_sections::<S, D>(
                nb,
                b as int,
                voff,
                woff as int,
                ioff,
                ndofs as int,
                links,
                cor@.len() as int,
            ),
            k <= links,
            forall|j: int|
                0 <= j < links ==> cor_block_ok(cor@, #[trigger] vbs(j), wbs(j), st, ws, j),
            forall|j: int|
                0 <= j < k && !has_mass(st[j].local_mprops) ==> mat_of(cor@, #[trigger] pads(j))
                    == zeros::<S>(dim - ang, ndofs as int),
            forall|e: int|
                0 <= e < cor@.len() && !in_massless_blocks(pads, st, k as int, e)
                    ==> #[trigger] cor@[e] == old(cor)@[e],
        decreases links - k,
    {
        let ghost n = cor@.len() as int;
        proof {
            lemma_cor_sections::<S, D>(
                nb,
                b as int,
                voff,
                woff as int,
                ioff,
                ndofs as int,
                links,
                n,
                k as int,
            );
        }
        let s = vec_get(stat, lv, k);
        assert(st[k as int] == s);
        let ghost c0 = cor@;
        if D::vget(s.local_mprops.inv_mass, 0).same(S::zero()) {
            let len: usize = cor.len();
            proof {
                let base = woff + k * dim * ndofs + ang * ndofs;
                assert(base + (dim - ang) * ndofs <= (base + (dim - ang) * ndofs) * nb)
                    by (nonlinear_arith)
                    requires
                        nb >= 1,
                        base + (dim - ang) * ndofs >= 0,
                ;
                assert(0 <= (dim - ang) * ndofs) by (nonlinear_arith)
                    requires
                        dim >= ang,
                        ndofs >= 0,
                ;
                assert(k * dim <= k * dim * ndofs) by (nonlinear_arith)
                    requires
                        k * dim >= 0,
                        ndofs >= 1,
                ;
            }
            let pv = ids.imat(b, woff + k * dim * ndofs + ang * ndofs, dim - ang, ndofs, len);
            assert(pv == pads(k as int));
            fill_mat_zero(cor, pv);
            proof {
                assert forall|j: int| 0 <= j < links implies cor_block_ok(
                    cor@,
                    #[trigger] vbs(j),
                    wbs(j),
                    st,
                    ws,
                    j,
                ) by {
                    lemma_cor_sections::<S, D>(
                        nb,
                        b as int,
                        voff,
                        woff as int,
                        ioff,
                        ndofs as int,
                        links,
                        n,
                        j,
                    );
                    assert(cor_block_ok(c0, vbs(j), wbs(j), st, ws, j));
                    assert(disjoint(vbs(j), pads(k as int)));
                    lemma_disjoint_keeps(c0, cor@, pv, vbs(j));
                    lemma_disjoint_keeps(c0, cor@, pv, wbs(j));
                    assert(lin_cols_of::<S, D>(c0, vbs(j)) =~= lin_cols_of::<S, D>(cor@, vbs(j)));
                    assert(ang_cols_of::<S, D>(c0, wbs(j)) =~= ang_cols_of::<S, D>(cor@, wbs(j)));
                }
                assert forall|j: int| 0 <= j < k + 1 && !has_mass(
                    st[j].local_mprops,
                ) implies mat_of(cor@, #[trigger] pads(j)) == zeros::<S>(dim - ang, ndofs as int) by {
                    if j < k {
                        lemma_cor_sections::<S, D>(
                            nb,
                            b as int,
                            voff,
                            woff as int,
                            ioff,
                            ndofs as int,
                            links,
                            n,
                            j,
                        );
                        assert(disjoint(pads(k as int), pads(j)));
                        lemma_disjoint_keeps(c0, cor@, pv, pads(j));
                    } else {
                        let m = mat_of(cor@, pv);
                        let z = zeros::<S>(dim - ang, ndofs as int);
                        assert forall|r: int| 0 <= r < pv.nrows implies #[trigger] m[r] == z[r] by {
                            assert(m[r] =~= z[r]);
                        }
                        assert(m =~= z);
                    }
                }
            }
        }
        proof {
            assert forall|e: int| 0 <= e < cor@.len() && !in_massless_blocks(
                pads,
                st,
                k + 1,
                e,
            ) implies #[trigger] cor@[e] == old(cor)@[e] by {
                if in_massless_blocks(pads, st, k as int, e) {
                    let j = choose|j: int|
                        0 <= j < k && !has_mass(st[j].local_mprops) && (#[trigger] pads(j)).holds(
                            e,
                        );
                    assert(pads(j).holds(e));
                    assert(false);
                }
                assert(c0[e] == old(cor)@[e]);
                if !has_mass(s.local_mprops) {
                    assert(!pads(k as int).holds(e));
                }
            }
        }
        k = k + 1;
    }
}

/// Writes the impulses that the Coriolis terms of the last link with mass ask for
/// over a time step.
fn write_impulses<S: Scalar, D: Space<S>>(
    ids: &BatchIndices,
    b: u32,
    voff: usize,
    woff: usize,
    ioff: usize,
    ndofs: usize,
    stat: &[MultibodyLinkStatic<S, D>],
    ws: &[MultibodyLinkWorkspace<S, D>],
    lv: VecView,
    cor: &mut [S],
    dt: S,
)
    requires
        lv.fits(stat@.len() as int),
        lv.fits(ws@.len() as int),
        0 < ndofs <= u32::MAX,
        cor_sections::<S, D>(
            ids.num_batches as int,
            b as int,
            voff as int,
            woff as int,
            ioff as int,
            ndofs as int,
            lv.len as int,
            old(cor)@.len() as int,
        ),
        forall|k: int|
            0 <= k < lv.len ==> cor_block_ok(
                old(cor)@,
                #[trigger] cor_v_blocks::<S, D>(
                    ids.num_batches as int,
                    b as int,
                    voff as int,
                    ndofs as int,
                )(k),
                cor_w_blocks::<S, D>(
                    ids.num_batches as int,
                    b as int,
                    woff as int,
                    ndofs as int,
                )(k),
                vec_of(stat@, lv),
                vec_of(ws@, lv),
                k,
            ),
    ensures
        ({
            let nb = ids.num_batches as int;
            let n = ndofs as int;
            let st = vec_of(stat@, lv);
            let iv = imat_spec(nb, b as int, ioff as int, D::dimension_spec().spatial_spec(), n);
            let last = last_massive(st, lv.len as int);
            &&& last >= 0 ==> cols_of::<S, D>(final(cor)@, iv) == Seq::new(
                ndofs as nat,
                |c: int| coriolis_impulse(st, vec_of(ws@, lv), dt, last, c),
            )
            &&& last >= 0 ==> same_outside_mat(old(cor)@, final(cor)@, iv)
            &&& last < 0 ==> final(cor)@ == old(cor)@
        }),
{
    let ghost nb = ids.num_batches as int;
    let ghost st = vec_of(stat@, lv);
    let ghost wk = vec_of(ws@, lv);
    let mut last: usize = 0;
    let mut found = false;
    let mut k: usize = 0;
    while k < lv.len
        invariant
            lv.fits(stat@.len() as int),
            st == vec_of(stat@, lv),
            k <= lv.len,
            found == (last_massive(st, k as int) >= 0),
            found ==> last == last_massive(st, k as int) && last < k,
        decreases lv.len - k,
    {
        let s = vec_get(stat, lv, k);
        assert(st[k as int] == s);
        if !D::vget(s.local_mprops.inv_mass, 0).same(S::zero()) {
            last = k;
            found = true;
        }
        k = k + 1;
    }
    if !found {
        return ;
    }
    let d = D::dimension();
    let dim: usize = d.lin() as usize;
    let ang: usize = d.ang() as usize;
    let sd: usize = d.spatial() as usize;
    let len: usize = cor.len();
    proof {
        lemma_cor_sections::<S, D>(
            nb,
            b as int,
            voff as int,
            woff as int,
            ioff as int,
            ndofs as int,
            lv.len as int,
            cor@.len() as int,
            last as int,
        );
        let base = woff + last * dim * ndofs;
        assert(base <= (base + ang * ndofs) * nb) by (nonlinear_arith)
            requires
                nb >= 1,
                base >= 0,
                ang * ndofs >= 0,
        ;
        let base = voff + last * dim * ndofs;
        assert(base <= (base + dim * ndofs) * nb) by (nonlinear_arith)
            requires
                nb >= 1,
                base >= 0,
                dim * ndofs >= 0,
        ;
        assert(last * dim <= last * dim * ndofs) by (nonlinear_arith)
            requires
                last * dim >= 0,
                ndofs >= 1,
        ;
    }
    let vb = ids.imat(b, voff + last * dim * ndofs, dim, ndofs, len);
    let wb = ids.imat(b, woff + last * dim * ndofs, ang, ndofs, len);
    let iv = ids.imat(b, ioff, sd, ndofs, len);
    assert(vb == cor_v_blocks::<S, D>(nb, b as int, voff as int, ndofs as int)(last as int));
    assert(wb == cor_w_blocks::<S, D>(nb, b as int, woff as int, ndofs as int)(last as int));
    let s = vec_get(stat, lv, last);
    let w = vec_get(ws, lv, last);
    let lmp = s.local_mprops;
    let mass = S::one().over(D::vget(lmp.inv_mass, 0));
    let inertia = link_world_inertia(&w, &lmp);
    let ghost out = Seq::new(
        ndofs as nat,
        |c: int| coriolis_impulse(st, wk, dt, last as int, c),
    );
    let mut c: usize = 0;
    while c < ndofs
        invariant
            vb.fits(old(cor)@.len() as int),
            wb.fits(old(cor)@.len() as int),
            iv.fits(old(cor)@.len() as int),
            vb.nrows == D::dimension_spec().lin_spec(),
            wb.nrows == D::dimension_spec().ang_spec(),
            iv.nrows == D::dimension_spec().spatial_spec(),
            vb.ncols == ndofs,
            wb.ncols == ndofs,
            iv.ncols == ndofs,
            disjoint(vb, iv),
            disjoint(wb, iv),
            cor_block_ok(old(cor)@, vb, wb, st, wk, last as int),
            lmp == st[last as int].local_mprops,
            mass == S::one_spec().over_spec(D::vget_spec(lmp.inv_mass, 0)),
            inertia == link_world_inertia_spec(wk[last as int], lmp),
            out == Seq::new(
                ndofs as nat,
                |c: int| coriolis_impulse(st, wk, dt, last as int, c),
            ),
            c <= ndofs,
            same_outside_mat(old(cor)@, cor@, iv),
            forall|i: int| 0 <= i < c ==> #[trigger] cols_of::<S, D>(cor@, iv)[i] == out[i],
        decreases ndofs - c,
    {
        proof {
            lemma_disjoint_keeps(old(cor)@, cor@, iv, vb);
            lemma_disjoint_keeps(old(cor)@, cor@, iv, wb);
        }
        let lin = get_lin_col::<S, D>(cor, vb, c);
        let rot = get_ang_col::<S, D>(cor, wb, c);
        assert(lin == lin_cols_of::<S, D>(old(cor)@, vb)[c as int]);
        assert(rot == ang_cols_of::<S, D>(old(cor)@, wb)[c as int]);
        let x: Velocity<S, D> = Velocity {
            linear: D::vscale(lin, mass.times(dt)),
            angular: D::ascale(D::imul(inertia, rot), dt),
        };
        set_col::<S, D>(cor, iv, c, x);
        c = c + 1;
    }
    assert(cols_of::<S, D>(cor@, iv) =~= out);
}

// ---- kernels ----

/// The body poses of batch `b`.
pub open spec fn pose_view_spec(ids: BatchIndices, b: int) -> VecView {
    VecView {
        base: (b * ids.colliders_batch_capacity) as usize,
        stride: 1,
        len: ids.colliders_batch_capacity as usize,
    }
}

fn pose_view(ids: &BatchIndices, b: u32, n: usize) -> (v: VecView)
    requires
        (b + 1) * ids.colliders_batch_capacity <= n,
    ensures
        v == pose_view_spec(*ids, b as int),
        v.fits(n as int),
{
    let cap: usize = ids.colliders_batch_capacity as usize;
    assert((b + 1) * cap == b * cap + cap && 0 <= b * cap) by (nonlinear_arith)
        requires
            b >= 0,
            cap >= 0,
    ;
    VecView { base: b as usize * cap, stride: 1, len: cap }
}

/// The data of multibody `mb` of batch `b` lies inside the buffers of the
/// dynamics pass.
pub open spec fn dyn_room<S: Scalar, D: Space<S>>(
    ids: BatchIndices,
    b: int,
    mb: MultibodyInfo,
    stat: Seq<MultibodyLinkStatic<S, D>>,
    ws: Seq<MultibodyLinkWorkspace<S, D>>,
    poses: Seq<Pose<S, D>>,
    jac: Seq<S>,
    mass: Seq<S>,
    dof: Seq<S>,
) -> bool {
    let nb = ids.num_batches as int;
    let sd = D::dimension_spec().spatial_spec();
    let st = vec_of(stat, ivec_spec(nb, b, mb.first_link as int, mb.num_links as int));
    &&& room(nb, b, mb.first_link as int, mb.num_links as int, stat.len() as int)
    &&& room(nb, b, mb.first_link as int, mb.num_links as int, ws.len() as int)
    &&& (b + 1) * ids.colliders_batch_capacity <= poses.len() <= usize::MAX
    &&& room(nb, b, mb.jacobian_offset as int, mb.num_links * sd * mb.ndofs, jac.len() as int)
    &&& room(nb, b, mb.mass_matrix_offset as int, mb.ndofs * mb.ndofs, mass.len() as int)
    &&& room(nb, b, mb.first_dof as int, mb.ndofs as int, dof.len() as int)
    &&& room(nb, b, ids.dof_batch_capacity + mb.first_dof, mb.ndofs as int, dof.len() as int)
    &&& room(nb, b, 2 * ids.dof_batch_capacity + mb.first_dof, mb.ndofs as int, dof.len() as int)
    &&& parents_first(st)
    &&& bodies_in_range(st, ids.colliders_batch_capacity as int)
    &&& dofs_in_range(st, mb.ndofs as int)
    &&& chain_ids_fit(st)
}

/// The Coriolis blocks of multibody `mb` of batch `b` lie inside their buffer.
pub open spec fn cor_room<S: Scalar, D: Space<S>>(
    ids: BatchIndices,
    b: int,
    mb: MultibodyInfo,
    cor: Seq<S>,
) -> bool {
    let nb = ids.num_batches as int;
    let size = mb.num_links * D::dimension_spec().lin_spec() * mb.ndofs;
    let off = mb.coriolis_offset as int;
    let sd = D::dimension_spec().spatial_spec();
    let ioff = 2 * ids.coriolis_batch_capacity + mb.i_coriolis_dt_offset;
    &&& room(nb, b, off, size, cor.len() as int)
    &&& room(nb, b, ids.coriolis_batch_capacity + off, size, cor.len() as int)
    &&& room(nb, b, ioff, sd * mb.ndofs, cor.len() as int)
    &&& off + size <= ids.coriolis_batch_capacity
}

/// The workspaces of a multibody after placement and velocity propagation.
pub open spec fn settled_links<S: Scalar, D: Space<S>>(
    mb: MultibodyInfo,
    st: Seq<MultibodyLinkStatic<S, D>>,
    ws: Seq<MultibodyLinkWorkspace<S, D>>,
    poses: Seq<Pose<S, D>>,
    vel: Seq<S>,
) -> Seq<MultibodyLinkWorkspace<S, D>> {
    let n = ws.len() as int;
    if n == 0 {
        ws
    } else {
        let root = root_pose_spec(mb.root_is_dynamic != 0, st, ws, poses);
        moving(st, placed(st, ws, root, n), vel, n)
    }
}

/// The body poses of a batch after one multibody is placed.
pub open spec fn settled_poses<S: Scalar, D: Space<S>>(
    mb: MultibodyInfo,
    st: Seq<MultibodyLinkStatic<S, D>>,
    ws: Seq<MultibodyLinkWorkspace<S, D>>,
    poses: Seq<Pose<S, D>>,
) -> Seq<Pose<S, D>> {
    let n = ws.len() as int;
    if n == 0 {
        poses
    } else {
        let root = root_pose_spec(mb.root_is_dynamic != 0, st, ws, poses);
        published(mb.root_is_dynamic != 0, st, ws, root, poses, n)
    }
}

/// What one dynamics pass over multibody `mb` of batch `b` changes: the links'
/// workspaces, the body poses, the jacobian blocks and the mass matrix.
pub open spec fn dyn_step<S: Scalar, D: Space<S>>(
    ids: BatchIndices,
    b: int,
    mb: MultibodyInfo,
    stat: Seq<MultibodyLinkStatic<S, D>>,
    ws0: Seq<MultibodyLinkWorkspace<S, D>>,
    ws1: Seq<MultibodyLinkWorkspace<S, D>>,
    poses0: Seq<Pose<S, D>>,
    poses1: Seq<Pose<S, D>>,
    jac0: Seq<S>,
    jac1: Seq<S>,
    mass0: Seq<S>,
    mass1: Seq<S>,
    dof: Seq<S>,
    opt: MassOptions<S>,
) -> bool {
    let nb = ids.num_batches as int;
    let sd = D::dimension_spec().spatial_spec();
    let n = mb.ndofs as int;
    let links = ivec_spec(nb, b, mb.first_link as int, mb.num_links as int);
    let dofs = ivec_spec(nb, b, mb.first_dof as int, n);
    let damping = ivec_spec(nb, b, ids.dof_batch_capacity + mb.first_dof, n);
    let armature = ivec_spec(nb, b, 2 * ids.dof_batch_capacity + mb.first_dof, n);
    let mv = imat_spec(nb, b, mb.mass_matrix_offset as int, n, n);
    let pv = pose_view_spec(ids, b);
    let st = vec_of(stat, links);
    let done = settled_links(
        mb,
        st,
        vec_of(ws0, links),
        vec_of(poses0, pv),
        vec_of(dof, dofs),
    );
    &&& vec_of(ws1, links) == done
    &&& same_outside_vec(ws0, ws1, links)
    &&& vec_of(poses1, pv) == settled_poses(mb, st, vec_of(ws0, links), vec_of(poses0, pv))
    &&& same_outside_vec(poses0, poses1, pv)
    &&& forall|k: int|
        0 <= k < mb.num_links ==> cols_of::<S, D>(
            jac1,
            #[trigger] jac_blocks(nb, b, mb.jacobian_offset as int, sd, n)(k),
        ) == link_jac(st, done, n, k)
    &&& same_outside_vec(
        jac0,
        jac1,
        block_region(nb, b, mb.jacobian_offset as int, sd, n, mb.num_links as int),
    )
    &&& mat_of(mass1, mv) == mass_matrix(
        st,
        done,
        opt,
        vec_of(dof, damping),
        vec_of(dof, armature),
    )
    &&& same_outside_mat(mass0, mass1, mv)
}

/// What the Coriolis buffer holds after a pass with Coriolis terms: the columns of
/// every link, and the impulses of the last link with mass. The unused entries of a
/// link without mass are zero; everything else stays.
pub open spec fn cor_step<S: Scalar, D: Space<S>>(
    ids: BatchIndices,
    b: int,
    mb: MultibodyInfo,
    stat: Seq<MultibodyLinkStatic<S, D>>,
    ws1: Seq<MultibodyLinkWorkspace<S, D>>,
    cor0: Seq<S>,
    cor1: Seq<S>,
    dt: S,
) -> bool {
    let nb = ids.num_batches as int;
    let n = mb.ndofs as int;
    let count = mb.num_links as int;
    let dim = D::dimension_spec();
    let links = ivec_spec(nb, b, mb.first_link as int, count);
    let st = vec_of(stat, links);
    let ws = vec_of(ws1, links);
    let voff = mb.coriolis_offset as int;
    let woff = ids.coriolis_batch_capacity + voff;
    let ioff = 2 * ids.coriolis_batch_capacity + mb.i_coriolis_dt_offset;
    let vbs = cor_v_blocks::<S, D>(nb, b, voff, n);
    let wbs = cor_w_blocks::<S, D>(nb, b, woff, n);
    let pads = cor_pad_blocks::<S, D>(nb, b, woff, n);
    let iv = imat_spec(nb, b, ioff, dim.spatial_spec(), n);
    let last = last_massive(st, count);
    &&& forall|k: int|
        0 <= k < count ==> cor_block_ok(cor1, #[trigger] vbs(k), wbs(k), st, ws, k)
    &&& forall|k: int|
        0 <= k < count && !has_mass(st[k].local_mprops) ==> mat_of(cor1, #[trigger] pads(k))
            == zeros::<S>(dim.lin_spec() - dim.ang_spec(), n)
    &&& last >= 0 ==> cols_of::<S, D>(cor1, iv) == Seq::new(
        n as nat,
        |c: int| coriolis_impulse(st, ws, dt, last, c),
    )
    &&& cor1.len() == cor0.len()
    &&& forall|e: int|
        0 <= e < cor0.len() && !in_blocks(vbs, count, e) && !in_blocks(wbs, count, e)
            && !in_massless_blocks(pads, st, count, e) && !(last >= 0 && iv.holds(e))
            ==> #[trigger] cor1[e] == cor0[e]
}

/// The dynamics pass over one multibody; `cor` is used with Coriolis terms
/// only.
fn dynamics_pass<S: Scalar, D: Space<S>>(
    ids: &BatchIndices,
    b: u32,
    mb: &MultibodyInfo,
    stat: &[MultibodyLinkStatic<S, D>],
    ws: &mut [MultibodyLinkWorkspace<S, D>],
    poses: &mut [Pose<S, D>],
    jac: &mut [S],
    mass: &mut [S],
    cor: &mut [S],
    dof: &[S],
    opt: MassOptions<S>,
)
    requires
        dyn_room(
            *ids,
            b as int,
            *mb,
            stat@,
            old(ws)@,
            old(poses)@,
            old(jac)@,
            old(mass)@,
            dof@,
        ),
        opt.coriolis ==> cor_room::<S, D>(*ids, b as int, *mb, old(cor)@),
    ensures
        dyn_step(
            *ids,
            b as int,
            *mb,
            stat@,
            old(ws)@,
            final(ws)@,
            old(poses)@,
            final(poses)@,
            old(jac)@,
            final(jac)@,
            old(mass)@,
            final(mass)@,
            dof@,
            opt,
        ),
        opt.coriolis ==> cor_step(
            *ids,
            b as int,
            *mb,
            stat@,
            final(ws)@,
            old(cor)@,
            final(cor)@,
            opt.dt,
        ),
        !opt.coriolis ==> final(cor)@ == old(cor)@,
{
    let ghost nb = ids.num_batches as int;
    let first_dof: usize = mb.first_dof as usize;
    let n: usize = mb.ndofs as usize;
    let dcap: usize = ids.dof_batch_capacity as usize;
    proof {
        let x = 2 * ids.dof_batch_capacity + mb.first_dof;
        assert(x + mb.ndofs <= (x + mb.ndofs) * nb) by (nonlinear_arith)
            requires
                nb >= 1,
                x + mb.ndofs >= 0,
        ;
        crate::batch::lemma_ivec_fits(
            nb,
            b as int,
            mb.first_link as int,
            mb.num_links as int,
            ws@.len() as int,
        );
    }
    let lv = ids.ivec(b, mb.first_link as usize, mb.num_links as usize, stat.len());
    let dofs = ids.ivec(b, first_dof, n, dof.len());
    let damping = ids.ivec(b, dcap + first_dof, n, dof.len());
    let armature = ids.ivec(b, 2 * dcap + first_dof, n, dof.len());
    let mv = ids.imat(b, mb.mass_matrix_offset as usize, n, n, mass.len());
    let pv = pose_view(ids, b, poses.len());
    let joff: usize = mb.jacobian_offset as usize;
    let ghost st = vec_of(stat@, lv);
    let ghost ws0 = vec_of(ws@, lv);
    let ghost poses0 = vec_of(poses@, pv);
    let ghost vel = vec_of(dof@, dofs);
    if mb.num_links > 0 {
        forward_kinematics(mb, stat, ws, lv, poses, pv);
    }
    let ghost ws1 = vec_of(ws@, lv);
    update_body_jacobians(ids, b, joff, n, stat, ws, lv, jac);
    propagate_velocities(stat, ws, lv, dof, dofs);
    let ghost ws2 = vec_of(ws@, lv);
    proof {
        let sd = D::dimension_spec().spatial_spec();
        let jb = jac_blocks(nb, b as int, joff as int, sd, n as int);
        assert forall|k: int| 0 <= k < lv.len implies cols_of::<S, D>(jac@, #[trigger] jb(k))
            == link_jac(st, ws2, n as int, k) by {
            assert forall|c: int| 0 <= c < n implies #[trigger] jac_col(st, ws2, k, c) == jac_col(
                st,
                ws1,
                k,
                c,
            ) by {
                lemma_jac_ignores_velocity(st, ws1, vel, k, c);
            }
            assert(link_jac(st, ws2, n as int, k) =~= link_jac(st, ws1, n as int, k));
        }
        if lv.len == 0 {
            assert(ws2 =~= ws0);
        }
    }
    let voff: usize = mb.coriolis_offset as usize;
    if opt.coriolis {
        proof {
            let x = ids.coriolis_batch_capacity + mb.coriolis_offset;
            let size = mb.num_links * D::dimension_spec().lin_spec() * mb.ndofs;
            assert(0 <= size) by (nonlinear_arith)
                requires
                    size == mb.num_links * D::dimension_spec().lin_spec() * mb.ndofs,
                    D::dimension_spec().lin_spec() >= 0,
            ;
            assert(x + size <= (x + size) * nb) by (nonlinear_arith)
                requires
                    nb >= 1,
                    x + size >= 0,
            ;
        }
        let woff: usize = ids.coriolis_batch_capacity as usize + voff;
        update_coriolis(ids, b, joff, voff, woff, n, stat, ws, lv, jac, cor);
        assemble_mass(
            ids,
            b,
            joff,
            voff,
            woff,
            stat,
            ws,
            lv,
            jac,
            cor,
            mass,
            mv,
            dof,
            damping,
            armature,
            opt,
        );
        let ghost cor1 = cor@;
        let ghost ioffg = 2 * ids.coriolis_batch_capacity + mb.i_coriolis_dt_offset;
        let ghost links = lv.len as int;
        let ghost vbs = cor_v_blocks::<S, D>(nb, b as int, voff as int, n as int);
        let ghost wbs = cor_w_blocks::<S, D>(nb, b as int, woff as int, n as int);
        let ghost pads = cor_pad_blocks::<S, D>(nb, b as int, woff as int, n as int);
        if n > 0 {
            proof {
                let sd = D::dimension_spec().spatial_spec();
                assert(0 <= sd * n) by (nonlinear_arith)
                    requires
                        sd >= 0,
                        n >= 0,
                ;
                assert(ioffg + sd * n <= (ioffg + sd * n) * nb) by (nonlinear_arith)
                    requires
                        nb >= 1,
                        ioffg + sd * n >= 0,
                ;
            }
            let ioff: usize = 2 * ids.coriolis_batch_capacity as usize
                + mb.i_coriolis_dt_offset as usize;
            clear_padding(
                ids,
                b,
                woff,
                n,
                stat,
                lv,
                cor,
                Ghost(ws2),
                Ghost(voff as int),
                Ghost(ioff as int),
            );
            let ghost cor2 = cor@;
            write_impulses(ids, b, voff, woff, ioff, n, stat, ws, lv, cor, opt.dt);
            proof {
                let iv = imat_spec(
                    nb,
                    b as int,
                    ioff as int,
                    D::dimension_spec().spatial_spec(),
                    n as int,
                );
                lemma_last_massive(st, links);
                assert forall|k: int| 0 <= k < links implies cor_block_ok(
                    cor@,
                    #[trigger] vbs(k),
                    wbs(k),
                    st,
                    ws2,
                    k,
                ) && mat_of(cor@, pads(k)) == mat_of(cor2, pads(k)) by {
                    lemma_cor_sections::<S, D>(
                        nb,
                        b as int,
                        voff as int,
                        woff as int,
                        ioff as int,
                        n as int,
                        links,
                        cor@.len() as int,
                        k,
                    );
                    assert(cor_block_ok(cor2, vbs(k), wbs(k), st, ws2, k));
                    if last_massive(st, links) >= 0 {
                        lemma_disjoint_keeps(cor2, cor@, iv, vbs(k));
                        lemma_disjoint_keeps(cor2, cor@, iv, wbs(k));
                        lemma_disjoint_keeps(cor2, cor@, iv, pads(k));
                    }
                    assert(lin_cols_of::<S, D>(cor2, vbs(k)) =~= lin_cols_of::<S, D>(
                        cor@,
                        vbs(k),
                    ));
                    assert(ang_cols_of::<S, D>(cor2, wbs(k)) =~= ang_cols_of::<S, D>(
                        cor@,
                        wbs(k),
                    ));
                }
                let dim = D::dimension_spec();
                assert forall|k: int| 0 <= k < links && !has_mass(
                    st[k].local_mprops,
                ) implies mat_of(cor@, #[trigger] pads(k)) == zeros::<S>(
                    dim.lin_spec() - dim.ang_spec(),
                    n as int,
                ) by {
                    assert(cor_block_ok(cor@, vbs(k), wbs(k), st, ws2, k));
                }
                assert forall|e: int|
                    0 <= e < cor@.len() && !in_blocks(vbs, links, e) && !in_blocks(wbs, links, e)
                        && !in_massless_blocks(pads, st, links, e) && !(last_massive(st, links)
                        >= 0 && iv.holds(e)) implies #[trigger] cor@[e] == old(cor)@[e] by {
                    assert(cor1[e] == old(cor)@[e]);
                    assert(cor2[e] == cor1[e]);
                }
            }
        } else {
            proof {
                let dim = D::dimension_spec();
                assert forall|k: int| 0 <= k < links implies mat_of(cor@, #[trigger] pads(k))
                    == zeros::<S>(dim.lin_spec() - dim.ang_spec(), 0) by {
                    let m = mat_of(cor@, pads(k));
                    let z = zeros::<S>(dim.lin_spec() - dim.ang_spec(), 0);
                    assert forall|r: int| 0 <= r < m.len() implies #[trigger] m[r] == z[r] by {
                        assert(m[r] =~= z[r]);
                    }
                    assert(m =~= z);
                }
                let last = last_massive(st, links);
                let iv = imat_spec(nb, b as int, ioffg, dim.spatial_spec(), 0);
                assert(cols_of::<S, D>(cor@, iv) =~= Seq::new(
                    0,
                    |c: int| coriolis_impulse(st, ws2, opt.dt, last, c),
                ));
            }
        }
    } else {
        assemble_mass(
            ids,
            b,
            joff,
            0,
            0,
            stat,
            ws,
            lv,
            jac,
            cor,
            mass,
            mv,
            dof,
            damping,
            armature,
            opt,
        );
    }
}

/// The multibody of a packed slot: `64 / t` multibodies share a workgroup.
pub fn packed_decode(wg_id: u32, slot: u32, t: u32, ids: &BatchIndices) -> (r: Option<(u32, u32)>)
    requires
        1 <= t <= 64,
    ensures
        match (r, flat_decode_spec(*ids, wg_id * (64u32 / t) + slot)) {
            (Some(x), Some(y)) => x.0 == y.0 && x.1 == y.1,
            (None, None) => true,
            _ => false,
        },
{
    let slots: u64 = (64 / t) as u64;
    assert(0 <= wg_id * slots <= 0xffff_ffff * 64) by (nonlinear_arith)
        requires
            0 <= wg_id <= 0xffff_ffff,
            0 <= slots <= 64,
    ;
    flat_decode(ids, wg_id as u64 * slots + slot as u64)
}

/// Whether the lane tier `t` restricts the inertia terms to chains.
pub open spec fn chain_tier<S: Scalar, D: Space<S>>(t: u32) -> bool {
    D::dimension_spec() == Dimension::Three && t >= 8
}

fn is_chain_tier<S: Scalar, D: Space<S>>(t: u32) -> (r: bool)
    ensures
        r == chain_tier::<S, D>(t),
{
    match D::dimension() {
        Dimension::Two => false,
        Dimension::Three => t >= 8,
    }
}

/// Poses, jacobians, velocities and mass matrix with Coriolis terms of the
/// multibody in slot `slot` of workgroup `wg_id`, with `t` lanes per slot.
pub fn gpu_mb_compute_dynamics_pre<S: Scalar, D: Space<S>>(
    wg_id: u32,
    slot: u32,
    t: u32,
    multibody_info: &[MultibodyInfo],
    links_static: &[MultibodyLinkStatic<S, D>],
    links_workspace: &mut [MultibodyLinkWorkspace<S, D>],
    poses: &mut [Pose<S, D>],
    body_jacobians: &mut [S],
    mass_matrices: &mut [S],
    coriolis_packed: &mut [S],
    dof_state: &[S],
    dt: S,
    ids: &BatchIndices,
)
    requires
        1 <= t <= 64,
        match flat_decode_spec(*ids, wg_id * (64u32 / t) + slot) {
            Some((b, i)) => {
                let mb = mb_at_spec(*ids, b, i, multibody_info@);
                &&& mb_listed(*ids, b, i, multibody_info@)
                &&& dyn_room(
                    *ids,
                    b,
                    mb,
                    links_static@,
                    old(links_workspace)@,
                    old(poses)@,
                    old(body_jacobians)@,
                    old(mass_matrices)@,
                    dof_state@,
                )
                &&& cor_room::<S, D>(*ids, b, mb, old(coriolis_packed)@)
            },
            None => true,
        },
    ensures
        match flat_decode_spec(*ids, wg_id * (64u32 / t) + slot) {
            Some((b, i)) => {
                let mb = mb_at_spec(*ids, b, i, multibody_info@);
                &&& dyn_step(
                    *ids,
                    b,
                    mb,
                    links_static@,
                    old(links_workspace)@,
                    final(links_workspace)@,
                    old(poses)@,
                    final(poses)@,
                    old(body_jacobians)@,
                    final(body_jacobians)@,
                    old(mass_matrices)@,
                    final(mass_matrices)@,
                    dof_state@,
                    (MassOptions { dt: dt, coriolis: true, chain: chain_tier::<S, D>(t) }),
                )
                &&& cor_step(
                    *ids,
                    b,
                    mb,
                    links_static@,
                    final(links_workspace)@,
                    old(coriolis_packed)@,
                    final(coriolis_packed)@,
                    dt,
                )
            },
            None => {
                &&& final(links_workspace)@ == old(links_workspace)@
                &&& final(poses)@ == old(poses)@
                &&& final(body_jacobians)@ == old(body_jacobians)@
                &&& final(mass_matrices)@ == old(mass_matrices)@
                &&& final(coriolis_packed)@ == old(coriolis_packed)@
            },
        },
{
    let (b, mb_idx): (u32, u32) = match packed_decode(wg_id, slot, t, ids) {
        Some(p) => p,
        None => {
            return ;
        },
    };
    let mb = mb_at(ids, b, mb_idx, multibody_info);
    let opt = MassOptions { dt: dt, coriolis: true, chain: is_chain_tier::<S, D>(t) };
    dynamics_pass(
        ids,
        b,
        &mb,
        links_static,
        links_workspace,
        poses,
        body_jacobians,
        mass_matrices,
        coriolis_packed,
        dof_state,
        opt,
    );
}

/// Poses, jacobians, velocities and mass matrix without Coriolis terms of the
/// multibody in slot `slot` of workgroup `wg_id`, with `t` lanes per slot.
pub fn gpu_mb_compute_dynamics_without_coriolis_pre<S: Scalar, D: Space<S>>(
    wg_id: u32,
    slot: u32,
    t: u32,
    multibody_info: &[MultibodyInfo],
    links_static: &[MultibodyLinkStatic<S, D>],
    links_workspace: &mut [MultibodyLinkWorkspace<S, D>],
    poses: &mut [Pose<S, D>],
    body_jacobians: &mut [S],
    mass_matrices: &mut [S],
    dof_state: &[S],
    dt: S,
    ids: &BatchIndices,
)
    requires
        1 <= t <= 64,
        match flat_decode_spec(*ids, wg_id * (64u32 / t) + slot) {
            Some((b, i)) => {
                let mb = mb_at_spec(*ids, b, i, multibody_info@);
                &&& mb_listed(*ids, b, i, multibody_info@)
                &&& dyn_room(
                    *ids,
                    b,
                    mb,
                    links_static@,
                    old(links_workspace)@,
                    old(poses)@,
                    old(body_jacobians)@,
                    old(mass_matrices)@,
                    dof_state@,
                )
            },
            None => true,
        },
    ensures
        match flat_decode_spec(*ids, wg_id * (64u32 / t) + slot) {
            Some((b, i)) => {
                let mb = mb_at_spec(*ids, b, i, multibody_info@);
                dyn_step(
                    *ids,
                    b,
                    mb,
                    links_static@,
                    old(links_workspace)@,
                    final(links_workspace)@,
                    old(poses)@,
                    final(poses)@,
                    old(body_jacobians)@,
                    final(body_jacobians)@,
                    old(mass_matrices)@,
                    final(mass_matrices)@,
                    dof_state@,
                    (MassOptions { dt: dt, coriolis: false, chain: chain_tier::<S, D>(t) }),
                )
            },
            None => {
                &&& final(links_workspace)@ == old(links_workspace)@
                &&& final(poses)@ == old(poses)@
                &&& final(body_jacobians)@ == old(body_jacobians)@
                &&& final(mass_matrices)@ == old(mass_matrices)@
            },
        },
{
    let (b, mb_idx): (u32, u32) = match packed_decode(wg_id, slot, t, ids) {
        Some(p) => p,
        None => {
            return ;
        },
    };
    let mb = mb_at(ids, b, mb_idx, multibody_info);
    let opt = MassOptions { dt: dt, coriolis: false, chain: is_chain_tier::<S, D>(t) };
    let mut no_coriolis: [S; 0] = [];
    dynamics_pass(
        ids,
        b,
        &mb,
        links_static,
        links_workspace,
        poses,
        body_jacobians,
        mass_matrices,
        &mut no_coriolis,
        dof_state,
        opt,
    );
}

} // verus!
