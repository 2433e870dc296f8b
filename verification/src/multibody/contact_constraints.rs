//! Contact constraints of the multibodies.
//!
//! A contact point on a link yields one normal constraint, which keeps the
//! point from penetrating, and the friction tangents. The tangents stay within
//! the friction coefficient times the normal's impulse, each on its own.
use super::gravity::jac_of;
use super::gravity_and_lu::{
    flat_decode, flat_decode_spec, jac_blocks, lemma_block_room, mb_at, mb_at_spec, mb_listed,
};
use super::solve_constraints::{
    bank, bank_of, body_vels_at, body_vels_view, contact_cols_at, contact_cols_room,
    contact_cols_view, contact_cons_at, contact_cons_room, contact_cons_view, dof_view,
    lemma_bank_in_range,
};
use super::lu::{lu_solve, lu_solve_in_place, pivots_in_range};
use super::sweeps::{
    add_column, axpy, column, column_view, contacts_ok, dot_columns, dot_fold, has_free,
    lemma_column_change, push_free, pushed,
};
use super::types::{
    MAX_MB_CONTACTS_PER_MB, MB_CONTACT_KIND_NORMAL, MB_CONTACT_KIND_TANGENT,
    MultibodyContactConstraint, MultibodyInfo,
    NO_FREE_BODY, WorldMassProperties, max_mb_contact_constraints, max_mb_contact_constraints_spec,
};
use crate::batch::{BatchIndices, imat_spec, ivec_spec, mbi_spec, room};
use crate::contact::IndexedManifold;
use crate::scalar::{Scalar, clamp, clamp_spec, half, half_spec, inv, inv_spec};
use crate::sim_params::ConstraintSoftness;
use crate::space::{Dimension, Pose, Space, Velocity};
use crate::views::{
    MatView, VecView, copy_vec, load_vec, mat_get, mat_of, same_outside_mat, same_outside_vec, store_vec, vec_get,
    vec_of, vec_set,
};
use vstd::prelude::*;

verus! {

// ---- which contacts belong to a multibody ----

/// The link of a body outside every multibody.
pub const NO_LINK: u32 = 0xffff_ffff;

/// The multibody side of a contact.
#[derive(Clone, Copy, Debug, PartialEq, Eq, Structural)]
pub struct Touch {
    /// The touched link.
    pub link_a: u32,
    /// The other touched link of a contact between two links.
    pub link_b: u32,
    /// The body on the other side, `NO_FREE_BODY` between two links.
    pub free_body: u32,
    /// The link belongs to the second collider.
    pub second: bool,
}

/// What a contact between two bodies means to multibody `mb_idx`; `l1` and `l2`
/// are the multibody and link of each body.
///
/// Contacts with another multibody are skipped, as are contacts of a link with
/// itself, and contacts between two links where the multibody ignores those.
pub open spec fn touch(
    mb_idx: u32,
    self_contacts: u32,
    l1: [u32; 2],
    l2: [u32; 2],
    b1: u32,
    b2: u32,
) -> Option<Touch> {
    let on1 = l1[0] == mb_idx;
    let on2 = l2[0] == mb_idx;
    if !on1 && !on2 {
        None
    } else if l1[0] != NO_LINK && l2[0] != NO_LINK && l1[0] != l2[0] {
        None
    } else if on1 && on2 {
        if self_contacts == 0 || l1[1] == l2[1] {
            None
        } else {
            Some(Touch { link_a: l1[1], link_b: l2[1], free_body: NO_FREE_BODY, second: false })
        }
    } else if on1 {
        Some(Touch { link_a: l1[1], link_b: NO_LINK, free_body: b2, second: false })
    } else {
        Some(Touch { link_a: l2[1], link_b: NO_LINK, free_body: b1, second: true })
    }
}

pub fn find_touch(
    mb_idx: u32,
    self_contacts: u32,
    l1: [u32; 2],
    l2: [u32; 2],
    b1: u32,
    b2: u32,
) -> (r: Option<Touch>)
    ensures
        r == touch(mb_idx, self_contacts, l1, l2, b1, b2),
{
    let on1 = l1[0] == mb_idx;
    let on2 = l2[0] == mb_idx;
    if !on1 && !on2 {
        None
    } else if l1[0] != NO_LINK && l2[0] != NO_LINK && l1[0] != l2[0] {
        None
    } else if on1 && on2 {
        if self_contacts == 0 || l1[1] == l2[1] {
            None
        } else {
            Some(Touch { link_a: l1[1], link_b: l2[1], free_body: NO_FREE_BODY, second: false })
        }
    } else if on1 {
        Some(Touch { link_a: l1[1], link_b: NO_LINK, free_body: b2, second: false })
    } else {
        Some(Touch { link_a: l2[1], link_b: NO_LINK, free_body: b1, second: true })
    }
}

// ---- one row ----

/// The product of column `c` of a jacobian with a force and a torque, over the
/// first `n` rows.
pub open spec fn wrench_dot<S: Scalar, D: Space<S>>(
    jac: Seq<Seq<S>>,
    c: int,
    f: Velocity<S, D>,
    n: int,
) -> S
    decreases n,
{
    let lin = D::dimension_spec().lin_spec();
    if n <= 1 {
        D::vget_spec(f.linear, 0).times_spec(jac[0][c])
    } else {
        wrench_dot::<S, D>(jac, c, f, n - 1).plus_spec(
            (if n - 1 < lin {
                D::vget_spec(f.linear, n - 1)
            } else {
                D::aget_spec(f.angular, n - 1 - lin)
            }).times_spec(jac[n - 1][c]),
        )
    }
}

/// The generalized force of a force and a torque on one link.
pub open spec fn contact_jac_row<S: Scalar, D: Space<S>>(
    prev: Seq<S>,
    jac: Seq<Seq<S>>,
    f: Velocity<S, D>,
) -> Seq<S> {
    Seq::new(
        prev.len(),
        |c: int|
            prev[c].plus_spec(
                wrench_dot::<S, D>(jac, c, f, D::dimension_spec().spatial_spec()),
            ),
    )
}

/// Adds the generalized force of a force and a torque on one link.
pub fn fill_contact_jac_row<S: Scalar, D: Space<S>>(
    body_jacobians: &[S],
    jv: MatView,
    f: Velocity<S, D>,
    row: &mut Vec<S>,
)
    requires
        jv.fits(body_jacobians@.len() as int),
        jv.nrows == D::dimension_spec().spatial_spec(),
        jv.ncols == old(row)@.len(),
    ensures
        final(row)@ == contact_jac_row::<S, D>(old(row)@, mat_of(body_jacobians@, jv), f),
{
    let lin: usize = D::dimension().lin() as usize;
    let sd: usize = D::dimension().spatial() as usize;
    let ghost r0 = row@;
    let ghost m = mat_of(body_jacobians@, jv);
    let ghost out = contact_jac_row::<S, D>(r0, m, f);
    let n: usize = row.len();
    let mut c: usize = 0;
    while c < n
        invariant
            jv.fits(body_jacobians@.len() as int),
            jv.nrows == sd,
            sd == D::dimension_spec().spatial_spec(),
            lin == D::dimension_spec().lin_spec(),
            jv.ncols == n,
            row@.len() == n,
            r0.len() == n,
            m == mat_of(body_jacobians@, jv),
            out == contact_jac_row::<S, D>(r0, m, f),
            c <= n,
            forall|j: int|
                0 <= j < n ==> #[trigger] row@[j] == (if j < c {
                    out[j]
                } else {
                    r0[j]
                }),
        decreases n - c,
    {
        let mut acc = D::vget(f.linear, 0).times(mat_get(body_jacobians, jv, 0, c));
        let mut i: usize = 1;
        while i < sd
            invariant
                jv.fits(body_jacobians@.len() as int),
                jv.nrows == sd,
                sd == D::dimension_spec().spatial_spec(),
                lin == D::dimension_spec().lin_spec(),
                jv.ncols == n,
                c < n,
                1 <= i <= sd,
                m == mat_of(body_jacobians@, jv),
                acc == wrench_dot::<S, D>(m, c as int, f, i as int),
            decreases sd - i,
        {
            let x = if i < lin {
                D::vget(f.linear, i)
            } else {
                D::aget(f.angular, i - lin)
            };
            acc = acc.plus(x.times(mat_get(body_jacobians, jv, i, c)));
            i = i + 1;
        }
        let v = row[c].plus(acc);
        row.set(c, v);
        c = c + 1;
    }
    assert(row@ =~= out);
}

/// Where the sides of a contact manifold are.
#[derive(Clone, Copy)]
pub struct ContactGeometry<S: Scalar, D: Space<S>> {
    pub touch: Touch,
    /// Pushes the free body away from the multibody.
    pub normal: D::V,
    /// Where the touched link turns about.
    pub origin_a: D::V,
    /// Where the other touched link turns about.
    pub origin_b: D::V,
    /// The free body, if there is one.
    pub free: Option<WorldMassProperties<S, D>>,
    pub friction: S,
}

/// The geometry of a manifold; the origin of a link is that of its collider.
pub open spec fn contact_geometry<S: Scalar, D: Space<S>>(
    im: IndexedManifold<S, D>,
    t: Touch,
    poses: Seq<Pose<S, D>>,
    mprops: Seq<WorldMassProperties<S, D>>,
) -> ContactGeometry<S, D> {
    let pose1 = poses[im.colliders[0] as int];
    let pose2 = poses[im.colliders[1] as int];
    let n = D::rapply_spec(pose1.rotation, im.contact.normal_a);
    ContactGeometry {
        touch: t,
        normal: if t.second {
            D::vneg_spec(n)
        } else {
            n
        },
        origin_a: if t.second {
            pose2.translation
        } else {
            pose1.translation
        },
        origin_b: pose2.translation,
        free: if t.free_body == NO_FREE_BODY {
            None
        } else {
            Some(mprops[t.free_body as int])
        },
        friction: im.friction,
    }
}

/// The direction of constraint `i` of a contact point, as it acts on the
/// multibody and as it acts on the other side.
pub open spec fn slot_directions<S: Scalar, D: Space<S>>(normal: D::V, i: int) -> (D::V, D::V) {
    let n = D::vneg_spec(normal);
    let t0 = D::ortho_spec(n);
    let t = if i == 1 {
        t0
    } else {
        D::bitangent_spec(n, t0)
    };
    if i == 0 {
        (n, normal)
    } else {
        (t, D::vneg_spec(t))
    }
}

/// A constraint and its jacobian.
pub struct ContactRow<S: Scalar, D: Space<S>> {
    pub cons: MultibodyContactConstraint<S, D>,
    pub jac: Seq<S>,
}

/// Constraint `i` of a contact point at `pt`: the normal for `i == 0`.
pub open spec fn contact_row<S: Scalar, D: Space<S>>(
    soft: ConstraintSoftness<S>,
    mb_idx: u32,
    ndofs: int,
    jac: spec_fn(int) -> Seq<Seq<S>>,
    g: ContactGeometry<S, D>,
    pt: D::V,
    dist: S,
    normal_slot: u32,
    i: int,
) -> ContactRow<S, D> {
    let (dir, free_dir) = slot_directions::<S, D>(g.normal, i);
    let on_a: Velocity<S, D> = Velocity {
        linear: dir,
        angular: D::gcross_spec(D::vsub_spec(pt, g.origin_a), dir),
    };
    let on_b: Velocity<S, D> = Velocity {
        linear: free_dir,
        angular: D::gcross_spec(D::vsub_spec(pt, g.origin_b), free_dir),
    };
    let row_a = contact_jac_row::<S, D>(
        Seq::new(ndofs as nat, |c: int| S::zero_spec()),
        jac(g.touch.link_a as int),
        on_a,
    );
    let ang_jac = match g.free {
        None => D::azero_spec(),
        Some(mp) => D::gcross_spec(D::vsub_spec(pt, mp.com), free_dir),
    };
    let rhs_wo_bias = if i == 0 && S::zero_spec().lt_spec(dist) {
        dist.times_spec(soft.inv_dt)
    } else {
        S::zero_spec()
    };
    let bias = clamp_spec(
        soft.erp_inv_dt.times_spec(dist.plus_spec(soft.allowed_lin_err)),
        soft.max_corr_velocity.neg_spec(),
        S::zero_spec(),
    );
    ContactRow {
        cons: MultibodyContactConstraint {
            multibody_id: mb_idx,
            link_id: g.touch.link_a,
            kind: if i == 0 {
                MB_CONTACT_KIND_NORMAL
            } else {
                MB_CONTACT_KIND_TANGENT
            },
            free_body_id: g.touch.free_body,
            free_body_im: match g.free {
                None => S::zero_spec(),
                Some(mp) => D::vget_spec(mp.inv_mass, 0),
            },
            friction_coeff: g.friction,
            normal_constraint_slot: normal_slot,
            lin_jac: free_dir,
            ang_jac: ang_jac,
            ii_ang_jac: match g.free {
                None => D::azero_spec(),
                Some(mp) => D::imul_spec(mp.inv_inertia, ang_jac),
            },
            inv_lhs: S::zero_spec(),
            rhs: if i == 0 {
                rhs_wo_bias.plus_spec(bias)
            } else {
                S::zero_spec()
            },
            rhs_wo_bias: rhs_wo_bias,
            impulse: S::zero_spec(),
            cfm_factor: soft.cfm_factor,
            cfm_coeff: if i == 0 {
                inv_spec(soft.cfm_factor).minus_spec(S::one_spec())
            } else {
                S::zero_spec()
            },
            cfm_gain: S::zero_spec(),
            drift: S::zero_spec(),
            drift_gain: S::zero_spec(),
            max_corrective: S::zero_spec(),
        },
        jac: match g.free {
            None => contact_jac_row::<S, D>(row_a, jac(g.touch.link_b as int), on_b),
            Some(_) => row_a,
        },
    }
}

/// The jacobian of link `k`.
pub(crate) fn link_block<S: Scalar, D: Space<S>>(
    ids: &BatchIndices,
    b: u32,
    joff: usize,
    ndofs: usize,
    k: u32,
    len: usize,
    links: u32,
) -> (r: MatView)
    requires
        room(
            ids.num_batches as int,
            b as int,
            joff as int,
            links * D::dimension_spec().spatial_spec() * ndofs,
            len as int,
        ),
        k < links,
        ndofs > 0,
    ensures
        r == jac_blocks(
            ids.num_batches as int,
            b as int,
            joff as int,
            D::dimension_spec().spatial_spec(),
            ndofs as int,
        )(k as int),
        r.fits(len as int),
        r.nrows == D::dimension_spec().spatial_spec(),
        r.ncols == ndofs,
{
    let sd: usize = D::dimension().spatial() as usize;
    proof {
        lemma_block_room(
            ids.num_batches as int,
            b as int,
            joff as int,
            sd as int,
            ndofs as int,
            links as int,
            k as int,
            len as int,
        );
    }
    ids.imat(b, joff + k as usize * sd * ndofs, sd, ndofs, len)
}

/// The links of a contact are links of the multibody.
pub open spec fn links_ok<S: Scalar, D: Space<S>>(g: ContactGeometry<S, D>, links: int) -> bool {
    &&& g.touch.link_a < links
    &&& g.free is None ==> g.touch.link_b < links
}

fn build_contact_row<S: Scalar, D: Space<S>>(
    soft: ConstraintSoftness<S>,
    mb_idx: u32,
    mb: &MultibodyInfo,
    body_jacobians: &[S],
    ids: &BatchIndices,
    b: u32,
    g: ContactGeometry<S, D>,
    pt: D::V,
    dist: S,
    normal_slot: u32,
    i: usize,
) -> (r: (MultibodyContactConstraint<S, D>, Vec<S>))
    requires
        room(
            ids.num_batches as int,
            b as int,
            mb.jacobian_offset as int,
            mb.num_links * D::dimension_spec().spatial_spec() * mb.ndofs,
            body_jacobians@.len() as int,
        ),
        mb.ndofs > 0,
        links_ok(g, mb.num_links as int),
    ensures
        ({
            let row = contact_row(
                soft,
                mb_idx,
                mb.ndofs as int,
                mb_jacobians::<S, D>(*ids, b as int, *mb, body_jacobians@),
                g,
                pt,
                dist,
                normal_slot,
                i as int,
            );
            r.0 == row.cons && r.1@ == row.jac
        }),
{
    let n: usize = mb.ndofs as usize;
    let neg = D::vneg(g.normal);
    let (dir, free_dir) = if i == 0 {
        (neg, g.normal)
    } else {
        let t0 = D::ortho(neg);
        let t = if i == 1 {
            t0
        } else {
            D::bitangent(neg, t0)
        };
        (t, D::vneg(t))
    };
    assert((dir, free_dir) == slot_directions::<S, D>(g.normal, i as int));
    let mut row: Vec<S> = Vec::new();
    let mut c: usize = 0;
    while c < n
        invariant
            c <= n,
            row@ == Seq::new(c as nat, |j: int| S::zero_spec()),
        decreases n - c,
    {
        row.push(S::zero());
        assert(row@ =~= Seq::new((c + 1) as nat, |j: int| S::zero_spec()));
        c = c + 1;
    }
    let on_a: Velocity<S, D> = Velocity {
        linear: dir,
        angular: D::gcross(D::vsub(pt, g.origin_a), dir),
    };
    let joff: usize = mb.jacobian_offset as usize;
    let ja = link_block::<S, D>(
        ids,
        b,
        joff,
        n,
        g.touch.link_a,
        body_jacobians.len(),
        mb.num_links,
    );
    fill_contact_jac_row::<S, D>(body_jacobians, ja, on_a, &mut row);
    let (im, ang_jac, ii_ang_jac) = match g.free {
        None => {
            let on_b: Velocity<S, D> = Velocity {
                linear: free_dir,
                angular: D::gcross(D::vsub(pt, g.origin_b), free_dir),
            };
            let jb = link_block::<S, D>(
                ids,
                b,
                joff,
                n,
                g.touch.link_b,
                body_jacobians.len(),
                mb.num_links,
            );
            fill_contact_jac_row::<S, D>(body_jacobians, jb, on_b, &mut row);
            (S::zero(), D::azero(), D::azero())
        },
        Some(mp) => {
            let aj = D::gcross(D::vsub(pt, mp.com), free_dir);
            (D::vget(mp.inv_mass, 0), aj, D::imul(mp.inv_inertia, aj))
        },
    };
    let rhs_wo_bias = if i == 0 && S::zero().lt(dist) {
        dist.times(soft.inv_dt)
    } else {
        S::zero()
    };
    let rhs = if i == 0 {
        let bias = clamp(
            soft.erp_inv_dt.times(dist.plus(soft.allowed_lin_err)),
            soft.max_corr_velocity.negate(),
            S::zero(),
        );
        rhs_wo_bias.plus(bias)
    } else {
        S::zero()
    };
    let cons = MultibodyContactConstraint {
        multibody_id: mb_idx,
        link_id: g.touch.link_a,
        kind: if i == 0 {
            MB_CONTACT_KIND_NORMAL
        } else {
            MB_CONTACT_KIND_TANGENT
        },
        free_body_id: g.touch.free_body,
        free_body_im: im,
        friction_coeff: g.friction,
        normal_constraint_slot: normal_slot,
        lin_jac: free_dir,
        ang_jac: ang_jac,
        ii_ang_jac: ii_ang_jac,
        inv_lhs: S::zero(),
        rhs: rhs,
        rhs_wo_bias: rhs_wo_bias,
        impulse: S::zero(),
        cfm_factor: soft.cfm_factor,
        cfm_coeff: if i == 0 {
            inv(soft.cfm_factor).minus(S::one())
        } else {
            S::zero()
        },
        cfm_gain: S::zero(),
        drift: S::zero(),
        drift_gain: S::zero(),
        max_corrective: S::zero(),
    };
    (cons, row)
}

// ---- all rows of one multibody ----

/// The jacobians of the links of multibody `mb`.
pub open spec fn mb_jacobians<S: Scalar, D: Space<S>>(
    ids: BatchIndices,
    b: int,
    mb: MultibodyInfo,
    body_jacobians: Seq<S>,
) -> spec_fn(int) -> Seq<Seq<S>> {
    jac_of(
        body_jacobians,
        jac_blocks(
            ids.num_batches as int,
            b,
            mb.jacobian_offset as int,
            D::dimension_spec().spatial_spec(),
            mb.ndofs as int,
        ),
    )
}

/// One multibody and the bodies and links around it.
pub struct ContactScene<S: Scalar, D: Space<S>> {
    pub soft: ConstraintSoftness<S>,
    pub mb_idx: u32,
    pub self_contacts: u32,
    pub ndofs: int,
    pub jac: spec_fn(int) -> Seq<Seq<S>>,
    /// The multibody and link of each body.
    pub body_to_link: Seq<[u32; 2]>,
    pub poses: Seq<Pose<S, D>>,
    pub mprops: Seq<WorldMassProperties<S, D>>,
}

/// Point `k` of a manifold in world space: midway between the two surfaces.
pub open spec fn world_point<S: Scalar, D: Space<S>>(
    im: IndexedManifold<S, D>,
    pose1: Pose<S, D>,
    k: int,
) -> D::V {
    let p = im.contact.points_a[k];
    pose1.point_spec(
        D::vadd_spec(
            p.pt,
            D::vscale_spec(im.contact.normal_a, p.dist.times_spec(half_spec())),
        ),
    )
}

/// The touched side of a contact.
pub open spec fn scene_touch<S: Scalar, D: Space<S>>(
    sc: ContactScene<S, D>,
    im: IndexedManifold<S, D>,
) -> Option<Touch> {
    touch(
        sc.mb_idx,
        sc.self_contacts,
        sc.body_to_link[im.bodies[0] as int],
        sc.body_to_link[im.bodies[1] as int],
        im.bodies[0],
        im.bodies[1],
    )
}

/// The constraints of point `k` of a manifold, normal first.
pub open spec fn point_rows<S: Scalar, D: Space<S>>(
    sc: ContactScene<S, D>,
    im: IndexedManifold<S, D>,
    g: ContactGeometry<S, D>,
    k: int,
    slot: int,
) -> Seq<ContactRow<S, D>> {
    Seq::new(
        D::dimension_spec().lin_spec() as nat,
        |i: int|
            contact_row(
                sc.soft,
                sc.mb_idx,
                sc.ndofs,
                sc.jac,
                g,
                world_point(im, sc.poses[im.colliders[0] as int], k),
                im.contact.points_a[k].dist,
                slot as u32,
                i,
            ),
    )
}

/// `acc`, then the first `n` points of a manifold, as far as there are slots.
pub open spec fn manifold_rows<S: Scalar, D: Space<S>>(
    sc: ContactScene<S, D>,
    acc: Seq<ContactRow<S, D>>,
    im: IndexedManifold<S, D>,
    g: ContactGeometry<S, D>,
    n: int,
) -> Seq<ContactRow<S, D>>
    decreases n,
{
    let dim = D::dimension_spec();
    if n <= 0 {
        acc
    } else {
        let p = manifold_rows(sc, acc, im, g, n - 1);
        if p.len() + dim.lin_spec() > max_mb_contact_constraints_spec(dim) {
            p
        } else {
            p + point_rows(sc, im, g, n - 1, p.len() as int)
        }
    }
}

/// The constraints of the first `n` contacts, as far as there are slots.
pub open spec fn contact_rows<S: Scalar, D: Space<S>>(
    sc: ContactScene<S, D>,
    contacts: Seq<IndexedManifold<S, D>>,
    n: int,
) -> Seq<ContactRow<S, D>>
    decreases n,
{
    if n <= 0 {
        Seq::empty()
    } else {
        let p = contact_rows(sc, contacts, n - 1);
        let im = contacts[n - 1];
        match scene_touch(sc, im) {
            None => p,
            Some(t) => manifold_rows(
                sc,
                p,
                im,
                contact_geometry(im, t, sc.poses, sc.mprops),
                im.contact.len as int,
            ),
        }
    }
}

/// What is read of a contact exists: the bodies of one that has points, and the
/// colliders, points and links of one that touches the multibody.
pub open spec fn contact_ok<S: Scalar, D: Space<S>>(
    sc: ContactScene<S, D>,
    im: IndexedManifold<S, D>,
    links: int,
) -> bool {
    let cap = sc.poses.len();
    im.contact.len != 0 ==> {
        &&& im.bodies[0] < cap
        &&& im.bodies[1] < cap
        &&& match scene_touch(sc, im) {
            None => true,
            Some(t) => {
                &&& im.contact.len <= 4
                &&& im.colliders[0] < cap
                &&& im.colliders[1] < cap
                &&& t.link_a < links
                &&& t.free_body == NO_FREE_BODY ==> t.link_b < links
            },
        }
    }
}

/// Slots are left for another contact point.
pub open spec fn slots_left<S: Scalar, D: Space<S>>(rows: Seq<ContactRow<S, D>>) -> bool {
    let dim = D::dimension_spec();
    rows.len() + dim.lin_spec() <= max_mb_contact_constraints_spec(dim)
}

proof fn lemma_no_slots<S: Scalar, D: Space<S>>(
    sc: ContactScene<S, D>,
    acc: Seq<ContactRow<S, D>>,
    im: IndexedManifold<S, D>,
    g: ContactGeometry<S, D>,
    n: int,
)
    requires
        !slots_left(acc),
    ensures
        manifold_rows(sc, acc, im, g, n) == acc,
    decreases n,
{
    if n > 0 {
        lemma_no_slots(sc, acc, im, g, n - 1);
    }
}

/// Once no slots are left, further contacts add nothing.
proof fn lemma_rows_full<S: Scalar, D: Space<S>>(
    sc: ContactScene<S, D>,
    contacts: Seq<IndexedManifold<S, D>>,
    m: int,
    n: int,
)
    requires
        m <= n,
        !slots_left(contact_rows(sc, contacts, m)),
    ensures
        contact_rows(sc, contacts, n) == contact_rows(sc, contacts, m),
    decreases n - m,
{
    if m < n {
        lemma_rows_full(sc, contacts, m, n - 1);
        if n > 0 {
            let p = contact_rows(sc, contacts, n - 1);
            let im = contacts[n - 1];
            if let Some(t) = scene_touch(sc, im) {
                lemma_no_slots(
                    sc,
                    p,
                    im,
                    contact_geometry(im, t, sc.poses, sc.mprops),
                    im.contact.len as int,
                );
            }
        }
    }
}

/// Number of contact points of the first `n` contacts that touch the multibody.
pub open spec fn touched_points<S: Scalar, D: Space<S>>(
    sc: ContactScene<S, D>,
    contacts: Seq<IndexedManifold<S, D>>,
    n: int,
) -> int
    decreases n,
{
    if n <= 0 {
        0
    } else {
        touched_points(sc, contacts, n - 1) + match scene_touch(sc, contacts[n - 1]) {
            None => 0,
            Some(t) => contacts[n - 1].contact.len as int,
        }
    }
}

/// Number of the points that get slots.
pub open spec fn kept_points(points: int) -> int {
    if points <= MAX_MB_CONTACTS_PER_MB {
        points
    } else {
        MAX_MB_CONTACTS_PER_MB as int
    }
}

/// Slot `s` belongs to the group of slots of its contact point: the normal,
/// then the tangents, which refer back to the normal.
pub open spec fn row_grouped<S: Scalar, D: Space<S>>(
    r: ContactRow<S, D>,
    s: int,
    cap: int,
) -> bool {
    let lin = D::dimension_spec().lin_spec();
    &&& r.cons.normal_constraint_slot == s - s % lin
    &&& r.cons.kind == if s % lin == 0 {
        MB_CONTACT_KIND_NORMAL
    } else {
        MB_CONTACT_KIND_TANGENT
    }
    &&& has_free(r.cons) ==> r.cons.free_body_id < cap
}

proof fn lemma_manifold_rows<S: Scalar, D: Space<S>>(
    sc: ContactScene<S, D>,
    acc: Seq<ContactRow<S, D>>,
    im: IndexedManifold<S, D>,
    g: ContactGeometry<S, D>,
    points: int,
    n: int,
    cap: int,
)
    requires
        0 <= points,
        0 <= n,
        acc.len() == D::dimension_spec().lin_spec() * kept_points(points),
        0 < n && points < MAX_MB_CONTACTS_PER_MB && g.touch.free_body != NO_FREE_BODY
            ==> g.touch.free_body < cap,
        forall|s: int| 0 <= s < acc.len() ==> row_grouped(#[trigger] acc[s], s, cap),
    ensures
        ({
            let out = manifold_rows(sc, acc, im, g, n);
            &&& out.len() == D::dimension_spec().lin_spec() * kept_points(points + n)
            &&& forall|s: int| 0 <= s < out.len() ==> row_grouped(#[trigger] out[s], s, cap)
        }),
    decreases n,
{
    let lin = D::dimension_spec().lin_spec();
    if n > 0 {
        lemma_manifold_rows(sc, acc, im, g, points, n - 1, cap);
        let p = manifold_rows(sc, acc, im, g, n - 1);
        let out = manifold_rows(sc, acc, im, g, n);
        let k = kept_points(points + n - 1);
        assert(p.len() == lin * k);
        match D::dimension_spec() {
            Dimension::Two => {},
            Dimension::Three => {},
        }
        if k < MAX_MB_CONTACTS_PER_MB {
            let q = point_rows(sc, im, g, n - 1, p.len() as int);
            assert(out == p + q);
            assert forall|s: int| 0 <= s < out.len() implies row_grouped(
                #[trigger] out[s],
                s,
                cap,
            ) by {
                if s >= p.len() {
                    assert(out[s] == q[s - p.len()]);
                    assert(s % lin == s - p.len()) by {
                        match D::dimension_spec() {
                            Dimension::Two => {},
                            Dimension::Three => {},
                        }
                    }
                } else {
                    assert(out[s] == p[s]);
                }
            }
        }
    }
}

/// Every touched point gets one group of slots, as long as there are slots:
/// the normal first, then its tangents.
pub proof fn contact_rows_grouped<S: Scalar, D: Space<S>>(
    sc: ContactScene<S, D>,
    contacts: Seq<IndexedManifold<S, D>>,
    n: int,
    links: int,
)
    requires
        0 <= n <= contacts.len(),
        forall|i: int|
            0 <= i < n && slots_left(contact_rows(sc, contacts, i)) ==> contact_ok(
                sc,
                #[trigger] contacts[i],
                links,
            ),
    ensures
        touched_points(sc, contacts, n) >= 0,
        contact_rows(sc, contacts, n).len() == D::dimension_spec().lin_spec() * kept_points(
            touched_points(sc, contacts, n),
        ),
        contact_rows(sc, contacts, n).len() <= max_mb_contact_constraints_spec(D::dimension_spec()),
        forall|s: int|
            0 <= s < contact_rows(sc, contacts, n).len() ==> row_grouped(
                #[trigger] contact_rows(sc, contacts, n)[s],
                s,
                sc.poses.len() as int,
            ),
    decreases n,
{
    if n > 0 {
        contact_rows_grouped(sc, contacts, n - 1, links);
        let p = contact_rows(sc, contacts, n - 1);
        let im = contacts[n - 1];
        assert(im == contacts[n - 1]);
        match D::dimension_spec() {
            Dimension::Two => {},
            Dimension::Three => {},
        }
        if let Some(t) = scene_touch(sc, im) {
            lemma_manifold_rows(
                sc,
                p,
                im,
                contact_geometry(im, t, sc.poses, sc.mprops),
                touched_points(sc, contacts, n - 1),
                im.contact.len as int,
                sc.poses.len() as int,
            );
        }
    }
    match D::dimension_spec() {
        Dimension::Two => {},
        Dimension::Three => {},
    }
}

proof fn lemma_rows_jac_len<S: Scalar, D: Space<S>>(
    sc: ContactScene<S, D>,
    contacts: Seq<IndexedManifold<S, D>>,
    n: int,
)
    requires
        sc.ndofs >= 0,
    ensures
        forall|s: int|
            0 <= s < contact_rows(sc, contacts, n).len() ==> (#[trigger] contact_rows(
                sc,
                contacts,
                n,
            )[s]).jac.len() == sc.ndofs,
    decreases n,
{
    if n > 0 {
        lemma_rows_jac_len(sc, contacts, n - 1);
        let im = contacts[n - 1];
        if let Some(t) = scene_touch(sc, im) {
            lemma_manifold_jac_len(
                sc,
                contact_rows(sc, contacts, n - 1),
                im,
                contact_geometry(im, t, sc.poses, sc.mprops),
                im.contact.len as int,
            );
        }
    }
}

proof fn lemma_manifold_jac_len<S: Scalar, D: Space<S>>(
    sc: ContactScene<S, D>,
    acc: Seq<ContactRow<S, D>>,
    im: IndexedManifold<S, D>,
    g: ContactGeometry<S, D>,
    n: int,
)
    requires
        sc.ndofs >= 0,
        forall|s: int| 0 <= s < acc.len() ==> (#[trigger] acc[s]).jac.len() == sc.ndofs,
    ensures
        forall|s: int|
            0 <= s < manifold_rows(sc, acc, im, g, n).len() ==> (#[trigger] manifold_rows(
                sc,
                acc,
                im,
                g,
                n,
            )[s]).jac.len() == sc.ndofs,
    decreases n,
{
    if n > 0 {
        lemma_manifold_jac_len(sc, acc, im, g, n - 1);
        let p = manifold_rows(sc, acc, im, g, n - 1);
        let out = manifold_rows(sc, acc, im, g, n);
        let q = point_rows(sc, im, g, n - 1, p.len() as int);
        assert forall|s: int| 0 <= s < out.len() implies (#[trigger] out[s]).jac.len()
            == sc.ndofs by {
            if s < p.len() {
                assert(out[s] == p[s]);
            } else {
                assert(out[s] == q[s - p.len()]);
            }
        }
    }
}

/// The scene of multibody `mb_idx` of batch `b`.
pub open spec fn scene_of<S: Scalar, D: Space<S>>(
    soft: ConstraintSoftness<S>,
    mb_idx: u32,
    mb: MultibodyInfo,
    ids: BatchIndices,
    b: int,
    body_jacobians: Seq<S>,
    body_to_link: Seq<[u32; 2]>,
    poses: Seq<Pose<S, D>>,
    mprops: Seq<WorldMassProperties<S, D>>,
) -> ContactScene<S, D> {
    let fv = body_vels_view(ids, b);
    ContactScene {
        soft: soft,
        mb_idx: mb_idx,
        self_contacts: mb.self_contacts_enabled,
        ndofs: mb.ndofs as int,
        jac: mb_jacobians::<S, D>(ids, b, mb, body_jacobians),
        body_to_link: vec_of(body_to_link, fv),
        poses: vec_of(poses, fv),
        mprops: vec_of(mprops, fv),
    }
}

/// The constraints and jacobians are these rows.
pub open spec fn rows_are<S: Scalar, D: Space<S>>(
    cons: Seq<MultibodyContactConstraint<S, D>>,
    jacs: Seq<Vec<S>>,
    rows: Seq<ContactRow<S, D>>,
) -> bool {
    &&& cons.len() == rows.len()
    &&& jacs.len() == rows.len()
    &&& forall|s: int|
        0 <= s < rows.len() ==> (#[trigger] rows[s]).cons == cons[s] && rows[s].jac == jacs[s]@
}

/// Number of contacts to scan.
pub open spec fn scanned(ids: BatchIndices, mb: MultibodyInfo) -> int {
    if mb.batch_contacts_len < ids.contacts_batch_capacity {
        mb.batch_contacts_len as int
    } else {
        ids.contacts_batch_capacity as int
    }
}

/// The contacts of batch `b` that multibody `mb` scans.
pub open spec fn contacts_view(ids: BatchIndices, b: int, mb: MultibodyInfo) -> VecView {
    VecView {
        base: (b * ids.contacts_batch_capacity) as usize,
        stride: 1,
        len: scanned(ids, mb) as usize,
    }
}

proof fn lemma_bodies_fit(ids: BatchIndices, b: int, n: int)
    requires
        0 <= b,
        (b + 1) * ids.colliders_batch_capacity <= n,
        n <= usize::MAX,
    ensures
        body_vels_view(ids, b).fits(n),
{
    let cap = ids.colliders_batch_capacity as int;
    assert((b + 1) * cap == b * cap + cap && 0 <= b * cap) by (nonlinear_arith)
        requires
            b >= 0,
            cap >= 0,
    ;
}

fn emit_point<S: Scalar, D: Space<S>>(
    soft: ConstraintSoftness<S>,
    mb_idx: u32,
    mb: &MultibodyInfo,
    body_jacobians: &[S],
    ids: &BatchIndices,
    b: u32,
    im: &IndexedManifold<S, D>,
    pose1: Pose<S, D>,
    g: ContactGeometry<S, D>,
    k: usize,
    cons: &mut Vec<MultibodyContactConstraint<S, D>>,
    jacs: &mut Vec<Vec<S>>,
    Ghost(sc): Ghost<ContactScene<S, D>>,
    Ghost(acc): Ghost<Seq<ContactRow<S, D>>>,
)
    requires
        room(
            ids.num_batches as int,
            b as int,
            mb.jacobian_offset as int,
            mb.num_links * D::dimension_spec().spatial_spec() * mb.ndofs,
            body_jacobians@.len() as int,
        ),
        mb.ndofs > 0,
        links_ok(g, mb.num_links as int),
        k < 4,
        rows_are(old(cons)@, old(jacs)@, acc),
        acc.len() <= 1000,
        sc.soft == soft,
        sc.mb_idx == mb_idx,
        sc.ndofs == mb.ndofs,
        sc.jac == mb_jacobians::<S, D>(*ids, b as int, *mb, body_jacobians@),
        sc.poses[im.colliders[0] as int] == pose1,
    ensures
        rows_are(
            final(cons)@,
            final(jacs)@,
            acc + point_rows(sc, *im, g, k as int, acc.len() as int),
        ),
{
    let point = im.contact.points_a[k];
    let pt = pose1.point(
        D::vadd(point.pt, D::vscale(im.contact.normal_a, point.dist.times(half()))),
    );
    let ghost out = point_rows(sc, *im, g, k as int, acc.len() as int);
    let slot: u32 = cons.len() as u32;
    let lin: usize = D::dimension().lin() as usize;
    let mut i: usize = 0;
    while i < lin
        invariant
            room(
                ids.num_batches as int,
                b as int,
                mb.jacobian_offset as int,
                mb.num_links * D::dimension_spec().spatial_spec() * mb.ndofs,
                body_jacobians@.len() as int,
            ),
            mb.ndofs > 0,
            links_ok(g, mb.num_links as int),
            k < 4,
            lin == D::dimension_spec().lin_spec(),
            i <= lin,
            slot == acc.len(),
            sc.soft == soft,
            sc.mb_idx == mb_idx,
            sc.ndofs == mb.ndofs,
            sc.jac == mb_jacobians::<S, D>(*ids, b as int, *mb, body_jacobians@),
            pt == world_point(*im, pose1, k as int),
            point == im.contact.points_a[k as int],
            sc.poses[im.colliders[0] as int] == pose1,
            out == point_rows(sc, *im, g, k as int, acc.len() as int),
            rows_are(cons@, jacs@, acc + out.take(i as int)),
        decreases lin - i,
    {
        let (c, row) = build_contact_row(
            soft,
            mb_idx,
            mb,
            body_jacobians,
            ids,
            b,
            g,
            pt,
            point.dist,
            slot,
            i,
        );
        assert(c == out[i as int].cons && row@ == out[i as int].jac);
        let ghost c0 = cons@;
        let ghost j0 = jacs@;
        cons.push(c);
        jacs.push(row);
        proof {
            let r0 = acc + out.take(i as int);
            let r1 = acc + out.take(i + 1);
            assert(r1 =~= r0.push(out[i as int]));
            assert forall|s: int| 0 <= s < r1.len() implies (#[trigger] r1[s]).cons == cons@[s]
                && r1[s].jac == jacs@[s]@ by {
                if s < r0.len() {
                    assert(r1[s] == r0[s]);
                }
            }
        }
        i = i + 1;
    }
    assert(out.take(lin as int) =~= out);
}

/// The constraints of a multibody and their jacobians, in slot order.
pub fn emit_contact_constraints<S: Scalar, D: Space<S>>(
    soft: ConstraintSoftness<S>,
    mb_idx: u32,
    mb: &MultibodyInfo,
    body_jacobians: &[S],
    body_to_link: &[[u32; 2]],
    mprops: &[WorldMassProperties<S, D>],
    poses: &[Pose<S, D>],
    contacts: &[IndexedManifold<S, D>],
    ids: &BatchIndices,
    b: u32,
) -> (r: (Vec<MultibodyContactConstraint<S, D>>, Vec<Vec<S>>))
    requires
        mb.ndofs > 0,
        contact_scene_room(
            *ids,
            b as int,
            *mb,
            body_jacobians@,
            body_to_link@,
            mprops@,
            poses@,
            contacts@,
        ),
        contact_scene_ok(
            scene_of(
                soft,
                mb_idx,
                *mb,
                *ids,
                b as int,
                body_jacobians@,
                body_to_link@,
                poses@,
                mprops@,
            ),
            vec_of(contacts@, contacts_view(*ids, b as int, *mb)),
            mb.num_links as int,
        ),
    ensures
        rows_are(
            r.0@,
            r.1@,
            contact_rows(
                scene_of(
                    soft,
                    mb_idx,
                    *mb,
                    *ids,
                    b as int,
                    body_jacobians@,
                    body_to_link@,
                    poses@,
                    mprops@,
                ),
                vec_of(contacts@, contacts_view(*ids, b as int, *mb)),
                scanned(*ids, *mb),
            ),
        ),
{
    let ghost sc = scene_of(
        soft,
        mb_idx,
        *mb,
        *ids,
        b as int,
        body_jacobians@,
        body_to_link@,
        poses@,
        mprops@,
    );
    let ghost list = vec_of(contacts@, contacts_view(*ids, b as int, *mb));
    let fv = body_vels_at(ids, b, poses.len());
    proof {
        lemma_bodies_fit(*ids, b as int, body_to_link@.len() as int);
        lemma_bodies_fit(*ids, b as int, mprops@.len() as int);
    }
    let total: usize = if mb.batch_contacts_len < ids.contacts_batch_capacity {
        mb.batch_contacts_len as usize
    } else {
        ids.contacts_batch_capacity as usize
    };
    let cap: usize = ids.contacts_batch_capacity as usize;
    let n: usize = contacts.len();
    assert((b + 1) * cap == b * cap + cap && 0 <= b * cap) by (nonlinear_arith)
        requires
            b >= 0,
            cap >= 0,
    ;
    let tv = VecView { base: b as usize * cap, stride: 1, len: total };
    assert(tv == contacts_view(*ids, b as int, *mb));
    let max: usize = max_mb_contact_constraints(D::dimension()) as usize;
    let lin: usize = D::dimension().lin() as usize;
    let mut cons: Vec<MultibodyContactConstraint<S, D>> = Vec::new();
    let mut jacs: Vec<Vec<S>> = Vec::new();
    let mut ci: usize = 0;
    while ci < total && cons.len() + lin <= max
        invariant
            mb.ndofs > 0,
            contact_scene_room(
                *ids,
                b as int,
                *mb,
                body_jacobians@,
                body_to_link@,
                mprops@,
                poses@,
                contacts@,
            ),
            contact_scene_ok(sc, list, mb.num_links as int),
            sc == scene_of(
                soft,
                mb_idx,
                *mb,
                *ids,
                b as int,
                body_jacobians@,
                body_to_link@,
                poses@,
                mprops@,
            ),
            list == vec_of(contacts@, tv),
            tv.fits(contacts@.len() as int),
            tv.len == total,
            fv == body_vels_view(*ids, b as int),
            fv.len == ids.colliders_batch_capacity,
            fv.fits(body_to_link@.len() as int),
            fv.fits(mprops@.len() as int),
            fv.fits(poses@.len() as int),
            max == max_mb_contact_constraints_spec(D::dimension_spec()),
            lin == D::dimension_spec().lin_spec(),
            ci <= total,
            cons.len() <= max,
            rows_are(cons@, jacs@, contact_rows(sc, list, ci as int)),
        decreases total - ci,
    {
        proof {
            contact_rows_grouped(sc, list, ci as int, mb.num_links as int);
        }
        let ghost acc = contact_rows(sc, list, ci as int);
        let im = vec_get(contacts, tv, ci);
        assert(im == list[ci as int]);
        assert(slots_left(acc));
        assert(contact_ok(sc, list[ci as int], mb.num_links as int));
        let found = if im.contact.len == 0 {
            None
        } else {
            let l1 = vec_get(body_to_link, fv, im.bodies[0] as usize);
            let l2 = vec_get(body_to_link, fv, im.bodies[1] as usize);
            find_touch(
                mb_idx,
                mb.self_contacts_enabled,
                l1,
                l2,
                im.bodies[0],
                im.bodies[1],
            )
        };
        assert(im.contact.len != 0 ==> found == scene_touch(sc, im));
        if let Some(t) = found {
            let pose1 = vec_get(poses, fv, im.colliders[0] as usize);
            let pose2 = vec_get(poses, fv, im.colliders[1] as usize);
            let world_normal = D::rapply(pose1.rotation, im.contact.normal_a);
            let free = if t.free_body == NO_FREE_BODY {
                None
            } else {
                Some(vec_get(mprops, fv, t.free_body as usize))
            };
            let g = ContactGeometry {
                touch: t,
                normal: if t.second {
                    D::vneg(world_normal)
                } else {
                    world_normal
                },
                origin_a: if t.second {
                    pose2.translation
                } else {
                    pose1.translation
                },
                origin_b: pose2.translation,
                free: free,
                friction: im.friction,
            };
            assert(g == contact_geometry(im, t, sc.poses, sc.mprops));
            let len: usize = im.contact.len as usize;
            let mut k: usize = 0;
            while k < len
                invariant
                    mb.ndofs > 0,
                    contact_scene_room(
                        *ids,
                        b as int,
                        *mb,
                        body_jacobians@,
                        body_to_link@,
                        mprops@,
                        poses@,
                        contacts@,
                    ),
                    sc == scene_of(
                        soft,
                        mb_idx,
                        *mb,
                        *ids,
                        b as int,
                        body_jacobians@,
                        body_to_link@,
                        poses@,
                        mprops@,
                    ),
                    links_ok(g, mb.num_links as int),
                    sc.poses[im.colliders[0] as int] == pose1,
                    max == max_mb_contact_constraints_spec(D::dimension_spec()),
                    lin == D::dimension_spec().lin_spec(),
                    k <= len <= 4,
                    acc.len() <= max,
                    manifold_rows(sc, acc, im, g, k as int).len() <= max,
                    rows_are(cons@, jacs@, manifold_rows(sc, acc, im, g, k as int)),
                decreases len - k,
            {
                if cons.len() + lin <= max {
                    emit_point(
                        soft,
                        mb_idx,
                        mb,
                        body_jacobians,
                        ids,
                        b,
                        &im,
                        pose1,
                        g,
                        k,
                        &mut cons,
                        &mut jacs,
                        Ghost(sc),
                        Ghost(manifold_rows(sc, acc, im, g, k as int)),
                    );
                }
                k = k + 1;
            }
        }
        ci = ci + 1;
        proof {
            contact_rows_grouped(sc, list, ci as int, mb.num_links as int);
        }
    }
    proof {
        if ci < total {
            lemma_rows_full(sc, list, ci as int, total as int);
        }
    }
    (cons, jacs)
}

/// The bodies, contacts and jacobians of batch `b` are there.
pub open spec fn contact_scene_room<S: Scalar, D: Space<S>>(
    ids: BatchIndices,
    b: int,
    mb: MultibodyInfo,
    body_jacobians: Seq<S>,
    body_to_link: Seq<[u32; 2]>,
    mprops: Seq<WorldMassProperties<S, D>>,
    poses: Seq<Pose<S, D>>,
    contacts: Seq<IndexedManifold<S, D>>,
) -> bool {
    &&& room(
        ids.num_batches as int,
        b,
        mb.jacobian_offset as int,
        mb.num_links * D::dimension_spec().spatial_spec() * mb.ndofs,
        body_jacobians.len() as int,
    )
    &&& (b + 1) * ids.colliders_batch_capacity <= body_to_link.len() <= usize::MAX
    &&& (b + 1) * ids.colliders_batch_capacity <= mprops.len() <= usize::MAX
    &&& (b + 1) * ids.colliders_batch_capacity <= poses.len() <= usize::MAX
    &&& (b + 1) * ids.contacts_batch_capacity <= contacts.len() <= usize::MAX
}

/// What is read of the contacts exists, as long as slots are left for their points.
pub open spec fn contact_scene_ok<S: Scalar, D: Space<S>>(
    sc: ContactScene<S, D>,
    contacts: Seq<IndexedManifold<S, D>>,
    links: int,
) -> bool {
    forall|i: int|
        0 <= i < contacts.len() && slots_left(contact_rows(sc, contacts, i)) ==> contact_ok(
            sc,
            #[trigger] contacts[i],
            links,
        )
}

// ---- building ----

/// What building the contact constraints of multibody `mb_idx` needs.
pub open spec fn init_contacts_ok<S: Scalar, D: Space<S>>(
    ids: BatchIndices,
    b: int,
    mb_idx: u32,
    mb: MultibodyInfo,
    soft: ConstraintSoftness<S>,
    body_jacobians: Seq<S>,
    body_to_link: Seq<[u32; 2]>,
    mprops: Seq<WorldMassProperties<S, D>>,
    poses: Seq<Pose<S, D>>,
    contacts: Seq<IndexedManifold<S, D>>,
    cons: Seq<MultibodyContactConstraint<S, D>>,
    jacs: Seq<S>,
) -> bool {
    let dim = D::dimension_spec();
    let k = bank(ids, b, mb_idx as int);
    let sc = scene_of(soft, mb_idx, mb, ids, b, body_jacobians, body_to_link, poses, mprops);
    &&& contact_cons_room(k, 0, cons)
    &&& contact_cols_room(dim, ids, k, mb.ndofs as int, jacs.len() as int)
    &&& contact_scene_room(
        ids,
        b,
        mb,
        body_jacobians,
        body_to_link,
        mprops,
        poses,
        contacts,
    )
    &&& contact_scene_ok(
        sc,
        vec_of(contacts, contacts_view(ids, b, mb)),
        mb.num_links as int,
    )
}

/// Slot `s` after building: the new constraint with the impulse that the slot
/// had before, or what was there if the slot is not needed.
pub open spec fn rebuilt<S: Scalar, D: Space<S>>(
    rows: Seq<ContactRow<S, D>>,
    s: int,
    before: MultibodyContactConstraint<S, D>,
) -> MultibodyContactConstraint<S, D> {
    if s < rows.len() {
        MultibodyContactConstraint { impulse: before.impulse, ..rows[s].cons }
    } else {
        before
    }
}

/// Freshly built constraints name only slots in use and bodies that exist, so
/// the sweeps can solve them.
pub proof fn built_contacts_are_solvable<S: Scalar, D: Space<S>>(
    sc: ContactScene<S, D>,
    contacts: Seq<IndexedManifold<S, D>>,
    links: int,
    before: Seq<MultibodyContactConstraint<S, D>>,
)
    requires
        contact_scene_ok(sc, contacts, links),
    ensures
        ({
            let rows = contact_rows(sc, contacts, contacts.len() as int);
            contacts_ok(
                Seq::new(rows.len(), |s: int| rebuilt(rows, s, before[s])),
                sc.poses.len() as int,
            )
        }),
{
    let rows = contact_rows(sc, contacts, contacts.len() as int);
    contact_rows_grouped(sc, contacts, contacts.len() as int, links);
    let cons = Seq::new(rows.len(), |s: int| rebuilt(rows, s, before[s]));
    assert forall|s: int| 0 <= s < cons.len() implies (#[trigger] cons[s]).normal_constraint_slot
        < cons.len() && (has_free(cons[s]) ==> cons[s].free_body_id < sc.poses.len()) by {
        assert(row_grouped(rows[s], s, sc.poses.len() as int));
    }
}

/// Builds the contact constraints of multibody `mb_idx` of batch `b` and their
/// jacobians. Every slot keeps its impulse, to start the next solve from.
pub fn gpu_mb_init_contact_constraints<S: Scalar, D: Space<S>>(
    mb_idx: u32,
    b: u32,
    multibody_info: &mut [MultibodyInfo],
    body_jacobians: &[S],
    body_to_link: &[[u32; 2]],
    contact_constraints: &mut [MultibodyContactConstraint<S, D>],
    contact_constraint_jacs: &mut [S],
    soft: ConstraintSoftness<S>,
    mprops: &[WorldMassProperties<S, D>],
    poses: &[Pose<S, D>],
    contacts: &[IndexedManifold<S, D>],
    ids: &BatchIndices,
)
    requires
        mb_idx < ids.multibodies_len ==> {
            let mb = mb_at_spec(*ids, b as int, mb_idx as int, old(multibody_info)@);
            &&& mb_listed(*ids, b as int, mb_idx as int, old(multibody_info)@)
            &&& mb.ndofs != 0 ==> init_contacts_ok(
                *ids,
                b as int,
                mb_idx,
                mb,
                soft,
                body_jacobians@,
                body_to_link@,
                mprops@,
                poses@,
                contacts@,
                old(contact_constraints)@,
                old(contact_constraint_jacs)@,
            )
        },
    ensures
        ({
            let mb = mb_at_spec(*ids, b as int, mb_idx as int, old(multibody_info)@);
            let at = mbi_spec(ids.num_batches as int, b as int, mb_idx as int);
            let k = bank(*ids, b as int, mb_idx as int);
            let dim = D::dimension_spec();
            let max = max_mb_contact_constraints_spec(dim);
            let cv = contact_cons_view(dim, k, max);
            let jv = contact_cols_view(dim, *ids, k, mb.ndofs as int, max);
            if mb_idx >= ids.multibodies_len {
                &&& final(multibody_info)@ == old(multibody_info)@
                &&& final(contact_constraints)@ == old(contact_constraints)@
                &&& final(contact_constraint_jacs)@ == old(contact_constraint_jacs)@
            } else if mb.ndofs == 0 {
                &&& final(multibody_info)@ == old(multibody_info)@.update(
                    at,
                    (MultibodyInfo { contact_constraint_count: 0, ..mb }),
                )
                &&& final(contact_constraints)@ == old(contact_constraints)@
                &&& final(contact_constraint_jacs)@ == old(contact_constraint_jacs)@
            } else {
                let rows = contact_rows(
                    scene_of(
                        soft,
                        mb_idx,
                        mb,
                        *ids,
                        b as int,
                        body_jacobians@,
                        body_to_link@,
                        poses@,
                        mprops@,
                    ),
                    vec_of(contacts@, contacts_view(*ids, b as int, mb)),
                    scanned(*ids, mb),
                );
                &&& final(multibody_info)@ == old(multibody_info)@.update(
                    at,
                    (MultibodyInfo { contact_constraint_count: rows.len() as u32, ..mb }),
                )
                &&& forall|s: int|
                    0 <= s < max ==> #[trigger] vec_of(final(contact_constraints)@, cv)[s]
                        == rebuilt(rows, s, vec_of(old(contact_constraints)@, cv)[s])
                &&& forall|s: int|
                    0 <= s < max ==> #[trigger] column(
                        mat_of(final(contact_constraint_jacs)@, jv),
                        s,
                    ) == (if s < rows.len() {
                        rows[s].jac
                    } else {
                        column(mat_of(old(contact_constraint_jacs)@, jv), s)
                    })
                &&& same_outside_vec(
                    old(contact_constraints)@,
                    final(contact_constraints)@,
                    cv,
                )
                &&& same_outside_mat(
                    old(contact_constraint_jacs)@,
                    final(contact_constraint_jacs)@,
                    jv,
                )
            }
        }),
{
    if mb_idx >= ids.multibodies_len {
        return ;
    }
    let mut mb = mb_at(ids, b, mb_idx, multibody_info);
    let ghost mb0 = mb;
    let len: usize = multibody_info.len();
    assert(0 <= mb_idx * ids.num_batches) by (nonlinear_arith)
        requires
            mb_idx >= 0,
            ids.num_batches >= 0,
    ;
    let at: usize = ids.mbi(b, mb_idx as usize);
    if mb.ndofs == 0 {
        mb.contact_constraint_count = 0;
        multibody_info[at] = mb;
        return ;
    }
    let (cons, jacs) = emit_contact_constraints(
        soft,
        mb_idx,
        &mb,
        body_jacobians,
        body_to_link,
        mprops,
        poses,
        contacts,
        ids,
        b,
    );
    let ghost sc = scene_of(
        soft,
        mb_idx,
        mb0,
        *ids,
        b as int,
        body_jacobians@,
        body_to_link@,
        poses@,
        mprops@,
    );
    let ghost list = vec_of(contacts@, contacts_view(*ids, b as int, mb0));
    let ghost rows = contact_rows(sc, list, scanned(*ids, mb0));
    proof {
        contact_rows_grouped(sc, list, scanned(*ids, mb0), mb0.num_links as int);
    }
    let max: u32 = max_mb_contact_constraints(D::dimension());
    let n: usize = contact_constraints.len();
    proof {
        lemma_bank_in_range(*ids, b as int, mb_idx as int, max as int, n as int);
    }
    let k: usize = bank_of(ids, b, mb_idx, n);
    let cv = contact_cons_at(k, max, contact_constraints);
    let jv = contact_cols_at(
        D::dimension(),
        ids,
        k,
        mb.ndofs,
        max,
        contact_constraint_jacs.len(),
    );
    let count: usize = cons.len();
    proof {
        lemma_rows_jac_len(sc, list, scanned(*ids, mb0));
    }
    let mut s: usize = 0;
    while s < count
        invariant
            count == rows.len(),
            count <= max,
            rows_are(cons@, jacs@, rows),
            forall|i: int| 0 <= i < rows.len() ==> (#[trigger] rows[i]).jac.len() == mb.ndofs,
            cv.fits(old(contact_constraints)@.len() as int),
            jv.fits(old(contact_constraint_jacs)@.len() as int),
            cv.len == max,
            jv.ncols == max,
            jv.nrows == mb.ndofs,
            mb.ndofs > 0,
            s <= count,
            forall|i: int|
                0 <= i < max ==> #[trigger] vec_of(contact_constraints@, cv)[i] == (if i < s {
                    rebuilt(rows, i, vec_of(old(contact_constraints)@, cv)[i])
                } else {
                    vec_of(old(contact_constraints)@, cv)[i]
                }),
            forall|i: int|
                0 <= i < max ==> #[trigger] column(mat_of(contact_constraint_jacs@, jv), i) == (
                if i < s {
                    rows[i].jac
                } else {
                    column(mat_of(old(contact_constraint_jacs)@, jv), i)
                }),
            same_outside_vec(old(contact_constraints)@, contact_constraints@, cv),
            same_outside_mat(old(contact_constraint_jacs)@, contact_constraint_jacs@, jv),
        decreases count - s,
    {
        let before = vec_get(contact_constraints, cv, s);
        let mut c = cons[s];
        assert(rows[s as int].cons == c);
        c.impulse = before.impulse;
        vec_set(contact_constraints, cv, s, c);
        let ghost j0 = contact_constraint_jacs@;
        proof {
            lemma_column_change(j0, j0, jv, s as int);
        }
        let dv = VecView {
            base: jv.base + s * jv.col_stride,
            stride: jv.row_stride,
            len: jv.nrows,
        };
        assert(dv == column_view(jv, s as int));
        store_vec(&jacs[s], contact_constraint_jacs, dv);
        proof {
            lemma_column_change(j0, contact_constraint_jacs@, jv, s as int);
            assert forall|e: int|
                0 <= e < j0.len() && !jv.holds(e) implies #[trigger] old(contact_constraint_jacs)@[e]
                == contact_constraint_jacs@[e] by {
                assert(j0[e] == contact_constraint_jacs@[e]);
            }
        }
        s = s + 1;
    }
    mb.contact_constraint_count = count as u32;
    multibody_info[at] = mb;
}

/// Copies the number of contacts of each batch into its multibodies, one per
/// flat position.
pub fn gpu_mb_stash_contacts_len(
    flat: u32,
    multibody_info: &mut [MultibodyInfo],
    contacts_len: &[u32],
    ids: &BatchIndices,
)
    requires
        match flat_decode_spec(*ids, flat as int) {
            None => true,
            Some((b, i)) => mb_listed(*ids, b, i, old(multibody_info)@) && b < contacts_len@.len(),
        },
    ensures
        final(multibody_info)@ == match flat_decode_spec(*ids, flat as int) {
            None => old(multibody_info)@,
            Some((b, i)) => old(multibody_info)@.update(
                mbi_spec(ids.num_batches as int, b, i),
                (MultibodyInfo {
                    batch_contacts_len: contacts_len@[b],
                    ..mb_at_spec(*ids, b, i, old(multibody_info)@)
                }),
            ),
        },
{
    if let Some((b, i)) = flat_decode(ids, flat as u64) {
        let mut mb = mb_at(ids, b, i, multibody_info);
        mb.batch_contacts_len = contacts_len[b as usize];
        let len: usize = multibody_info.len();
        assert(0 <= i * ids.num_batches) by (nonlinear_arith)
            requires
                i >= 0,
                ids.num_batches >= 0,
        ;
        multibody_info[ids.mbi(b, i as usize)] = mb;
    }
}

// ---- starting impulses ----

/// The slot that a flat position stands for: the bank, then the slot within
/// it, or nothing past the last one.
pub open spec fn warmstart_slot(dim: Dimension, ids: BatchIndices, flat: int) -> Option<int> {
    let max = max_mb_contact_constraints_spec(dim);
    let per_batch = ids.multibodies_len * max;
    if ids.multibodies_len > 0 && 0 <= flat < per_batch * ids.num_batches {
        Some(bank(ids, flat / per_batch, (flat % per_batch) / max) * max + (flat % per_batch) % max)
    } else {
        None
    }
}

/// Clears the impulse of one contact slot per flat position.
pub fn gpu_mb_reset_contact_warmstart<S: Scalar, D: Space<S>>(
    flat: u32,
    contact_constraints: &mut [MultibodyContactConstraint<S, D>],
    ids: &BatchIndices,
)
    requires
        ids.multibodies_len * max_mb_contact_constraints_spec(D::dimension_spec())
            * ids.num_batches <= u32::MAX,
        match warmstart_slot(D::dimension_spec(), *ids, flat as int) {
            None => true,
            Some(at) => at < old(contact_constraints)@.len(),
        },
    ensures
        final(contact_constraints)@ == match warmstart_slot(
            D::dimension_spec(),
            *ids,
            flat as int,
        ) {
            None => old(contact_constraints)@,
            Some(at) => old(contact_constraints)@.update(
                at,
                (MultibodyContactConstraint {
                    impulse: S::zero_spec(),
                    ..old(contact_constraints)@[at]
                }),
            ),
        },
{
    let max: u32 = max_mb_contact_constraints(D::dimension());
    let num_mb: u32 = ids.multibodies_len;
    if num_mb == 0 || ids.num_batches == 0 {
        assert(num_mb * max * ids.num_batches == 0) by (nonlinear_arith)
            requires
                num_mb == 0 || ids.num_batches == 0,
        ;
        return ;
    }
    assert(0 < num_mb * max <= num_mb * max * ids.num_batches) by (nonlinear_arith)
        requires
            num_mb >= 1,
            max >= 1,
            ids.num_batches >= 1,
    ;
    let per_batch: u32 = num_mb * max;
    if flat >= per_batch * ids.num_batches {
        return ;
    }
    let b: u32 = flat / per_batch;
    let r: u32 = flat % per_batch;
    let i: u32 = r / max;
    let s: u32 = r % max;
    let n: usize = contact_constraints.len();
    proof {
        let k = bank(*ids, b as int, i as int);
        assert(0 <= b * ids.multibodies_batch_capacity) by (nonlinear_arith)
            requires
                b >= 0,
                ids.multibodies_batch_capacity >= 0,
        ;
        assert(k <= k * max) by (nonlinear_arith)
            requires
                k >= 0,
                max >= 1,
        ;
    }
    let k: usize = bank_of(ids, b, i, n);
    let at: usize = k * max as usize + s as usize;
    let mut c = contact_constraints[at];
    c.impulse = S::zero();
    contact_constraints[at] = c;
}

/// Velocities during a warm start.
pub struct WarmStart<S: Scalar, D: Space<S>> {
    pub dofv: Seq<S>,
    pub frees: Seq<Velocity<S, D>>,
}

/// The velocities with the impulses of the first `k` constraints applied.
pub open spec fn warmstarted<S: Scalar, D: Space<S>>(
    cons: Seq<MultibodyContactConstraint<S, D>>,
    cols: Seq<Seq<S>>,
    st0: WarmStart<S, D>,
    k: int,
) -> WarmStart<S, D>
    decreases k,
{
    if k <= 0 {
        st0
    } else {
        let p = warmstarted(cons, cols, st0, k - 1);
        let c = cons[k - 1];
        if c.impulse.same_spec(S::zero_spec()) {
            p
        } else {
            WarmStart {
                dofv: axpy(p.dofv, c.impulse, column(cols, k - 1)),
                frees: if has_free(c) {
                    p.frees.update(
                        c.free_body_id as int,
                        pushed(c, p.frees[c.free_body_id as int], c.impulse),
                    )
                } else {
                    p.frees
                },
            }
        }
    }
}

/// Without impulses a warm start changes nothing.
pub proof fn cold_warmstart_is_identity<S: Scalar, D: Space<S>>(
    cons: Seq<MultibodyContactConstraint<S, D>>,
    cols: Seq<Seq<S>>,
    st0: WarmStart<S, D>,
    k: int,
)
    requires
        k <= cons.len(),
        forall|s: int|
            0 <= s < cons.len() ==> (#[trigger] cons[s]).impulse.same_spec(S::zero_spec()),
    ensures
        warmstarted(cons, cols, st0, k) == st0,
    decreases k,
{
    if k > 0 {
        cold_warmstart_is_identity(cons, cols, st0, k - 1);
    }
}

proof fn lemma_warmstart_len<S: Scalar, D: Space<S>>(
    cons: Seq<MultibodyContactConstraint<S, D>>,
    cols: Seq<Seq<S>>,
    st0: WarmStart<S, D>,
    k: int,
)
    requires
        0 <= k <= cons.len(),
        contacts_ok(cons, st0.frees.len() as int),
    ensures
        warmstarted(cons, cols, st0, k).dofv.len() == st0.dofv.len(),
        warmstarted(cons, cols, st0, k).frees.len() == st0.frees.len(),
    decreases k,
{
    if k > 0 {
        lemma_warmstart_len(cons, cols, st0, k - 1);
    }
}

/// Applies the impulses that the contact constraints of multibody `mb_idx` of
/// batch `b` start from.
pub fn gpu_mb_warmstart_contact_constraints<S: Scalar, D: Space<S>>(
    mb_idx: u32,
    b: u32,
    multibody_info: &[MultibodyInfo],
    contact_constraints: &[MultibodyContactConstraint<S, D>],
    contact_constraint_columns: &[S],
    dof_state: &mut [S],
    solver_vels: &mut [Velocity<S, D>],
    ids: &BatchIndices,
)
    requires
        mb_idx < ids.multibodies_len ==> {
            let mb = mb_at_spec(*ids, b as int, mb_idx as int, multibody_info@);
            let k = bank(*ids, b as int, mb_idx as int);
            let count = mb.contact_constraint_count as int;
            &&& mb_listed(*ids, b as int, mb_idx as int, multibody_info@)
            &&& mb.ndofs != 0 ==> {
                &&& contact_cons_room(k, count, contact_constraints@)
                &&& contact_cols_room(
                    D::dimension_spec(),
                    *ids,
                    k,
                    mb.ndofs as int,
                    contact_constraint_columns@.len() as int,
                )
                &&& room(
                    ids.num_batches as int,
                    b as int,
                    mb.first_dof as int,
                    mb.ndofs as int,
                    old(dof_state)@.len() as int,
                )
                &&& (b + 1) * ids.colliders_batch_capacity <= old(solver_vels)@.len() <= usize::MAX
                &&& contacts_ok(
                    vec_of(contact_constraints@, contact_cons_view(D::dimension_spec(), k, count)),
                    ids.colliders_batch_capacity as int,
                )
            }
        },
    ensures
        ({
            let mb = mb_at_spec(*ids, b as int, mb_idx as int, multibody_info@);
            let k = bank(*ids, b as int, mb_idx as int);
            let count = mb.contact_constraint_count as int;
            let dim = D::dimension_spec();
            let dv = dof_view(*ids, b as int, mb);
            let fv = body_vels_view(*ids, b as int);
            if mb_idx < ids.multibodies_len && mb.ndofs != 0 {
                let out = warmstarted(
                    vec_of(contact_constraints@, contact_cons_view(dim, k, count)),
                    mat_of(
                        contact_constraint_columns@,
                        contact_cols_view(dim, *ids, k, mb.ndofs as int, count),
                    ),
                    WarmStart {
                        dofv: vec_of(old(dof_state)@, dv),
                        frees: vec_of(old(solver_vels)@, fv),
                    },
                    count,
                );
                &&& vec_of(final(dof_state)@, dv) == out.dofv
                &&& same_outside_vec(old(dof_state)@, final(dof_state)@, dv)
                &&& vec_of(final(solver_vels)@, fv) == out.frees
                &&& same_outside_vec(old(solver_vels)@, final(solver_vels)@, fv)
            } else {
                &&& final(dof_state)@ == old(dof_state)@
                &&& final(solver_vels)@ == old(solver_vels)@
            }
        }),
{
    if mb_idx >= ids.multibodies_len {
        return ;
    }
    let mb = mb_at(ids, b, mb_idx, multibody_info);
    if mb.ndofs == 0 {
        return ;
    }
    let count: u32 = mb.contact_constraint_count;
    let n: usize = contact_constraints.len();
    proof {
        lemma_bank_in_range(
            *ids,
            b as int,
            mb_idx as int,
            max_mb_contact_constraints_spec(D::dimension_spec()),
            n as int,
        );
    }
    let k: usize = bank_of(ids, b, mb_idx, n);
    let cv = contact_cons_at(k, count, contact_constraints);
    let colv = contact_cols_at(
        D::dimension(),
        ids,
        k,
        mb.ndofs,
        count,
        contact_constraint_columns.len(),
    );
    let dv = ids.ivec(b, mb.first_dof as usize, mb.ndofs as usize, dof_state.len());
    let fv = body_vels_at(ids, b, solver_vels.len());
    let mut dofv: Vec<S> = load_vec(dof_state, dv);
    let ghost cs = vec_of(contact_constraints@, cv);
    let ghost cm = mat_of(contact_constraint_columns@, colv);
    let ghost st0 = WarmStart { dofv: dofv@, frees: vec_of(solver_vels@, fv) };
    let mut s: usize = 0;
    while s < cv.len
        invariant
            cv.fits(contact_constraints@.len() as int),
            colv.fits(contact_constraint_columns@.len() as int),
            fv.fits(old(solver_vels)@.len() as int),
            colv.ncols == cv.len,
            colv.nrows == st0.dofv.len(),
            st0.frees.len() == fv.len,
            cs == vec_of(contact_constraints@, cv),
            cm == mat_of(contact_constraint_columns@, colv),
            contacts_ok(cs, fv.len as int),
            s <= cv.len,
            dofv@ == warmstarted(cs, cm, st0, s as int).dofv,
            vec_of(solver_vels@, fv) == warmstarted(cs, cm, st0, s as int).frees,
            same_outside_vec(old(solver_vels)@, solver_vels@, fv),
        decreases cv.len - s,
    {
        proof {
            lemma_warmstart_len(cs, cm, st0, s as int);
        }
        let c = vec_get(contact_constraints, cv, s);
        assert(c == cs[s as int]);
        if !c.impulse.same(S::zero()) {
            add_column(&mut dofv, c.impulse, contact_constraint_columns, colv, s);
            if c.free_body_id != NO_FREE_BODY {
                let free = vec_get(solver_vels, fv, c.free_body_id as usize);
                vec_set(solver_vels, fv, c.free_body_id as usize, push_free(&c, free, c.impulse));
            }
        }
        s = s + 1;
    }
    proof {
        lemma_warmstart_len(cs, cm, st0, count as int);
    }
    store_vec(&dofv, dof_state, dv);
}

// ---- responses ----

/// A constraint with its effective mass, from its jacobian and response.
pub open spec fn with_response<S: Scalar, D: Space<S>>(
    c: MultibodyContactConstraint<S, D>,
    jac: Seq<S>,
    col: Seq<S>,
) -> MultibodyContactConstraint<S, D> {
    let free = if has_free(c) {
        c.free_body_im.plus_spec(D::gdot_spec(c.ang_jac, c.ii_ang_jac))
    } else {
        S::zero_spec()
    };
    let total = dot_fold(jac, col, jac.len() as int).plus_spec(free);
    MultibodyContactConstraint {
        inv_lhs: if S::zero_spec().lt_spec(total) {
            S::one_spec().over_spec(total)
        } else {
            S::zero_spec()
        },
        ..c
    }
}

/// Solves for the response of multibody `mb_idx` of batch `b` to each of its
/// contact constraints, and sets their effective masses.
pub fn gpu_mb_finalize_contact_constraints<S: Scalar, D: Space<S>>(
    mb_idx: u32,
    b: u32,
    multibody_info: &[MultibodyInfo],
    mass_matrices: &[S],
    lu_pivots: &[u32],
    contact_constraints: &mut [MultibodyContactConstraint<S, D>],
    contact_constraint_jacs: &[S],
    contact_constraint_columns: &mut [S],
    ids: &BatchIndices,
)
    requires
        mb_idx < ids.multibodies_len ==> {
            let mb = mb_at_spec(*ids, b as int, mb_idx as int, multibody_info@);
            let nb = ids.num_batches as int;
            let k = bank(*ids, b as int, mb_idx as int);
            let n = mb.ndofs as int;
            let dim = D::dimension_spec();
            &&& mb_listed(*ids, b as int, mb_idx as int, multibody_info@)
            &&& mb.ndofs != 0 ==> {
                &&& contact_cons_room(
                    k,
                    mb.contact_constraint_count as int,
                    old(contact_constraints)@,
                )
                &&& contact_cols_room(dim, *ids, k, n, contact_constraint_jacs@.len() as int)
                &&& contact_cols_room(dim, *ids, k, n, old(contact_constraint_columns)@.len() as int)
                &&& room(nb, b as int, mb.mass_matrix_offset as int, n * n, mass_matrices@.len() as int)
                &&& room(nb, b as int, mb.first_dof as int, n, lu_pivots@.len() as int)
                &&& pivots_in_range(
                    vec_of(lu_pivots@, ivec_spec(nb, b as int, mb.first_dof as int, n)),
                )
            }
        },
    ensures
        ({
            let mb = mb_at_spec(*ids, b as int, mb_idx as int, multibody_info@);
            let nb = ids.num_batches as int;
            let k = bank(*ids, b as int, mb_idx as int);
            let n = mb.ndofs as int;
            let count = mb.contact_constraint_count as int;
            let dim = D::dimension_spec();
            let cv = contact_cons_view(dim, k, count);
            let mv = contact_cols_view(dim, *ids, k, n, count);
            let m = imat_spec(nb, b as int, mb.mass_matrix_offset as int, n, n);
            let piv = ivec_spec(nb, b as int, mb.first_dof as int, n);
            if mb_idx < ids.multibodies_len && mb.ndofs != 0 {
                &&& forall|s: int|
                    0 <= s < count ==> #[trigger] column(
                        mat_of(final(contact_constraint_columns)@, mv),
                        s,
                    ) == lu_solve(
                        mat_of(mass_matrices@, m),
                        vec_of(lu_pivots@, piv),
                        column(mat_of(contact_constraint_jacs@, mv), s),
                    )
                &&& forall|s: int|
                    0 <= s < count ==> #[trigger] vec_of(final(contact_constraints)@, cv)[s]
                        == with_response(
                        vec_of(old(contact_constraints)@, cv)[s],
                        column(mat_of(contact_constraint_jacs@, mv), s),
                        column(mat_of(final(contact_constraint_columns)@, mv), s),
                    )
                &&& same_outside_vec(old(contact_constraints)@, final(contact_constraints)@, cv)
                &&& same_outside_mat(
                    old(contact_constraint_columns)@,
                    final(contact_constraint_columns)@,
                    mv,
                )
            } else {
                &&& final(contact_constraints)@ == old(contact_constraints)@
                &&& final(contact_constraint_columns)@ == old(contact_constraint_columns)@
            }
        }),
{
    if mb_idx >= ids.multibodies_len {
        return ;
    }
    let mb = mb_at(ids, b, mb_idx, multibody_info);
    if mb.ndofs == 0 {
        return ;
    }
    let n: usize = mb.ndofs as usize;
    let count: u32 = mb.contact_constraint_count;
    let total: usize = count as usize;
    let piv = ids.ivec(b, mb.first_dof as usize, n, lu_pivots.len());
    let m = ids.imat(b, mb.mass_matrix_offset as usize, n, n, mass_matrices.len());
    let len: usize = contact_constraints.len();
    proof {
        lemma_bank_in_range(
            *ids,
            b as int,
            mb_idx as int,
            max_mb_contact_constraints_spec(D::dimension_spec()),
            len as int,
        );
    }
    let k: usize = bank_of(ids, b, mb_idx, len);
    let cv = contact_cons_at(k, count, contact_constraints);
    let jv = contact_cols_at(
        D::dimension(),
        ids,
        k,
        mb.ndofs,
        count,
        contact_constraint_jacs.len(),
    );
    let mv = contact_cols_at(
        D::dimension(),
        ids,
        k,
        mb.ndofs,
        count,
        contact_constraint_columns.len(),
    );
    let ghost a = mat_of(mass_matrices@, m);
    let ghost pv = vec_of(lu_pivots@, piv);
    let ghost jm = mat_of(contact_constraint_jacs@, jv);
    let ghost c0 = vec_of(contact_constraints@, cv);
    let mut s: usize = 0;
    while s < total
        invariant
            cv.fits(old(contact_constraints)@.len() as int),
            jv.fits(contact_constraint_jacs@.len() as int),
            mv.fits(old(contact_constraint_columns)@.len() as int),
            jv == mv,
            m.fits(mass_matrices@.len() as int),
            m.nrows == n,
            m.ncols == n,
            n > 0,
            piv.fits(lu_pivots@.len() as int),
            piv.len == n,
            pivots_in_range(pv),
            a == mat_of(mass_matrices@, m),
            pv == vec_of(lu_pivots@, piv),
            jm == mat_of(contact_constraint_jacs@, jv),
            c0 == vec_of(old(contact_constraints)@, cv),
            cv.len == total,
            mv.ncols == total,
            mv.nrows == n,
            s <= total,
            same_outside_vec(old(contact_constraints)@, contact_constraints@, cv),
            same_outside_mat(old(contact_constraint_columns)@, contact_constraint_columns@, mv),
            forall|j: int|
                0 <= j < s ==> #[trigger] column(mat_of(contact_constraint_columns@, mv), j)
                    == lu_solve(a, pv, column(jm, j)),
            forall|j: int|
                0 <= j < total ==> #[trigger] vec_of(contact_constraints@, cv)[j] == (if j < s {
                    with_response(c0[j], column(jm, j), lu_solve(a, pv, column(jm, j)))
                } else {
                    c0[j]
                }),
        decreases total - s,
    {
        let ghost before = contact_constraint_columns@;
        proof {
            lemma_column_change(before, before, mv, s as int);
            lemma_column_change(contact_constraint_jacs@, contact_constraint_jacs@, jv, s as int);
        }
        let dv = VecView {
            base: mv.base + s * mv.col_stride,
            stride: mv.row_stride,
            len: n,
        };
        assert(dv == column_view(mv, s as int));
        copy_vec(contact_constraint_jacs, dv, contact_constraint_columns, dv);
        lu_solve_in_place(mass_matrices, m, lu_pivots, piv, contact_constraint_columns, dv);
        proof {
            assert forall|e: int|
                0 <= e < before.len() && !dv.holds(e) implies #[trigger] before[e]
                == contact_constraint_columns@[e] by {}
            lemma_column_change(before, contact_constraint_columns@, mv, s as int);
            assert forall|e: int|
                0 <= e < before.len() && !mv.holds(e) implies #[trigger] old(contact_constraint_columns)@[e]
                == contact_constraint_columns@[e] by {
                assert(before[e] == contact_constraint_columns@[e]);
            }
        }
        let own = dot_columns(
            contact_constraint_jacs,
            jv,
            s,
            contact_constraint_columns,
            mv,
            s,
        );
        let mut c = vec_get(contact_constraints, cv, s);
        let free = if c.free_body_id == NO_FREE_BODY {
            S::zero()
        } else {
            c.free_body_im.plus(D::gdot(c.ang_jac, c.ii_ang_jac))
        };
        let sum = own.plus(free);
        c.inv_lhs = if S::zero().lt(sum) {
            S::one().over(sum)
        } else {
            S::zero()
        };
        vec_set(contact_constraints, cv, s, c);
        s = s + 1;
    }
}

// ---- sensors ----

/// Maximum number of sensed links.
pub const MAX_CONTACT_SENSORS: u32 = 4;

/// The sum of the normal impulses on a link over the first `n` constraints.
pub open spec fn sensed<S: Scalar, D: Space<S>>(
    cons: Seq<MultibodyContactConstraint<S, D>>,
    link: u32,
    n: int,
) -> S
    decreases n,
{
    if n <= 0 {
        S::zero_spec()
    } else {
        let p = sensed(cons, link, n - 1);
        let c = cons[n - 1];
        if c.kind == MB_CONTACT_KIND_NORMAL && link == c.link_id {
            p.plus_spec(c.impulse)
        } else {
            p
        }
    }
}

/// Reads the sensors of multibody `mb_idx` of batch `b`: the sum of the normal
/// impulses on each sensed link, zero past the last multibody.
pub fn gpu_mb_sense_contact_impulses<S: Scalar, D: Space<S>>(
    mb_idx: u32,
    b: u32,
    multibody_info: &[MultibodyInfo],
    contact_constraints: &[MultibodyContactConstraint<S, D>],
    contact_sensor_links: &[u32],
    contact_sensor_out: &mut [S],
    ids: &BatchIndices,
)
    requires
        b < ids.num_batches,
        contact_sensor_links@.len() >= MAX_CONTACT_SENSORS,
        (mbi_spec(ids.num_batches as int, b as int, mb_idx as int) + 1) * MAX_CONTACT_SENSORS
            <= old(contact_sensor_out)@.len() <= usize::MAX,
        mb_idx < ids.multibodies_len ==> {
            let mb = mb_at_spec(*ids, b as int, mb_idx as int, multibody_info@);
            &&& mb_listed(*ids, b as int, mb_idx as int, multibody_info@)
            &&& contact_cons_room(
                bank(*ids, b as int, mb_idx as int),
                mb.contact_constraint_count as int,
                contact_constraints@,
            )
        },
    ensures
        ({
            let mb = mb_at_spec(*ids, b as int, mb_idx as int, multibody_info@);
            let base = mbi_spec(ids.num_batches as int, b as int, mb_idx as int)
                * MAX_CONTACT_SENSORS;
            let count = mb.contact_constraint_count as int;
            let cons = vec_of(
                contact_constraints@,
                contact_cons_view(
                    D::dimension_spec(),
                    bank(*ids, b as int, mb_idx as int),
                    count,
                ),
            );
            &&& final(contact_sensor_out)@.len() == old(contact_sensor_out)@.len()
            &&& forall|e: int|
                0 <= e < old(contact_sensor_out)@.len() ==> (#[trigger] final(contact_sensor_out)@[e]) == (if base <= e < base + MAX_CONTACT_SENSORS {
                    if mb_idx < ids.multibodies_len {
                        sensed(cons, contact_sensor_links@[e - base], count)
                    } else {
                        S::zero_spec()
                    }
                } else {
                    old(contact_sensor_out)@[e]
                })
        }),
{
    let len: usize = contact_sensor_out.len();
    assert(0 <= mb_idx * ids.num_batches) by (nonlinear_arith)
        requires
            mb_idx >= 0,
            ids.num_batches >= 0,
    ;
    let base: usize = ids.mbi(b, mb_idx as usize) * MAX_CONTACT_SENSORS as usize;
    let n: usize = contact_constraints.len();
    let cv = if mb_idx < ids.multibodies_len {
        let mb = mb_at(ids, b, mb_idx, multibody_info);
        proof {
            lemma_bank_in_range(
                *ids,
                b as int,
                mb_idx as int,
                max_mb_contact_constraints_spec(D::dimension_spec()),
                n as int,
            );
        }
        let k: usize = bank_of(ids, b, mb_idx, n);
        contact_cons_at(k, mb.contact_constraint_count, contact_constraints)
    } else {
        VecView { base: 0, stride: 1, len: 0 }
    };
    let ghost cons = vec_of(contact_constraints@, cv);
    let ghost out0 = contact_sensor_out@;
    let mut i: usize = 0;
    while i < MAX_CONTACT_SENSORS as usize
        invariant
            contact_sensor_links@.len() >= MAX_CONTACT_SENSORS,
            base + MAX_CONTACT_SENSORS <= contact_sensor_out@.len(),
            contact_sensor_out@.len() == out0.len(),
            out0.len() == len,
            cv.fits(contact_constraints@.len() as int),
            cons == vec_of(contact_constraints@, cv),
            i <= MAX_CONTACT_SENSORS,
            forall|e: int|
                0 <= e < out0.len() ==> #[trigger] contact_sensor_out@[e] == (if base <= e < base
                    + i {
                    sensed(cons, contact_sensor_links@[e - base], cv.len as int)
                } else {
                    out0[e]
                }),
        decreases MAX_CONTACT_SENSORS - i,
    {
        let link: u32 = contact_sensor_links[i];
        let mut acc = S::zero();
        let mut c: usize = 0;
        while c < cv.len
            invariant
                cv.fits(contact_constraints@.len() as int),
                cons == vec_of(contact_constraints@, cv),
                c <= cv.len,
                acc == sensed(cons, link, c as int),
            decreases cv.len - c,
        {
            let cc = vec_get(contact_constraints, cv, c);
            if cc.kind == MB_CONTACT_KIND_NORMAL && link == cc.link_id {
                acc = acc.plus(cc.impulse);
            }
            c = c + 1;
        }
        contact_sensor_out[base + i] = acc;
        i = i + 1;
    }
}

/// A sensed link without an active normal reads exactly zero.
pub proof fn untouched_links_read_zero<S: Scalar, D: Space<S>>(
    cons: Seq<MultibodyContactConstraint<S, D>>,
    link: u32,
    n: int,
)
    requires
        forall|s: int|
            0 <= s < n ==> (#[trigger] cons[s]).kind != MB_CONTACT_KIND_NORMAL || cons[s].link_id
                != link,
    ensures
        sensed(cons, link, n) == S::zero_spec(),
    decreases n,
{
    if n > 0 {
        untouched_links_read_zero(cons, link, n - 1);
        assert(cons[n - 1].kind != MB_CONTACT_KIND_NORMAL || cons[n - 1].link_id != link);
    }
}

} // verus!
