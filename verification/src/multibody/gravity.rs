//! Generalized forces of gravity, inertia and damping.
//!
//! Each link accelerates with its parent even at zero joint acceleration. The
//! forces that this, gravity and the gyroscopic torque ask for are projected
//! on the degrees of freedom through the link's jacobian, link by link.
use super::types::{LocalMassProperties, MultibodyLinkStatic, MultibodyLinkWorkspace};
use crate::scalar::{Scalar, two, two_spec};
use crate::space::{Space, Velocity};
use crate::views::{
    MatView, VecView, mat_get, mat_of, same_outside_vec, vec_get, vec_of, vec_set,
};
use vstd::prelude::*;

verus! {

/// World-space inertia of a link: its principal moments along its axes.
pub open spec fn link_world_inertia_spec<S: Scalar, D: Space<S>>(
    ws: MultibodyLinkWorkspace<S, D>,
    lmp: LocalMassProperties<S, D>,
) -> D::I {
    D::ifrom_spec(
        D::rmul_spec(ws.local_to_world.rotation, lmp.inertia_ref_frame),
        D::ainv_spec(lmp.inv_principal_inertia),
    )
}

pub fn link_world_inertia<S: Scalar, D: Space<S>>(
    ws: &MultibodyLinkWorkspace<S, D>,
    lmp: &LocalMassProperties<S, D>,
) -> (r: D::I)
    ensures
        r == link_world_inertia_spec(*ws, *lmp),
{
    D::ifrom(
        D::rmul(ws.local_to_world.rotation, lmp.inertia_ref_frame),
        D::ainv(lmp.inv_principal_inertia),
    )
}

/// What a link takes over from its parent: the parent's acceleration, the
/// Coriolis and centripetal terms, and the Euler term of the joint offset.
pub open spec fn inherited_acc<S: Scalar, D: Space<S>>(
    ws: MultibodyLinkWorkspace<S, D>,
    parent_acc: Velocity<S, D>,
    parent_ang: D::A,
) -> Velocity<S, D> {
    let coriolis = D::vscale_spec(
        D::gcross_av_spec(parent_ang, ws.joint_velocity.linear),
        two_spec::<S>(),
    );
    let centripetal = D::gcross_av_spec(parent_ang, D::gcross_av_spec(parent_ang, ws.shift02));
    let euler = D::gcross_av_spec(parent_acc.angular, ws.shift02);
    Velocity {
        linear: D::vadd_spec(
            D::vadd_spec(D::vadd_spec(parent_acc.linear, coriolis), centripetal),
            euler,
        ),
        angular: D::aadd_cross_spec(parent_acc.angular, parent_ang, ws.joint_velocity.angular),
    }
}

/// An acceleration moved from the joint to the link's centre of mass.
pub open spec fn settled_acc<S: Scalar, D: Space<S>>(
    ws: MultibodyLinkWorkspace<S, D>,
    acc: Velocity<S, D>,
) -> Velocity<S, D> {
    let w = ws.rb_vels.angular;
    let centripetal = D::gcross_av_spec(w, D::gcross_av_spec(w, ws.shift23));
    let euler = D::gcross_av_spec(acc.angular, ws.shift23);
    Velocity {
        linear: D::vadd_spec(D::vadd_spec(acc.linear, centripetal), euler),
        angular: acc.angular,
    }
}

/// Acceleration of link `k` at zero joint acceleration.
pub open spec fn kin_acc<S: Scalar, D: Space<S>>(
    st: Seq<MultibodyLinkStatic<S, D>>,
    ws: Seq<MultibodyLinkWorkspace<S, D>>,
    k: int,
) -> Velocity<S, D>
    decreases k,
{
    let p = st[k].parent_link_id as int;
    if 0 <= p < k {
        settled_acc(ws[k], inherited_acc(ws[k], kin_acc(st, ws, p), ws[p].rb_vels.angular))
    } else {
        settled_acc(ws[k], Velocity::zero_spec())
    }
}

/// The root comes first and has no parent; every other link follows its
/// parent.
pub open spec fn parents_first<S: Scalar, D: Space<S>>(
    st: Seq<MultibodyLinkStatic<S, D>>,
) -> bool {
    forall|k: int| 0 < k < st.len() ==> (#[trigger] st[k]).parent_link_id < k
}

/// Force and torque asked of a link of positive mass.
pub open spec fn link_force<S: Scalar, D: Space<S>>(
    ws: MultibodyLinkWorkspace<S, D>,
    lmp: LocalMassProperties<S, D>,
    acc: Velocity<S, D>,
    g: D::V,
) -> Velocity<S, D> {
    let w = ws.rb_vels.angular;
    let inertia = link_world_inertia_spec(ws, lmp);
    let mass = S::one_spec().over_spec(D::vget_spec(lmp.inv_mass, 0));
    let gyroscopic = D::across_spec(w, D::imul_spec(inertia, w));
    Velocity {
        linear: D::vscale_spec(D::vsub_spec(g, acc.linear), mass),
        angular: D::asub_spec(D::aneg_spec(gyroscopic), D::imul_spec(inertia, acc.angular)),
    }
}

/// Whether a link has finite mass.
pub open spec fn has_mass<S: Scalar, D: Space<S>>(lmp: LocalMassProperties<S, D>) -> bool {
    !D::vget_spec(lmp.inv_mass, 0).same_spec(S::zero_spec())
}

/// Column `c` of a spatial jacobian times a force, rows `0..i` added in order.
pub open spec fn spatial_dot<S: Scalar, D: Space<S>>(
    jac: Seq<Seq<S>>,
    c: int,
    f: Velocity<S, D>,
    i: int,
) -> S
    decreases i,
{
    let dim = D::dimension_spec().lin_spec();
    if i <= 0 {
        S::zero_spec()
    } else {
        spatial_dot::<S, D>(jac, c, f, i - 1).plus_spec(
            jac[i - 1][c].times_spec(
                if i - 1 < dim {
                    D::vget_spec(f.linear, i - 1)
                } else {
                    D::aget_spec(f.angular, i - 1 - dim)
                },
            ),
        )
    }
}

/// `tau` plus the transposed jacobian times a force.
pub open spec fn gemv_tr_spec<S: Scalar, D: Space<S>>(
    tau: Seq<S>,
    jac: Seq<Seq<S>>,
    f: Velocity<S, D>,
) -> Seq<S> {
    Seq::new(
        tau.len(),
        |c: int|
            tau[c].plus_spec(
                spatial_dot::<S, D>(jac, c, f, D::dimension_spec().spatial_spec()),
            ),
    )
}

fn column_dot<S: Scalar, D: Space<S>>(
    jac: &[S],
    jv: MatView,
    c: usize,
    f: Velocity<S, D>,
) -> (r: S)
    requires
        jv.fits(jac@.len() as int),
        jv.nrows == D::dimension_spec().spatial_spec(),
        c < jv.ncols,
    ensures
        r == spatial_dot::<S, D>(
            mat_of(jac@, jv),
            c as int,
            f,
            D::dimension_spec().spatial_spec(),
        ),
{
    let dim: usize = D::dimension().lin() as usize;
    let mut acc = S::zero();
    let mut i: usize = 0;
    while i < jv.nrows
        invariant
            jv.fits(jac@.len() as int),
            jv.nrows == D::dimension_spec().spatial_spec(),
            dim == D::dimension_spec().lin_spec(),
            c < jv.ncols,
            i <= jv.nrows,
            acc == spatial_dot::<S, D>(mat_of(jac@, jv), c as int, f, i as int),
        decreases jv.nrows - i,
    {
        let x = if i < dim {
            D::vget(f.linear, i)
        } else {
            D::aget(f.angular, i - dim)
        };
        acc = acc.plus(mat_get(jac, jv, i, c).times(x));
        i = i + 1;
    }
    acc
}

/// Adds the transposed jacobian times a force to the generalized forces.
pub fn gemv_tr_spatial_split<S: Scalar, D: Space<S>>(
    tau: &mut [S],
    tv: VecView,
    jac: &[S],
    jv: MatView,
    f: Velocity<S, D>,
)
    requires
        tv.fits(old(tau)@.len() as int),
        jv.fits(jac@.len() as int),
        jv.nrows == D::dimension_spec().spatial_spec(),
        jv.ncols == tv.len,
    ensures
        vec_of(final(tau)@, tv) == gemv_tr_spec::<S, D>(
            vec_of(old(tau)@, tv),
            mat_of(jac@, jv),
            f,
        ),
        same_outside_vec(old(tau)@, final(tau)@, tv),
{
    let ghost t0 = vec_of(tau@, tv);
    let ghost out = gemv_tr_spec::<S, D>(t0, mat_of(jac@, jv), f);
    let mut c: usize = 0;
    while c < tv.len
        invariant
            tv.fits(old(tau)@.len() as int),
            jv.fits(jac@.len() as int),
            jv.nrows == D::dimension_spec().spatial_spec(),
            jv.ncols == tv.len,
            c <= tv.len,
            t0 == vec_of(old(tau)@, tv),
            out == gemv_tr_spec::<S, D>(t0, mat_of(jac@, jv), f),
            same_outside_vec(old(tau)@, tau@, tv),
            forall|i: int|
                0 <= i < tv.len ==> #[trigger] vec_of(tau@, tv)[i] == (if i < c {
                    out[i]
                } else {
                    t0[i]
                }),
        decreases tv.len - c,
    {
        let d = column_dot::<S, D>(jac, jv, c, f);
        let x = vec_get(tau, tv, c).plus(d);
        vec_set(tau, tv, c, x);
        c = c + 1;
    }
    assert(vec_of(tau@, tv) =~= out);
}

/// The generalized forces after the first `k` links.
pub open spec fn assembled<S: Scalar, D: Space<S>>(
    st: Seq<MultibodyLinkStatic<S, D>>,
    ws: Seq<MultibodyLinkWorkspace<S, D>>,
    jac: spec_fn(int) -> Seq<Seq<S>>,
    g: D::V,
    ndofs: int,
    k: int,
) -> Seq<S>
    decreases k,
{
    if k <= 0 {
        Seq::new(ndofs as nat, |i: int| S::zero_spec())
    } else {
        let tau = assembled(st, ws, jac, g, ndofs, k - 1);
        let lmp = st[k - 1].local_mprops;
        if has_mass(lmp) {
            gemv_tr_spec::<S, D>(
                tau,
                jac(k - 1),
                link_force(ws[k - 1], lmp, kin_acc(st, ws, k - 1), g),
            )
        } else {
            tau
        }
    }
}

/// The workspaces with the accelerations of the first `k` links published.
pub open spec fn accelerated<S: Scalar, D: Space<S>>(
    st: Seq<MultibodyLinkStatic<S, D>>,
    ws: Seq<MultibodyLinkWorkspace<S, D>>,
    k: int,
) -> Seq<MultibodyLinkWorkspace<S, D>> {
    Seq::new(
        ws.len(),
        |i: int|
            if i < k {
                MultibodyLinkWorkspace { kinematic_acc: kin_acc(st, ws, i), ..ws[i] }
            } else {
                ws[i]
            },
    )
}

/// `tau` less damping times velocity.
pub open spec fn damped<S: Scalar>(tau: Seq<S>, damping: Seq<S>, vel: Seq<S>) -> Seq<S> {
    Seq::new(tau.len(), |i: int| tau[i].minus_spec(damping[i].times_spec(vel[i])))
}

pub fn kinematic_acceleration<S: Scalar, D: Space<S>>(
    ws: &MultibodyLinkWorkspace<S, D>,
    parent: Option<(Velocity<S, D>, D::A)>,
) -> (r: Velocity<S, D>)
    ensures
        r == settled_acc(
            *ws,
            match parent {
                Some(p) => inherited_acc(*ws, p.0, p.1),
                None => Velocity::zero_spec(),
            },
        ),
{
    let acc: Velocity<S, D> = match parent {
        Some((parent_acc, parent_ang)) => {
            let coriolis = D::vscale(D::gcross_av(parent_ang, ws.joint_velocity.linear), two::<S>());
            let centripetal = D::gcross_av(parent_ang, D::gcross_av(parent_ang, ws.shift02));
            let euler = D::gcross_av(parent_acc.angular, ws.shift02);
            Velocity {
                linear: D::vadd(D::vadd(D::vadd(parent_acc.linear, coriolis), centripetal), euler),
                angular: D::aadd_cross(
                    parent_acc.angular,
                    parent_ang,
                    ws.joint_velocity.angular,
                ),
            }
        },
        None => Velocity::zero(),
    };
    let w = ws.rb_vels.angular;
    let centripetal = D::gcross_av(w, D::gcross_av(w, ws.shift23));
    let euler = D::gcross_av(acc.angular, ws.shift23);
    Velocity {
        linear: D::vadd(D::vadd(acc.linear, centripetal), euler),
        angular: acc.angular,
    }
}

pub fn external_force<S: Scalar, D: Space<S>>(
    ws: &MultibodyLinkWorkspace<S, D>,
    lmp: &LocalMassProperties<S, D>,
    acc: Velocity<S, D>,
    g: D::V,
) -> (r: Velocity<S, D>)
    ensures
        r == link_force(*ws, *lmp, acc, g),
{
    let w = ws.rb_vels.angular;
    let inertia = link_world_inertia(ws, lmp);
    let mass = S::one().over(D::vget(lmp.inv_mass, 0));
    let gyroscopic = D::across(w, D::imul(inertia, w));
    Velocity {
        linear: D::vscale(D::vsub(g, acc.linear), mass),
        angular: D::asub(D::aneg(gyroscopic), D::imul(inertia, acc.angular)),
    }
}

/// The jacobian views of the links: link `k` at `jacs[k]`.
pub open spec fn jac_of<S>(jac: Seq<S>, jacs: spec_fn(int) -> MatView) -> spec_fn(
    int,
) -> Seq<Seq<S>> {
    |k: int| mat_of(jac, jacs(k))
}

/// One link of the assembly: publishes its acceleration and adds its force.
pub(crate) fn assemble_link<S: Scalar, D: Space<S>>(
    stat: &[MultibodyLinkStatic<S, D>],
    ws: &mut [MultibodyLinkWorkspace<S, D>],
    lv: VecView,
    jac: &[S],
    jv: MatView,
    tau: &mut [S],
    tv: VecView,
    g: D::V,
    k: usize,
    Ghost(ws0): Ghost<Seq<MultibodyLinkWorkspace<S, D>>>,
)
    requires
        lv.fits(stat@.len() as int),
        lv.fits(old(ws)@.len() as int),
        jv.fits(jac@.len() as int),
        tv.fits(old(tau)@.len() as int),
        k < lv.len,
        jv.nrows == D::dimension_spec().spatial_spec(),
        jv.ncols == tv.len,
        parents_first(vec_of(stat@, lv)),
        ws0.len() == lv.len,
        vec_of(old(ws)@, lv) == accelerated(vec_of(stat@, lv), ws0, k as int),
    ensures
        vec_of(final(ws)@, lv) == accelerated(vec_of(stat@, lv), ws0, k + 1),
        same_outside_vec(old(ws)@, final(ws)@, lv),
        vec_of(final(tau)@, tv) == (if has_mass(vec_of(stat@, lv)[k as int].local_mprops) {
            gemv_tr_spec::<S, D>(
                vec_of(old(tau)@, tv),
                mat_of(jac@, jv),
                link_force(
                    ws0[k as int],
                    vec_of(stat@, lv)[k as int].local_mprops,
                    kin_acc(vec_of(stat@, lv), ws0, k as int),
                    g,
                ),
            )
        } else {
            vec_of(old(tau)@, tv)
        }),
        same_outside_vec(old(tau)@, final(tau)@, tv),
{
    let ghost st = vec_of(stat@, lv);
    let s = vec_get(stat, lv, k);
    let mut w = vec_get(ws, lv, k);
    let parent = if k != 0 {
        let p = vec_get(ws, lv, s.parent_link_id as usize);
        Some((p.kinematic_acc, p.rb_vels.angular))
    } else {
        None
    };
    let acc = kinematic_acceleration(&w, parent);
    assert(acc == kin_acc(st, ws0, k as int));
    w.kinematic_acc = acc;
    vec_set(ws, lv, k, w);
    assert(vec_of(ws@, lv) =~= accelerated(st, ws0, k + 1));
    let lmp = s.local_mprops;
    if !D::vget(lmp.inv_mass, 0).same(S::zero()) {
        let f = external_force(&w, &lmp, acc, g);
        assert(link_world_inertia_spec(w, lmp) == link_world_inertia_spec(ws0[k as int], lmp));
        gemv_tr_spatial_split(tau, tv, jac, jv, f);
    }
}

/// Subtracts damping times velocity from the generalized forces.
pub fn apply_damping<S: Scalar>(
    tau: &mut [S],
    tv: VecView,
    dof: &[S],
    damping: VecView,
    vel: VecView,
)
    requires
        tv.fits(old(tau)@.len() as int),
        damping.fits(dof@.len() as int),
        vel.fits(dof@.len() as int),
        damping.len == tv.len,
        vel.len == tv.len,
    ensures
        vec_of(final(tau)@, tv) == damped(
            vec_of(old(tau)@, tv),
            vec_of(dof@, damping),
            vec_of(dof@, vel),
        ),
        same_outside_vec(old(tau)@, final(tau)@, tv),
{
    let ghost t0 = vec_of(tau@, tv);
    let ghost out = damped(t0, vec_of(dof@, damping), vec_of(dof@, vel));
    let mut i: usize = 0;
    while i < tv.len
        invariant
            tv.fits(old(tau)@.len() as int),
            damping.fits(dof@.len() as int),
            vel.fits(dof@.len() as int),
            damping.len == tv.len,
            vel.len == tv.len,
            i <= tv.len,
            out == damped(t0, vec_of(dof@, damping), vec_of(dof@, vel)),
            t0 == vec_of(old(tau)@, tv),
            same_outside_vec(old(tau)@, tau@, tv),
            forall|j: int|
                0 <= j < tv.len ==> #[trigger] vec_of(tau@, tv)[j] == (if j < i {
                    out[j]
                } else {
                    t0[j]
                }),
        decreases tv.len - i,
    {
        let x = vec_get(tau, tv, i).minus(vec_get(dof, damping, i).times(vec_get(dof, vel, i)));
        vec_set(tau, tv, i, x);
        i = i + 1;
    }
    assert(vec_of(tau@, tv) =~= out);
}

/// Zeroes the viewed entries.
pub fn fill_zero<S: Scalar>(tau: &mut [S], tv: VecView)
    requires
        tv.fits(old(tau)@.len() as int),
    ensures
        vec_of(final(tau)@, tv) == Seq::new(tv.len as nat, |i: int| S::zero_spec()),
        same_outside_vec(old(tau)@, final(tau)@, tv),
{
    let mut i: usize = 0;
    while i < tv.len
        invariant
            tv.fits(old(tau)@.len() as int),
            i <= tv.len,
            same_outside_vec(old(tau)@, tau@, tv),
            forall|j: int| 0 <= j < i ==> #[trigger] vec_of(tau@, tv)[j] == S::zero_spec(),
        decreases tv.len - i,
    {
        vec_set(tau, tv, i, S::zero());
        i = i + 1;
    }
    assert(vec_of(tau@, tv) =~= Seq::new(tv.len as nat, |i: int| S::zero_spec()));
}

} // verus!
