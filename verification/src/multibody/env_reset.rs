//! Putting environments back to a stored state.
//!
//! A stored state lists the entries of one environment in order; the buffers of
//! the simulation interleave the environments.
use super::types::{MultibodyLinkStatic, MultibodyLinkWorkspace};
use crate::batch::{interleaving_is_injective, ivec_spec, mbi_spec, room};
use crate::scalar::Scalar;
use crate::space::{Dimension, Pose, Space, Velocity};
use crate::views::vec_of;
use vstd::prelude::*;

verus! {

/// Sizes of a stored state.
#[derive(Clone, Copy)]
pub struct ResetSizes {
    pub num_batches: u32,
    pub links_per_batch: u32,
    pub dofs_per_batch: u32,
    pub num_resets: u32,
}

/// Which environment to put back, and to which stored state.
#[derive(Clone, Copy)]
pub struct EnvReset {
    pub env: u32,
    pub template: u32,
}

fn interleaved(i: u32, nb: u32, env: u32, n: usize) -> (r: usize)
    requires
        mbi_spec(nb as int, env as int, i as int) < n,
    ensures
        r == mbi_spec(nb as int, env as int, i as int),
{
    assert(0 <= i * nb) by (nonlinear_arith)
        requires
            i >= 0,
            nb >= 0,
    ;
    i as usize * nb as usize + env as usize
}

/// Copies entry `i` of a stored state to environment `env`. `staging_dofs` holds
/// the generalized coordinates, then the generalized velocities; the sections of
/// `dof_state` after the velocities are configuration and stay.
pub fn gpu_mb_env_reset<S: Scalar, D: Space<S>>(
    i: u32,
    staging_ws: &[MultibodyLinkWorkspace<S, D>],
    staging_links: &[MultibodyLinkStatic<S, D>],
    staging_dofs: &[S],
    links_workspace: &mut [MultibodyLinkWorkspace<S, D>],
    links_static: &mut [MultibodyLinkStatic<S, D>],
    dof_values: &mut [S],
    dof_state: &mut [S],
    env: u32,
    sizes: &ResetSizes,
)
    requires
        ({
            let g = mbi_spec(sizes.num_batches as int, env as int, i as int);
            &&& i < sizes.links_per_batch ==> {
                &&& i < staging_ws@.len()
                &&& i < staging_links@.len()
                &&& g < old(links_workspace)@.len()
                &&& g < old(links_static)@.len()
            }
            &&& i < sizes.dofs_per_batch ==> {
                &&& sizes.dofs_per_batch + i < staging_dofs@.len()
                &&& g < old(dof_values)@.len()
                &&& g < old(dof_state)@.len()
            }
        }),
    ensures
        ({
            let g = mbi_spec(sizes.num_batches as int, env as int, i as int);
            let link = i < sizes.links_per_batch;
            let dof = i < sizes.dofs_per_batch;
            &&& final(links_workspace)@ == (if link {
                old(links_workspace)@.update(g, staging_ws@[i as int])
            } else {
                old(links_workspace)@
            })
            &&& final(links_static)@ == (if link {
                old(links_static)@.update(g, staging_links@[i as int])
            } else {
                old(links_static)@
            })
            &&& final(dof_values)@ == (if dof {
                old(dof_values)@.update(g, staging_dofs@[i as int])
            } else {
                old(dof_values)@
            })
            &&& final(dof_state)@ == (if dof {
                old(dof_state)@.update(g, staging_dofs@[sizes.dofs_per_batch + i])
            } else {
                old(dof_state)@
            })
        }),
{
    if i < sizes.links_per_batch {
        let n: usize = links_workspace.len();
        let m: usize = links_static.len();
        let g: usize = interleaved(i, sizes.num_batches, env, n);
        links_workspace[g] = staging_ws[i as usize];
        links_static[g] = staging_links[i as usize];
    }
    if i < sizes.dofs_per_batch {
        let n: usize = dof_values.len();
        let m: usize = staging_dofs.len();
        let g: usize = interleaved(i, sizes.num_batches, env, n);
        dof_values[g] = staging_dofs[i as usize];
        dof_state[g] = staging_dofs[sizes.dofs_per_batch as usize + i as usize];
    }
}

/// Bit of a link's flags: a link of a multibody with a free root.
pub const LINK_OF_FREE_ROOT: u32 = 1;

/// Bit of a link's flags: the free root itself.
pub const FREE_ROOT: u32 = 2;

/// `w1` is the stored workspace `w0` of a link, moved by `off`: its pose, and for
/// a free root also its pose relative to the world and its linear coordinates.
pub open spec fn teleported<S: Scalar, D: Space<S>>(
    w0: MultibodyLinkWorkspace<S, D>,
    flags: u32,
    off: D::V,
    w1: MultibodyLinkWorkspace<S, D>,
) -> bool {
    let root = flags & FREE_ROOT != 0;
    let moved = |p: Pose<S, D>|
        Pose { rotation: p.rotation, translation: D::vadd_spec(p.translation, off) };
    &&& w1.coords@ == Seq::new(
        6,
        |k: int|
            if root && k < D::dimension_spec().lin_spec() {
                w0.coords@[k].plus_spec(D::vget_spec(off, k))
            } else {
                w0.coords@[k]
            },
    )
    &&& w1 == (MultibodyLinkWorkspace {
        coords: w1.coords,
        local_to_world: if flags & LINK_OF_FREE_ROOT != 0 {
            moved(w0.local_to_world)
        } else {
            w0.local_to_world
        },
        local_to_parent: if root {
            moved(w0.local_to_parent)
        } else {
            w0.local_to_parent
        },
        ..w0
    })
}

fn teleport<S: Scalar, D: Space<S>>(
    w: &mut MultibodyLinkWorkspace<S, D>,
    flags: u32,
    off: D::V,
)
    ensures
        teleported(*old(w), flags, off, *final(w)),
{
    let ghost w0 = *w;
    if flags & LINK_OF_FREE_ROOT != 0 {
        w.local_to_world.translation = D::vadd(w.local_to_world.translation, off);
    }
    if flags & FREE_ROOT != 0 {
        w.local_to_parent.translation = D::vadd(w.local_to_parent.translation, off);
        let x = w.coords[0].plus(D::vget(off, 0));
        let y = w.coords[1].plus(D::vget(off, 1));
        w.coords[0] = x;
        w.coords[1] = y;
        match D::dimension() {
            Dimension::Two => {},
            Dimension::Three => {
                let z = w.coords[2].plus(D::vget(off, 2));
                w.coords[2] = z;
            },
        }
    }
    assert(w.coords@ =~= Seq::new(
        6,
        |k: int|
            if flags & FREE_ROOT != 0 && k < D::dimension_spec().lin_spec() {
                w0.coords@[k].plus_spec(D::vget_spec(off, k))
            } else {
                w0.coords@[k]
            },
    ));
}

/// Copies entry `i` of the state that reset `r` asks for to its environment, moved
/// by the offset of the reset. The velocities come from `dof_vels`, one set per
/// reset.
pub fn gpu_mb_env_reset_batch<S: Scalar, D: Space<S>>(
    i: u32,
    r: u32,
    templates_ws: &[MultibodyLinkWorkspace<S, D>],
    templates_links: &[MultibodyLinkStatic<S, D>],
    templates_dofs: &[S],
    link_flags: &[u32],
    resets: &[EnvReset],
    offsets: &[D::V],
    dof_vels: &[S],
    links_workspace: &mut [MultibodyLinkWorkspace<S, D>],
    links_static: &mut [MultibodyLinkStatic<S, D>],
    dof_values: &mut [S],
    dof_state: &mut [S],
    sizes: &ResetSizes,
)
    requires
        r < sizes.num_resets ==> {
            let lpb = sizes.links_per_batch as int;
            let dpb = sizes.dofs_per_batch as int;
            let t = resets@[r as int].template as int;
            let g = mbi_spec(
                sizes.num_batches as int,
                resets@[r as int].env as int,
                i as int,
            );
            &&& r < resets@.len()
            &&& r < offsets@.len()
            &&& i < lpb ==> {
                &&& i < link_flags@.len()
                &&& t * lpb + i < templates_ws@.len()
                &&& t * lpb + i < templates_links@.len()
                &&& g < old(links_workspace)@.len()
                &&& g < old(links_static)@.len()
            }
            &&& i < dpb ==> {
                &&& t * (2 * dpb) + i < templates_dofs@.len()
                &&& r * dpb + i < dof_vels@.len()
                &&& g < old(dof_values)@.len()
                &&& g < old(dof_state)@.len()
            }
        },
    ensures
        ({
            let lpb = sizes.links_per_batch as int;
            let dpb = sizes.dofs_per_batch as int;
            let t = resets@[r as int].template as int;
            let g = mbi_spec(
                sizes.num_batches as int,
                resets@[r as int].env as int,
                i as int,
            );
            let link = r < sizes.num_resets && i < lpb;
            let dof = r < sizes.num_resets && i < dpb;
            &&& final(links_workspace)@ == (if link {
                old(links_workspace)@.update(g, final(links_workspace)@[g])
            } else {
                old(links_workspace)@
            })
            &&& link ==> teleported(
                templates_ws@[t * lpb + i],
                link_flags@[i as int],
                offsets@[r as int],
                final(links_workspace)@[g],
            )
            &&& final(links_static)@ == (if link {
                old(links_static)@.update(g, templates_links@[t * lpb + i])
            } else {
                old(links_static)@
            })
            &&& final(dof_values)@ == (if dof {
                old(dof_values)@.update(g, templates_dofs@[t * (2 * dpb) + i])
            } else {
                old(dof_values)@
            })
            &&& final(dof_state)@ == (if dof {
                old(dof_state)@.update(g, dof_vels@[r * dpb + i])
            } else {
                old(dof_state)@
            })
        }),
{
    if r >= sizes.num_resets {
        return ;
    }
    let reset = resets[r as usize];
    let off = offsets[r as usize];
    let t: u32 = reset.template;
    if i < sizes.links_per_batch {
        let n: usize = links_workspace.len();
        let m: usize = templates_ws.len();
        let g: usize = interleaved(i, sizes.num_batches, reset.env, n);
        let k: usize = entry(t, sizes.links_per_batch as usize, i, m);
        let mut w = templates_ws[k];
        teleport(&mut w, link_flags[i as usize], off);
        links_workspace[g] = w;
        links_static[g] = templates_links[k];
        assert(links_workspace@ =~= old(links_workspace)@.update(g as int, links_workspace@[g as int]));
    }
    if i < sizes.dofs_per_batch {
        let n: usize = dof_values.len();
        let m: usize = templates_dofs.len();
        let q: usize = dof_vels.len();
        let g: usize = interleaved(i, sizes.num_batches, reset.env, n);
        let k: usize = if t == 0 {
            assert(t * (2 * sizes.dofs_per_batch) == 0) by (nonlinear_arith)
                requires
                    t == 0,
            ;
            i as usize
        } else {
            assert(2 * sizes.dofs_per_batch <= t * (2 * sizes.dofs_per_batch)) by (nonlinear_arith)
                requires
                    t >= 1,
                    sizes.dofs_per_batch >= 0,
            ;
            entry(t, 2 * sizes.dofs_per_batch as usize, i, m)
        };
        let l: usize = entry(r, sizes.dofs_per_batch as usize, i, q);
        dof_values[g] = templates_dofs[k];
        dof_state[g] = dof_vels[l];
    }
}

/// Position of entry `i` of block `t` in a list of blocks of `size` entries.
fn entry(t: u32, size: usize, i: u32, n: usize) -> (r: usize)
    requires
        t * size + i < n,
    ensures
        r == t * size + i,
{
    assert(0 <= t * size) by (nonlinear_arith)
        requires
            t >= 0,
            size >= 0,
    ;
    t as usize * size + i as usize
}

/// A stored pose, moved by `off` if the body is masked.
pub open spec fn masked_pose<S: Scalar, D: Space<S>>(
    p: Pose<S, D>,
    mask: u32,
    off: D::V,
) -> Pose<S, D> {
    if mask != 0 {
        Pose { rotation: p.rotation, translation: D::vadd_spec(p.translation, off) }
    } else {
        p
    }
}

/// Copies the pose and the velocity of body `i` of the state that reset `r` asks
/// for to its environment. Masked bodies move by the offset of the reset.
pub fn gpu_env_reset_bodies<S: Scalar, D: Space<S>>(
    i: u32,
    r: u32,
    templates_poses: &[Pose<S, D>],
    templates_vels: &[Velocity<S, D>],
    body_mask: &[u32],
    resets: &[EnvReset],
    offsets: &[D::V],
    body_poses: &mut [Pose<S, D>],
    vels: &mut [Velocity<S, D>],
    bodies_per_env: u32,
    vels_per_env: u32,
    num_resets: u32,
)
    requires
        r < num_resets ==> {
            let env = resets@[r as int].env as int;
            let t = resets@[r as int].template as int;
            &&& r < resets@.len()
            &&& r < offsets@.len()
            &&& i < bodies_per_env ==> {
                &&& i < body_mask@.len()
                &&& t * bodies_per_env + i < templates_poses@.len()
                &&& env * bodies_per_env + i < old(body_poses)@.len()
            }
            &&& i < vels_per_env ==> {
                &&& t * vels_per_env + i < templates_vels@.len()
                &&& env * vels_per_env + i < old(vels)@.len()
            }
        },
    ensures
        ({
            let env = resets@[r as int].env as int;
            let t = resets@[r as int].template as int;
            &&& final(body_poses)@ == (if r < num_resets && i < bodies_per_env {
                old(body_poses)@.update(
                    env * bodies_per_env + i,
                    masked_pose(
                        templates_poses@[t * bodies_per_env + i],
                        body_mask@[i as int],
                        offsets@[r as int],
                    ),
                )
            } else {
                old(body_poses)@
            })
            &&& final(vels)@ == (if r < num_resets && i < vels_per_env {
                old(vels)@.update(
                    env * vels_per_env + i,
                    templates_vels@[t * vels_per_env + i],
                )
            } else {
                old(vels)@
            })
        }),
{
    if r >= num_resets {
        return ;
    }
    let reset = resets[r as usize];
    let off = offsets[r as usize];
    if i < bodies_per_env {
        let n: usize = body_poses.len();
        let m: usize = templates_poses.len();
        let g: usize = entry(reset.env, bodies_per_env as usize, i, n);
        let mut p = templates_poses[entry(reset.template, bodies_per_env as usize, i, m)];
        if body_mask[i as usize] != 0 {
            p.translation = D::vadd(p.translation, off);
        }
        body_poses[g] = p;
    }
    if i < vels_per_env {
        let n: usize = vels.len();
        let m: usize = templates_vels.len();
        let g: usize = entry(reset.env, vels_per_env as usize, i, n);
        vels[g] = templates_vels[entry(reset.template, vels_per_env as usize, i, m)];
    }
}

/// A buffer after entries `0..n` of `src` have been written to environment `env`.
pub open spec fn scattered<T>(buf: Seq<T>, src: Seq<T>, nb: int, env: int, n: int) -> Seq<T>
    decreases n,
{
    if n <= 0 {
        buf
    } else {
        scattered(buf, src, nb, env, n - 1).update(mbi_spec(nb, env, n - 1), src[n - 1])
    }
}

/// Writing all entries of a stored state puts the environment into that state
/// and leaves every other environment alone.
pub proof fn reset_restores_one_environment<T>(
    buf: Seq<T>,
    src: Seq<T>,
    nb: int,
    env: int,
    n: int,
)
    requires
        0 <= n <= src.len(),
        room(nb, env, 0, n, buf.len() as int),
    ensures
        scattered(buf, src, nb, env, n).len() == buf.len(),
        vec_of(scattered(buf, src, nb, env, n), ivec_spec(nb, env, 0, n)) == src.take(n),
        forall|e: int, i: int|
            0 <= e < nb && e != env && 0 <= i && mbi_spec(nb, e, i) < buf.len()
                ==> #[trigger] scattered(buf, src, nb, env, n)[mbi_spec(nb, e, i)] == buf[mbi_spec(
                nb,
                e,
                i,
            )],
{
    lemma_scattered(buf, src, nb, env, n);
    let out = scattered(buf, src, nb, env, n);
    let v = ivec_spec(nb, env, 0, n);
    if n > 0 {
        assert(nb <= n * nb) by (nonlinear_arith)
            requires
                n >= 1,
                nb >= 0,
        ;
        crate::batch::lemma_ivec_fits(nb, env, 0, n, buf.len() as int);
    }
    assert(vec_of(out, v) =~= src.take(n)) by {
        assert forall|i: int| 0 <= i < v.len implies #[trigger] vec_of(out, v)[i] == src[i] by {
            v.lemma_idx(buf.len() as int, i);
            assert(0 * nb == 0) by (nonlinear_arith);
            assert(v.idx_spec(i) == mbi_spec(nb, env, i));
        }
    }
    assert forall|e: int, i: int|
        0 <= e < nb && e != env && 0 <= i && mbi_spec(nb, e, i) < buf.len() implies
        #[trigger] out[mbi_spec(nb, e, i)] == buf[mbi_spec(nb, e, i)] by {
        assert(0 <= i * nb) by (nonlinear_arith)
            requires
                i >= 0,
                nb >= 0,
        ;
    }
}

proof fn lemma_scattered<T>(buf: Seq<T>, src: Seq<T>, nb: int, env: int, n: int)
    requires
        0 <= env < nb,
        n * nb <= buf.len(),
    ensures
        scattered(buf, src, nb, env, n).len() == buf.len(),
        forall|i: int|
            0 <= i < n ==> scattered(buf, src, nb, env, n)[#[trigger] mbi_spec(nb, env, i)]
                == src[i],
        forall|e: int, i: int|
            0 <= e < nb && e != env && 0 <= mbi_spec(nb, e, i) < buf.len() ==> scattered(
                buf,
                src,
                nb,
                env,
                n,
            )[#[trigger] mbi_spec(nb, e, i)] == buf[mbi_spec(nb, e, i)],
    decreases n,
{
    if n > 0 {
        assert((n - 1) * nb + nb == n * nb) by (nonlinear_arith);
        assert(0 <= (n - 1) * nb) by (nonlinear_arith)
            requires
                n >= 1,
                nb >= 0,
        ;
        lemma_scattered(buf, src, nb, env, n - 1);
        let g = mbi_spec(nb, env, n - 1);
        let p = scattered(buf, src, nb, env, n - 1);
        let q = scattered(buf, src, nb, env, n);
        assert forall|i: int| 0 <= i < n implies q[#[trigger] mbi_spec(nb, env, i)] == src[i] by {
            if i < n - 1 {
                if mbi_spec(nb, env, i) == g {
                    interleaving_is_injective(nb, env, i, env, n - 1);
                }
                assert(0 <= i * nb <= (n - 1) * nb) by (nonlinear_arith)
                    requires
                        0 <= i <= n - 1,
                        nb >= 0,
                ;
            }
        }
        assert forall|e: int, i: int|
            0 <= e < nb && e != env && 0 <= mbi_spec(nb, e, i) < buf.len() implies q[#[trigger] mbi_spec(
            nb,
            e,
            i,
        )] == buf[mbi_spec(nb, e, i)] by {
            if mbi_spec(nb, e, i) == g {
                interleaving_is_injective(nb, e, i, env, n - 1);
            }
        }
    }
}

} // verus!
