//! Degrees of freedom packed environment by environment or axis by axis.
use super::integrate::accelerated_by;
use super::solve_constraints::dof_view;
use super::types::MultibodyInfo;
use crate::batch::{BatchIndices, interleaving_is_injective, mbi_spec, room, udiv, umod};
use crate::scalar::Scalar;
use crate::views::{load_vec, same_outside_vec, store_vec, vec_get, vec_of};
use vstd::prelude::*;

verus! {

/// Where entry `k` of an environment-major buffer with `dpb` entries per
/// environment is in a DOF-major buffer.
pub open spec fn packed_at(nb: int, dpb: int, k: int) -> int {
    mbi_spec(nb, k / dpb, k % dpb)
}

proof fn lemma_packed_at(nb: int, dpb: int, k: int)
    requires
        0 < dpb,
        0 <= k < nb * dpb,
    ensures
        0 <= k / dpb < nb,
        0 <= k % dpb < dpb,
        0 <= packed_at(nb, dpb, k) < nb * dpb,
{
    vstd::arithmetic::div_mod::lemma_fundamental_div_mod(k, dpb);
    let q = k / dpb;
    let r = k % dpb;
    assert(0 <= q < nb && 0 <= r * nb + q < nb * dpb) by (nonlinear_arith)
        requires
            k == dpb * q + r,
            0 <= r < dpb,
            0 <= k < nb * dpb,
    ;
}

/// Different entries are at different places.
pub proof fn packing_is_injective(nb: int, dpb: int, k: int, l: int)
    requires
        0 < dpb,
        0 <= k < nb * dpb,
        0 <= l < nb * dpb,
        packed_at(nb, dpb, k) == packed_at(nb, dpb, l),
    ensures
        k == l,
{
    lemma_packed_at(nb, dpb, k);
    lemma_packed_at(nb, dpb, l);
    interleaving_is_injective(nb, k / dpb, k % dpb, l / dpb, l % dpb);
    vstd::arithmetic::div_mod::lemma_fundamental_div_mod(k, dpb);
    vstd::arithmetic::div_mod::lemma_fundamental_div_mod(l, dpb);
}

/// The DOF-major place of entry `k`, where there is such an entry.
fn place(k: u32, num_batches: u32, dpb: u32) -> (r: Option<usize>)
    requires
        num_batches * dpb <= usize::MAX,
    ensures
        match r {
            Some(p) => k < num_batches * dpb && p == packed_at(
                num_batches as int,
                dpb as int,
                k as int,
            ) && p < num_batches * dpb,
            None => k >= num_batches * dpb,
        },
{
    assert(0 <= num_batches * dpb <= 0xffff_ffff * 0xffff_ffff) by (nonlinear_arith)
        requires
            0 <= num_batches <= 0xffff_ffff,
            0 <= dpb <= 0xffff_ffff,
    ;
    if k as u64 >= num_batches as u64 * dpb as u64 {
        return None;
    }
    assert(dpb > 0) by (nonlinear_arith)
        requires
            0 <= k < num_batches * dpb,
            dpb >= 0,
    ;
    proof {
        lemma_packed_at(num_batches as int, dpb as int, k as int);
    }
    let env: u32 = udiv(k, dpb);
    let dof: u32 = umod(k, dpb);
    assert(0 <= dof * num_batches) by (nonlinear_arith)
        requires
            dof >= 0,
            num_batches >= 0,
    ;
    Some(dof as usize * num_batches as usize + env as usize)
}

fn to_packed<S: Scalar>(k: u32, src: &[S], dst: &mut [S], num_batches: u32, dpb: u32)
    requires
        num_batches * dpb <= src@.len(),
        num_batches * dpb <= old(dst)@.len(),
    ensures
        final(dst)@ == (if k < num_batches * dpb {
            old(dst)@.update(packed_at(num_batches as int, dpb as int, k as int), src@[k as int])
        } else {
            old(dst)@
        }),
{
    let n: usize = src.len();
    match place(k, num_batches, dpb) {
        Some(p) => {
            dst[p] = src[k as usize];
        },
        None => {},
    }
}

/// Copies entry `k` of the velocities from environment-major to DOF-major order.
pub fn gpu_mb_transpose_dof_state_to_packed<S: Scalar>(
    k: u32,
    dof_state: &[S],
    dof_state_packed: &mut [S],
    num_batches: u32,
    ids: &BatchIndices,
)
    requires
        num_batches * ids.dof_batch_capacity <= dof_state@.len(),
        num_batches * ids.dof_batch_capacity <= old(dof_state_packed)@.len(),
    ensures
        final(dof_state_packed)@ == (if k < num_batches * ids.dof_batch_capacity {
            old(dof_state_packed)@.update(
                packed_at(num_batches as int, ids.dof_batch_capacity as int, k as int),
                dof_state@[k as int],
            )
        } else {
            old(dof_state_packed)@
        }),
{
    to_packed(k, dof_state, dof_state_packed, num_batches, ids.dof_batch_capacity);
}

/// Copies entry `k` of the velocities back from DOF-major to environment-major
/// order.
pub fn gpu_mb_transpose_dof_state_from_packed<S: Scalar>(
    k: u32,
    dof_state_packed: &[S],
    dof_state: &mut [S],
    num_batches: u32,
    ids: &BatchIndices,
)
    requires
        num_batches * ids.dof_batch_capacity <= dof_state_packed@.len(),
        num_batches * ids.dof_batch_capacity <= old(dof_state)@.len(),
    ensures
        final(dof_state)@ == (if k < num_batches * ids.dof_batch_capacity {
            old(dof_state)@.update(
                k as int,
                dof_state_packed@[packed_at(
                    num_batches as int,
                    ids.dof_batch_capacity as int,
                    k as int,
                )],
            )
        } else {
            old(dof_state)@
        }),
{
    let n: usize = dof_state.len();
    match place(k, num_batches, ids.dof_batch_capacity) {
        Some(p) => {
            dof_state[k as usize] = dof_state_packed[p];
        },
        None => {},
    }
}

/// Copies entry `k` of the generalized forces from environment-major to DOF-major
/// order.
pub fn gpu_mb_transpose_gen_forces_to_packed<S: Scalar>(
    k: u32,
    gen_forces: &[S],
    gen_forces_packed: &mut [S],
    num_batches: u32,
    ids: &BatchIndices,
)
    requires
        num_batches * ids.dof_batch_capacity <= gen_forces@.len(),
        num_batches * ids.dof_batch_capacity <= old(gen_forces_packed)@.len(),
    ensures
        final(gen_forces_packed)@ == (if k < num_batches * ids.dof_batch_capacity {
            old(gen_forces_packed)@.update(
                packed_at(num_batches as int, ids.dof_batch_capacity as int, k as int),
                gen_forces@[k as int],
            )
        } else {
            old(gen_forces_packed)@
        }),
{
    to_packed(k, gen_forces, gen_forces_packed, num_batches, ids.dof_batch_capacity);
}

/// The multibody of environment `env`, or nothing for an environment without
/// one.
pub open spec fn env_multibody(
    ids: BatchIndices,
    env: int,
    num_multibodies: Seq<u32>,
    info: Seq<MultibodyInfo>,
) -> Option<MultibodyInfo> {
    if env < num_multibodies.len() && num_multibodies[env] != 0 {
        Some(info[env * ids.multibodies_batch_capacity])
    } else {
        None
    }
}

/// Advances the velocities of the multibody of environment `env` in the DOF-major
/// buffers: `v += a dt`.
pub fn gpu_mb_integrate_velocities_packed_dof<S: Scalar>(
    env: u32,
    multibody_info: &[MultibodyInfo],
    dof_state_packed: &mut [S],
    gen_forces_packed: &[S],
    num_multibodies: &[u32],
    dt: S,
    ids: &BatchIndices,
)
    requires
        match env_multibody(*ids, env as int, num_multibodies@, multibody_info@) {
            None => true,
            Some(mb) => {
                let nb = ids.num_batches as int;
                &&& env * ids.multibodies_batch_capacity < multibody_info@.len()
                &&& room(
                nb,
                env as int,
                mb.first_dof as int,
                mb.ndofs as int,
                old(dof_state_packed)@.len() as int,
            )
                &&& room(
                nb,
                env as int,
                mb.first_dof as int,
                mb.ndofs as int,
                gen_forces_packed@.len() as int,
            )
            },
        },
    ensures
        match env_multibody(*ids, env as int, num_multibodies@, multibody_info@) {
            None => final(dof_state_packed)@ == old(dof_state_packed)@,
            Some(mb) => {
                let dv = dof_view(*ids, env as int, mb);
                &&& vec_of(final(dof_state_packed)@, dv) == accelerated_by(
                vec_of(old(dof_state_packed)@, dv),
                vec_of(gen_forces_packed@, dv),
                dt,
            )
                &&& same_outside_vec(old(dof_state_packed)@, final(dof_state_packed)@, dv)
            },
        },
{
    let count: usize = num_multibodies.len();
    if env as usize >= count || num_multibodies[env as usize] == 0 {
        return ;
    }
    let total: usize = multibody_info.len();
    assert(0 <= env * ids.multibodies_batch_capacity) by (nonlinear_arith)
        requires
            env >= 0,
            ids.multibodies_batch_capacity >= 0,
    ;
    let mb = multibody_info[env as usize * ids.multibodies_batch_capacity as usize];
    let n: usize = dof_state_packed.len();
    let m: usize = gen_forces_packed.len();
    let dv = ids.ivec(env, mb.first_dof as usize, mb.ndofs as usize, n);
    let av = ids.ivec(env, mb.first_dof as usize, mb.ndofs as usize, m);
    let mut vel: Vec<S> = load_vec(dof_state_packed, dv);
    let ghost v0 = vel@;
    let ghost acc = vec_of(gen_forces_packed@, dv);
    let mut d: usize = 0;
    while d < dv.len
        invariant
            d <= dv.len,
            dv == av,
            av.fits(gen_forces_packed@.len() as int),
            acc == vec_of(gen_forces_packed@, dv),
            vel@.len() == dv.len,
            v0.len() == dv.len,
            forall|j: int|
                0 <= j < dv.len ==> #[trigger] vel@[j] == (if j < d {
                    accelerated_by(v0, acc, dt)[j]
                } else {
                    v0[j]
                }),
        decreases dv.len - d,
    {
        let a = vec_get(gen_forces_packed, av, d);
        let x = vel[d].plus(a.times(dt));
        vel.set(d, x);
        d = d + 1;
    }
    assert(vel@ =~= accelerated_by(v0, acc, dt));
    store_vec(&vel, dof_state_packed, dv);
}

/// A DOF-major buffer after the entries `0..n` of an environment-major buffer have
/// been copied to it.
pub open spec fn packed<T>(src: Seq<T>, dst: Seq<T>, nb: int, dpb: int, n: int) -> Seq<T>
    decreases n,
{
    if n <= 0 {
        dst
    } else {
        packed(src, dst, nb, dpb, n - 1).update(packed_at(nb, dpb, n - 1), src[n - 1])
    }
}

/// An environment-major buffer after its entries `0..n` have been copied from a
/// DOF-major buffer.
pub open spec fn unpacked<T>(src: Seq<T>, dst: Seq<T>, nb: int, dpb: int, n: int) -> Seq<T>
    decreases n,
{
    if n <= 0 {
        dst
    } else {
        unpacked(src, dst, nb, dpb, n - 1).update(n - 1, src[packed_at(nb, dpb, n - 1)])
    }
}

/// Packing the entries of all environments and unpacking them again gives them
/// back, whatever the buffers held before.
pub proof fn transposes_are_inverse<T>(
    src: Seq<T>,
    buf: Seq<T>,
    dst: Seq<T>,
    nb: int,
    dpb: int,
    k: int,
)
    requires
        0 < dpb,
        nb * dpb <= src.len(),
        nb * dpb <= buf.len(),
        nb * dpb <= dst.len(),
        0 <= k < nb * dpb,
    ensures
        unpacked(packed(src, buf, nb, dpb, nb * dpb), dst, nb, dpb, nb * dpb)[k] == src[k],
{
    let p = packed(src, buf, nb, dpb, nb * dpb);
    lemma_packed(src, buf, nb, dpb, nb * dpb, k);
    lemma_unpacked(p, dst, nb, dpb, nb * dpb, k);
}

proof fn lemma_packed<T>(src: Seq<T>, dst: Seq<T>, nb: int, dpb: int, n: int, k: int)
    requires
        0 < dpb,
        n <= nb * dpb <= dst.len(),
        0 <= k < n,
    ensures
        packed(src, dst, nb, dpb, n).len() == dst.len(),
        packed(src, dst, nb, dpb, n)[packed_at(nb, dpb, k)] == src[k],
    decreases n,
{
    lemma_packed_len(src, dst, nb, dpb, n);
    lemma_packed_len(src, dst, nb, dpb, n - 1);
    lemma_packed_at(nb, dpb, n - 1);
    lemma_packed_at(nb, dpb, k);
    if k < n - 1 {
        lemma_packed(src, dst, nb, dpb, n - 1, k);
        if packed_at(nb, dpb, k) == packed_at(nb, dpb, n - 1) {
            packing_is_injective(nb, dpb, k, n - 1);
        }
    }
}

proof fn lemma_packed_len<T>(src: Seq<T>, dst: Seq<T>, nb: int, dpb: int, n: int)
    requires
        0 < dpb,
        n <= nb * dpb <= dst.len(),
    ensures
        packed(src, dst, nb, dpb, n).len() == dst.len(),
    decreases n,
{
    if n > 0 {
        lemma_packed_len(src, dst, nb, dpb, n - 1);
        lemma_packed_at(nb, dpb, n - 1);
    }
}

proof fn lemma_unpacked<T>(src: Seq<T>, dst: Seq<T>, nb: int, dpb: int, n: int, k: int)
    requires
        n <= dst.len(),
        0 <= k < dst.len(),
    ensures
        unpacked(src, dst, nb, dpb, n).len() == dst.len(),
        k < n ==> unpacked(src, dst, nb, dpb, n)[k] == src[packed_at(nb, dpb, k)],
    decreases n,
{
    if n > 0 {
        lemma_unpacked(src, dst, nb, dpb, n - 1, k);
    }
}

} // verus!
