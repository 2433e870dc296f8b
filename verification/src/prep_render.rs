//! Poses, shapes and colors of instances for a renderer.
use crate::exact::{exact, lemma_zero};
use crate::multibody::jacobian_laws::vector_value;
use crate::multibody::joint_laws::has_axes;
use crate::real_vectors::r3_scale;
use crate::scalar::Scalar;
use crate::space::{Dim2, Dim3, Pose, Space, V3};
use vstd::prelude::*;

verus! {

/// An instance to draw.
#[derive(Clone, Copy)]
pub struct RbdInstanceDesc<S: Scalar, D: Space<S>> {
    /// Red, green, blue and alpha.
    pub color: [S; 4],
    /// Pose in the frame of the body.
    pub local_pose: Pose<S, D>,
    /// Scale along each axis.
    pub scale: D::V,
    /// The body.
    pub pose_index: u32,
}

/// A buffer with `block` written at entry `base`.
pub open spec fn block_written<S>(buf: Seq<S>, base: int, block: Seq<S>) -> Seq<S> {
    Seq::new(
        buf.len(),
        |g: int|
            if base <= g < base + block.len() {
                block[g - base]
            } else {
                buf[g]
            },
    )
}

/// The components of a vector.
pub open spec fn components<S: Scalar, D: Space<S>>(v: D::V) -> Seq<S> {
    Seq::new(D::dimension_spec().lin_spec() as nat, |k: int| D::vget_spec(v, k))
}

/// The columns of the rotation matrix of `pose`, each scaled.
pub open spec fn deformation<S: Scalar, D: Space<S>>(pose: Pose<S, D>, scale: D::V) -> Seq<S> {
    let dim = D::dimension_spec().lin_spec();
    Seq::new(
        (dim * dim) as nat,
        |k: int|
            D::vget_spec(
                D::vscale_spec(
                    D::raxis_spec(pose.rotation, k / dim),
                    D::vget_spec(scale, k / dim),
                ),
                k % dim,
            ),
    )
}

fn write_vector<S: Scalar, D: Space<S>>(buf: &mut [S], base: usize, v: D::V)
    requires
        base + D::dimension_spec().lin_spec() <= old(buf)@.len(),
    ensures
        final(buf)@ == block_written(old(buf)@, base as int, components::<S, D>(v)),
{
    let ghost b0 = buf@;
    let n: usize = buf.len();
    let dim: usize = D::dimension().lin() as usize;
    let mut k: usize = 0;
    while k < dim
        invariant
            k <= dim,
            dim == D::dimension_spec().lin_spec(),
            n == b0.len(),
            base + dim <= n,
            buf@.len() == b0.len(),
            forall|g: int|
                0 <= g < b0.len() ==> #[trigger] buf@[g] == (if base <= g < base + k {
                    D::vget_spec(v, g - base)
                } else {
                    b0[g]
                }),
        decreases dim - k,
    {
        let x = D::vget(v, k);
        buf[base + k] = x;
        k = k + 1;
    }
    assert(buf@ =~= block_written(b0, base as int, components::<S, D>(v)));
}

/// Writes the position, the deformation and the color of instance `i`.
pub fn gpu_rbd_prep_render<S: Scalar, D: Space<S>>(
    i: u32,
    positions: &mut [S],
    deformations: &mut [S],
    colors: &mut [S],
    body_poses: &[Pose<S, D>],
    descriptors: &[RbdInstanceDesc<S, D>],
    count: u32,
)
    requires
        i < count ==> {
            let dim = D::dimension_spec().lin_spec();
            &&& i < descriptors@.len()
            &&& descriptors@[i as int].pose_index < body_poses@.len()
            &&& i * dim + dim <= old(positions)@.len()
            &&& i * (dim * dim) + dim * dim <= old(deformations)@.len()
            &&& i * 4 + 4 <= old(colors)@.len()
        },
    ensures
        ({
            let dim = D::dimension_spec().lin_spec();
            let desc = descriptors@[i as int];
            let pose = body_poses@[desc.pose_index as int].after_spec(desc.local_pose);
            if i < count {
                &&& final(positions)@ == block_written(
                    old(positions)@,
                    i * dim,
                    components::<S, D>(pose.translation),
                )
                &&& final(deformations)@ == block_written(
                    old(deformations)@,
                    i * (dim * dim),
                    deformation(pose, desc.scale),
                )
                &&& final(colors)@ == block_written(old(colors)@, i * 4, desc.color@)
            } else {
                &&& final(positions)@ == old(positions)@
                &&& final(deformations)@ == old(deformations)@
                &&& final(colors)@ == old(colors)@
            }
        }),
{
    if i >= count {
        return ;
    }
    let desc = descriptors[i as usize];
    let pose = body_poses[desc.pose_index as usize].after(desc.local_pose);
    let dim: usize = D::dimension().lin() as usize;
    let np: usize = positions.len();
    let nd: usize = deformations.len();
    let nc: usize = colors.len();
    assert(0 <= i * dim && 0 <= i * (dim * dim)) by (nonlinear_arith)
        requires
            i >= 0,
            dim >= 0,
    ;
    assert(dim * dim <= 9) by (nonlinear_arith)
        requires
            0 <= dim <= 3,
    ;
    write_vector::<S, D>(positions, i as usize * dim, pose.translation);
    let base: usize = i as usize * (dim * dim);
    let ghost d0 = deformations@;
    let ghost block = deformation(pose, desc.scale);
    let mut c: usize = 0;
    while c < dim
        invariant
            c <= dim,
            dim == D::dimension_spec().lin_spec(),
            2 <= dim <= 3,
            nd == d0.len(),
            base + dim * dim <= nd,
            deformations@.len() == d0.len(),
            block == deformation(pose, desc.scale),
            deformations@ == block_written(d0, base as int, block.take(c * dim)),
            block.len() == dim * dim,
        decreases dim - c,
    {
        assert(c * dim + dim <= dim * dim) by (nonlinear_arith)
            requires
                0 <= c < dim,
        ;
        let col = D::vscale(D::raxis(pose.rotation, c), D::vget(desc.scale, c));
        let ghost before = deformations@;
        write_vector::<S, D>(deformations, base + c * dim, col);
        proof {
            assert((c + 1) * dim == c * dim + dim) by (nonlinear_arith);
            let next = block.take((c + 1) * dim);
            assert forall|g: int| 0 <= g < d0.len() implies #[trigger] deformations@[g]
                == block_written(d0, base as int, next)[g] by {
                let k = g - base;
                if c * dim <= k < c * dim + dim {
                    assert(k / (dim as int) == c && k % (dim as int) == k - c * dim) by (
                    nonlinear_arith)
                        requires
                            c * dim <= k < c * dim + dim,
                            dim > 0,
                    ;
                }
            }
            assert(deformations@ =~= block_written(d0, base as int, next));
        }
        c = c + 1;
    }
    assert(block.take(dim * dim) =~= block);
    let cb: usize = i as usize * 4;
    let ghost c0 = colors@;
    colors[cb] = desc.color[0];
    colors[cb + 1] = desc.color[1];
    colors[cb + 2] = desc.color[2];
    colors[cb + 3] = desc.color[3];
    assert(colors@ =~= block_written(c0, i * 4, desc.color@));
}

/// In exact arithmetic, column `k` of the deformation of an instance of the plane is the image
/// of axis `k` under the rotation, `scale[k]` times as long.
pub proof fn plane_deformations_stretch_the_axes<S: Scalar>(
    v: spec_fn(S) -> real,
    pose: Pose<S, Dim2>,
    scale: <Dim2 as Space<S>>::V,
    k: int,
)
    requires
        exact(v),
        has_axes::<S, Dim2>(v, pose.rotation),
        0 <= k < 2,
    ensures
        ({
            let m = deformation(pose, scale);
            let axis = <Dim2 as Space<S>>::vaxis_spec(k, S::one_spec());
            (V3 { x: v(m[k * 2]), y: v(m[k * 2 + 1]), z: 0real }) == r3_scale(
                vector_value::<S, Dim2>(v, <Dim2 as Space<S>>::rapply_spec(pose.rotation, axis)),
                v(<Dim2 as Space<S>>::vget_spec(scale, k)),
            )
        }),
{
    let s = <Dim2 as Space<S>>::vget_spec(scale, k);
    let r = <Dim2 as Space<S>>::raxis_spec(pose.rotation, k);
    let axis = <Dim2 as Space<S>>::vaxis_spec(k, S::one_spec());
    assert(vector_value::<S, Dim2>(v, r) == vector_value::<S, Dim2>(
        v,
        <Dim2 as Space<S>>::rapply_spec(pose.rotation, axis),
    ));
    lemma_zero(v(s));
    assert((k * 2 + 0) / 2 == k && (k * 2 + 0) % 2 == 0);
    assert((k * 2 + 1) / 2 == k && (k * 2 + 1) % 2 == 1);
}

/// In exact arithmetic, column `k` of the deformation of an instance of space is the image
/// of axis `k` under the rotation, `scale[k]` times as long.
pub proof fn space_deformations_stretch_the_axes<S: Scalar>(
    v: spec_fn(S) -> real,
    pose: Pose<S, Dim3>,
    scale: <Dim3 as Space<S>>::V,
    k: int,
)
    requires
        exact(v),
        has_axes::<S, Dim3>(v, pose.rotation),
        0 <= k < 3,
    ensures
        ({
            let m = deformation(pose, scale);
            let axis = <Dim3 as Space<S>>::vaxis_spec(k, S::one_spec());
            (V3 { x: v(m[k * 3]), y: v(m[k * 3 + 1]), z: v(m[k * 3 + 2]) }) == r3_scale(
                vector_value::<S, Dim3>(v, <Dim3 as Space<S>>::rapply_spec(pose.rotation, axis)),
                v(<Dim3 as Space<S>>::vget_spec(scale, k)),
            )
        }),
{
    let s = <Dim3 as Space<S>>::vget_spec(scale, k);
    let r = <Dim3 as Space<S>>::raxis_spec(pose.rotation, k);
    let axis = <Dim3 as Space<S>>::vaxis_spec(k, S::one_spec());
    assert(vector_value::<S, Dim3>(v, r) == vector_value::<S, Dim3>(
        v,
        <Dim3 as Space<S>>::rapply_spec(pose.rotation, axis),
    ));
    lemma_zero(v(s));
    assert((k * 3 + 0) / 3 == k && (k * 3 + 0) % 3 == 0);
    assert((k * 3 + 1) / 3 == k && (k * 3 + 1) % 3 == 1);
    assert((k * 3 + 2) / 3 == k && (k * 3 + 2) % 3 == 2);
}

} // verus!
