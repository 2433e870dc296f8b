//! Contacts found by the collision detection.
use crate::scalar::Scalar;
use crate::space::Space;
use vstd::prelude::*;

verus! {

/// One point of a contact manifold, in the frame of the first collider.
#[derive(Clone, Copy)]
pub struct ContactPoint<S: Scalar, D: Space<S>> {
    pub pt: D::V,
    /// Signed distance; negative for a penetration.
    pub dist: S,
}

/// The points in which two colliders touch.
#[derive(Clone, Copy)]
pub struct ContactManifold<S: Scalar, D: Space<S>> {
    /// Contact normal, in the frame of the first collider.
    pub normal_a: D::V,
    pub points_a: [ContactPoint<S, D>; 4],
    /// Number of points in use.
    pub len: u32,
}

/// A contact manifold and what it touches.
#[derive(Clone, Copy)]
pub struct IndexedManifold<S: Scalar, D: Space<S>> {
    pub contact: ContactManifold<S, D>,
    pub colliders: [u32; 2],
    /// The bodies that the colliders belong to.
    pub bodies: [u32; 2],
    pub friction: S,
}

} // verus!
