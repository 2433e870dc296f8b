//! Verified rigid-body and multibody dynamics kernels.
pub mod batch;
pub mod columns;
pub mod contact;
pub mod exact;
pub mod fixed;
pub mod joint;
pub mod multibody;
pub mod pad;
pub mod prep_render;
pub mod quaternions;
pub mod real_vectors;
pub mod scalar;
pub mod sim_params;
pub mod solver;
pub mod space;
pub mod threads;
pub mod views;
