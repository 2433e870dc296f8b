//! Contacts between free bodies: constraints, warm starts, sweeps.
pub mod anchor_laws;
pub mod constraint;
pub mod contact_laws;
pub mod fused_laws;
pub mod kernels;
pub mod laws;
pub mod passes;
pub mod push_laws;
pub mod sorting;
pub mod step;
pub mod utils;
pub mod warmstart;
