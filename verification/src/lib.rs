//! Procedural terrain mesh generation with reactive regeneration, and an
//! orbit-camera control model.
//!
//! Scalar quantities that the scene treats as real numbers are carried here
//! as fixed-point integers (see [`fixed`]), so that every computation on them
//! is exact, reproducible, and stated fully in the contracts.

pub mod fixed;
pub mod mesh;
pub mod noise_field;
pub mod orbit_camera;
pub mod terrain;
pub mod vector;
