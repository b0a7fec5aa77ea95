//! Fixed-point scalars, vectors, quaternions and matrices.

pub mod mat4;
pub mod plane;
pub mod quat;
pub mod scalar;
pub mod vec3;
