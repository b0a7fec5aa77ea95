//! Deformable bodies and a transform hierarchy for an entity-component engine.
//!
//! A body is a handful of point masses held together by rods and kept out of
//! planes. Each fixed time step integrates the particles by Position Verlet,
//! relaxes the constraints a fixed number of times and writes the center of
//! the body into the transform of its entity. Transforms form a forest; their
//! world-space values are cached and rebuilt on demand, parent before child.
//!
//! All numbers are fixed-point with 32 fractional bits, and all arithmetic
//! saturates. A step is therefore a function of the state alone: it gives the
//! same result on every machine, and no state makes it overflow.
//!
//! - [`alg`]: scalars, vectors, quaternions, matrices and planes.
//! - [`entity`]: entity handles.
//! - [`components`]: the transform manager and the body manager.
//! - [`theory`]: what is proved of them beyond the contracts of their
//!   functions: rods converge, planes clear, rest is kept, the center is the
//!   mean, and world matrices compose down the hierarchy.

pub mod alg;
pub mod components;
pub mod entity;
pub mod theory;

use vstd::prelude::*;

verus! {

/// The raw value of the fixed time step of the simulation: a sixtieth of a
/// second, rounded down to a raw unit of a scalar.
pub const FIXED_DT_RAW: i64 = 71582788;

} // verus!
