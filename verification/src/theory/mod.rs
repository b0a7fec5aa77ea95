//! Theorems about the simulation and the transform hierarchy.

pub mod center;
pub mod decomposition;
pub mod hierarchy;
pub mod planes;
pub mod rest;
pub mod rods;
pub mod trajectory;
