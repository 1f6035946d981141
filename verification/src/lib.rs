//! Gammaton-based surface weathering simulation: fixed-point geometry
//! primitives, an octree spatial index for nearest-ray queries, a surfel
//! surface model with spherical range queries, and the particle-tracing
//! transport engine that moves substances between particles and surfels.
//!
//! All scalar quantities (coordinates, probabilities, substance amounts)
//! are fixed-point numbers: an `i64` holding the value times [`fx::SCALE`].

use vstd::prelude::*;

pub mod aabb;
pub mod fx;
pub mod octree;
pub mod rng;
pub mod sim;
pub mod surf;
pub mod tri;
pub mod vec3;
pub mod vtx;

verus! {

} // verus!
