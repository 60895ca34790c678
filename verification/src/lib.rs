//! A verified entity-component simulation core for 2D particle and agent
//! demos: an entity registry with per-component stores, a spatial grid that
//! bounds collision-candidate search, integration / boundary / collision /
//! lifecycle systems over those stores, and a genetic selection loop that
//! evolves per-agent move sequences toward a target.
//!
//! Coordinates, velocities and masses are fixed-point integers carrying
//! thousandths of a unit, so every system's arithmetic is exact and proved
//! free of overflow.
#![verifier::loop_isolation(false)]
use vstd::prelude::*;

pub mod bouncy_balls;
pub mod entity;
pub mod grid;
pub mod math;
pub mod noc;
pub mod smart_rockets;
pub mod store;
pub mod vec2;

verus! {

/// Number of fixed-point steps that stand for one unit of length or mass.
pub const SCALE: i64 = 1000;

} // verus!
