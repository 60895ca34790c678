//! Process-wide parameters and per-entity attributes of the smart-rockets
//! search.
use vstd::prelude::*;
use crate::bouncy_balls::data::Color;
use crate::vec2::{in_box, Vec2, COORD_LIMIT};

verus! {

/// Simulation-wide parameters: the field, the reset pose, the target the
/// agents evolve toward, the mutation probability as a fraction, and the
/// generation-complete flag.
#[derive(Clone, Copy, PartialEq, Eq, Structural, Debug)]
pub struct World {
    /// Field width in fixed-point thousandths.
    pub width: i64,
    /// Field height in fixed-point thousandths.
    pub height: i64,
    /// Position every agent is reset to when a generation begins.
    pub default_pos: Vec2,
    /// Velocity every agent is reset to when a generation begins.
    pub default_vel: Vec2,
    /// The point fitness is measured against.
    pub target_pos: Vec2,
    /// Mutation probability numerator: an offspring mutates with chance
    /// `mutation_num / mutation_den`.
    pub mutation_num: u32,
    /// Mutation probability denominator; positive.
    pub mutation_den: u32,
    /// Set by the driver when the running generation has spent its moves.
    pub gen_done: bool,
}

/// The world's parameters are usable: a positive field within the
/// fixed-point range, poses within it, and a well-formed mutation fraction.
pub open spec fn world_fits(w: World) -> bool {
    &&& 1 <= w.width <= COORD_LIMIT
    &&& 1 <= w.height <= COORD_LIMIT
    &&& in_box(w.default_pos, COORD_LIMIT as int)
    &&& in_box(w.default_vel, COORD_LIMIT as int)
    &&& in_box(w.target_pos, COORD_LIMIT as int)
    &&& 1 <= w.mutation_den
    &&& w.mutation_num <= w.mutation_den
}

/// Characteristics of one agent: its radius in fixed-point thousandths and
/// its draw colour.
#[derive(Clone, Copy, PartialEq, Eq, Structural, Debug)]
pub struct Attributes {
    /// Radius in thousandths of a unit.
    pub radius: i64,
    /// Draw colour.
    pub color: Color,
}

} // verus!
