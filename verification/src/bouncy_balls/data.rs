//! Per-entity attributes for the bouncing-ball simulation.
use vstd::prelude::*;

verus! {

/// An RGBA colour; it rides along with an entity and is handed back to the
/// display driver untouched.
#[derive(Clone, Copy, PartialEq, Eq, Structural, Debug)]
pub struct Color {
    pub r: u8,
    pub g: u8,
    pub b: u8,
    pub a: u8,
}

impl Color {
    /// The colour with the given channels.
    pub fn new(r: u8, g: u8, b: u8, a: u8) -> (c: Color)
        ensures
            c == (Color { r, g, b, a }),
    {
        Color { r, g, b, a }
    }
}

/// Characteristics of one entity: its mass and radius in fixed-point
/// thousandths, its colour, and the spatial-grid bucket it was last
/// recorded in.
#[derive(Clone, Copy, PartialEq, Eq, Structural, Debug)]
pub struct Attributes {
    /// Mass in thousandths of a unit; always positive.
    pub mass: i64,
    /// Draw colour.
    pub color: Color,
    /// Radius in thousandths of a unit.
    pub radius: i64,
    /// Index of the spatial-grid bucket this entity was last recorded in.
    pub region: usize,
}

/// An entity's attributes fit a field of `width` × `height`: the mass is
/// positive and the body fits between opposite walls.
pub open spec fn attr_fits(a: Attributes, width: int, height: int) -> bool {
    &&& 1 <= a.mass
    &&& 0 <= a.radius <= 1_000_000
    &&& 2 * a.radius <= width
    &&& 2 * a.radius <= height
}

} // verus!
