//! Plane vectors over fixed-point scalars: positions, velocities and
//! accelerations all use this one type.
use vstd::prelude::*;
use crate::math::{
    clamp_i64, clamp_spec, is_isqrt, isqrt, isqrt_spec, mul_ratio, mul_ratio_spec, RATIO_LIMIT,
};

verus! {

/// Largest magnitude a coordinate or a velocity component may carry: with
/// both axes at this bound, a squared distance still fits in `i64`.
pub const COORD_LIMIT: i64 = 1_000_000_000;

/// A plane vector in fixed-point thousandths.
#[derive(Clone, Copy, PartialEq, Eq, Structural, Debug)]
pub struct Vec2 {
    pub x: i64,
    pub y: i64,
}

/// Both components of `v` lie within `[-b, b]`.
pub open spec fn in_box(v: Vec2, b: int) -> bool {
    &&& -b <= v.x <= b
    &&& -b <= v.y <= b
}

/// Squared distance between two points, as a mathematical integer.
pub open spec fn dist_sq_spec(a: Vec2, b: Vec2) -> int {
    (a.x - b.x) * (a.x - b.x) + (a.y - b.y) * (a.y - b.y)
}

/// Squared magnitude of `v`.
pub open spec fn mag_sq_spec(v: Vec2) -> int {
    v.x * v.x + v.y * v.y
}

/// Magnitude of `v`, rounded down.
pub open spec fn mag_spec(v: Vec2) -> int {
    isqrt_spec(mag_sq_spec(v))
}

impl Vec2 {
    /// The vector `(x, y)`.
    pub fn new(x: i64, y: i64) -> (r: Vec2)
        ensures
            r.x == x,
            r.y == y,
    {
        Vec2 { x, y }
    }

    /// The zero vector.
    pub fn zero() -> (r: Vec2)
        ensures
            r.x == 0,
            r.y == 0,
    {
        Vec2 { x: 0, y: 0 }
    }

    /// Adds `other` to `self`, component by component.
    pub fn add(&mut self, other: &Vec2)
        requires
            old(self).x + other.x <= i64::MAX,
            old(self).x + other.x >= i64::MIN,
            old(self).y + other.y <= i64::MAX,
            old(self).y + other.y >= i64::MIN,
        ensures
            final(self).x == old(self).x + other.x,
            final(self).y == old(self).y + other.y,
    {
        self.x = self.x + other.x;
        self.y = self.y + other.y;
    }

    /// Divides both components by the fixed-point factor `den / SCALE`:
    /// dividing a velocity by a mass of `1.5` units is
    /// `div_scaled(1500, 1000)`.
    pub fn div_scaled(&mut self, den: i64, scale: u64)
        requires
            1 <= den,
            scale <= RATIO_LIMIT,
            in_box(*old(self), COORD_LIMIT as int),
        ensures
            final(self).x == mul_ratio_spec(old(self).x as int, scale as int, den as int),
            final(self).y == mul_ratio_spec(old(self).y as int, scale as int, den as int),
    {
        self.x = mul_ratio(self.x, scale, den as u64);
        self.y = mul_ratio(self.y, scale, den as u64);
    }

    /// Clamps each component into a symmetric or asymmetric box.
    pub fn constrain(&mut self, x_lo: i64, x_hi: i64, y_lo: i64, y_hi: i64)
        requires
            x_lo <= x_hi,
            y_lo <= y_hi,
        ensures
            final(self).x == clamp_spec(old(self).x as int, x_lo as int, x_hi as int),
            final(self).y == clamp_spec(old(self).y as int, y_lo as int, y_hi as int),
            x_lo <= final(self).x <= x_hi,
            y_lo <= final(self).y <= y_hi,
    {
        self.x = clamp_i64(self.x, x_lo, x_hi);
        self.y = clamp_i64(self.y, y_lo, y_hi);
    }

    /// Squared distance to `other`.
    pub fn dist_sq(&self, other: &Vec2) -> (r: u64)
        requires
            in_box(*self, COORD_LIMIT as int),
            in_box(*other, COORD_LIMIT as int),
        ensures
            r == dist_sq_spec(*self, *other),
    {
        let dx: i64 = self.x - other.x;
        let dy: i64 = self.y - other.y;
        assert(dx * dx + dy * dy <= 8_000_000_000_000_000_000i64) by (nonlinear_arith)
            requires
                -2_000_000_000 <= dx <= 2_000_000_000,
                -2_000_000_000 <= dy <= 2_000_000_000,
        ;
        assert(dx * dx >= 0 && dy * dy >= 0) by (nonlinear_arith);
        (dx * dx + dy * dy) as u64
    }

    /// Magnitude, rounded down.
    pub fn mag(&self) -> (r: u64)
        requires
            in_box(*self, COORD_LIMIT as int),
        ensures
            r == mag_spec(*self),
            is_isqrt(mag_sq_spec(*self), r as int),
    {
        let origin = Vec2 { x: 0, y: 0 };
        let sq = self.dist_sq(&origin);
        assert(dist_sq_spec(*self, origin) == mag_sq_spec(*self));
        isqrt(sq)
    }
}

} // verus!
