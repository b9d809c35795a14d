//! Positions and displacements in the plane.
//!
//! A `Point` is an absolute position, a `Vector` a displacement; both hold
//! their binary64 coordinates as bit patterns, so equality is exact bit
//! equality, the identity every set-like structure in this crate keys on.

use vstd::prelude::*;

use crate::binary64::diff_bits;
use crate::binary64::prod_bits;
use crate::binary64::spec_neg_bits;
use crate::binary64::sum_bits;
use crate::binary64::add_bits;
use crate::binary64::mul_bits;
use crate::binary64::neg_bits;
use crate::binary64::sub_bits;

verus! {

/// An absolute position: binary64 coordinates held as bit patterns.
#[derive(Clone, Copy, PartialEq, Eq, Structural, Debug)]
pub struct Point {
    pub x: u64,
    pub y: u64,
}

/// A displacement: binary64 coordinates held as bit patterns.
#[derive(Clone, Copy, PartialEq, Eq, Structural, Debug)]
pub struct Vector {
    pub x: u64,
    pub y: u64,
}

/// The pair of coordinate bit patterns that encodes a point.
pub open spec fn bits_of(p: Point) -> (u64, u64) {
    (p.x, p.y)
}

/// The point encoded by a pair of coordinate bit patterns.
pub open spec fn point_of_bits(bits: (u64, u64)) -> Point {
    Point { x: bits.0, y: bits.1 }
}

/// Componentwise rounded sum of a position and a displacement.
pub open spec fn point_plus_vector(p: Point, v: Vector) -> Point {
    Point { x: sum_bits(p.x, v.x), y: sum_bits(p.y, v.y) }
}

/// Componentwise rounded difference of two positions.
pub open spec fn point_minus_point(a: Point, b: Point) -> Vector {
    Vector { x: diff_bits(a.x, b.x), y: diff_bits(a.y, b.y) }
}

/// Componentwise rounded difference of a position and a displacement.
pub open spec fn point_minus_vector(p: Point, v: Vector) -> Point {
    Point { x: diff_bits(p.x, v.x), y: diff_bits(p.y, v.y) }
}

/// Componentwise rounded sum of two displacements.
pub open spec fn vector_plus(a: Vector, b: Vector) -> Vector {
    Vector { x: sum_bits(a.x, b.x), y: sum_bits(a.y, b.y) }
}

/// Componentwise rounded difference of two displacements.
pub open spec fn vector_minus(a: Vector, b: Vector) -> Vector {
    Vector { x: diff_bits(a.x, b.x), y: diff_bits(a.y, b.y) }
}

/// A displacement scaled by a binary64 factor given by bit pattern.
pub open spec fn vector_scaled(v: Vector, k: u64) -> Vector {
    Vector { x: prod_bits(v.x, k), y: prod_bits(v.y, k) }
}

/// The rounded dot product of two displacements.
pub open spec fn dot_spec(a: Vector, b: Vector) -> u64 {
    sum_bits(prod_bits(a.x, b.x), prod_bits(a.y, b.y))
}

/// The rounded scalar cross product of two displacements.
pub open spec fn cross_spec(a: Vector, b: Vector) -> u64 {
    diff_bits(prod_bits(a.x, b.y), prod_bits(a.y, b.x))
}

/// The left perpendicular of a displacement: an exact quarter turn.
pub open spec fn normal_spec(v: Vector) -> Vector {
    Vector { x: spec_neg_bits(v.y), y: v.x }
}

/// The rounded squared magnitude of a displacement.
pub open spec fn sq_mag_spec(v: Vector) -> u64 {
    dot_spec(v, v)
}

impl Point {
    /// The fixed-width bit representation of this point, usable as an exact
    /// set key.
    pub fn to_bits(self) -> (r: (u64, u64))
        ensures
            r == bits_of(self),
    {
        (self.x, self.y)
    }

    /// The point a bit representation encodes.
    pub fn from_bits(bits: (u64, u64)) -> (r: Self)
        ensures
            r == point_of_bits(bits),
    {
        Point { x: bits.0, y: bits.1 }
    }

    /// Position plus displacement.
    pub fn add(self, other: Vector) -> (r: Point)
        ensures
            r == point_plus_vector(self, other),
    {
        Point { x: add_bits(self.x, other.x), y: add_bits(self.y, other.y) }
    }

    /// Displacement from another position to this one.
    pub fn sub(self, other: Point) -> (r: Vector)
        ensures
            r == point_minus_point(self, other),
    {
        Vector { x: sub_bits(self.x, other.x), y: sub_bits(self.y, other.y) }
    }

    /// Position minus displacement.
    pub fn sub_vector(self, other: Vector) -> (r: Point)
        ensures
            r == point_minus_vector(self, other),
    {
        Point { x: sub_bits(self.x, other.x), y: sub_bits(self.y, other.y) }
    }
}

impl Vector {
    /// Sum of two displacements.
    pub fn add(self, other: Vector) -> (r: Vector)
        ensures
            r == vector_plus(self, other),
    {
        Vector { x: add_bits(self.x, other.x), y: add_bits(self.y, other.y) }
    }

    /// Difference of two displacements.
    pub fn sub(self, other: Vector) -> (r: Vector)
        ensures
            r == vector_minus(self, other),
    {
        Vector { x: sub_bits(self.x, other.x), y: sub_bits(self.y, other.y) }
    }

    /// This displacement scaled by a binary64 factor given by bit pattern.
    pub fn mul(self, scale: u64) -> (r: Vector)
        ensures
            r == vector_scaled(self, scale),
    {
        Vector { x: mul_bits(self.x, scale), y: mul_bits(self.y, scale) }
    }

    /// Dot product.
    pub fn dot(self, other: Vector) -> (r: u64)
        ensures
            r == dot_spec(self, other),
    {
        add_bits(mul_bits(self.x, other.x), mul_bits(self.y, other.y))
    }

    /// Scalar cross product (the z component of the three-dimensional one).
    pub fn cross(self, other: Vector) -> (r: u64)
        ensures
            r == cross_spec(self, other),
    {
        sub_bits(mul_bits(self.x, other.y), mul_bits(self.y, other.x))
    }

    /// The left perpendicular of this displacement.
    pub fn normal(self) -> (r: Vector)
        ensures
            r == normal_spec(self),
    {
        Vector { x: neg_bits(self.y), y: self.x }
    }

    /// Squared magnitude.
    pub fn sq_mag(self) -> (r: u64)
        ensures
            r == sq_mag_spec(self),
    {
        self.dot(self)
    }
}

/// Law: encoding a point to its bit representation and decoding it again
/// yields exactly the original point, for every point.
pub proof fn lemma_bits_round_trip(p: Point)
    ensures
        point_of_bits(bits_of(p)) == p,
{
}

} // verus!
