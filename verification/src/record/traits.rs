//! Traits giving access to the coordinates of the point types.
use vstd::prelude::*;
use crate::float_bits::{spec_max, spec_min, NO_DATA};

verus! {

/// Access to the x and y values of a point (as IEEE-754 bit patterns).
pub trait HasXY {
    /// The x value.
    spec fn spec_x(&self) -> u64;

    /// The y value.
    spec fn spec_y(&self) -> u64;

    /// Returns the value of the x dimension.
    fn x(&self) -> (r: u64)
        ensures
            r == self.spec_x(),
    ;

    /// Returns the value of the y dimension.
    fn y(&self) -> (r: u64)
        ensures
            r == self.spec_y(),
    ;
}

/// Access to the measure of a point.
pub trait HasM {
    /// The measure.
    spec fn spec_m(&self) -> u64;

    /// Returns the measure.
    fn m(&self) -> (r: u64)
        ensures
            r == self.spec_m(),
    ;
}

/// Access to the z value of a point.
pub trait HasZ {
    /// The z value.
    spec fn spec_z(&self) -> u64;

    /// Returns the z value.
    fn z(&self) -> (r: u64)
        ensures
            r == self.spec_z(),
    ;
}

/// Points that can be lowered, coordinate by coordinate, to the minimum of themselves
/// and another point.
pub trait ShrinkablePoint: Sized {
    /// The point with each coordinate the minimum of the two points' coordinates.
    spec fn spec_shrink(self, other: Self) -> Self;

    /// Replaces each coordinate by the minimum of it and the other point's coordinate.
    fn shrink(&mut self, other: &Self)
        ensures
            *final(self) == old(self).spec_shrink(*other),
    ;
}

/// Points that can be raised, coordinate by coordinate, to the maximum of themselves
/// and another point.
pub trait GrowablePoint: Sized {
    /// The point with each coordinate the maximum of the two points' coordinates.
    spec fn spec_grow(self, other: Self) -> Self;

    /// Replaces each coordinate by the maximum of it and the other point's coordinate.
    fn grow(&mut self, other: &Self)
        ensures
            *final(self) == old(self).spec_grow(*other),
    ;
}

/// The three point types seen through all four coordinates of the file format: the
/// point types without a z value stand for `0.0` there, those without a measure for
/// `NO_DATA`.
pub trait CoordinatePoint: HasXY + ShrinkablePoint + GrowablePoint + Copy + Sized {
    /// Whether the type has a z value.
    spec fn spec_has_z() -> bool;

    /// Whether the type has a measure.
    spec fn spec_has_m() -> bool;

    /// The z value, or `0.0` for a type without one.
    spec fn spec_z_or_zero(&self) -> u64;

    /// The measure, or `NO_DATA` for a type without one.
    spec fn spec_m_or_no_data(&self) -> u64;

    /// The point with these coordinates (those the type has).
    spec fn spec_from_coords(x: u64, y: u64, z: u64, m: u64) -> Self;

    /// Whether the two points are equal as floating-point coordinates.
    spec fn spec_same(&self, other: &Self) -> bool;

    /// Whether the type has a z value.
    fn has_z() -> (r: bool)
        ensures
            r == Self::spec_has_z(),
    ;

    /// Whether the type has a measure.
    fn has_m() -> (r: bool)
        ensures
            r == Self::spec_has_m(),
    ;

    /// The z value, or `0.0` for a type without one.
    fn z_or_zero(&self) -> (r: u64)
        ensures
            r == self.spec_z_or_zero(),
    ;

    /// The measure, or `NO_DATA` for a type without one.
    fn m_or_no_data(&self) -> (r: u64)
        ensures
            r == self.spec_m_or_no_data(),
    ;

    /// Builds the point with these coordinates (those the type has).
    fn from_coords(x: u64, y: u64, z: u64, m: u64) -> (r: Self)
        ensures
            r == Self::spec_from_coords(x, y, z, m),
    ;

    /// Whether the two points are equal as floating-point coordinates.
    fn same(&self, other: &Self) -> (r: bool)
        ensures
            r == self.spec_same(other),
    ;

    /// A point is rebuilt from its coordinates, and a point built from coordinates has
    /// those the type keeps.
    proof fn lemma_coords(p: Self, x: u64, y: u64, z: u64, m: u64)
        ensures
            Self::spec_from_coords(p.spec_x(), p.spec_y(), p.spec_z_or_zero(), p.spec_m_or_no_data())
                == p,
            Self::spec_from_coords(x, y, z, m).spec_x() == x,
            Self::spec_from_coords(x, y, z, m).spec_y() == y,
            Self::spec_from_coords(x, y, z, m).spec_z_or_zero() == if Self::spec_has_z() {
                z
            } else {
                0u64
            },
            Self::spec_from_coords(x, y, z, m).spec_m_or_no_data() == if Self::spec_has_m() {
                m
            } else {
                NO_DATA
            },
            Self::spec_has_z() ==> Self::spec_has_m(),
    ;

    /// Shrinking takes the minimum, and growing the maximum, of the x values and of the
    /// y values.
    proof fn lemma_shrink_grow_xy(a: Self, b: Self)
        ensures
            a.spec_shrink(b).spec_x() == spec_min(a.spec_x(), b.spec_x()),
            a.spec_shrink(b).spec_y() == spec_min(a.spec_y(), b.spec_y()),
            a.spec_grow(b).spec_x() == spec_max(a.spec_x(), b.spec_x()),
            a.spec_grow(b).spec_y() == spec_max(a.spec_y(), b.spec_y()),
    ;

    /// Floating-point equality of points does not depend on the order of the two points.
    proof fn lemma_same_symmetric(a: Self, b: Self)
        ensures
            a.spec_same(&b) == b.spec_same(&a),
    ;
}

} // verus!
