//! Orientation and position values.

use vstd::prelude::*;

verus! {

/// An orientation sample, carried verbatim.
///
/// Each field holds the IEEE-754 binary64 bit pattern of one component. The
/// library never does arithmetic on orientations: what a producer publishes
/// is what a consumer reads back, bit for bit.
#[derive(Clone, Copy, Debug, PartialEq, Eq, Structural)]
pub struct Quaternion {
    pub w: u64,
    pub x: u64,
    pub y: u64,
    pub z: u64,
}

/// Bit pattern of the binary64 value one.
pub const ONE_BITS: u64 = 0x3FF0_0000_0000_0000;

impl Quaternion {
    /// The identity rotation `(1, 0, 0, 0)`.
    pub open spec fn spec_identity() -> Quaternion {
        Quaternion { w: ONE_BITS, x: 0, y: 0, z: 0 }
    }

    /// The identity rotation `(1, 0, 0, 0)`.
    #[verifier::when_used_as_spec(spec_identity)]
    pub fn identity() -> (q: Quaternion)
        ensures
            q == Quaternion::spec_identity(),
    {
        Quaternion { w: ONE_BITS, x: 0, y: 0, z: 0 }
    }
}

/// Number of length units in a metre.
///
/// Lengths are whole multiples of ten femtometres. The unit is this fine so
/// that the perspective depths of any two different pixel distances differ
/// by at least one unit: no rounding ever hides that a constellation has
/// moved.
pub const UNITS_PER_METRE: i64 = 100_000_000_000_000;

/// A position in the camera-centric, right-handed frame, in length units
/// ([`UNITS_PER_METRE`] to the metre).
///
/// `z` is negative in front of the camera: the distance is `-z`.
#[derive(Clone, Copy, Debug, PartialEq, Eq, Structural)]
pub struct Vec3 {
    /// To the right of the optical axis.
    pub x: i64,
    /// Above the optical axis.
    pub y: i64,
    /// Behind the camera; negative in front of it.
    pub z: i64,
}

/// The mathematical value of a [`Vec3`]: three unbounded integers.
pub struct Point {
    pub x: int,
    pub y: int,
    pub z: int,
}

impl View for Vec3 {
    type V = Point;

    open spec fn view(&self) -> Point {
        Point { x: self.x as int, y: self.y as int, z: self.z as int }
    }
}

impl Point {
    /// The origin.
    pub open spec fn zero() -> Point {
        Point { x: 0, y: 0, z: 0 }
    }

    /// Every coordinate lies within `limit` of zero.
    pub open spec fn within(self, limit: int) -> bool {
        &&& -limit <= self.x <= limit
        &&& -limit <= self.y <= limit
        &&& -limit <= self.z <= limit
    }
}

/// The mathematical value of an optional position.
pub open spec fn point_of(position: Option<Vec3>) -> Option<Point> {
    match position {
        Some(p) => Some(p@),
        None => None,
    }
}

} // verus!
