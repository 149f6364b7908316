//! Infrared blob detections and their pixel geometry.

use vstd::prelude::*;

verus! {

/// One bright point source detected in a camera frame, in sensor pixels.
///
/// Blobs carry no identity from one frame to the next.
#[derive(Clone, Copy, Debug, PartialEq, Eq, Structural)]
pub struct IRBlob {
    /// Horizontal pixel coordinate.
    pub x: u16,
    /// Vertical pixel coordinate, growing downward.
    pub y: u16,
    /// Intensity or area of the detection.
    pub size: u8,
}

impl IRBlob {
    /// Squared Euclidean distance between two detections, in square pixels.
    pub open spec fn distance_squared(self, other: IRBlob) -> int {
        (self.x - other.x) * (self.x - other.x) + (self.y - other.y) * (self.y - other.y)
    }

    /// Computes the squared pixel distance to `other`.
    pub fn pixel_distance_squared(&self, other: &IRBlob) -> (d2: u64)
        ensures
            d2 == self.distance_squared(*other),
            d2 <= 2 * 65535 * 65535,
    {
        let dx: u64 = if self.x >= other.x {
            (self.x - other.x) as u64
        } else {
            (other.x - self.x) as u64
        };
        let dy: u64 = if self.y >= other.y {
            (self.y - other.y) as u64
        } else {
            (other.y - self.y) as u64
        };
        assert(dx * dx <= 65535 * 65535 && dy * dy <= 65535 * 65535) by (nonlinear_arith)
            requires
                dx <= 65535,
                dy <= 65535,
        ;
        assert(dx * dx == (self.x - other.x) * (self.x - other.x)) by (nonlinear_arith)
            requires
                dx == self.x - other.x || dx == -(self.x - other.x),
        ;
        assert(dy * dy == (self.y - other.y) * (self.y - other.y)) by (nonlinear_arith)
            requires
                dy == self.y - other.y || dy == -(self.y - other.y),
        ;
        dx * dx + dy * dy
    }
}

} // verus!
