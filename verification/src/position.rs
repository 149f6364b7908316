//! Position from blob geometry.
//!
//! The centroid of the detections gives the direction to the headset, the
//! depth estimate gives its distance; together they give a position in the
//! camera's frame.

use vstd::prelude::*;
use vstd::arithmetic::div_mod::{
    lemma_div_denominator, lemma_fundamental_div_mod, lemma_fundamental_div_mod_converse,
};
use crate::arith::trunc_div;
use crate::blob::IRBlob;
use crate::depth::{depth_estimate, DEPTH_SCALE, FOCAL_LENGTH_PX};
use crate::device::VRDevice;
use crate::pose::{point_of, Point, Vec3};

verus! {

/// Horizontal pixel coordinate of the optical axis.
pub const CAMERA_CENTER_X: u64 = 512;

/// Vertical pixel coordinate of the optical axis.
pub const CAMERA_CENTER_Y: u64 = 384;

/// No estimated position has a horizontal or vertical coordinate beyond
/// this many length units: the widest pixel offset at the greatest depth.
pub const LATERAL_LIMIT: i64 = 557_047_500_000_000_000;

/// Sum of the horizontal coordinates of the first `n` detections.
pub open spec fn sum_x(blobs: Seq<IRBlob>, n: int) -> int
    decreases n,
{
    if n <= 0 {
        0
    } else {
        sum_x(blobs, n - 1) + blobs[n - 1].x
    }
}

/// Sum of the vertical coordinates of the first `n` detections.
pub open spec fn sum_y(blobs: Seq<IRBlob>, n: int) -> int
    decreases n,
{
    if n <= 0 {
        0
    } else {
        sum_y(blobs, n - 1) + blobs[n - 1].y
    }
}

/// Metric offset at `depth` of a centroid whose pixel offset from the
/// optical axis is `offset_sum / count`: the quotient
/// `(offset_sum / count) * depth / FOCAL_LENGTH_PX`, taken in one step and
/// rounded toward zero.
pub open spec fn lateral(offset_sum: int, count: int, depth: int) -> int {
    trunc_div(offset_sum * depth, count * FOCAL_LENGTH_PX)
}

/// The position of a frame: the centroid's offset from the optical axis,
/// scaled to the estimated depth, with the vertical axis pointing up and
/// the camera looking down the negative `z` axis. There is none where
/// there is no depth estimate.
pub open spec fn position_estimate(blobs: Seq<IRBlob>) -> Option<Point> {
    match depth_estimate(blobs) {
        None => None,
        Some(depth) => {
            let n = blobs.len() as int;
            Some(
                Point {
                    x: lateral(sum_x(blobs, n) - CAMERA_CENTER_X * n, n, depth),
                    y: -lateral(sum_y(blobs, n) - CAMERA_CENTER_Y * n, n, depth),
                    z: -depth,
                },
            )
        },
    }
}

/// A centroid on the optical axis puts the headset straight ahead, whatever
/// its depth.
pub proof fn lemma_centered_centroid(blobs: Seq<IRBlob>)
    requires
        position_estimate(blobs) is Some,
        sum_x(blobs, blobs.len() as int) == CAMERA_CENTER_X * blobs.len(),
        sum_y(blobs, blobs.len() as int) == CAMERA_CENTER_Y * blobs.len(),
    ensures
        position_estimate(blobs)->0.x == 0,
        position_estimate(blobs)->0.y == 0,
{
    let n = blobs.len() as int;
    let depth = depth_estimate(blobs)->0;
    assert(0 * depth == 0);
    assert(0int / (n * FOCAL_LENGTH_PX) == 0) by (nonlinear_arith)
        requires
            n >= 2,
    ;
}

/// The lateral offset is bounded by the widest pixel offset at the
/// greatest depth.
proof fn lemma_lateral_bound(offset_sum: int, count: int, depth: int)
    requires
        count >= 1,
        -65535 * count <= offset_sum <= 65535 * count,
        0 <= depth <= DEPTH_SCALE,
    ensures
        -LATERAL_LIMIT <= lateral(offset_sum, count, depth) <= LATERAL_LIMIT,
{
    let den = count * FOCAL_LENGTH_PX;
    let num = offset_sum * depth;
    let top = LATERAL_LIMIT * den;
    assert(LATERAL_LIMIT * FOCAL_LENGTH_PX == 65535 * DEPTH_SCALE);
    assert(-top <= num <= top) by (nonlinear_arith)
        requires
            count >= 1,
            -65535 * count <= offset_sum <= 65535 * count,
            0 <= depth <= DEPTH_SCALE,
            num == offset_sum * depth,
            top == 65535 * DEPTH_SCALE * count,
    ;
    if num >= 0 {
        assert(num / den <= LATERAL_LIMIT && num / den >= 0) by (nonlinear_arith)
            requires
                0 <= num <= LATERAL_LIMIT * den,
                den > 0,
        ;
    } else {
        assert((-num) / den <= LATERAL_LIMIT && (-num) / den >= 0) by (nonlinear_arith)
            requires
                0 <= -num <= LATERAL_LIMIT * den,
                den > 0,
        ;
    }
}

/// The quotient of `lateral` for a non-negative offset can be taken in
/// steps that stay small: first the whole pixels of the mean offset, then
/// what is left of it.
proof fn lemma_lateral_in_steps(magnitude: int, count: int, depth: int)
    requires
        0 <= magnitude,
        1 <= count,
        0 <= depth,
    ensures
        (magnitude * depth) / (count * FOCAL_LENGTH_PX) == ((magnitude / count) * depth + ((
        magnitude % count) * depth) / count) / (FOCAL_LENGTH_PX as int),
{
    let whole = magnitude / count;
    let left = magnitude % count;
    let low = left * depth;
    let product = magnitude * depth;
    lemma_fundamental_div_mod(magnitude, count);
    lemma_fundamental_div_mod(low, count);
    assert(low >= 0) by (nonlinear_arith)
        requires
            left >= 0,
            depth >= 0,
            low == left * depth,
    ;
    assert(product >= 0) by (nonlinear_arith)
        requires
            magnitude >= 0,
            depth >= 0,
            product == magnitude * depth,
    ;
    assert(product == (whole * depth + low / count) * count + low % count) by (nonlinear_arith)
        requires
            magnitude == count * whole + left,
            low == left * depth,
            low == count * (low / count) + low % count,
            product == magnitude * depth,
    ;
    lemma_fundamental_div_mod_converse(
        product,
        count,
        whole * depth + low / count,
        low % count,
    );
    lemma_div_denominator(product, count, FOCAL_LENGTH_PX as int);
}

/// Computes `lateral(offset_sum, count, depth)`.
fn compute_lateral(offset_sum: i128, count: u128, depth: u64) -> (v: i64)
    requires
        1 <= count <= usize::MAX,
        -65535 * count <= offset_sum <= 65535 * count,
        depth <= DEPTH_SCALE,
    ensures
        v == lateral(offset_sum as int, count as int, depth as int),
        -LATERAL_LIMIT <= v <= LATERAL_LIMIT,
{
    let negative: bool = offset_sum < 0;
    let magnitude: u128 = if negative {
        (-offset_sum) as u128
    } else {
        offset_sum as u128
    };
    let whole: u128 = magnitude / count;
    let left: u128 = magnitude % count;
    proof {
        lemma_lateral_bound(offset_sum as int, count as int, depth as int);
        lemma_lateral_in_steps(magnitude as int, count as int, depth as int);
        assert(whole <= 65535) by (nonlinear_arith)
            requires
                whole == magnitude / count,
                magnitude <= 65535 * count,
                count >= 1,
        ;
        assert(whole * depth <= 65535 * 14_688_000_000_000_000) by (nonlinear_arith)
            requires
                whole <= 65535,
                depth <= 14_688_000_000_000_000,
        ;
        assert(left * depth <= 0x1_0000_0000_0000_0000 * 14_688_000_000_000_000)
            by (nonlinear_arith)
            requires
                left < count,
                count <= 0x1_0000_0000_0000_0000,
                depth <= 14_688_000_000_000_000,
        ;
        assert(magnitude * depth == offset_sum * depth || magnitude * depth == -(offset_sum
            * depth)) by (nonlinear_arith)
            requires
                magnitude == offset_sum || magnitude == -offset_sum,
        ;
        assert(offset_sum < 0 ==> offset_sum * depth <= 0) by (nonlinear_arith)
            requires
                depth >= 0,
        ;
        assert(offset_sum >= 0 ==> offset_sum * depth >= 0) by (nonlinear_arith)
            requires
                depth >= 0,
        ;
        assert(0int / (count * FOCAL_LENGTH_PX) == 0) by (nonlinear_arith)
            requires
                count >= 1,
        ;
    }
    let scaled: u128 = whole * (depth as u128) + (left * (depth as u128)) / count;
    let size: u128 = scaled / (FOCAL_LENGTH_PX as u128);
    if negative {
        -(size as i64)
    } else {
        size as i64
    }
}

impl VRDevice {
    /// Estimates the position of the marker constellation, in length units,
    /// from one frame of detections.
    ///
    /// There is no estimate when the frame is empty or has no depth
    /// estimate.
    pub fn estimate_position(&self, ir_blobs: &[IRBlob]) -> (position: Option<Vec3>)
        ensures
            point_of(position) == position_estimate(ir_blobs@),
            position matches Some(p) ==> (-LATERAL_LIMIT <= p.x <= LATERAL_LIMIT),
            position matches Some(p) ==> (-LATERAL_LIMIT <= p.y <= LATERAL_LIMIT),
            position matches Some(p) ==> (-DEPTH_SCALE <= p.z <= 0),
    {
        if ir_blobs.is_empty() {
            return None;
        }
        let depth: u64 = match self.estimate_depth(ir_blobs) {
            Some(d) => d,
            None => {
                return None;
            },
        };
        let n: usize = ir_blobs.len();
        let mut total_x: u128 = 0;
        let mut total_y: u128 = 0;
        let mut i: usize = 0;
        while i < n
            invariant
                i <= n,
                n == ir_blobs@.len(),
                total_x == sum_x(ir_blobs@, i as int),
                total_y == sum_y(ir_blobs@, i as int),
                total_x <= 65535 * i,
                total_y <= 65535 * i,
            decreases n - i,
        {
            total_x = total_x + ir_blobs[i].x as u128;
            total_y = total_y + ir_blobs[i].y as u128;
            i += 1;
        }
        let count: u128 = n as u128;
        let offset_x: i128 = total_x as i128 - (CAMERA_CENTER_X as i128) * (count as i128);
        let offset_y: i128 = total_y as i128 - (CAMERA_CENTER_Y as i128) * (count as i128);
        let x: i64 = compute_lateral(offset_x, count, depth);
        let y: i64 = -compute_lateral(offset_y, count, depth);
        let z: i64 = -(depth as i64);
        Some(Vec3 { x, y, z })
    }
}

} // verus!
