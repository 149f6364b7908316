//! Depth from blob geometry.
//!
//! Two markers a known distance apart appear closer together in the image
//! the farther they are from the camera. Every pair of detections therefore
//! yields one depth estimate, and the frame's depth is the mean over all
//! pairs that are at least one pixel apart.

use vstd::prelude::*;
use crate::arith::{floor_sqrt, is_floor_sqrt, isqrt, lemma_floor_sqrt_exists, lemma_total_push, total};
use crate::blob::IRBlob;
use crate::device::VRDevice;

verus! {

/// Mean physical spacing of the marker LEDs: 85 millimetres, in length
/// units.
pub const LED_SPACING: u64 = 8_500_000_000_000;

/// Focal length of the tracking camera, in pixels.
pub const FOCAL_LENGTH_PX: u64 = 1728;

/// `LED_SPACING * FOCAL_LENGTH_PX`: the depth, in length units, at which a
/// marker pair appears exactly one pixel apart.
pub const DEPTH_SCALE: u64 = 14_688_000_000_000_000;

/// The largest squared pixel distance between two detections: from one
/// corner of the coordinate range to the opposite one.
pub const MAX_DISTANCE_SQUARED: u64 = 8_589_672_450;

/// Pairs closer than this many pixels are co-located detections and carry
/// no depth information.
pub const MIN_PIXEL_DISTANCE: u64 = 1;

/// Whether a pair at squared pixel distance `d2` takes part in the estimate.
pub open spec fn usable_pair(d2: int) -> bool {
    d2 >= MIN_PIXEL_DISTANCE * MIN_PIXEL_DISTANCE
}

/// `d` is the perspective depth `DEPTH_SCALE / sqrt(d2)` in whole length
/// units, rounded down: `d * sqrt(d2) <= DEPTH_SCALE < (d + 1) * sqrt(d2)`,
/// stated over the squares.
pub open spec fn is_pair_depth(d2: int, d: int) -> bool {
    &&& 0 <= d
    &&& d * d * d2 <= DEPTH_SCALE * DEPTH_SCALE
    &&& DEPTH_SCALE * DEPTH_SCALE < (d + 1) * (d + 1) * d2
}

/// The perspective depth of a pair at squared pixel distance `d2 >= 1`.
pub open spec fn pair_depth(d2: int) -> int {
    choose|d: int| is_pair_depth(d2, d)
}

/// A pixel distance determines at most one depth.
pub proof fn lemma_pair_depth_unique(d2: int, a: int, b: int)
    requires
        d2 >= 1,
        is_pair_depth(d2, a),
        is_pair_depth(d2, b),
    ensures
        a == b,
{
    if a < b {
        assert((a + 1) * (a + 1) * d2 <= b * b * d2) by (nonlinear_arith)
            requires
                0 <= a + 1 <= b,
                d2 >= 1,
        ;
    } else if b < a {
        assert((b + 1) * (b + 1) * d2 <= a * a * d2) by (nonlinear_arith)
            requires
                0 <= b + 1 <= a,
                d2 >= 1,
        ;
    }
}

/// The integer square root of `DEPTH_SCALE^2 / d2` is the pair depth.
proof fn lemma_pair_depth_from_sqrt(d2: int, q: int, r: int)
    requires
        d2 >= 1,
        q == (DEPTH_SCALE * DEPTH_SCALE) / d2,
        is_floor_sqrt(q, r),
    ensures
        is_pair_depth(d2, r),
        r <= DEPTH_SCALE,
{
    let k2: int = DEPTH_SCALE * DEPTH_SCALE;
    assert(q * d2 <= k2 < (q + 1) * d2) by (nonlinear_arith)
        requires
            d2 >= 1,
            q == k2 / d2,
    ;
    assert(r * r * d2 <= q * d2) by (nonlinear_arith)
        requires
            r * r <= q,
            d2 >= 1,
    ;
    assert((q + 1) * d2 <= (r + 1) * (r + 1) * d2) by (nonlinear_arith)
        requires
            q + 1 <= (r + 1) * (r + 1),
            d2 >= 1,
    ;
    if r > DEPTH_SCALE {
        assert(r * r * d2 > k2) by (nonlinear_arith)
            requires
                r >= DEPTH_SCALE + 1,
                d2 >= 1,
                k2 == DEPTH_SCALE * DEPTH_SCALE,
        ;
    }
}

/// Every usable pixel distance has a depth, and it is at most `DEPTH_SCALE`.
pub proof fn lemma_pair_depth_exists(d2: int)
    requires
        d2 >= 1,
    ensures
        is_pair_depth(d2, pair_depth(d2)),
        0 <= pair_depth(d2) <= DEPTH_SCALE,
{
    let q: int = (DEPTH_SCALE * DEPTH_SCALE) / d2;
    assert(q >= 0) by (nonlinear_arith)
        requires
            d2 >= 1,
            q == (DEPTH_SCALE * DEPTH_SCALE) / d2,
    ;
    lemma_floor_sqrt_exists(q);
    lemma_pair_depth_from_sqrt(d2, q, floor_sqrt(q));
    lemma_pair_depth_unique(d2, floor_sqrt(q), pair_depth(d2));
}

/// A pair seen farther apart is never estimated to be deeper.
pub proof fn lemma_pair_depth_monotonic(near: int, far: int)
    requires
        1 <= near <= far,
    ensures
        pair_depth(far) <= pair_depth(near),
{
    lemma_pair_depth_exists(near);
    lemma_pair_depth_exists(far);
    let dn = pair_depth(near);
    let df = pair_depth(far);
    if df > dn {
        assert((dn + 1) * (dn + 1) * near <= df * df * far) by (nonlinear_arith)
            requires
                0 <= dn + 1 <= df,
                1 <= near <= far,
        ;
    }
}

/// Between two different pixel distances that detections can have, the
/// depth differs by at least one unit: the pair seen farther apart is
/// estimated to be strictly nearer.
pub proof fn lemma_pair_depth_strictly_monotonic(near: int, far: int)
    requires
        1 <= near < far <= MAX_DISTANCE_SQUARED,
    ensures
        pair_depth(far) < pair_depth(near),
{
    lemma_pair_depth_exists(near);
    lemma_pair_depth_exists(near + 1);
    lemma_pair_depth_monotonic(near + 1, far);
    let k2: int = DEPTH_SCALE * DEPTH_SCALE;
    let a = pair_depth(near);
    let b = pair_depth(near + 1);
    // The depth at `near` is at least `2 * near + 1`.
    let floor = 2 * near + 1;
    assert(floor * floor * near <= k2) by (nonlinear_arith)
        requires
            1 <= near <= 8_589_672_450,
            floor == 2 * near + 1,
            k2 == 14_688_000_000_000_000 * 14_688_000_000_000_000,
    ;
    if a < floor {
        assert((a + 1) * (a + 1) * near <= floor * floor * near) by (nonlinear_arith)
            requires
                0 <= a + 1 <= floor,
                near >= 1,
        ;
    }
    // So one more square pixel outweighs the rounding of the depth.
    assert((a + 1) * (a + 1) * near <= a * a * (near + 1)) by (nonlinear_arith)
        requires
            a >= 2 * near + 1,
            near >= 1,
    ;
    if b >= a {
        assert(a * a * (near + 1) <= b * b * (near + 1)) by (nonlinear_arith)
            requires
                0 <= a <= b,
                near >= 1,
        ;
    }
}

/// Computes the perspective depth of one pair, in length units.
pub fn compute_pair_depth(d2: u64) -> (d: u64)
    requires
        d2 >= 1,
    ensures
        d == pair_depth(d2 as int),
        is_pair_depth(d2 as int, d as int),
        d <= DEPTH_SCALE,
{
    let q: u128 = ((DEPTH_SCALE as u128) * (DEPTH_SCALE as u128)) / (d2 as u128);
    let root: u128 = isqrt(q);
    proof {
        lemma_pair_depth_from_sqrt(d2 as int, q as int, root as int);
        lemma_pair_depth_exists(d2 as int);
        lemma_pair_depth_unique(d2 as int, root as int, pair_depth(d2 as int));
    }
    root as u64
}

/// Depths of the usable pairs `(i, k)` with `i < k < j`, in order of `k`.
pub open spec fn row_depths(blobs: Seq<IRBlob>, i: int, j: int) -> Seq<int>
    decreases j - i,
{
    if j <= i + 1 {
        Seq::empty()
    } else {
        let earlier = row_depths(blobs, i, j - 1);
        let d2 = blobs[i].distance_squared(blobs[j - 1]);
        if usable_pair(d2) {
            earlier.push(pair_depth(d2))
        } else {
            earlier
        }
    }
}

/// Depths of the usable pairs `(a, k)` with `a < i` and `a < k < blobs.len()`.
pub open spec fn depths_before(blobs: Seq<IRBlob>, i: int) -> Seq<int>
    decreases i,
{
    if i <= 0 {
        Seq::empty()
    } else {
        depths_before(blobs, i - 1) + row_depths(blobs, i - 1, blobs.len() as int)
    }
}

/// Depths of all unordered pairs of detections at least one pixel apart.
pub open spec fn pair_depths(blobs: Seq<IRBlob>) -> Seq<int> {
    depths_before(blobs, blobs.len() as int)
}

/// The depth of a frame: the mean, rounded down, of its pair depths, or
/// nothing when fewer than two detections or no usable pair is present.
pub open spec fn depth_estimate(blobs: Seq<IRBlob>) -> Option<int> {
    let depths = pair_depths(blobs);
    if blobs.len() < 2 || depths.len() == 0 {
        None
    } else {
        Some(total(depths) / (depths.len() as int))
    }
}

/// Mean of a growing sequence of pair depths, held as quotient and
/// remainder so that no intermediate value outgrows the machine word
/// however many pairs are folded in.
struct RunningMean {
    quotient: u64,
    remainder: u128,
    count: u128,
}

impl RunningMean {
    /// The accumulator holds exactly the mean of `s`.
    spec fn tracks(self, s: Seq<int>) -> bool {
        &&& self.count == s.len()
        &&& 0 <= total(s) <= s.len() * DEPTH_SCALE
        &&& self.quotient * self.count + self.remainder == total(s)
        &&& self.count == 0 ==> self.quotient == 0 && self.remainder == 0
        &&& self.count > 0 ==> self.remainder < self.count
        &&& self.quotient <= DEPTH_SCALE
    }

    fn new() -> (m: RunningMean)
        ensures
            m.tracks(Seq::empty()),
            m.count == 0,
    {
        RunningMean { quotient: 0, remainder: 0, count: 0 }
    }

    fn push(&mut self, value: u64, Ghost(s): Ghost<Seq<int>>)
        requires
            old(self).tracks(s),
            value <= DEPTH_SCALE,
            old(self).count + DEPTH_SCALE < u128::MAX,
        ensures
            final(self).tracks(s.push(value as int)),
            final(self).count == old(self).count + 1,
    {
        let q: u128 = self.quotient as u128;
        let c: u128 = self.count + 1;
        let carried: u128 = self.remainder + value as u128;
        proof {
            lemma_total_push(s, value as int);
        }
        let ghost sum: int = total(s) + value;
        if carried >= q {
            let excess: u128 = carried - q;
            let step: u128 = excess / c;
            let rest: u128 = excess % c;
            assert(excess == step * c + rest) by (nonlinear_arith)
                requires
                    c > 0,
                    step == excess / c,
                    rest == excess % c,
            ;
            assert((q + step) * c + rest == sum) by (nonlinear_arith)
                requires
                    excess == step * c + rest,
                    excess == carried - q,
                    q * (c - 1) + carried == sum,
            ;
            assert(q + step <= DEPTH_SCALE) by (nonlinear_arith)
                requires
                    (q + step) * c + rest == sum,
                    sum <= c * DEPTH_SCALE,
                    rest >= 0,
                    c > 0,
            ;
            self.quotient = (q + step) as u64;
            self.remainder = rest;
        } else {
            let deficit: u128 = q - carried;
            let step: u128 = (deficit + (c - 1)) / c;
            assert(step * c >= deficit && step * c < deficit + c) by (nonlinear_arith)
                requires
                    c > 0,
                    step == (deficit + (c - 1)) / (c as int),
            ;
            let rest: u128 = step * c - deficit;
            assert((q - step) * c + rest == sum) by (nonlinear_arith)
                requires
                    rest == step * c - deficit,
                    deficit == q - carried,
                    q * (c - 1) + carried == sum,
            ;
            assert(step <= q) by (nonlinear_arith)
                requires
                    (q - step) * c + rest == sum,
                    sum >= 0,
                    rest < c,
                    c > 0,
            ;
            self.quotient = (q - step) as u64;
            self.remainder = rest;
        }
        self.count = c;
    }

    fn mean(&self, Ghost(s): Ghost<Seq<int>>) -> (m: Option<u64>)
        requires
            self.tracks(s),
        ensures
            (match m {
                Some(v) => s.len() > 0 && v == total(s) / (s.len() as int) && v <= DEPTH_SCALE,
                None => s.len() == 0,
            }),
    {
        if self.count == 0 {
            None
        } else {
            assert(self.quotient == total(s) / (s.len() as int)) by (nonlinear_arith)
                requires
                    self.quotient * self.count + self.remainder == total(s),
                    0 <= self.remainder < self.count,
                    self.count == s.len(),
            ;
            Some(self.quotient)
        }
    }
}

impl VRDevice {
    /// Estimates the distance of the marker constellation from the camera,
    /// in length units, as the mean of the perspective depths of all pairs
    /// of detections that are at least one pixel apart.
    ///
    /// There is no estimate when fewer than two detections are given or when
    /// all of them coincide.
    pub fn estimate_depth(&self, ir_blobs: &[IRBlob]) -> (depth: Option<u64>)
        ensures
            (match depth {
                Some(d) => depth_estimate(ir_blobs@) == Some(d as int) && d <= DEPTH_SCALE,
                None => depth_estimate(ir_blobs@) is None,
            }),
            ir_blobs@.len() < 2 ==> depth is None,
    {
        let n: usize = ir_blobs.len();
        if n < 2 {
            return None;
        }
        let mut mean = RunningMean::new();
        let ghost mut seen: Seq<int> = Seq::empty();
        let mut i: usize = 0;
        while i < n
            invariant
                i <= n,
                n == ir_blobs@.len(),
                seen == depths_before(ir_blobs@, i as int),
                mean.tracks(seen),
                mean.count <= i * n,
            decreases n - i,
        {
            let mut j: usize = i + 1;
            assert(seen + row_depths(ir_blobs@, i as int, j as int) =~= seen);
            while j < n
                invariant
                    i < n,
                    i + 1 <= j <= n,
                    n == ir_blobs@.len(),
                    seen == depths_before(ir_blobs@, i as int) + row_depths(
                        ir_blobs@,
                        i as int,
                        j as int,
                    ),
                    mean.tracks(seen),
                    mean.count <= i * n + (j - i - 1),
                decreases n - j,
            {
                let d2: u64 = ir_blobs[i].pixel_distance_squared(&ir_blobs[j]);
                if d2 >= MIN_PIXEL_DISTANCE * MIN_PIXEL_DISTANCE {
                    let d: u64 = compute_pair_depth(d2);
                    assert(mean.count + DEPTH_SCALE < u128::MAX) by (nonlinear_arith)
                        requires
                            mean.count <= i * n + (j - i - 1),
                            i < n,
                            j < n,
                            n <= 0xFFFF_FFFF_FFFF_FFFF,
                            DEPTH_SCALE == 14_688_000_000_000_000,
                    ;
                    mean.push(d, Ghost(seen));
                    proof {
                        let before = depths_before(ir_blobs@, i as int);
                        let row = row_depths(ir_blobs@, i as int, j as int);
                        assert((before + row).push(d as int) =~= before + row.push(d as int));
                        seen = seen.push(d as int);
                    }
                }
                j += 1;
            }
            assert(mean.count <= (i + 1) * n) by (nonlinear_arith)
                requires
                    mean.count <= i * n + (n - i - 1),
            ;
            i += 1;
        }
        mean.mean(Ghost(seen))
    }
}

} // verus!
