//! Laws of the depth estimate.
//!
//! The pair depths of a frame are exactly the depths of its pairs of
//! detections at least one pixel apart, and spreading the detections apart
//! in the image lowers the estimate.

use vstd::prelude::*;
use crate::arith::total;
use crate::blob::IRBlob;
use crate::depth::{
    depth_estimate, depths_before, lemma_pair_depth_exists, lemma_pair_depth_monotonic,
    lemma_pair_depth_strictly_monotonic, pair_depth, pair_depths, row_depths, usable_pair,
    MAX_DISTANCE_SQUARED,
};

verus! {

proof fn lemma_row_contains(blobs: Seq<IRBlob>, i: int, j: int, end: int)
    requires
        0 <= i < j < end,
        usable_pair(blobs[i].distance_squared(blobs[j])),
    ensures
        row_depths(blobs, i, end).contains(pair_depth(blobs[i].distance_squared(blobs[j]))),
    decreases end - j,
{
    let row = row_depths(blobs, i, end);
    let earlier = row_depths(blobs, i, end - 1);
    let depth = pair_depth(blobs[i].distance_squared(blobs[j]));
    if j == end - 1 {
        assert(row == earlier.push(depth));
        assert(row[row.len() - 1] == depth);
    } else {
        lemma_row_contains(blobs, i, j, end - 1);
        let k = choose|k: int| 0 <= k < earlier.len() && earlier[k] == depth;
        assert(row[k] == depth);
    }
}

proof fn lemma_before_contains(blobs: Seq<IRBlob>, i: int, m: int, depth: int)
    requires
        0 <= i < m,
        row_depths(blobs, i, blobs.len() as int).contains(depth),
    ensures
        depths_before(blobs, m).contains(depth),
    decreases m,
{
    let head = depths_before(blobs, m - 1);
    let row = row_depths(blobs, m - 1, blobs.len() as int);
    if i == m - 1 {
        let k = choose|k: int| 0 <= k < row.len() && row[k] == depth;
        assert((head + row)[head.len() + k] == depth);
    } else {
        lemma_before_contains(blobs, i, m - 1, depth);
        let k = choose|k: int| 0 <= k < head.len() && head[k] == depth;
        assert((head + row)[k] == depth);
    }
}

/// The depth of every pair of detections at least one pixel apart is among
/// the pair depths of the frame.
pub proof fn lemma_every_usable_pair_counts(blobs: Seq<IRBlob>, i: int, j: int)
    requires
        0 <= i < j < blobs.len(),
        usable_pair(blobs[i].distance_squared(blobs[j])),
    ensures
        pair_depths(blobs).contains(pair_depth(blobs[i].distance_squared(blobs[j]))),
{
    lemma_row_contains(blobs, i, j, blobs.len() as int);
    lemma_before_contains(
        blobs,
        i,
        blobs.len() as int,
        pair_depth(blobs[i].distance_squared(blobs[j])),
    );
}

/// `depth` is the depth of the usable pair `(i, j)` of `blobs`.
pub open spec fn is_depth_of_pair(blobs: Seq<IRBlob>, i: int, j: int, depth: int) -> bool {
    &&& 0 <= i < j < blobs.len()
    &&& usable_pair(blobs[i].distance_squared(blobs[j]))
    &&& depth == pair_depth(blobs[i].distance_squared(blobs[j]))
}

proof fn lemma_row_origin(blobs: Seq<IRBlob>, i: int, end: int, k: int) -> (j: int)
    requires
        0 <= i < end <= blobs.len(),
        0 <= k < row_depths(blobs, i, end).len(),
    ensures
        is_depth_of_pair(blobs, i, j, row_depths(blobs, i, end)[k]),
    decreases end - i,
{
    let earlier = row_depths(blobs, i, end - 1);
    if k < earlier.len() {
        lemma_row_origin(blobs, i, end - 1, k)
    } else {
        end - 1
    }
}

proof fn lemma_before_origin(blobs: Seq<IRBlob>, m: int, k: int) -> (pair: (int, int))
    requires
        0 <= m <= blobs.len(),
        0 <= k < depths_before(blobs, m).len(),
    ensures
        is_depth_of_pair(blobs, pair.0, pair.1, depths_before(blobs, m)[k]),
    decreases m,
{
    let head = depths_before(blobs, m - 1);
    if k < head.len() {
        lemma_before_origin(blobs, m - 1, k)
    } else {
        let j = lemma_row_origin(blobs, m - 1, blobs.len() as int, k - head.len());
        (m - 1, j)
    }
}

/// Every pair depth of the frame is the depth of one of its pairs of
/// detections at least one pixel apart.
pub proof fn lemma_only_usable_pairs_count(blobs: Seq<IRBlob>, k: int)
    requires
        0 <= k < pair_depths(blobs).len(),
    ensures
        exists|i: int, j: int| is_depth_of_pair(blobs, i, j, pair_depths(blobs)[k]),
{
    let pair = lemma_before_origin(blobs, blobs.len() as int, k);
    assert(is_depth_of_pair(blobs, pair.0, pair.1, pair_depths(blobs)[k]));
}

proof fn lemma_row_len(blobs: Seq<IRBlob>, i: int, end: int)
    requires
        0 <= i < end <= blobs.len(),
    ensures
        row_depths(blobs, i, end).len() <= end - i - 1,
        (forall|a: int, b: int|
            0 <= a < b < blobs.len() ==> usable_pair(#[trigger] blobs[a].distance_squared(blobs[b])))
            ==> row_depths(blobs, i, end).len() == end - i - 1,
    decreases end - i,
{
    if end > i + 1 {
        lemma_row_len(blobs, i, end - 1);
    }
}

proof fn lemma_before_len(blobs: Seq<IRBlob>, m: int)
    requires
        0 <= m <= blobs.len(),
    ensures
        2 * depths_before(blobs, m).len() <= m * (2 * blobs.len() - m - 1),
        (forall|a: int, b: int|
            0 <= a < b < blobs.len() ==> usable_pair(#[trigger] blobs[a].distance_squared(blobs[b])))
            ==> 2 * depths_before(blobs, m).len() == m * (2 * blobs.len() - m - 1),
    decreases m,
{
    let n = blobs.len() as int;
    if m > 0 {
        lemma_before_len(blobs, m - 1);
        lemma_row_len(blobs, m - 1, n);
        assert((m - 1) * (2 * n - (m - 1) - 1) + 2 * (n - m) == m * (2 * n - m - 1))
            by (nonlinear_arith);
    } else {
        assert(0 * (2 * n - 0 - 1) == 0);
    }
}

/// A frame of `n` detections has at most `n * (n - 1) / 2` pair depths, and
/// exactly that many when no two detections coincide.
pub proof fn lemma_pair_count(blobs: Seq<IRBlob>)
    ensures
        2 * pair_depths(blobs).len() <= blobs.len() * (blobs.len() - 1),
        (forall|a: int, b: int|
            0 <= a < b < blobs.len() ==> usable_pair(#[trigger] blobs[a].distance_squared(blobs[b])))
            ==> 2 * pair_depths(blobs).len() == blobs.len() * (blobs.len() - 1),
{
    let n = blobs.len() as int;
    lemma_before_len(blobs, n);
    assert(n * (2 * n - n - 1) == n * (n - 1)) by (nonlinear_arith);
}

/// `far` shows the constellation of `near` with every pair of detections at
/// least as far apart, and with the same pairs usable.
pub open spec fn spread_apart(near: Seq<IRBlob>, far: Seq<IRBlob>) -> bool {
    &&& near.len() == far.len()
    &&& forall|i: int, j: int|
        0 <= i < j < near.len() ==> {
            &&& #[trigger] near[i].distance_squared(near[j]) <= far[i].distance_squared(far[j])
            &&& usable_pair(far[i].distance_squared(far[j])) ==> usable_pair(
                near[i].distance_squared(near[j]),
            )
        }
}

/// `low` and `high` have the same length and `0 <= low[k] <= high[k]`
/// throughout.
pub open spec fn dominated(low: Seq<int>, high: Seq<int>) -> bool {
    &&& low.len() == high.len()
    &&& forall|k: int| 0 <= k < low.len() ==> 0 <= #[trigger] low[k] <= high[k]
}

proof fn lemma_total_dominated(low: Seq<int>, high: Seq<int>)
    requires
        dominated(low, high),
    ensures
        0 <= total(low) <= total(high),
    decreases low.len(),
{
    if low.len() > 0 {
        assert(low.last() == low[low.len() - 1]);
        assert(high.last() == high[high.len() - 1]);
        lemma_total_dominated(low.drop_last(), high.drop_last());
    }
}

proof fn lemma_rows_dominated(near: Seq<IRBlob>, far: Seq<IRBlob>, i: int, j: int)
    requires
        spread_apart(near, far),
        0 <= i < j <= near.len(),
    ensures
        dominated(row_depths(far, i, j), row_depths(near, i, j)),
    decreases j - i,
{
    if j > i + 1 {
        lemma_rows_dominated(near, far, i, j - 1);
        let dn = near[i].distance_squared(near[j - 1]);
        let df = far[i].distance_squared(far[j - 1]);
        if usable_pair(df) {
            lemma_pair_depth_monotonic(dn, df);
            lemma_pair_depth_exists(df);
        }
    }
}

proof fn lemma_before_dominated(near: Seq<IRBlob>, far: Seq<IRBlob>, i: int)
    requires
        spread_apart(near, far),
        0 <= i <= near.len(),
    ensures
        dominated(depths_before(far, i), depths_before(near, i)),
    decreases i,
{
    if i > 0 {
        lemma_before_dominated(near, far, i - 1);
        lemma_rows_dominated(near, far, i - 1, near.len() as int);
    }
}

/// Where no pair of detections moves closer together in the image and the
/// same pairs stay usable, the depth estimate does not rise, and the two
/// frames have an estimate together or not at all. Where every pair moves
/// strictly farther apart the estimate falls: see
/// [`lemma_depth_strictly_decreases_with_distance`].
pub proof fn lemma_depth_decreases_with_distance(near: Seq<IRBlob>, far: Seq<IRBlob>)
    requires
        spread_apart(near, far),
    ensures
        depth_estimate(near) is None <==> depth_estimate(far) is None,
        depth_estimate(near) is Some ==> depth_estimate(far)->0 <= depth_estimate(near)->0,
{
    lemma_before_dominated(near, far, near.len() as int);
    let low = pair_depths(far);
    let high = pair_depths(near);
    lemma_total_dominated(low, high);
    if depth_estimate(near) is Some {
        let c = low.len() as int;
        assert(total(low) / c <= total(high) / c) by (nonlinear_arith)
            requires
                c > 0,
                total(low) <= total(high),
        ;
    }
}

/// No two detections are farther apart than the corners of the coordinate
/// range.
pub proof fn lemma_distance_in_range(a: IRBlob, b: IRBlob)
    ensures
        0 <= a.distance_squared(b) <= MAX_DISTANCE_SQUARED,
{
    let dx = a.x - b.x;
    let dy = a.y - b.y;
    assert(0 <= dx * dx <= 65535 * 65535) by (nonlinear_arith)
        requires
            -65535 <= dx <= 65535,
    ;
    assert(0 <= dy * dy <= 65535 * 65535) by (nonlinear_arith)
        requires
            -65535 <= dy <= 65535,
    ;
}

/// In `far` every pair of detections is strictly farther apart than the
/// same pair of `near`, where no two detections coincide.
pub open spec fn strictly_spread_apart(near: Seq<IRBlob>, far: Seq<IRBlob>) -> bool {
    &&& near.len() == far.len()
    &&& forall|i: int, j: int|
        #![trigger near[i].distance_squared(near[j])]
        #![trigger far[i].distance_squared(far[j])]
        0 <= i < j < near.len() ==> 1 <= near[i].distance_squared(near[j])
            < far[i].distance_squared(far[j])
}

/// `low` and `high` have the same length and `0 <= low[k] < high[k]`
/// throughout.
pub open spec fn strictly_dominated(low: Seq<int>, high: Seq<int>) -> bool {
    &&& low.len() == high.len()
    &&& forall|k: int| 0 <= k < low.len() ==> 0 <= #[trigger] low[k] < high[k]
}

proof fn lemma_total_strictly_dominated(low: Seq<int>, high: Seq<int>)
    requires
        strictly_dominated(low, high),
    ensures
        0 <= total(low),
        total(low) + low.len() <= total(high),
    decreases low.len(),
{
    if low.len() > 0 {
        assert(low.last() == low[low.len() - 1]);
        assert(high.last() == high[high.len() - 1]);
        lemma_total_strictly_dominated(low.drop_last(), high.drop_last());
    }
}

proof fn lemma_rows_strictly_dominated(near: Seq<IRBlob>, far: Seq<IRBlob>, i: int, j: int)
    requires
        strictly_spread_apart(near, far),
        0 <= i < j <= near.len(),
    ensures
        strictly_dominated(row_depths(far, i, j), row_depths(near, i, j)),
    decreases j - i,
{
    if j > i + 1 {
        lemma_rows_strictly_dominated(near, far, i, j - 1);
        let dn = near[i].distance_squared(near[j - 1]);
        let df = far[i].distance_squared(far[j - 1]);
        lemma_distance_in_range(far[i], far[j - 1]);
        lemma_pair_depth_strictly_monotonic(dn, df);
        lemma_pair_depth_exists(df);
    }
}

proof fn lemma_before_strictly_dominated(near: Seq<IRBlob>, far: Seq<IRBlob>, i: int)
    requires
        strictly_spread_apart(near, far),
        0 <= i <= near.len(),
    ensures
        strictly_dominated(depths_before(far, i), depths_before(near, i)),
    decreases i,
{
    if i > 0 {
        lemma_before_strictly_dominated(near, far, i - 1);
        lemma_rows_strictly_dominated(near, far, i - 1, near.len() as int);
    }
}

/// Moving every pair of detections strictly farther apart in the image
/// strictly lowers the depth estimate: for two frames of the same length,
/// at least two detections each, where every pair is at least one pixel
/// apart in `near` and strictly farther apart in `far`, both frames have an
/// estimate and that of `far` is the smaller one.
pub proof fn lemma_depth_strictly_decreases_with_distance(near: Seq<IRBlob>, far: Seq<IRBlob>)
    requires
        near.len() == far.len(),
        near.len() >= 2,
        forall|i: int, j: int|
            #![trigger near[i].distance_squared(near[j])]
            #![trigger far[i].distance_squared(far[j])]
            0 <= i < j < near.len() ==> 1 <= near[i].distance_squared(near[j])
                < far[i].distance_squared(far[j]),
    ensures
        depth_estimate(near) is Some,
        depth_estimate(far) is Some,
        depth_estimate(far)->0 < depth_estimate(near)->0,
{
    let n = near.len() as int;
    assert(strictly_spread_apart(near, far));
    lemma_before_strictly_dominated(near, far, n);
    let low = pair_depths(far);
    let high = pair_depths(near);
    lemma_total_strictly_dominated(low, high);
    lemma_pair_count(near);
    assert(n * (n - 1) >= 2) by (nonlinear_arith)
        requires
            n >= 2,
    ;
    let c = low.len() as int;
    assert(total(low) / c < total(high) / c) by (nonlinear_arith)
        requires
            c > 0,
            total(low) + c <= total(high),
    ;
}

} // verus!
