//! Temporal filtering of the position stream.
//!
//! Each raw position is blended into the previous smoothed position with an
//! exponentially weighted moving average. A raw position whose depth jumps
//! too far from the previous one is discarded, and so the previous position
//! is held; it is held as well when a frame yields no position at all.

use vstd::prelude::*;
use vstd::math::abs;
use crate::pose::{point_of, Point, Vec3};

verus! {

/// A depth jump of more than half a metre, in length units, marks an
/// outlier.
pub const OUTLIER_THRESHOLD: i64 = 50_000_000_000_000;

/// Numerator of the smoothing factor: the weight, in tenths, of the
/// previous smoothed position.
pub const SMOOTHING_NUM: i64 = 9;

/// Denominator of the smoothing factor.
pub const SMOOTHING_DEN: i64 = 10;

/// Factor by which a freshly smoothed position is amplified when reported.
pub const POSITION_SCALE: i64 = 2;

/// Largest magnitude of a coordinate whose amplified value is representable.
pub const COORD_LIMIT: i64 = 4_611_686_018_427_387_903;

/// One coordinate of the moving average:
/// `previous * 9/10 + raw * 1/10`, rounded to the whole unit that lies
/// toward `raw`.
pub open spec fn smooth(previous: int, raw: int) -> int {
    let weighted = SMOOTHING_NUM * previous + (SMOOTHING_DEN - SMOOTHING_NUM) * raw;
    if previous <= raw {
        -((-weighted) / (SMOOTHING_DEN as int))
    } else {
        weighted / (SMOOTHING_DEN as int)
    }
}

/// The moving average of two positions, coordinate by coordinate.
pub open spec fn smooth_point(previous: Point, raw: Point) -> Point {
    Point {
        x: smooth(previous.x, raw.x),
        y: smooth(previous.y, raw.y),
        z: smooth(previous.z, raw.z),
    }
}

/// A raw position is an outlier when its depth differs from the previous
/// smoothed depth by more than the threshold, unless the previous depth is
/// zero, which means that nothing has been estimated yet.
pub open spec fn is_outlier(previous: Point, raw: Point) -> bool {
    abs(raw.z - previous.z) > OUTLIER_THRESHOLD && previous.z != 0
}

/// Whether the filter takes the raw position into the average.
pub open spec fn accepts(previous: Point, raw: Option<Point>) -> bool {
    raw matches Some(r) && !is_outlier(previous, r)
}

/// The smoothed position that the filter stores for the next cycle.
pub open spec fn next_stored(previous: Point, raw: Option<Point>) -> Point {
    if accepts(previous, raw) {
        smooth_point(previous, raw->0)
    } else {
        previous
    }
}

/// A position with every coordinate multiplied by `POSITION_SCALE`.
pub open spec fn amplified(p: Point) -> Point {
    Point { x: POSITION_SCALE * p.x, y: POSITION_SCALE * p.y, z: POSITION_SCALE * p.z }
}

/// The position that the filter reports: the amplified new average when
/// the raw position is accepted, the previous smoothed position as it
/// stands when it is held.
pub open spec fn reported(previous: Point, raw: Option<Point>) -> Point {
    if accepts(previous, raw) {
        amplified(next_stored(previous, raw))
    } else {
        previous
    }
}

/// The average lies between its two inputs, and its distance from the raw
/// value is nine tenths of the previous distance, rounded down.
pub proof fn lemma_smooth_contracts(previous: int, raw: int)
    ensures
        previous <= raw ==> previous <= smooth(previous, raw) <= raw,
        raw <= previous ==> raw <= smooth(previous, raw) <= previous,
        abs(smooth(previous, raw) - raw) == (SMOOTHING_NUM * abs(previous - raw)) / (
        SMOOTHING_DEN as int),
{
}

/// Computes one coordinate of the moving average.
fn smooth_axis(previous: i64, raw: i64) -> (s: i64)
    ensures
        s == smooth(previous as int, raw as int),
{
    proof {
        lemma_smooth_contracts(previous as int, raw as int);
    }
    let weighted: i128 = (SMOOTHING_NUM as i128) * (previous as i128) + ((SMOOTHING_DEN
        - SMOOTHING_NUM) as i128) * (raw as i128);
    let quotient: i128 = weighted / (SMOOTHING_DEN as i128);
    let rest: i128 = weighted % (SMOOTHING_DEN as i128);
    if previous <= raw {
        if rest > 0 {
            (quotient + 1) as i64
        } else {
            quotient as i64
        }
    } else {
        if rest < 0 {
            (quotient - 1) as i64
        } else {
            quotient as i64
        }
    }
}

/// Blends a raw position into the previous smoothed position.
pub fn smooth_position(previous: Vec3, raw: Vec3) -> (s: Vec3)
    ensures
        s@ == smooth_point(previous@, raw@),
{
    Vec3 {
        x: smooth_axis(previous.x, raw.x),
        y: smooth_axis(previous.y, raw.y),
        z: smooth_axis(previous.z, raw.z),
    }
}

/// Amplifies a smoothed position for reporting.
///
/// The coordinates must leave room for the amplification.
pub fn amplify(p: Vec3) -> (a: Vec3)
    requires
        p@.within(COORD_LIMIT as int),
    ensures
        a@ == amplified(p@),
{
    Vec3 { x: POSITION_SCALE * p.x, y: POSITION_SCALE * p.y, z: POSITION_SCALE * p.z }
}

/// What one filter cycle yields.
#[derive(Clone, Copy, Debug, PartialEq, Eq, Structural)]
pub struct Filtered {
    /// The smoothed position to keep for the next cycle.
    pub stored: Vec3,
    /// The position to hand to the consumer.
    pub reported: Vec3,
}

/// Runs one cycle of the filter on the previous smoothed position and the
/// raw position of the current frame, if it has one.
///
/// The coordinates must leave room for the amplification.
pub fn temporal_filter(previous: Vec3, raw: Option<Vec3>) -> (out: Filtered)
    requires
        previous@.within(COORD_LIMIT as int),
        raw matches Some(r) ==> r@.within(COORD_LIMIT as int),
    ensures
        out.stored@ == next_stored(previous@, point_of(raw)),
        out.reported@ == reported(previous@, point_of(raw)),
        out.stored@.within(COORD_LIMIT as int),
        raw is None ==> out.stored == previous && out.reported == previous,
{
    match raw {
        None => Filtered { stored: previous, reported: previous },
        Some(r) => {
            let jump: i128 = r.z as i128 - previous.z as i128;
            let far: bool = jump > OUTLIER_THRESHOLD as i128 || jump < -(OUTLIER_THRESHOLD
                as i128);
            if far && previous.z != 0 {
                Filtered { stored: previous, reported: previous }
            } else {
                proof {
                    lemma_smooth_contracts(previous.x as int, r.x as int);
                    lemma_smooth_contracts(previous.y as int, r.y as int);
                    lemma_smooth_contracts(previous.z as int, r.z as int);
                }
                let stored = smooth_position(previous, r);
                let reported = amplify(stored);
                Filtered { stored, reported }
            }
        },
    }
}

/// The stored position after the same raw position has been fed to the
/// filter `n` times in a row.
pub open spec fn feed(previous: Point, raw: Point, n: nat) -> Point
    decreases n,
{
    if n == 0 {
        previous
    } else {
        next_stored(feed(previous, raw, (n - 1) as nat), Some(raw))
    }
}

/// Whether the filter, fed `raw` again and again from `previous`, keeps
/// taking it in: the raw depth lies within the outlier threshold of the
/// previous one, or nothing was estimated before and the first step brings
/// the stored depth within the threshold.
pub open spec fn settles(previous: Point, raw: Point) -> bool {
    ||| abs(raw.z - previous.z) <= OUTLIER_THRESHOLD
    ||| previous.z == 0 && (SMOOTHING_NUM * abs(raw.z)) / (SMOOTHING_DEN as int)
        <= OUTLIER_THRESHOLD
}

/// What is left of a distance `d` after `n` cycles if each cycle removes at
/// least one unit of it.
pub open spec fn remaining(d: int, n: nat) -> int {
    if d > n {
        d - n
    } else {
        0
    }
}

proof fn lemma_feed(previous: Point, raw: Point, n: nat)
    requires
        settles(previous, raw),
    ensures
        settles(feed(previous, raw, n), raw),
        feed(previous, raw, n + 1) == smooth_point(feed(previous, raw, n), raw),
        abs(feed(previous, raw, n).x - raw.x) <= remaining(abs(previous.x - raw.x) as int, n),
        abs(feed(previous, raw, n).y - raw.y) <= remaining(abs(previous.y - raw.y) as int, n),
        abs(feed(previous, raw, n).z - raw.z) <= remaining(abs(previous.z - raw.z) as int, n),
    decreases n,
{
    if n > 0 {
        lemma_feed(previous, raw, (n - 1) as nat);
        let before = feed(previous, raw, (n - 1) as nat);
        lemma_smooth_contracts(before.x, raw.x);
        lemma_smooth_contracts(before.y, raw.y);
        lemma_smooth_contracts(before.z, raw.z);
    }
    reveal_with_fuel(feed, 2);
}

/// Fed the same raw position again and again from a state that settles,
/// the filter never rejects it, and each cycle shrinks the distance between
/// the stored and the raw position, on every axis, to nine tenths of what
/// it was, rounded down: the stored position moves toward the raw one and
/// never away from it.
pub proof fn lemma_feed_approaches(previous: Point, raw: Point, n: nat)
    requires
        settles(previous, raw),
    ensures
        ({
            let before = feed(previous, raw, n);
            let after = feed(previous, raw, n + 1);
            &&& accepts(before, Some(raw))
            &&& abs(after.x - raw.x) == (SMOOTHING_NUM * abs(before.x - raw.x)) / (
            SMOOTHING_DEN as int)
            &&& abs(after.y - raw.y) == (SMOOTHING_NUM * abs(before.y - raw.y)) / (
            SMOOTHING_DEN as int)
            &&& abs(after.z - raw.z) == (SMOOTHING_NUM * abs(before.z - raw.z)) / (
            SMOOTHING_DEN as int)
            &&& abs(after.x - raw.x) <= abs(before.x - raw.x)
            &&& abs(after.y - raw.y) <= abs(before.y - raw.y)
            &&& abs(after.z - raw.z) <= abs(before.z - raw.z)
            &&& before.x != raw.x ==> abs(after.x - raw.x) < abs(before.x - raw.x)
            &&& before.y != raw.y ==> abs(after.y - raw.y) < abs(before.y - raw.y)
            &&& before.z != raw.z ==> abs(after.z - raw.z) < abs(before.z - raw.z)
        }),
{
    lemma_feed(previous, raw, n);
    let before = feed(previous, raw, n);
    lemma_smooth_contracts(before.x, raw.x);
    lemma_smooth_contracts(before.y, raw.y);
    lemma_smooth_contracts(before.z, raw.z);
}

/// From a state that settles, the stored position reaches the raw position
/// after finitely many cycles and stays there: at the latest after as many
/// cycles as the largest initial distance has units.
pub proof fn lemma_feed_converges(previous: Point, raw: Point, n: nat)
    requires
        settles(previous, raw),
        n >= abs(previous.x - raw.x),
        n >= abs(previous.y - raw.y),
        n >= abs(previous.z - raw.z),
    ensures
        feed(previous, raw, n) == raw,
{
    lemma_feed(previous, raw, n);
}

/// From a state that does not settle, the stored position never reaches the
/// raw one: the filter stops taking the raw position in after the first
/// cycle at the latest, and holds a depth that differs from the raw depth.
pub proof fn lemma_feed_stalls(previous: Point, raw: Point, n: nat)
    requires
        !settles(previous, raw),
        n >= 1,
    ensures
        feed(previous, raw, n) == feed(previous, raw, 1),
        feed(previous, raw, n).z != raw.z,
    decreases n,
{
    reveal_with_fuel(feed, 2);
    lemma_smooth_contracts(previous.z, raw.z);
    if n > 1 {
        lemma_feed_stalls(previous, raw, (n - 1) as nat);
    }
}

} // verus!
