//! The estimates do not depend on the order of the detections.
//!
//! A frame is an unordered collection: blobs carry no identity, and the
//! camera may list them in any order. Depth and position are sums over the
//! detections and over their pairs, so two frames that hold the same
//! detections, each as often as the other, give the same estimates.

use vstd::prelude::*;
use vstd::seq_lib::{to_multiset_contains, to_multiset_len, to_multiset_remove};
use crate::arith::{lemma_total_push, total};
use crate::blob::IRBlob;
use crate::depth::{depth_estimate, depths_before, pair_depth, pair_depths, row_depths, usable_pair};
use crate::position::{position_estimate, sum_x, sum_y};

verus! {

/// A quantity read off one detection.
enum Measure {
    /// Its horizontal coordinate.
    Horizontal,
    /// Its vertical coordinate.
    Vertical,
    /// The depth of the pair it forms with another detection, or zero
    /// where the two coincide.
    Depth(IRBlob),
    /// One if it forms a usable pair with another detection, else zero.
    Pairing(IRBlob),
}

spec fn measure(m: Measure, b: IRBlob) -> int {
    match m {
        Measure::Horizontal => b.x as int,
        Measure::Vertical => b.y as int,
        Measure::Depth(other) => if usable_pair(b.distance_squared(other)) {
            pair_depth(b.distance_squared(other))
        } else {
            0
        },
        Measure::Pairing(other) => if usable_pair(b.distance_squared(other)) {
            1
        } else {
            0
        },
    }
}

/// The measure against `other` that the pair sums use: depths or counts.
spec fn against(depths: bool, other: IRBlob) -> Measure {
    if depths {
        Measure::Depth(other)
    } else {
        Measure::Pairing(other)
    }
}

/// Sum of a measure over the detections of a frame.
spec fn measured(m: Measure, s: Seq<IRBlob>) -> int
    decreases s.len(),
{
    if s.len() == 0 {
        0
    } else {
        measured(m, s.drop_last()) + measure(m, s.last())
    }
}

/// Sum over all pairs of a frame, of their depths or of their count,
/// taking each detection with all those before it.
spec fn pairs(depths: bool, s: Seq<IRBlob>) -> int
    decreases s.len(),
{
    if s.len() == 0 {
        0
    } else {
        pairs(depths, s.drop_last()) + measured(against(depths, s.last()), s.drop_last())
    }
}

proof fn lemma_distance_symmetric(a: IRBlob, b: IRBlob)
    ensures
        a.distance_squared(b) == b.distance_squared(a),
{
    assert((a.x - b.x) * (a.x - b.x) == (b.x - a.x) * (b.x - a.x)) by (nonlinear_arith);
    assert((a.y - b.y) * (a.y - b.y) == (b.y - a.y) * (b.y - a.y)) by (nonlinear_arith);
}

proof fn lemma_measured_insert(m: Measure, s: Seq<IRBlob>, p: int, x: IRBlob)
    requires
        0 <= p <= s.len(),
    ensures
        measured(m, s.insert(p, x)) == measured(m, s) + measure(m, x),
    decreases s.len(),
{
    let grown = s.insert(p, x);
    if p == s.len() {
        assert(grown.drop_last() =~= s);
    } else {
        assert(grown.drop_last() =~= s.drop_last().insert(p, x));
        assert(grown.last() == s.last());
        lemma_measured_insert(m, s.drop_last(), p, x);
    }
}

/// Splits the last detection of `a` off both frames: the place where `b`
/// holds it, with what is left of the two frames holding the same
/// detections again.
proof fn lemma_split_last(a: Seq<IRBlob>, b: Seq<IRBlob>) -> (p: int)
    requires
        a.len() > 0,
        a.to_multiset() == b.to_multiset(),
    ensures
        0 <= p < b.len(),
        b[p] == a.last(),
        a.drop_last().to_multiset() == b.remove(p).to_multiset(),
        b.remove(p).insert(p, a.last()) == b,
        b.remove(p).len() == a.len() - 1,
{
    let x = a.last();
    to_multiset_len(a);
    to_multiset_len(b);
    assert(a[a.len() - 1] == x);
    assert(a.contains(x));
    to_multiset_contains(a, x);
    to_multiset_contains(b, x);
    let p = choose|p: int| 0 <= p < b.len() && b[p] == x;
    to_multiset_remove(a, a.len() - 1);
    to_multiset_remove(b, p);
    assert(a.drop_last() =~= a.remove(a.len() - 1));
    assert(b.remove(p).insert(p, x) =~= b);
    p
}

proof fn lemma_measured_ignores_order(m: Measure, a: Seq<IRBlob>, b: Seq<IRBlob>)
    requires
        a.to_multiset() == b.to_multiset(),
    ensures
        measured(m, a) == measured(m, b),
    decreases a.len(),
{
    to_multiset_len(a);
    to_multiset_len(b);
    if a.len() > 0 {
        let p = lemma_split_last(a, b);
        lemma_measured_ignores_order(m, a.drop_last(), b.remove(p));
        lemma_measured_insert(m, b.remove(p), p, a.last());
    }
}

proof fn lemma_pairs_insert(depths: bool, s: Seq<IRBlob>, p: int, x: IRBlob)
    requires
        0 <= p <= s.len(),
    ensures
        pairs(depths, s.insert(p, x)) == pairs(depths, s) + measured(against(depths, x), s),
    decreases s.len(),
{
    let grown = s.insert(p, x);
    if p == s.len() {
        assert(grown.drop_last() =~= s);
    } else {
        let rest = s.drop_last();
        let last = s.last();
        assert(grown.drop_last() =~= rest.insert(p, x));
        assert(grown.last() == last);
        lemma_pairs_insert(depths, rest, p, x);
        lemma_measured_insert(against(depths, last), rest, p, x);
        lemma_distance_symmetric(x, last);
    }
}

proof fn lemma_pairs_ignore_order(depths: bool, a: Seq<IRBlob>, b: Seq<IRBlob>)
    requires
        a.to_multiset() == b.to_multiset(),
    ensures
        pairs(depths, a) == pairs(depths, b),
    decreases a.len(),
{
    to_multiset_len(a);
    to_multiset_len(b);
    if a.len() > 0 {
        let p = lemma_split_last(a, b);
        lemma_pairs_ignore_order(depths, a.drop_last(), b.remove(p));
        lemma_measured_ignores_order(against(depths, a.last()), a.drop_last(), b.remove(p));
        lemma_pairs_insert(depths, b.remove(p), p, a.last());
    }
}

proof fn lemma_total_concat(a: Seq<int>, b: Seq<int>)
    ensures
        total(a + b) == total(a) + total(b),
    decreases b.len(),
{
    if b.len() == 0 {
        assert(a + b =~= a);
    } else {
        assert((a + b).drop_last() =~= a + b.drop_last());
        assert((a + b).last() == b.last());
        lemma_total_concat(a, b.drop_last());
    }
}

/// A row of pair depths looks only at the detections before its end.
proof fn lemma_row_of_prefix(s: Seq<IRBlob>, x: IRBlob, i: int, j: int)
    requires
        0 <= i,
        j <= s.len(),
    ensures
        row_depths(s.push(x), i, j) == row_depths(s, i, j),
    decreases j - i,
{
    if j > i + 1 {
        lemma_row_of_prefix(s, x, i, j - 1);
    }
}

/// One more detection adds to the row of `i` its pair with `i`.
proof fn lemma_row_grows(s: Seq<IRBlob>, x: IRBlob, i: int)
    requires
        0 <= i < s.len(),
    ensures
        total(row_depths(s.push(x), i, s.len() as int + 1)) == total(row_depths(s, i, s.len() as int))
            + measure(Measure::Depth(x), s[i]),
        row_depths(s.push(x), i, s.len() as int + 1).len() == row_depths(s, i, s.len() as int).len()
            + measure(Measure::Pairing(x), s[i]),
{
    let n = s.len() as int;
    lemma_row_of_prefix(s, x, i, n);
    let d2 = s[i].distance_squared(x);
    assert(s.push(x)[i] == s[i]);
    assert(s.push(x)[n] == x);
    if usable_pair(d2) {
        lemma_total_push(row_depths(s, i, n), pair_depth(d2));
    }
}

/// One more detection adds to the rows before `m` its pairs with the
/// first `m` detections.
proof fn lemma_before_grows(s: Seq<IRBlob>, x: IRBlob, m: int)
    requires
        0 <= m <= s.len(),
    ensures
        total(depths_before(s.push(x), m)) == total(depths_before(s, m)) + measured(
            Measure::Depth(x),
            s.take(m),
        ),
        depths_before(s.push(x), m).len() == depths_before(s, m).len() + measured(
            Measure::Pairing(x),
            s.take(m),
        ),
    decreases m,
{
    if m > 0 {
        let n = s.len() as int;
        lemma_before_grows(s, x, m - 1);
        lemma_row_grows(s, x, m - 1);
        lemma_total_concat(depths_before(s.push(x), m - 1), row_depths(s.push(x), m - 1, n + 1));
        lemma_total_concat(depths_before(s, m - 1), row_depths(s, m - 1, n));
        assert(s.take(m).drop_last() =~= s.take(m - 1));
        assert(s.take(m).last() == s[m - 1]);
    }
}

/// The pair depths of a frame add up to its sum over pairs, and there are
/// as many as it has usable pairs.
proof fn lemma_pair_depths_are_pairs(s: Seq<IRBlob>)
    ensures
        total(pair_depths(s)) == pairs(true, s),
        pair_depths(s).len() == pairs(false, s),
    decreases s.len(),
{
    if s.len() > 0 {
        let t = s.drop_last();
        let x = s.last();
        let n = t.len() as int;
        assert(s =~= t.push(x));
        lemma_pair_depths_are_pairs(t);
        lemma_before_grows(t, x, n);
        assert(t.take(n) =~= t);
        assert(row_depths(s, n, n + 1) =~= Seq::<int>::empty());
        assert(depths_before(s, n + 1) =~= depths_before(s, n));
    }
}

proof fn lemma_sums_are_measured(s: Seq<IRBlob>, k: int)
    requires
        0 <= k <= s.len(),
    ensures
        sum_x(s, k) == measured(Measure::Horizontal, s.take(k)),
        sum_y(s, k) == measured(Measure::Vertical, s.take(k)),
    decreases k,
{
    if k > 0 {
        lemma_sums_are_measured(s, k - 1);
        assert(s.take(k).drop_last() =~= s.take(k - 1));
        assert(s.take(k).last() == s[k - 1]);
    }
}

/// Two frames that hold the same detections, in whatever order, have the
/// same depth estimate.
pub proof fn lemma_depth_ignores_order(a: Seq<IRBlob>, b: Seq<IRBlob>)
    requires
        a.to_multiset() == b.to_multiset(),
    ensures
        depth_estimate(a) == depth_estimate(b),
{
    to_multiset_len(a);
    to_multiset_len(b);
    lemma_pair_depths_are_pairs(a);
    lemma_pair_depths_are_pairs(b);
    lemma_pairs_ignore_order(true, a, b);
    lemma_pairs_ignore_order(false, a, b);
}

/// Two frames that hold the same detections, in whatever order, have the
/// same position estimate.
pub proof fn lemma_position_ignores_order(a: Seq<IRBlob>, b: Seq<IRBlob>)
    requires
        a.to_multiset() == b.to_multiset(),
    ensures
        position_estimate(a) == position_estimate(b),
{
    to_multiset_len(a);
    to_multiset_len(b);
    lemma_depth_ignores_order(a, b);
    lemma_sums_are_measured(a, a.len() as int);
    lemma_sums_are_measured(b, b.len() as int);
    assert(a.take(a.len() as int) =~= a);
    assert(b.take(b.len() as int) =~= b);
    lemma_measured_ignores_order(Measure::Horizontal, a, b);
    lemma_measured_ignores_order(Measure::Vertical, a, b);
}

} // verus!
