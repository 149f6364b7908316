//! Histories of operations on the tracking state.
//!
//! A device guarded by one lock sees its operations one after another, in
//! some order. Whatever that order is, the laws below hold of it.

use vstd::prelude::*;
use crate::blob::IRBlob;
use crate::device::{DeviceState, StreamEvent};
use crate::filter::next_stored;
use crate::pose::Quaternion;
use crate::position::position_estimate;

verus! {

/// One operation on the tracking state.
pub enum Operation {
    /// The outcome of opening the two streams.
    Connect { headset_opened: bool, tracking_opened: bool },
    /// An event of the orientation stream.
    Headset(StreamEvent<Quaternion>),
    /// An event of the tracking stream.
    Tracking(StreamEvent<Seq<IRBlob>>),
    /// A position query of the consumer.
    PositionQuery,
    /// The release of the device by its owner.
    Release,
}

impl Operation {
    /// Whether the operation publishes an orientation sample.
    pub open spec fn is_orientation_sample(self) -> bool {
        self matches Operation::Headset(StreamEvent::Record(_))
    }

    /// Whether the operation publishes a frame of detections.
    pub open spec fn is_frame(self) -> bool {
        self matches Operation::Tracking(StreamEvent::Record(_))
    }
}

/// The state after one operation.
pub open spec fn apply(state: DeviceState, op: Operation) -> DeviceState {
    match op {
        Operation::Connect { headset_opened, tracking_opened } => state.after_connect(
            headset_opened,
            tracking_opened,
        ),
        Operation::Headset(event) => state.after_headset_event(event),
        Operation::Tracking(event) => state.after_tracking_event(event),
        Operation::PositionQuery => state.after_position_query(),
        Operation::Release => state.after_release(),
    }
}

/// The state after a history of operations, the first one first.
pub open spec fn run(state: DeviceState, ops: Seq<Operation>) -> DeviceState
    decreases ops.len(),
{
    if ops.len() == 0 {
        state
    } else {
        apply(run(state, ops.drop_last()), ops.last())
    }
}

/// Every position query runs the temporal filter exactly once, on the frame
/// and the smoothed position that all earlier operations have left behind.
pub proof fn lemma_each_query_filters_once(state: DeviceState, ops: Seq<Operation>)
    ensures
        run(state, ops.push(Operation::PositionQuery)).smoothed == next_stored(
            run(state, ops).smoothed,
            position_estimate(run(state, ops).blobs),
        ),
        run(state, ops.push(Operation::PositionQuery)).blobs == run(state, ops).blobs,
        run(state, ops.push(Operation::PositionQuery)).quaternion == run(state, ops).quaternion,
        run(state, ops.push(Operation::PositionQuery)).connected == run(state, ops).connected,
{
    assert(ops.push(Operation::PositionQuery).drop_last() =~= ops);
}

/// Once the streams were opened, connectivity is only ever lost: whatever
/// happens to the device afterwards, another attempt to connect included,
/// it cannot end connected unless it began so.
pub proof fn lemma_connection_is_never_regained(state: DeviceState, ops: Seq<Operation>)
    requires
        state.opened,
    ensures
        run(state, ops).opened,
        run(state, ops).connected ==> state.connected,
    decreases ops.len(),
{
    if ops.len() > 0 {
        lemma_connection_is_never_regained(state, ops.drop_last());
    }
}

/// A device is connected only if its streams were opened: from a state of
/// which this holds, every history leads to one of which it holds.
pub proof fn lemma_connected_means_opened(state: DeviceState, ops: Seq<Operation>)
    requires
        state.connected ==> state.opened,
    ensures
        run(state, ops).connected ==> run(state, ops).opened,
    decreases ops.len(),
{
    if ops.len() > 0 {
        lemma_connected_means_opened(state, ops.drop_last());
    }
}

/// A released device is left alone: it stays released and unconnected,
/// and no event of either stream changes its orientation or its
/// detections any more.
pub proof fn lemma_released_device_is_inert(state: DeviceState, ops: Seq<Operation>)
    requires
        state.released,
    ensures
        run(state, ops).released,
        run(state, ops).quaternion == state.quaternion,
        run(state, ops).blobs == state.blobs,
        run(state, ops).connected ==> state.connected,
        run(state, ops.push(Operation::Release)).connected == false,
    decreases ops.len(),
{
    if ops.len() > 0 {
        lemma_released_device_is_inert(state, ops.drop_last());
    }
    assert(ops.push(Operation::Release).drop_last() =~= ops);
}

/// A device is released by a release only.
proof fn lemma_unreleased(state: DeviceState, ops: Seq<Operation>)
    requires
        !state.released,
        forall|j: int| 0 <= j < ops.len() ==> !(#[trigger] ops[j] is Release),
    ensures
        !run(state, ops).released,
    decreases ops.len(),
{
    if ops.len() > 0 {
        assert(forall|j: int|
            0 <= j < ops.drop_last().len() ==> ops.drop_last()[j] == #[trigger] ops[j]);
        lemma_unreleased(state, ops.drop_last());
        assert(!(ops[ops.len() - 1] is Release));
    }
}

/// The orientation is always that of the latest sample, whole: if the
/// `k`-th operation publishes `sample` to a device that was not released
/// before, and none after it publishes another, the history ends with
/// `sample`.
pub proof fn lemma_orientation_is_latest_sample(
    state: DeviceState,
    ops: Seq<Operation>,
    k: int,
    sample: Quaternion,
)
    requires
        0 <= k < ops.len(),
        ops[k] == Operation::Headset(StreamEvent::Record(sample)),
        forall|j: int| k < j < ops.len() ==> !(#[trigger] ops[j]).is_orientation_sample(),
        !state.released,
        forall|j: int| 0 <= j < k ==> !(#[trigger] ops[j] is Release),
    ensures
        run(state, ops).quaternion == sample,
    decreases ops.len(),
{
    assert(forall|j: int|
        0 <= j < ops.drop_last().len() ==> ops.drop_last()[j] == #[trigger] ops[j]);
    if k < ops.len() - 1 {
        lemma_orientation_is_latest_sample(state, ops.drop_last(), k, sample);
        assert(!ops[ops.len() - 1].is_orientation_sample());
    } else {
        lemma_unreleased(state, ops.drop_last());
    }
}

/// Before the first sample the orientation is what it was: a history that
/// publishes no sample leaves it alone.
pub proof fn lemma_orientation_kept_without_sample(state: DeviceState, ops: Seq<Operation>)
    requires
        forall|j: int| 0 <= j < ops.len() ==> !(#[trigger] ops[j]).is_orientation_sample(),
    ensures
        run(state, ops).quaternion == state.quaternion,
    decreases ops.len(),
{
    if ops.len() > 0 {
        assert(forall|j: int|
            0 <= j < ops.drop_last().len() ==> ops.drop_last()[j] == #[trigger] ops[j]);
        lemma_orientation_kept_without_sample(state, ops.drop_last());
        assert(!ops[ops.len() - 1].is_orientation_sample());
    }
}

/// The detections are always those of the latest complete frame: if the
/// `k`-th operation publishes `frame` to a device that was not released
/// before, and none after it publishes another, the history ends with
/// `frame`.
pub proof fn lemma_blobs_are_latest_frame(
    state: DeviceState,
    ops: Seq<Operation>,
    k: int,
    frame: Seq<IRBlob>,
)
    requires
        0 <= k < ops.len(),
        ops[k] == Operation::Tracking(StreamEvent::Record(frame)),
        forall|j: int| k < j < ops.len() ==> !(#[trigger] ops[j]).is_frame(),
        !state.released,
        forall|j: int| 0 <= j < k ==> !(#[trigger] ops[j] is Release),
    ensures
        run(state, ops).blobs == frame,
    decreases ops.len(),
{
    assert(forall|j: int|
        0 <= j < ops.drop_last().len() ==> ops.drop_last()[j] == #[trigger] ops[j]);
    if k < ops.len() - 1 {
        lemma_blobs_are_latest_frame(state, ops.drop_last(), k, frame);
        assert(!ops[ops.len() - 1].is_frame());
    } else {
        lemma_unreleased(state, ops.drop_last());
    }
}

/// The smoothed position moves in position queries only: a history
/// without one ends with the position it began with.
pub proof fn lemma_position_moves_in_queries_only(state: DeviceState, ops: Seq<Operation>)
    requires
        forall|j: int| 0 <= j < ops.len() ==> !(#[trigger] ops[j] is PositionQuery),
    ensures
        run(state, ops).smoothed == state.smoothed,
    decreases ops.len(),
{
    if ops.len() > 0 {
        assert(forall|j: int|
            0 <= j < ops.drop_last().len() ==> ops.drop_last()[j] == #[trigger] ops[j]);
        lemma_position_moves_in_queries_only(state, ops.drop_last());
        assert(!(ops[ops.len() - 1] is PositionQuery));
    }
}

} // verus!
