//! The tracking state shared by the telemetry producers and the consumer.
//!
//! One [`VRDevice`] holds the latest orientation, the latest frame of
//! detections, the last smoothed position and the connectivity flag. Its
//! streams are opened once: after that, connectivity can only be lost, and
//! once the device is released its listeners stop at their next event. Every
//! operation takes the whole value, so a caller that guards a device with
//! one lock gets each operation as one indivisible step: a write replaces
//! exactly one field, and a position query reads the frame and the
//! previous position and stores the new one without anything in between.

use vstd::prelude::*;
use crate::blob::IRBlob;
use crate::filter::{next_stored, reported, temporal_filter, COORD_LIMIT};
use crate::pose::{Point, Quaternion, Vec3};
use crate::position::position_estimate;

verus! {

/// The tracking state of one headset.
pub struct VRDevice {
    quaternion: Quaternion,
    ir_blobs: Vec<IRBlob>,
    smoothed_position: Vec3,
    connected: bool,
    opened: bool,
    released: bool,
}

/// The mathematical value of a [`VRDevice`].
pub struct DeviceState {
    /// The last orientation sample, or the identity before the first one.
    pub quaternion: Quaternion,
    /// The detections of the last complete frame.
    pub blobs: Seq<IRBlob>,
    /// The smoothed position kept from the last accepted estimate.
    pub smoothed: Point,
    /// Whether both streams were opened and none has failed since.
    pub connected: bool,
    /// Whether both streams were opened at some time.
    pub opened: bool,
    /// Whether the device was released by its owner.
    pub released: bool,
}

/// What a telemetry listener learns from one attempt to read a record.
pub enum StreamEvent<T> {
    /// A record arrived and parsed as a sample.
    Record(T),
    /// A record arrived that is no valid sample.
    Malformed,
    /// Nothing arrived within the read timeout.
    TimedOut,
    /// The stream has ended.
    Closed,
    /// The read failed for any other reason.
    Failed,
}

/// What a telemetry listener does after an event.
#[derive(Clone, Copy, Debug, PartialEq, Eq, Structural)]
pub enum ListenerAction {
    /// Read the next record.
    Continue,
    /// Leave the loop for good.
    Stop,
}

/// The diagnostic record of one position estimate.
#[derive(Clone, Copy, Debug, PartialEq, Eq, Structural)]
pub struct TraceRecord {
    /// The raw, unfiltered position.
    pub position: Vec3,
    /// The estimated depth, in length units.
    pub depth: u64,
    /// The number of detections in the frame.
    pub blobs: usize,
}

/// A listener goes on after every event but the end of its stream and a
/// failed read, as long as the device is not released.
pub open spec fn listener_action<T>(state: DeviceState, event: StreamEvent<T>) -> ListenerAction {
    if state.released {
        ListenerAction::Stop
    } else {
        match event {
            StreamEvent::Closed | StreamEvent::Failed => ListenerAction::Stop,
            _ => ListenerAction::Continue,
        }
    }
}

/// The mathematical value of an event of the tracking stream.
pub open spec fn frame_event(event: StreamEvent<Vec<IRBlob>>) -> StreamEvent<Seq<IRBlob>> {
    match event {
        StreamEvent::Record(frame) => StreamEvent::Record(frame@),
        StreamEvent::Malformed => StreamEvent::Malformed,
        StreamEvent::TimedOut => StreamEvent::TimedOut,
        StreamEvent::Closed => StreamEvent::Closed,
        StreamEvent::Failed => StreamEvent::Failed,
    }
}

impl DeviceState {
    /// The state of a new device: identity orientation, no detections, the
    /// origin as position, not connected, never opened, not released.
    pub open spec fn initial() -> DeviceState {
        DeviceState {
            quaternion: Quaternion::spec_identity(),
            blobs: Seq::empty(),
            smoothed: Point::zero(),
            connected: false,
            opened: false,
            released: false,
        }
    }

    /// Whether an attempt to open the two streams takes effect: both were
    /// opened, and the device is neither released nor were its streams
    /// opened before.
    pub open spec fn connects(self, headset_opened: bool, tracking_opened: bool) -> bool {
        headset_opened && tracking_opened && !self.opened && !self.released
    }

    /// The state after an attempt to open the two streams: connected and
    /// opened if the attempt takes effect, unchanged otherwise.
    pub open spec fn after_connect(self, headset_opened: bool, tracking_opened: bool) -> DeviceState {
        if self.connects(headset_opened, tracking_opened) {
            DeviceState { connected: true, opened: true, ..self }
        } else {
            self
        }
    }

    /// The state after an event of the orientation stream: a sample replaces
    /// the orientation, a failed read clears the connectivity flag, and
    /// nothing else changes anything; nor does any event once the device is
    /// released.
    pub open spec fn after_headset_event(self, event: StreamEvent<Quaternion>) -> DeviceState {
        if self.released {
            self
        } else {
            match event {
                StreamEvent::Record(sample) => DeviceState { quaternion: sample, ..self },
                StreamEvent::Failed => DeviceState { connected: false, ..self },
                _ => self,
            }
        }
    }

    /// The state after an event of the tracking stream: a frame replaces
    /// the detections wholesale, a failed read clears the connectivity
    /// flag, and nothing else changes anything; nor does any event once the
    /// device is released.
    pub open spec fn after_tracking_event(self, event: StreamEvent<Seq<IRBlob>>) -> DeviceState {
        if self.released {
            self
        } else {
            match event {
                StreamEvent::Record(frame) => DeviceState { blobs: frame, ..self },
                StreamEvent::Failed => DeviceState { connected: false, ..self },
                _ => self,
            }
        }
    }

    /// The state after the owner has released the device: released and not
    /// connected.
    pub open spec fn after_release(self) -> DeviceState {
        DeviceState { connected: false, released: true, ..self }
    }

    /// The raw position of the current frame, if it has one.
    pub open spec fn raw_position(self) -> Option<Point> {
        position_estimate(self.blobs)
    }

    /// The state after a position query: one cycle of the temporal filter
    /// on the current frame.
    pub open spec fn after_position_query(self) -> DeviceState {
        DeviceState { smoothed: next_stored(self.smoothed, self.raw_position()), ..self }
    }

    /// The position that a position query reports.
    pub open spec fn reported_position(self) -> Point {
        reported(self.smoothed, self.raw_position())
    }
}

impl View for VRDevice {
    type V = DeviceState;

    closed spec fn view(&self) -> DeviceState {
        DeviceState {
            quaternion: self.quaternion,
            blobs: self.ir_blobs@,
            smoothed: self.smoothed_position@,
            connected: self.connected,
            opened: self.opened,
            released: self.released,
        }
    }
}

impl VRDevice {
    #[verifier::type_invariant]
    spec fn coordinates_in_range(self) -> bool {
        self.smoothed_position@.within(COORD_LIMIT as int)
    }

    /// Creates a device in its initial state.
    pub fn new() -> (device: VRDevice)
        ensures
            device@ == DeviceState::initial(),
    {
        VRDevice {
            quaternion: Quaternion::identity(),
            ir_blobs: Vec::new(),
            smoothed_position: Vec3 { x: 0, y: 0, z: 0 },
            connected: false,
            opened: false,
            released: false,
        }
    }

    /// Records the outcome of opening the two telemetry streams and tells
    /// whether the device is ready: it is, and is marked connected, exactly
    /// when both streams were opened and this is the first time.
    ///
    /// The streams of a device are opened once. On a device whose streams
    /// were opened before, or that is released, the call changes nothing
    /// and returns `false`: a connection that was lost is never regained.
    pub fn connect(&mut self, headset_opened: bool, tracking_opened: bool) -> (ready: bool)
        ensures
            ready == old(self)@.connects(headset_opened, tracking_opened),
            final(self)@ == old(self)@.after_connect(headset_opened, tracking_opened),
    {
        proof {
            use_type_invariant(&*self);
        }
        if !headset_opened {
            return false;
        }
        if !tracking_opened {
            return false;
        }
        if self.opened || self.released {
            return false;
        }
        self.connected = true;
        self.opened = true;
        true
    }

    /// Takes in one event of the orientation stream.
    pub fn on_headset_event(&mut self, event: StreamEvent<Quaternion>) -> (action: ListenerAction)
        ensures
            final(self)@ == old(self)@.after_headset_event(event),
            action == listener_action(old(self)@, event),
    {
        proof {
            use_type_invariant(&*self);
        }
        if self.released {
            return ListenerAction::Stop;
        }
        match event {
            StreamEvent::Record(sample) => {
                self.quaternion = sample;
                ListenerAction::Continue
            },
            StreamEvent::Malformed => ListenerAction::Continue,
            StreamEvent::TimedOut => ListenerAction::Continue,
            StreamEvent::Closed => ListenerAction::Stop,
            StreamEvent::Failed => {
                self.connected = false;
                ListenerAction::Stop
            },
        }
    }

    /// Takes in one event of the tracking stream.
    pub fn on_tracking_event(&mut self, event: StreamEvent<Vec<IRBlob>>) -> (action: ListenerAction)
        ensures
            final(self)@ == old(self)@.after_tracking_event(frame_event(event)),
            action == listener_action(old(self)@, event),
    {
        proof {
            use_type_invariant(&*self);
        }
        if self.released {
            return ListenerAction::Stop;
        }
        match event {
            StreamEvent::Record(frame) => {
                self.ir_blobs = frame;
                ListenerAction::Continue
            },
            StreamEvent::Malformed => ListenerAction::Continue,
            StreamEvent::TimedOut => ListenerAction::Continue,
            StreamEvent::Closed => ListenerAction::Stop,
            StreamEvent::Failed => {
                self.connected = false;
                ListenerAction::Stop
            },
        }
    }

    /// Releases the device: it is no longer connected, and each of its
    /// listeners stops at its next event, so that the streams are closed.
    pub fn release(&mut self)
        ensures
            final(self)@ == old(self)@.after_release(),
    {
        proof {
            use_type_invariant(&*self);
        }
        self.connected = false;
        self.released = true;
    }

    /// The detections of the last complete frame.
    pub fn ir_blobs(&self) -> (blobs: &[IRBlob])
        ensures
            blobs@ == self@.blobs,
    {
        self.ir_blobs.as_slice()
    }

    /// The smoothed position as it is stored, without amplification.
    pub fn smoothed_position(&self) -> (position: Vec3)
        ensures
            position@ == self@.smoothed,
            position@.within(COORD_LIMIT as int),
    {
        proof {
            use_type_invariant(self);
        }
        self.smoothed_position
    }
}

/// Polls the device: `1` while it is connected, `0` once a stream has
/// failed or before the streams were opened.
///
/// Polling only reads: the position is recomputed by
/// [`vr_device_get_position`], on every call of it.
pub fn vr_device_update(device: &VRDevice) -> (status: u8)
    ensures
        status == (if device@.connected { 1u8 } else { 0u8 }),
{
    if device.connected {
        1
    } else {
        0
    }
}

/// Writes the latest orientation sample, as it was received, to `out_quat`.
pub fn vr_device_get_pose(device: &VRDevice, out_quat: &mut Quaternion)
    ensures
        *final(out_quat) == device@.quaternion,
{
    *out_quat = device.quaternion;
}

/// Estimates the position from the current frame, runs it through the
/// temporal filter, stores the new smoothed position and writes the
/// position to report to `out_pos`.
///
/// The position is recomputed on every call. A position that the filter
/// holds is reported as it is stored; only a freshly smoothed one is
/// amplified. Where the frame yields an estimate, the returned record
/// describes it for the diagnostic trace, whether or not the filter accepts
/// it.
pub fn vr_device_get_position(device: &mut VRDevice, out_pos: &mut Vec3) -> (trace: Option<
    TraceRecord,
>)
    ensures
        final(device)@ == old(device)@.after_position_query(),
        final(out_pos)@ == old(device)@.reported_position(),
        old(device)@.blobs.len() < 2 ==> final(device)@ == old(device)@ && final(out_pos)@ == old(
            device,
        )@.smoothed,
        (match trace {
            Some(record) => {
                &&& old(device)@.raw_position() == Some(record.position@)
                &&& record.depth == -record.position.z
                &&& record.blobs == old(device)@.blobs.len()
            },
            None => old(device)@.raw_position() is None,
        }),
{
    proof {
        use_type_invariant(&*device);
    }
    let raw = device.estimate_position(device.ir_blobs.as_slice());
    let out = temporal_filter(device.smoothed_position, raw);
    device.smoothed_position = out.stored;
    *out_pos = out.reported;
    match raw {
        Some(position) => Some(
            TraceRecord {
                position,
                depth: (-position.z) as u64,
                blobs: device.ir_blobs.len(),
            },
        ),
        None => None,
    }
}

/// `1` while the device is connected, `0` otherwise.
pub fn vr_device_is_connected(device: &VRDevice) -> (status: u8)
    ensures
        status == (if device@.connected { 1u8 } else { 0u8 }),
{
    if device.connected {
        1
    } else {
        0
    }
}

} // verus!
