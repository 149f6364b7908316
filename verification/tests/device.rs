use vr_tracking::{
    vr_device_get_pose, vr_device_get_position, vr_device_is_connected, vr_device_update, IRBlob,
    ListenerAction, Quaternion, StreamEvent, TraceRecord, VRDevice, Vec3,
};

fn frame_of(points: &[(u16, u16)]) -> Vec<IRBlob> {
    points.iter().map(|&(x, y)| IRBlob { x, y, size: 9 }).collect()
}

fn quaternion(w: f64, x: f64, y: f64, z: f64) -> Quaternion {
    Quaternion { w: w.to_bits(), x: x.to_bits(), y: y.to_bits(), z: z.to_bits() }
}

fn pose_of(device: &VRDevice) -> Quaternion {
    let mut out = Quaternion { w: 0, x: 0, y: 0, z: 0 };
    vr_device_get_pose(device, &mut out);
    out
}

fn query(device: &mut VRDevice) -> (Vec3, Option<TraceRecord>) {
    let mut out = Vec3 { x: -1, y: -1, z: -1 };
    let trace = vr_device_get_position(device, &mut out);
    (out, trace)
}

fn connected_device() -> VRDevice {
    let mut device = VRDevice::new();
    assert!(device.connect(true, true));
    device
}

#[test]
fn new_device_has_the_identity_orientation() {
    let device = VRDevice::new();
    assert_eq!(pose_of(&device), quaternion(1.0, 0.0, 0.0, 0.0));
    assert_eq!(pose_of(&device), Quaternion::identity());
    assert_eq!(f64::from_bits(Quaternion::identity().w), 1.0);
}

#[test]
fn new_device_is_at_the_origin_without_blobs() {
    let mut device = VRDevice::new();
    assert!(device.ir_blobs().is_empty());
    assert_eq!(device.smoothed_position(), Vec3 { x: 0, y: 0, z: 0 });
    assert_eq!(query(&mut device), (Vec3 { x: 0, y: 0, z: 0 }, None));
}

#[test]
fn new_device_is_not_connected() {
    let device = VRDevice::new();
    assert_eq!(vr_device_update(&device), 0);
    assert_eq!(vr_device_is_connected(&device), 0);
}

#[test]
fn device_is_connected_once_both_streams_are_open() {
    let mut device = VRDevice::new();
    assert!(device.connect(true, true));
    assert_eq!(vr_device_update(&device), 1);
    assert_eq!(vr_device_is_connected(&device), 1);
}

#[test]
fn device_is_not_connected_if_a_stream_fails_to_open() {
    for (headset, tracking) in [(false, false), (false, true), (true, false)] {
        let mut device = VRDevice::new();
        assert!(!device.connect(headset, tracking));
        assert_eq!(vr_device_update(&device), 0);
        assert_eq!(vr_device_is_connected(&device), 0);
    }
}

#[test]
fn orientation_sample_replaces_the_orientation() {
    let mut device = connected_device();
    let first = quaternion(0.5, -0.5, 0.5, -0.5);
    assert_eq!(device.on_headset_event(StreamEvent::Record(first)), ListenerAction::Continue);
    assert_eq!(pose_of(&device), first);
    let second = quaternion(0.0, 1.0, 0.0, 0.0);
    assert_eq!(device.on_headset_event(StreamEvent::Record(second)), ListenerAction::Continue);
    assert_eq!(pose_of(&device), second);
}

#[test]
fn orientation_is_returned_bit_for_bit() {
    let mut device = connected_device();
    let odd = Quaternion { w: f64::NAN.to_bits(), x: (-0.0f64).to_bits(), y: 1, z: u64::MAX };
    device.on_headset_event(StreamEvent::Record(odd));
    assert_eq!(pose_of(&device), odd);
    let third = quaternion(1.0 / 3.0, 2.0, -1e-300, 1e300);
    device.on_headset_event(StreamEvent::Record(third));
    let got = pose_of(&device);
    assert_eq!(f64::from_bits(got.w), 1.0 / 3.0);
    assert_eq!(f64::from_bits(got.x), 2.0);
    assert_eq!(f64::from_bits(got.y), -1e-300);
    assert_eq!(f64::from_bits(got.z), 1e300);
}

#[test]
fn orientation_is_not_renormalized() {
    let mut device = connected_device();
    let scaled = quaternion(2.0, 0.0, 0.0, 0.0);
    device.on_headset_event(StreamEvent::Record(scaled));
    assert_eq!(pose_of(&device), scaled);
}

#[test]
fn malformed_orientation_record_is_dropped() {
    let mut device = connected_device();
    let sample = quaternion(0.5, 0.5, 0.5, 0.5);
    device.on_headset_event(StreamEvent::Record(sample));
    assert_eq!(device.on_headset_event(StreamEvent::Malformed), ListenerAction::Continue);
    assert_eq!(pose_of(&device), sample);
    assert_eq!(vr_device_is_connected(&device), 1);
}

#[test]
fn orientation_timeout_is_retried() {
    let mut device = connected_device();
    for _ in 0..10 {
        assert_eq!(device.on_headset_event(StreamEvent::TimedOut), ListenerAction::Continue);
    }
    assert_eq!(pose_of(&device), Quaternion::identity());
    assert_eq!(vr_device_is_connected(&device), 1);
}

#[test]
fn orientation_stream_end_stops_the_listener_only() {
    let mut device = connected_device();
    assert_eq!(device.on_headset_event(StreamEvent::Closed), ListenerAction::Stop);
    assert_eq!(vr_device_is_connected(&device), 1);
    assert_eq!(pose_of(&device), Quaternion::identity());
}

#[test]
fn orientation_read_failure_disconnects() {
    let mut device = connected_device();
    let sample = quaternion(0.5, 0.5, 0.5, 0.5);
    device.on_headset_event(StreamEvent::Record(sample));
    assert_eq!(device.on_headset_event(StreamEvent::Failed), ListenerAction::Stop);
    assert_eq!(vr_device_is_connected(&device), 0);
    assert_eq!(vr_device_update(&device), 0);
    assert_eq!(pose_of(&device), sample);
}

#[test]
fn frame_replaces_the_blobs_wholesale() {
    let mut device = connected_device();
    let first = frame_of(&[(1, 2), (3, 4), (5, 6)]);
    assert_eq!(
        device.on_tracking_event(StreamEvent::Record(first.clone())),
        ListenerAction::Continue
    );
    assert_eq!(device.ir_blobs(), &first[..]);
    let second = frame_of(&[(7, 8)]);
    device.on_tracking_event(StreamEvent::Record(second.clone()));
    assert_eq!(device.ir_blobs(), &second[..]);
    device.on_tracking_event(StreamEvent::Record(Vec::new()));
    assert!(device.ir_blobs().is_empty());
}

#[test]
fn malformed_frame_is_dropped() {
    let mut device = connected_device();
    let frame = frame_of(&[(1, 2), (3, 4)]);
    device.on_tracking_event(StreamEvent::Record(frame.clone()));
    assert_eq!(device.on_tracking_event(StreamEvent::Malformed), ListenerAction::Continue);
    assert_eq!(device.on_tracking_event(StreamEvent::TimedOut), ListenerAction::Continue);
    assert_eq!(device.ir_blobs(), &frame[..]);
    assert_eq!(vr_device_is_connected(&device), 1);
}

#[test]
fn tracking_stream_end_stops_the_listener_only() {
    let mut device = connected_device();
    let frame = frame_of(&[(1, 2), (3, 4)]);
    device.on_tracking_event(StreamEvent::Record(frame.clone()));
    assert_eq!(device.on_tracking_event(StreamEvent::Closed), ListenerAction::Stop);
    assert_eq!(device.ir_blobs(), &frame[..]);
    assert_eq!(vr_device_is_connected(&device), 1);
}

#[test]
fn tracking_read_failure_disconnects() {
    let mut device = connected_device();
    let frame = frame_of(&[(1, 2), (3, 4)]);
    device.on_tracking_event(StreamEvent::Record(frame.clone()));
    assert_eq!(device.on_tracking_event(StreamEvent::Failed), ListenerAction::Stop);
    assert_eq!(vr_device_is_connected(&device), 0);
    assert_eq!(device.ir_blobs(), &frame[..]);
}

#[test]
fn connection_is_not_regained_by_later_events() {
    let mut device = connected_device();
    device.on_tracking_event(StreamEvent::Failed);
    device.on_headset_event(StreamEvent::Record(quaternion(0.0, 0.0, 1.0, 0.0)));
    device.on_headset_event(StreamEvent::TimedOut);
    device.on_headset_event(StreamEvent::Malformed);
    device.on_tracking_event(StreamEvent::Record(frame_of(&[(0, 0), (100, 0)])));
    query(&mut device);
    device.on_headset_event(StreamEvent::Closed);
    assert_eq!(vr_device_is_connected(&device), 0);
    assert_eq!(vr_device_update(&device), 0);
}

#[test]
fn the_two_streams_write_disjoint_fields() {
    let mut device = connected_device();
    let frame = frame_of(&[(0, 0), (100, 0)]);
    let sample = quaternion(0.0, 0.0, 0.0, 1.0);
    device.on_tracking_event(StreamEvent::Record(frame.clone()));
    device.on_headset_event(StreamEvent::Record(sample));
    assert_eq!(device.ir_blobs(), &frame[..]);
    assert_eq!(pose_of(&device), sample);
    assert_eq!(device.smoothed_position(), Vec3 { x: 0, y: 0, z: 0 });
}

#[test]
fn position_is_held_with_fewer_than_two_blobs() {
    let mut device = connected_device();
    device.on_tracking_event(StreamEvent::Record(frame_of(&[(412, 384), (612, 384)])));
    let (_, trace) = query(&mut device);
    assert!(trace.is_some());
    let stored = device.smoothed_position();
    assert_eq!(stored, Vec3 { x: 0, y: 0, z: -7_344_000_000_000 });
    for frame in [frame_of(&[]), frame_of(&[(5, 5)]), frame_of(&[(1000, 700)])] {
        device.on_tracking_event(StreamEvent::Record(frame));
        assert_eq!(query(&mut device), (stored, None));
        assert_eq!(device.smoothed_position(), stored);
    }
}

#[test]
fn position_is_held_when_all_blobs_coincide() {
    let mut device = connected_device();
    device.on_tracking_event(StreamEvent::Record(frame_of(&[(412, 384), (612, 384)])));
    query(&mut device);
    let stored = device.smoothed_position();
    device.on_tracking_event(StreamEvent::Record(frame_of(&[(9, 9), (9, 9), (9, 9)])));
    assert_eq!(query(&mut device), (stored, None));
    assert_eq!(device.smoothed_position(), stored);
}

#[test]
fn first_position_query_smooths_from_the_origin() {
    let mut device = connected_device();
    device.on_tracking_event(StreamEvent::Record(frame_of(&[(0, 0), (100, 0)])));
    let (reported, trace) = query(&mut device);
    assert_eq!(
        reported,
        Vec3 { x: -7_854_000_000_000, y: 6_528_000_000_000, z: -29_376_000_000_000 }
    );
    assert_eq!(
        device.smoothed_position(),
        Vec3 { x: -3_927_000_000_000, y: 3_264_000_000_000, z: -14_688_000_000_000 }
    );
    assert_eq!(
        trace,
        Some(TraceRecord {
            position: Vec3 {
                x: -39_270_000_000_000,
                y: 32_640_000_000_000,
                z: -146_880_000_000_000
            },
            depth: 146_880_000_000_000,
            blobs: 2,
        })
    );
}

#[test]
fn position_is_recomputed_on_every_query() {
    let mut device = connected_device();
    // A depth of a tenth of a metre: no query sees an outlier.
    device.on_tracking_event(StreamEvent::Record(frame_of(&[(512, 0), (512, 1469)])));
    let raw = VRDevice::new().estimate_position(device.ir_blobs()).unwrap();
    assert_eq!(raw, Vec3 { x: 0, y: -2_028_080_326_752, z: -9_998_638_529_611 });
    let (first, _) = query(&mut device);
    assert_eq!(
        device.smoothed_position(),
        Vec3 { x: 0, y: -202_808_032_676, z: -999_863_852_962 }
    );
    assert_eq!(first, Vec3 { x: 0, y: -405_616_065_352, z: -1_999_727_705_924 });
    let (second, _) = query(&mut device);
    assert_eq!(
        device.smoothed_position(),
        Vec3 { x: 0, y: -385_335_262_084, z: -1_899_741_320_627 }
    );
    assert_eq!(second, Vec3 { x: 0, y: -770_670_524_168, z: -3_799_482_641_254 });
}

#[test]
fn outlier_frame_is_traced_but_not_stored() {
    let mut device = connected_device();
    device.on_tracking_event(StreamEvent::Record(frame_of(&[(0, 0), (100, 0)])));
    query(&mut device);
    let stored = device.smoothed_position();
    // The same frame again is now more than the threshold deeper.
    let (reported, trace) = query(&mut device);
    assert_eq!(reported, stored);
    assert_eq!(device.smoothed_position(), stored);
    assert_eq!(
        trace.unwrap().position,
        Vec3 { x: -39_270_000_000_000, y: 32_640_000_000_000, z: -146_880_000_000_000 }
    );
    assert_eq!(trace.unwrap().depth, 146_880_000_000_000);
    assert_eq!(trace.unwrap().blobs, 2);
}

#[test]
fn position_query_leaves_the_other_fields_alone() {
    let mut device = connected_device();
    let frame = frame_of(&[(0, 0), (100, 0), (300, 0)]);
    let sample = quaternion(0.5, 0.5, -0.5, -0.5);
    device.on_tracking_event(StreamEvent::Record(frame.clone()));
    device.on_headset_event(StreamEvent::Record(sample));
    let (_, trace) = query(&mut device);
    assert_eq!(trace.unwrap().blobs, 3);
    assert_eq!(device.ir_blobs(), &frame[..]);
    assert_eq!(pose_of(&device), sample);
    assert_eq!(vr_device_is_connected(&device), 1);
}

#[test]
fn position_is_tracked_while_disconnected() {
    let mut device = VRDevice::new();
    device.on_tracking_event(StreamEvent::Record(frame_of(&[(412, 384), (612, 384)])));
    let (reported, _) = query(&mut device);
    assert_eq!(reported, Vec3 { x: 0, y: 0, z: -14_688_000_000_000 });
    assert_eq!(vr_device_update(&device), 0);
}

#[test]
fn queries_on_a_steady_frame_converge_to_the_raw_position() {
    let mut device = connected_device();
    // A depth of four tenths of a metre: within the outlier threshold of the origin.
    device.on_tracking_event(StreamEvent::Record(frame_of(&[(329, 300), (696, 300)])));
    let raw = VRDevice::new().estimate_position(device.ir_blobs()).unwrap();
    assert_eq!(raw, Vec3 { x: 11_580_381_471, y: 1_945_504_087_193, z: -40_021_798_365_122 });
    let mut last = device.smoothed_position();
    for _ in 0..300 {
        let (reported, trace) = query(&mut device);
        let stored = device.smoothed_position();
        assert_eq!(trace.unwrap().position, raw);
        assert_eq!(reported, Vec3 { x: 2 * stored.x, y: 2 * stored.y, z: 2 * stored.z });
        assert!((stored.z - raw.z).abs() <= (last.z - raw.z).abs());
        assert!((stored.y - raw.y).abs() <= (last.y - raw.y).abs());
        last = stored;
    }
    assert_eq!(last, raw);
}

#[test]
fn streams_are_opened_once() {
    let mut device = VRDevice::new();
    assert!(device.connect(true, true));
    assert!(!device.connect(true, true));
    assert_eq!(vr_device_is_connected(&device), 1);
}

#[test]
fn failed_attempt_to_open_leaves_the_device_to_be_opened() {
    let mut device = VRDevice::new();
    assert!(!device.connect(true, false));
    assert_eq!(vr_device_is_connected(&device), 0);
    assert!(device.connect(true, true));
    assert_eq!(vr_device_is_connected(&device), 1);
}

#[test]
fn lost_connection_is_not_regained_by_connecting_again() {
    let mut device = connected_device();
    device.on_headset_event(StreamEvent::Failed);
    assert_eq!(vr_device_is_connected(&device), 0);
    assert!(!device.connect(true, true));
    assert_eq!(vr_device_is_connected(&device), 0);
    assert_eq!(vr_device_update(&device), 0);
}

#[test]
fn released_device_is_not_connected() {
    let mut device = connected_device();
    device.release();
    assert_eq!(vr_device_is_connected(&device), 0);
    assert_eq!(vr_device_update(&device), 0);
    assert!(!device.connect(true, true));
    assert_eq!(vr_device_is_connected(&device), 0);
}

#[test]
fn released_device_was_never_opened() {
    let mut device = VRDevice::new();
    device.release();
    assert!(!device.connect(true, true));
    assert_eq!(vr_device_is_connected(&device), 0);
}

#[test]
fn listeners_stop_at_their_next_event_after_release() {
    let mut device = connected_device();
    let sample = quaternion(0.5, 0.5, 0.5, 0.5);
    let frame = frame_of(&[(1, 2), (3, 4)]);
    device.on_headset_event(StreamEvent::Record(sample));
    device.on_tracking_event(StreamEvent::Record(frame.clone()));
    device.release();
    assert_eq!(device.on_headset_event(StreamEvent::TimedOut), ListenerAction::Stop);
    assert_eq!(device.on_tracking_event(StreamEvent::TimedOut), ListenerAction::Stop);
    assert_eq!(device.on_headset_event(StreamEvent::Malformed), ListenerAction::Stop);
    assert_eq!(
        device.on_headset_event(StreamEvent::Record(quaternion(1.0, 0.0, 0.0, 0.0))),
        ListenerAction::Stop
    );
    assert_eq!(
        device.on_tracking_event(StreamEvent::Record(frame_of(&[(9, 9)]))),
        ListenerAction::Stop
    );
    assert_eq!(pose_of(&device), sample);
    assert_eq!(device.ir_blobs(), &frame[..]);
}
