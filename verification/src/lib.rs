//! Pose tracking for a head-mounted display.
//!
//! Two telemetry streams feed one shared tracking state: orientation samples
//! from an inertial sensor and frames of infrared blob detections from a
//! tracking camera. From the blob geometry the library reconstructs a 3D
//! position by monocular perspective triangulation and smooths it over time.
//!
//! All metric quantities are fixed-point integers, in units of ten
//! femtometres, so every result is exact and reproducible, and fine enough
//! that a constellation that spreads in the image is always seen to come
//! nearer. Orientation samples are carried as the
//! IEEE-754 bit patterns of their four components and are never interpreted.
//!
//! A host that addresses devices by handle keeps them in a [`Registry`],
//! which turns away handles that were released or never given out.

pub mod arith;
pub mod blob;
pub mod depth;
pub mod depth_laws;
pub mod device;
pub mod filter;
pub mod history;
pub mod order;
pub mod pose;
pub mod position;
pub mod registry;

pub use blob::IRBlob;
pub use device::{
    vr_device_get_pose, vr_device_get_position, vr_device_is_connected, vr_device_update,
    ListenerAction, StreamEvent, TraceRecord, VRDevice,
};
pub use filter::{amplify, smooth_position, temporal_filter, Filtered};
pub use pose::{Quaternion, Vec3};
pub use registry::Registry;
