//! Coordinate-frame names, ROS timestamps, and timestamped transform lookup
//! with a queue that holds stamped messages until their transforms exist.

pub mod buffer;
pub mod frames;
pub mod message_filter;
pub mod registry;
pub mod ros_msgs;
pub mod text;
pub mod tree;

pub use buffer::{
    edge_frames, nanoseconds_from_ros, normalize_frame, validate_nanoseconds, Pose, TransformBuffer,
    TransformBufferError,
};
pub use frames::{require_frame, FrameError};
pub use message_filter::{DroppedMessage, FilterFailureReason, MessageFilter};
