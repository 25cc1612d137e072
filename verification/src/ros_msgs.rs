//! The ROS 2 message types of the transform interface that hold no
//! floating-point values.

pub mod builtin_interfaces;
pub mod std_msgs;
