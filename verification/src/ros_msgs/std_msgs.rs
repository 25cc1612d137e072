use vstd::prelude::*;

use super::builtin_interfaces::Time;

verus! {

/// The part of a ROS header needed by transform messages.
#[derive(Clone, Debug, Default, PartialEq, Eq)]
pub struct Header {
    pub stamp: Time,
    pub frame_id: String,
}

} // verus!
