use vstd::prelude::*;

verus! {

/// A ROS timestamp.
#[derive(Clone, Copy, Debug, Default, PartialEq, Eq)]
pub struct Time {
    pub sec: i32,
    pub nanosec: u32,
}

} // verus!
