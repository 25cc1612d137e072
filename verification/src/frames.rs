//! Canonical names of the frames in the robot's transform tree, and the check
//! that a message arrived in the frame an interface requires.

use vstd::prelude::*;

use crate::text::str_eq;

verus! {

pub const FIELD: &'static str = "field";
pub const ODOM: &'static str = "odom";
pub const BASE_LINK: &'static str = "base_link";
pub const BASE_FOOTPRINT: &'static str = "base_footprint";
pub const TORSO: &'static str = "torso";
pub const GAZE: &'static str = "gaze";
pub const LEFT_CAMERA_LINK: &'static str = "left_camera_link";
pub const LEFT_CAMERA_OPTICAL_FRAME: &'static str = "left_camera_optical_frame";
pub const LEFT_SOLE: &'static str = "l_sole";
pub const RIGHT_SOLE: &'static str = "r_sole";

pub const ALL: [&'static str; 10] = [
    FIELD,
    ODOM,
    BASE_LINK,
    BASE_FOOTPRINT,
    TORSO,
    GAZE,
    LEFT_CAMERA_LINK,
    LEFT_CAMERA_OPTICAL_FRAME,
    LEFT_SOLE,
    RIGHT_SOLE,
];

/// A frame did not match the frame required by an interface.
#[derive(Debug, PartialEq, Eq)]
pub struct FrameError {
    pub actual: String,
    pub expected: String,
    pub interface: String,
}

/// Checks that a frame matches the frame required by an interface.
pub fn require_frame(actual: &str, expected: &str, interface: &str) -> (res: Result<(), FrameError>)
    ensures
        res is Ok <==> actual@ == expected@,
        res matches Err(e) ==> e.actual@ == actual@ && e.expected@ == expected@
            && e.interface@ == interface@,
{
    if str_eq(actual, expected) {
        return Ok(());
    }
    Err(FrameError {
        actual: actual.to_owned(),
        expected: expected.to_owned(),
        interface: interface.to_owned(),
    })
}

} // verus!
