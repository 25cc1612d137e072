use whirl_tf::frames::{ALL, BASE_LINK, FIELD, RIGHT_SOLE};
use whirl_tf::require_frame;

#[test]
fn accepts_the_required_frame() {
    assert_eq!(require_frame("sensor", "sensor", "/measurements"), Ok(()));
}

#[test]
fn error_names_the_interface_and_frames() {
    let error = require_frame("body", "robot", "/state").unwrap_err();
    assert_eq!(error.actual, "body");
    assert_eq!(error.expected, "robot");
    assert_eq!(error.interface, "/state");
}

#[test]
fn require_frame_names_the_interface_and_frames() {
    let error = require_frame("body", BASE_LINK, "/fall_state").unwrap_err();
    assert_eq!(error.actual, "body");
    assert_eq!(error.expected, BASE_LINK);
    assert_eq!(error.interface, "/fall_state");
}

#[test]
fn frame_comparison_is_exact() {
    assert!(require_frame("/sensor", "sensor", "/measurements").is_err());
    assert!(require_frame("Sensor", "sensor", "/measurements").is_err());
    assert_eq!(require_frame("", "", "/empty"), Ok(()));
}

#[test]
fn all_lists_every_canonical_frame_once() {
    assert_eq!(ALL.len(), 10);
    assert_eq!(ALL[0], FIELD);
    assert_eq!(ALL[9], RIGHT_SOLE);
    for (i, a) in ALL.iter().enumerate() {
        for b in &ALL[i + 1..] {
            assert_ne!(a, b);
        }
    }
}
