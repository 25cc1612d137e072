use std::time::Duration;

use nalgebra::{Isometry3, Translation3, UnitQuaternion};
use transforms::geometry::{Quaternion, Vector3};
use whirl_tf::ros_msgs::builtin_interfaces::Time;
use whirl_tf::{
    edge_frames, nanoseconds_from_ros, normalize_frame, validate_nanoseconds, Pose,
    TransformBuffer, TransformBufferError,
};

fn stamp(sec: i32, nanosec: u32) -> Time {
    Time { sec, nanosec }
}

fn pose(x: f64) -> Pose {
    Pose {
        translation: Vector3::new(x, 0.0, 0.0),
        rotation: Quaternion::identity(),
        finite: true,
    }
}

/// Inserts a stamped transform the way a ROS message is inserted: the stamp
/// is converted first, then the pose is stored.
fn insert(
    buffer: &mut TransformBuffer,
    parent: &str,
    child: &str,
    time: Time,
    pose: Pose,
    is_static: bool,
) -> Result<(), TransformBufferError> {
    let stamp_ns = nanoseconds_from_ros(time)?;
    buffer.insert_isometry(parent, child, &pose, stamp_ns, is_static)
}

fn isometry(pose: &Pose) -> Isometry3<f64> {
    let q = pose.rotation;
    Isometry3::from_parts(
        Translation3::new(pose.translation.x, pose.translation.y, pose.translation.z),
        UnitQuaternion::new_normalize(nalgebra::Quaternion::new(q.w, q.x, q.y, q.z)),
    )
}

#[test]
fn lookup_uses_from_to_to_direction_and_inverse() {
    let mut buffer = TransformBuffer::new(Duration::from_secs(10));
    insert(&mut buffer, "field", "odom", stamp(0, 0), pose(1.0), true).unwrap();
    insert(&mut buffer, "odom", "base_link", stamp(1, 0), pose(2.0), false).unwrap();

    let base_to_field = buffer.lookup("base_link", "field", stamp(1, 0)).unwrap();
    let field_to_base = buffer.lookup("field", "base_link", stamp(1, 0)).unwrap();
    assert!((base_to_field.translation.x - 3.0).abs() < 1e-12);
    assert!((field_to_base.translation.x + 3.0).abs() < 1e-12);
    let identity = isometry(&base_to_field) * isometry(&field_to_base);
    assert!(identity.translation.vector.norm() < 1e-12);
    assert!(identity.rotation.angle() < 1e-12);
}

#[test]
fn chains_through_a_common_ancestor() {
    let mut buffer = TransformBuffer::new(Duration::from_secs(10));
    insert(&mut buffer, "root", "left", stamp(1, 0), pose(2.0), false).unwrap();
    insert(&mut buffer, "root", "right", stamp(1, 0), pose(-3.0), false).unwrap();
    let left_to_right = buffer.lookup("left", "right", stamp(1, 0)).unwrap();
    assert!((left_to_right.translation.x - 5.0).abs() < 1e-12);
}

#[test]
fn interpolates_translation_and_rotation() {
    let mut buffer = TransformBuffer::new(Duration::from_secs(10));
    let first = pose(0.0);
    let end_rotation = UnitQuaternion::from_euler_angles(0.0, 0.0, std::f64::consts::PI);
    let q = end_rotation.quaternion();
    let second = Pose {
        translation: Vector3::new(2.0, 0.0, 0.0),
        rotation: Quaternion::from_wxyz(q.w, q.i, q.j, q.k),
        finite: true,
    };
    insert(&mut buffer, "odom", "base_link", stamp(1, 0), first, false).unwrap();
    insert(&mut buffer, "odom", "base_link", stamp(3, 0), second, false).unwrap();

    let midpoint = buffer.lookup("base_link", "odom", stamp(2, 0)).unwrap();
    assert!((midpoint.translation.x - 1.0).abs() < 1e-12);
    assert!((isometry(&midpoint).rotation.angle() - std::f64::consts::FRAC_PI_2).abs() < 1e-12);
}

#[test]
fn rejects_extrapolation_both_directions() {
    let mut buffer = TransformBuffer::new(Duration::from_secs(10));
    insert(&mut buffer, "odom", "base_link", stamp(2, 0), pose(0.0), false).unwrap();
    insert(&mut buffer, "odom", "base_link", stamp(3, 0), pose(1.0), false).unwrap();
    assert!(buffer.lookup("base_link", "odom", stamp(1, 0)).is_err());
    assert!(buffer.lookup("base_link", "odom", stamp(4, 0)).is_err());
}

#[test]
fn static_transform_is_valid_at_any_timestamp() {
    let mut buffer = TransformBuffer::new(Duration::from_secs(1));
    insert(&mut buffer, "base_link", "torso", stamp(99, 0), pose(1.0), true).unwrap();
    assert!(buffer.lookup("torso", "base_link", stamp(1, 0)).is_ok());
    assert!(buffer.lookup("torso", "base_link", stamp(100, 0)).is_ok());
}

#[test]
fn rejects_invalid_tree_and_transform_inputs() {
    let mut buffer = TransformBuffer::new(Duration::from_secs(10));
    insert(&mut buffer, "odom", "base_link", stamp(1, 0), pose(0.0), false).unwrap();
    assert!(insert(&mut buffer, "field", "base_link", stamp(2, 0), pose(0.0), false).is_err());
    assert!(insert(&mut buffer, "base_link", "odom", stamp(2, 0), pose(0.0), false).is_err());
    assert!(insert(&mut buffer, "same", "same", stamp(1, 0), pose(0.0), false).is_err());
    assert!(insert(&mut buffer, "robot/base", "camera", stamp(1, 0), pose(0.0), false).is_err());

    let mut bad_rotation = pose(0.0);
    bad_rotation.rotation.w = 2.0;
    assert!(insert(&mut buffer, "odom", "sensor", stamp(1, 0), bad_rotation, false).is_err());
}

#[test]
fn rejects_static_dynamic_conflict_and_bad_timestamps() {
    let mut buffer = TransformBuffer::new(Duration::from_secs(10));
    insert(&mut buffer, "base", "sensor", stamp(0, 0), pose(0.0), true).unwrap();
    assert!(insert(&mut buffer, "base", "sensor", stamp(1, 0), pose(0.0), false).is_err());
    assert!(matches!(
        insert(&mut buffer, "odom", "base_link", stamp(0, 0), pose(0.0), false),
        Err(TransformBufferError::ZeroDynamicTimestamp { .. })
    ));
    assert!(matches!(
        insert(&mut buffer, "odom", "base_link", stamp(1, 1_000_000_000), pose(0.0), false),
        Err(TransformBufferError::InvalidTimestamp { .. })
    ));
    assert!(matches!(
        insert(&mut buffer, "odom", "negative_stamp", stamp(-1, 0), pose(0.0), false),
        Err(TransformBufferError::InvalidTimestamp { .. })
    ));
    assert!(insert(&mut buffer, "odom", "subsecond", stamp(0, 1), pose(0.0), false).is_ok());
    assert!(matches!(
        insert(&mut buffer, "base", "invalid_static", stamp(0, 1_000_000_000), pose(0.0), true),
        Err(TransformBufferError::InvalidTimestamp { .. })
    ));
}

#[test]
fn clear_dynamic_preserves_static_edges() {
    let mut buffer = TransformBuffer::new(Duration::from_secs(10));
    insert(&mut buffer, "base_link", "torso", stamp(0, 0), pose(1.0), true).unwrap();
    insert(&mut buffer, "odom", "base_link", stamp(1, 0), pose(2.0), false).unwrap();
    buffer.clear_dynamic();
    assert!(buffer.lookup("torso", "base_link", stamp(1, 0)).is_ok());
    assert!(buffer.lookup("base_link", "odom", stamp(1, 0)).is_err());
}

#[test]
fn normalize_frame_strips_leading_slashes() {
    assert_eq!(normalize_frame("/map").unwrap(), "map");
    assert_eq!(normalize_frame("///map").unwrap(), "map");
    assert_eq!(normalize_frame("map").unwrap(), "map");
    assert_eq!(normalize_frame(&normalize_frame("//odom").unwrap()).unwrap(), "odom");
}

#[test]
fn normalize_frame_rejects_empty_and_qualified_names() {
    match normalize_frame("///") {
        Err(TransformBufferError::InvalidFrame { frame, reason }) => {
            assert_eq!(frame, "///");
            assert_eq!(reason, "frame name must not be empty");
        }
        other => panic!("unexpected {other:?}"),
    }
    match normalize_frame("/robot/base") {
        Err(TransformBufferError::InvalidFrame { frame, reason }) => {
            assert_eq!(frame, "/robot/base");
            assert_eq!(reason, "frame name must be unqualified");
        }
        other => panic!("unexpected {other:?}"),
    }
    assert!(normalize_frame("").is_err());
}

#[test]
fn edge_frames_normalizes_and_rejects_self_parent() {
    assert_eq!(
        edge_frames("/odom", "base_link").unwrap(),
        ("odom".to_string(), "base_link".to_string())
    );
    match edge_frames("/odom", "odom") {
        Err(TransformBufferError::InvalidFrame { frame, reason }) => {
            assert_eq!(frame, "odom");
            assert_eq!(reason, "a frame cannot be its own parent");
        }
        other => panic!("unexpected {other:?}"),
    }
    match edge_frames("odom", "a/b") {
        Err(TransformBufferError::InvalidFrame { frame, .. }) => assert_eq!(frame, "a/b"),
        other => panic!("unexpected {other:?}"),
    }
}

#[test]
fn ros_time_converts_to_nanoseconds() {
    assert_eq!(nanoseconds_from_ros(stamp(0, 0)).unwrap(), 0);
    assert_eq!(nanoseconds_from_ros(stamp(2, 5)).unwrap(), 2_000_000_005);
    assert_eq!(
        nanoseconds_from_ros(stamp(i32::MAX, 999_999_999)).unwrap(),
        2_147_483_647_999_999_999
    );
    match nanoseconds_from_ros(stamp(-1, 3)) {
        Err(TransformBufferError::InvalidTimestamp { sec, nanosec, reason }) => {
            assert_eq!((sec, nanosec), (-1, 3));
            assert_eq!(reason, "seconds must be non-negative");
        }
        other => panic!("unexpected {other:?}"),
    }
    match nanoseconds_from_ros(stamp(1, 1_000_000_000)) {
        Err(TransformBufferError::InvalidTimestamp { reason, .. }) => {
            assert_eq!(reason, "nanoseconds must be less than one second")
        }
        other => panic!("unexpected {other:?}"),
    }
}

#[test]
fn validate_nanoseconds_bounds_the_seconds_to_i32() {
    assert!(validate_nanoseconds(0));
    assert!(validate_nanoseconds(2_147_483_647_999_999_999));
    assert!(!validate_nanoseconds(2_147_483_648_000_000_000));
}

#[test]
fn insert_reports_the_first_failing_check() {
    let mut buffer = TransformBuffer::new(Duration::from_secs(10));
    let not_finite = Pose { finite: false, ..pose(0.0) };
    assert!(matches!(
        buffer.insert_isometry("", "child", &not_finite, 0, false),
        Err(TransformBufferError::InvalidFrame { .. })
    ));
    assert!(matches!(
        buffer.insert_isometry("parent", "child", &not_finite, 0, false),
        Err(TransformBufferError::NonFinite)
    ));
    assert!(matches!(
        buffer.insert_isometry("parent", "child", &pose(0.0), u128::from(u64::MAX) + 1, false),
        Err(TransformBufferError::StampOutOfRange { .. })
    ));
    assert!(buffer.insert_isometry("parent", "child", &pose(0.0), u128::from(u64::MAX) + 1, true).is_ok());
    match buffer.insert_isometry("other", "/child", &pose(0.0), 0, true) {
        Err(TransformBufferError::Insert { parent, child, detail }) => {
            assert_eq!((parent.as_str(), child.as_str()), ("other", "child"));
            assert!(!detail.is_empty());
        }
        other => panic!("unexpected {other:?}"),
    }
}

#[test]
fn lookup_validates_frames_and_range() {
    let mut buffer = TransformBuffer::new(Duration::from_secs(10));
    buffer.insert_isometry("map", "sensor", &pose(4.0), 5, false).unwrap();
    assert!(matches!(
        buffer.lookup_ns("", "map", 5),
        Err(TransformBufferError::InvalidFrame { .. })
    ));
    assert!(matches!(
        buffer.lookup_ns("sensor", "map", u128::from(u64::MAX) + 1),
        Err(TransformBufferError::Lookup { .. })
    ));
    match buffer.lookup_ns("sensor", "nowhere", 5) {
        Err(TransformBufferError::Lookup { from, to, .. }) => {
            assert_eq!((from.as_str(), to.as_str()), ("sensor", "nowhere"));
        }
        other => panic!("unexpected {other:?}"),
    }
    let found = buffer.lookup_ns("/sensor", "/map", 5).unwrap();
    assert!(found.finite);
    assert_eq!(found.translation.x, 4.0);
    assert!(buffer.can_transform_ns("sensor", "map", 5));
    assert!(!buffer.can_transform_ns("sensor", "map", 6));
    assert!(buffer.can_transform_ns("unknown", "unknown", 6));
    assert!(buffer.can_transform("sensor", "map", stamp(0, 5)));
    assert!(!buffer.can_transform("sensor", "map", stamp(-1, 5)));
}

#[test]
fn lookup_rejects_an_answer_that_fails_validation() {
    let mut buffer = TransformBuffer::new(Duration::from_secs(10));
    let far = pose(1e308);
    buffer.insert_isometry("root", "a", &far, 0, true).unwrap();
    buffer.insert_isometry("a", "b", &far, 0, true).unwrap();
    assert!(matches!(
        buffer.lookup_ns("b", "root", 1),
        Err(TransformBufferError::NonFinite)
    ));

    let drifted = Pose {
        rotation: Quaternion::from_wxyz(1.0 + 9e-7, 0.0, 0.0, 0.0),
        ..pose(0.0)
    };
    buffer.insert_isometry("base", "c", &drifted, 0, true).unwrap();
    buffer.insert_isometry("c", "d", &drifted, 0, true).unwrap();
    match buffer.lookup_ns("d", "base", 1) {
        Err(TransformBufferError::NonUnitQuaternion { norm }) => {
            let norm: f64 = norm.parse().unwrap();
            assert!((norm - (1.0 + 9e-7) * (1.0 + 9e-7)).abs() < 1e-12);
        }
        other => panic!("unexpected {other:?}"),
    }
    assert!(!buffer.can_transform_ns("d", "base", 1));
    assert!(buffer.can_transform_ns("c", "base", 1));
}

#[test]
fn nanoseconds_decode_back_to_the_ros_time() {
    for (sec, nanosec) in [(0, 0), (1, 999_999_999), (1_700_000_000, 123_456_789)] {
        let nanos = nanoseconds_from_ros(stamp(sec, nanosec)).unwrap();
        assert_eq!(nanos / 1_000_000_000, sec as u128);
        assert_eq!(nanos % 1_000_000_000, nanosec as u128);
    }
}

#[test]
fn the_newest_dynamic_sample_reads_back_at_its_stamp() {
    let mut buffer = TransformBuffer::new(Duration::from_nanos(5));
    buffer.insert_isometry("map", "robot", &pose(1.0), 100, false).unwrap();
    assert_eq!(buffer.lookup_ns("robot", "map", 100).unwrap().translation.x, 1.0);
    buffer.insert_isometry("map", "robot", &pose(2.0), 200, false).unwrap();
    assert_eq!(buffer.lookup_ns("robot", "map", 200).unwrap().translation.x, 2.0);
    // The history keeps 5 ns behind the newest sample: the first one is gone.
    assert!(!buffer.can_transform_ns("robot", "map", 100));
    // A sample older than the history is evicted as soon as it arrives.
    buffer.insert_isometry("map", "robot", &pose(3.0), 150, false).unwrap();
    assert!(!buffer.can_transform_ns("robot", "map", 150));
}

#[test]
fn removing_dynamic_edges_forgets_their_frames() {
    let mut buffer = TransformBuffer::new(Duration::from_secs(10));
    buffer.insert_isometry("odom", "base", &pose(1.0), 7, false).unwrap();
    buffer.clear_dynamic();
    assert!(!buffer.can_transform_ns("base", "odom", 7));
    // The frame can be attached again, even under another parent.
    buffer.insert_isometry("field", "base", &pose(1.0), 0, true).unwrap();
    assert!(buffer.can_transform_ns("base", "field", 7));
}

#[test]
fn stamps_beyond_the_registry_clock_see_static_edges_only() {
    let mut buffer = TransformBuffer::new(Duration::from_secs(10));
    buffer.insert_isometry("base", "arm", &pose(3.0), 0, true).unwrap();
    buffer.insert_isometry("arm", "hand", &pose(4.0), u128::from(u64::MAX) - 1, false).unwrap();
    for stamp_ns in [u128::from(u64::MAX), u128::from(u64::MAX) + 1, u128::MAX] {
        assert_eq!(buffer.lookup_ns("arm", "base", stamp_ns).unwrap().translation.x, 3.0);
        assert!(matches!(
            buffer.lookup_ns("hand", "arm", stamp_ns),
            Err(TransformBufferError::Lookup { .. })
        ));
        assert!(matches!(
            buffer.lookup_ns("ghost", "base", stamp_ns),
            Err(TransformBufferError::Lookup { .. })
        ));
    }
    assert_eq!(
        buffer.lookup_ns("hand", "arm", u128::from(u64::MAX) - 1).unwrap().translation.x,
        4.0
    );
}

#[test]
fn an_edge_that_closes_a_cycle_is_refused() {
    let mut buffer = TransformBuffer::new(Duration::from_secs(10));
    buffer.insert_isometry("a", "b", &pose(0.0), 0, true).unwrap();
    buffer.insert_isometry("b", "c", &pose(0.0), 0, true).unwrap();
    assert!(matches!(
        buffer.insert_isometry("c", "a", &pose(0.0), 0, true),
        Err(TransformBufferError::Insert { .. })
    ));
    // Re-inserting an existing edge replaces its transform.
    buffer.insert_isometry("b", "c", &pose(7.0), 0, true).unwrap();
    assert_eq!(buffer.lookup_ns("c", "b", 1).unwrap().translation.x, 7.0);
    assert_eq!(buffer.lookup_ns("c", "a", 1).unwrap().translation.x, 7.0);
}

#[test]
fn cleared_edges_leave_their_frames_disconnected() {
    let mut buffer = TransformBuffer::new(Duration::from_secs(10));
    buffer.insert_isometry("odom", "base", &pose(1.0), 7, false).unwrap();
    buffer.insert_isometry("base", "camera", &pose(2.0), 0, true).unwrap();
    buffer.clear_dynamic();
    // Both frames stay known, `base` as the parent of `camera`.
    assert!(buffer.can_transform_ns("camera", "base", 7));
    assert!(matches!(
        buffer.lookup_ns("base", "odom", 7),
        Err(TransformBufferError::Lookup { .. })
    ));
    assert!(!buffer.can_transform_ns("camera", "odom", 7));
}

#[test]
fn a_sample_between_two_kept_samples_is_interpolated() {
    let mut buffer = TransformBuffer::new(Duration::from_secs(20));
    buffer.insert_isometry("map", "sensor", &pose(0.0), 1, false).unwrap();
    buffer.insert_isometry("map", "sensor", &pose(2.0), 3, false).unwrap();
    assert!((buffer.lookup_ns("sensor", "map", 2).unwrap().translation.x - 1.0).abs() < 1e-12);
    assert!(buffer.lookup_ns("sensor", "map", 0).is_err());
    assert!(buffer.lookup_ns("sensor", "map", 10).is_err());
}

#[test]
fn the_age_bound_is_inclusive() {
    let mut buffer = TransformBuffer::new(Duration::from_nanos(100));
    buffer.insert_isometry("map", "robot", &pose(1.0), 100, false).unwrap();
    buffer.insert_isometry("map", "robot", &pose(2.0), 200, false).unwrap();
    // 200 - 100 = 100: the sample at 100 is kept.
    assert_eq!(buffer.lookup_ns("robot", "map", 100).unwrap().translation.x, 1.0);
    buffer.insert_isometry("map", "robot", &pose(3.0), 201, false).unwrap();
    assert!(!buffer.can_transform_ns("robot", "map", 100));
    assert_eq!(buffer.lookup_ns("robot", "map", 200).unwrap().translation.x, 2.0);
}

#[test]
fn a_sample_at_the_last_instant_of_the_clock_is_kept() {
    let mut buffer = TransformBuffer::new(Duration::from_secs(10));
    let last = u128::from(u64::MAX);
    buffer.insert_isometry("map", "probe", &pose(5.0), last, false).unwrap();
    assert_eq!(buffer.lookup_ns("probe", "map", last).unwrap().translation.x, 5.0);
    // No sample lies at or after a later stamp: no extrapolation.
    assert!(matches!(
        buffer.lookup_ns("probe", "map", last + 1),
        Err(TransformBufferError::Lookup { .. })
    ));
}

#[test]
fn clearing_twice_changes_nothing_more() {
    let mut buffer = TransformBuffer::new(Duration::from_secs(10));
    buffer.insert_isometry("base", "arm", &pose(3.0), 0, true).unwrap();
    buffer.insert_isometry("odom", "base", &pose(1.0), 7, false).unwrap();
    buffer.clear_dynamic();
    buffer.clear_dynamic();
    assert_eq!(buffer.lookup_ns("arm", "base", 7).unwrap().translation.x, 3.0);
    assert!(!buffer.can_transform_ns("base", "odom", 7));
}
