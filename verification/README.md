# whirl_tf

Timestamped coordinate-frame transforms for robotics, with a message filter
that holds stamped messages until their transforms are available.

- `src/` is the verified library, written in Verus:
  - `frames.rs`: canonical frame names and `require_frame`.
  - `buffer.rs`: frame-name normalization, ROS timestamps, and the
    `TransformBuffer` of static and dynamic edges with its well-formedness.
  - `tree.rs`: walks up a frame tree, paths between frames, and the ranking
    that shows the tree has no cycle.
  - `registry.rs`: the `transforms` crate's registry as the library sees it:
    the names for its edges, stored transforms, kept samples and lookups,
    and the calls into it.
  - `message_filter.rs`: the FIFO `MessageFilter`, its bound, its tolerance,
    and the laws of its delivery order.
  - `ros_msgs/`: the ROS message types that hold no floating-point values.
  - `text.rs`: the string operations the library relies on.
- `app/` holds what computes on `f64`: conversions between nalgebra
  isometries, 4 x 4 matrices and the library's `Pose`, the ROS messages with
  floating-point fields, the error types with `Display`, and the Python
  extension module built with PyO3.
- `tests/` exercises the library from outside.

The registry counts time in 64-bit nanoseconds. A dynamic sample may be
stamped up to `u64::MAX`; a lookup at any later stamp, up to `u128::MAX`, finds
no dynamic sample at or after it, so only chains of static edges answer there,
as at every instant.
