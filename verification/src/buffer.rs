//! Timestamped transforms between named frames: frame-name validation, ROS
//! timestamps, and a buffer of static and dynamic edges whose lookups never
//! extrapolate outside the stored history.

use core::time::Duration;

use transforms::geometry::{Quaternion, Vector3};
use vstd::prelude::*;

use crate::registry::{
    covers, duration_nanos, frame_known, kept, newest_after, prior_samples, registry_add,
    registry_edges, registry_get, registry_lookup, registry_max_age, registry_newest,
    registry_remove_frame, registry_samples, registry_statics, registry_with_max_age,
    transform_valid, transform_validation, FrameTree, LookupFailure, Validation,
};
use crate::ros_msgs::builtin_interfaces::Time;
use crate::text::{contains_slash, trim_leading, trim_leading_slashes};
use crate::tree::{
    acyclic, connected, is_ancestor, lemma_dropped_edge_disconnects, lemma_insert_keeps_acyclic,
    lemma_submap_keeps_acyclic, on_path, Edges,
};

verus! {

const NANOSECONDS_PER_SECOND: u128 = 1_000_000_000;

const NANOSECONDS_PER_SECOND_U32: u32 = 1_000_000_000;

/// The content of a [`TransformBufferError`], without the text it carries
/// from the registry.
pub enum BufferFault {
    InvalidFrame { frame: Seq<char>, reason: Seq<char> },
    InvalidTimestamp { sec: i32, nanosec: u32, reason: Seq<char> },
    ZeroDynamicTimestamp { parent: Seq<char>, child: Seq<char> },
    StampOutOfRange { stamp_ns: u128 },
    Insert { parent: Seq<char>, child: Seq<char> },
    Lookup { from: Seq<char>, to: Seq<char> },
    NonFinite,
    NonUnitQuaternion,
}

#[derive(Debug)]
pub enum TransformBufferError {
    /// A frame name is empty, qualified, or names the frame's own parent.
    InvalidFrame { frame: String, reason: &'static str },
    /// A ROS timestamp is negative or has a nanosecond part of a second or more.
    InvalidTimestamp { sec: i32, nanosec: u32, reason: &'static str },
    /// A dynamic transform carries the zero timestamp, which is reserved.
    ZeroDynamicTimestamp { parent: String, child: String },
    /// A dynamic timestamp lies beyond the registry's 64-bit nanosecond clock.
    StampOutOfRange { stamp_ns: u128 },
    /// The registry refused a transform; `detail` is its message.
    Insert { parent: String, child: String, detail: String },
    /// The registry could not answer a lookup; `detail` is its message.
    Lookup { from: String, to: String, detail: String },
    /// A transform has a NaN or infinite component.
    NonFinite,
    /// A looked-up rotation is not a unit quaternion; `norm` is its norm in decimal.
    NonUnitQuaternion { norm: String },
}

impl View for TransformBufferError {
    type V = BufferFault;

    open spec fn view(&self) -> BufferFault {
        match self {
            TransformBufferError::InvalidFrame { frame, reason } => BufferFault::InvalidFrame {
                frame: frame@,
                reason: reason@,
            },
            TransformBufferError::InvalidTimestamp { sec, nanosec, reason } =>
                BufferFault::InvalidTimestamp { sec: *sec, nanosec: *nanosec, reason: reason@ },
            TransformBufferError::ZeroDynamicTimestamp { parent, child } =>
                BufferFault::ZeroDynamicTimestamp { parent: parent@, child: child@ },
            TransformBufferError::StampOutOfRange { stamp_ns } => BufferFault::StampOutOfRange {
                stamp_ns: *stamp_ns,
            },
            TransformBufferError::Insert { parent, child, .. } => BufferFault::Insert {
                parent: parent@,
                child: child@,
            },
            TransformBufferError::Lookup { from, to, .. } => BufferFault::Lookup {
                from: from@,
                to: to@,
            },
            TransformBufferError::NonFinite => BufferFault::NonFinite,
            TransformBufferError::NonUnitQuaternion { .. } => BufferFault::NonUnitQuaternion,
        }
    }
}

/// The name a frame is stored under: the given name without its leading
/// slashes, provided that leaves a non-empty name with no slash in it.
pub open spec fn normalized_frame(frame: Seq<char>) -> Option<Seq<char>> {
    let trimmed = trim_leading(frame, '/');
    if trimmed.len() == 0 || trimmed.contains('/') {
        None
    } else {
        Some(trimmed)
    }
}

/// Why `frame` has no normalized name.
pub open spec fn frame_rejection(frame: Seq<char>) -> BufferFault {
    BufferFault::InvalidFrame {
        frame,
        reason: if trim_leading(frame, '/').len() == 0 {
            "frame name must not be empty"@
        } else {
            "frame name must be unqualified"@
        },
    }
}

/// Why the edge `child -> parent` is refused before any transform is
/// considered, if it is.
pub open spec fn edge_rejection(parent: Seq<char>, child: Seq<char>) -> Option<BufferFault> {
    if normalized_frame(parent) is None {
        Some(frame_rejection(parent))
    } else if normalized_frame(child) is None {
        Some(frame_rejection(child))
    } else if normalized_frame(parent)->0 == normalized_frame(child)->0 {
        Some(
            BufferFault::InvalidFrame {
                frame: normalized_frame(child)->0,
                reason: "a frame cannot be its own parent"@,
            },
        )
    } else {
        None
    }
}

/// Why an insertion is refused before the registry sees it, if it is.
pub open spec fn insert_rejection(
    parent: Seq<char>,
    child: Seq<char>,
    finite: bool,
    stamp_ns: u128,
    is_static: bool,
) -> Option<BufferFault> {
    if edge_rejection(parent, child) is Some {
        edge_rejection(parent, child)
    } else if !finite {
        Some(BufferFault::NonFinite)
    } else if !is_static && stamp_ns == 0 {
        Some(
            BufferFault::ZeroDynamicTimestamp {
                parent: normalized_frame(parent)->0,
                child: normalized_frame(child)->0,
            },
        )
    } else if !is_static && stamp_ns > u64::MAX {
        Some(BufferFault::StampOutOfRange { stamp_ns })
    } else {
        None
    }
}

/// The nanoseconds since the epoch that a ROS timestamp denotes, if it is valid.
pub open spec fn ros_nanoseconds(stamp: Time) -> Option<int> {
    if stamp.sec < 0 || stamp.nanosec >= 1_000_000_000 {
        None
    } else {
        Some(stamp.sec * 1_000_000_000 + stamp.nanosec)
    }
}

/// Why a ROS timestamp is invalid.
pub open spec fn ros_time_rejection(stamp: Time) -> BufferFault {
    BufferFault::InvalidTimestamp {
        sec: stamp.sec,
        nanosec: stamp.nanosec,
        reason: if stamp.sec < 0 {
            "seconds must be non-negative"@
        } else {
            "nanoseconds must be less than one second"@
        },
    }
}

/// Normalizing is idempotent: a normalized frame name is its own
/// normalized name.
pub proof fn law_normalize_frame_is_idempotent(frame: Seq<char>)
    ensures
        normalized_frame(frame) matches Some(name) ==> normalized_frame(name) == Some(name),
{
    if let Some(name) = normalized_frame(frame) {
        assert(!name.contains('/'));
        assert(name[0] != '/');
        assert(trim_leading(name, '/') == name);
    }
}

/// Whether a stamp in nanoseconds lies in the range of a ROS timestamp, whose
/// seconds are an `i32`.
pub fn validate_nanoseconds(stamp_ns: u128) -> (res: bool)
    ensures
        res == (stamp_ns / 1_000_000_000 <= i32::MAX),
{
    stamp_ns / NANOSECONDS_PER_SECOND <= i32::MAX as u128
}

/// Every valid ROS timestamp converts to a stamp that `validate_nanoseconds`
/// accepts, and the conversion loses nothing: the seconds and nanoseconds
/// are the quotient and remainder of the stamp by one second.
pub proof fn law_ros_nanoseconds_round_trip(stamp: Time)
    requires
        ros_nanoseconds(stamp) is Some,
    ensures
        ros_nanoseconds(stamp)->0 / 1_000_000_000 == stamp.sec,
        ros_nanoseconds(stamp)->0 % 1_000_000_000 == stamp.nanosec,
        ros_nanoseconds(stamp)->0 / 1_000_000_000 <= i32::MAX,
{
    vstd::arithmetic::div_mod::lemma_fundamental_div_mod_converse(
        ros_nanoseconds(stamp)->0,
        1_000_000_000,
        stamp.sec as int,
        stamp.nanosec as int,
    );
}

/// Strips the leading slashes of a frame name and checks that a non-empty,
/// unqualified name remains.
pub fn normalize_frame(frame: &str) -> (res: Result<String, TransformBufferError>)
    ensures
        match normalized_frame(frame@) {
            Some(name) => res matches Ok(normalized) && normalized@ == name,
            None => res matches Err(e) && e@ == frame_rejection(frame@),
        },
{
    let normalized = trim_leading_slashes(frame);
    if normalized.is_empty() {
        return Err(
            TransformBufferError::InvalidFrame {
                frame: frame.to_owned(),
                reason: "frame name must not be empty",
            },
        );
    }
    if contains_slash(normalized) {
        return Err(
            TransformBufferError::InvalidFrame {
                frame: frame.to_owned(),
                reason: "frame name must be unqualified",
            },
        );
    }
    Ok(normalized.to_owned())
}

/// Normalizes the two frames of an edge `child -> parent` and checks that
/// they differ.
pub fn edge_frames(parent: &str, child: &str) -> (res: Result<(String, String), TransformBufferError>)
    ensures
        match edge_rejection(parent@, child@) {
            Some(fault) => res matches Err(e) && e@ == fault,
            None => res matches Ok(frames) && frames.0@ == normalized_frame(parent@)->0
                && frames.1@ == normalized_frame(child@)->0,
        },
{
    let parent = normalize_frame(parent)?;
    let child = normalize_frame(child)?;
    if parent == child {
        return Err(
            TransformBufferError::InvalidFrame {
                frame: child,
                reason: "a frame cannot be its own parent",
            },
        );
    }
    Ok((parent, child))
}

/// Converts a ROS timestamp to nanoseconds since the epoch.
pub fn nanoseconds_from_ros(stamp: Time) -> (res: Result<u128, TransformBufferError>)
    ensures
        match ros_nanoseconds(stamp) {
            Some(nanos) => res matches Ok(n) && n == nanos,
            None => res matches Err(e) && e@ == ros_time_rejection(stamp),
        },
        res matches Ok(n) ==> n / 1_000_000_000 == stamp.sec && n % 1_000_000_000 == stamp.nanosec,
{
    if stamp.sec < 0 {
        return Err(
            TransformBufferError::InvalidTimestamp {
                sec: stamp.sec,
                nanosec: stamp.nanosec,
                reason: "seconds must be non-negative",
            },
        );
    }
    if stamp.nanosec >= NANOSECONDS_PER_SECOND_U32 {
        return Err(
            TransformBufferError::InvalidTimestamp {
                sec: stamp.sec,
                nanosec: stamp.nanosec,
                reason: "nanoseconds must be less than one second",
            },
        );
    }
    let seconds = stamp.sec as u128;
    let nanos = seconds * NANOSECONDS_PER_SECOND + stamp.nanosec as u128;
    proof {
        law_ros_nanoseconds_round_trip(stamp);
    }
    Ok(nanos)
}

/// A rigid pose: a translation and a rotation given as a quaternion.
///
/// The buffer reads one thing of the numbers: whether all seven of them are
/// finite, which `finite` records. Their values are handed to the registry
/// as they are.
#[derive(Clone, Copy, Debug)]
pub struct Pose {
    pub translation: Vector3,
    pub rotation: Quaternion,
    pub finite: bool,
}

/// Holds a tree of frames joined by static edges, valid at every instant,
/// and dynamic edges, sampled over a bounded history and interpolated
/// between samples, never beyond them.
#[derive(Debug)]
pub struct TransformBuffer {
    tree: FrameTree,
    dynamic_children: Vec<String>,
}

/// Pushing a name that a list of distinct names lacks keeps them distinct
/// and adds exactly that name.
proof fn lemma_push_distinct(frames: Seq<Seq<char>>, frame: Seq<char>)
    ensures
        frames.push(frame).no_duplicates() <==> frames.no_duplicates() && !frames.contains(frame),
        forall|x: Seq<char>| #[trigger]
            frames.push(frame).contains(x) <==> frames.contains(x) || x == frame,
{
    let pushed = frames.push(frame);
    assert(pushed[frames.len() as int] == frame);
    assert forall|x: Seq<char>| #[trigger] pushed.contains(x) implies frames.contains(x) || x == frame by {
        let k = choose|k: int| 0 <= k < pushed.len() && pushed[k] == x;
        if k < frames.len() {
            assert(frames[k] == x);
        }
    }
    assert forall|x: Seq<char>| frames.contains(x) implies #[trigger] pushed.contains(x) by {
        let k = choose|k: int| 0 <= k < frames.len() && frames[k] == x;
        assert(pushed[k] == x);
    }
    if frames.no_duplicates() && !frames.contains(frame) {
        assert forall|i: int, j: int|
            0 <= i < pushed.len() && 0 <= j < pushed.len() && i != j implies pushed[i] != pushed[j] by {
            if i < frames.len() && j < frames.len() {
                assert(frames[i] == pushed[i] && frames[j] == pushed[j]);
            } else if i < frames.len() {
                assert(frames.contains(pushed[i]));
            } else {
                assert(frames.contains(pushed[j]));
            }
        }
    }
    if pushed.no_duplicates() {
        assert forall|i: int, j: int|
            0 <= i < frames.len() && 0 <= j < frames.len() && i != j implies frames[i] != frames[j] by {
            assert(frames[i] == pushed[i] && frames[j] == pushed[j]);
        }
        if frames.contains(frame) {
            let k = choose|k: int| 0 <= k < frames.len() && frames[k] == frame;
            assert(pushed[k] == pushed[frames.len() as int]);
        }
    }
}

/// Whether `names` holds a string equal to `name`.
fn contains_frame(names: &Vec<String>, name: &String) -> (res: bool)
    ensures
        res == frame_names(names@).contains(name@),
{
    let mut i: usize = 0;
    while i < names.len()
        invariant
            i <= names.len(),
            forall|j: int| 0 <= j < i ==> names@[j]@ != name@,
        decreases names.len() - i,
    {
        if names[i] == *name {
            assert(frame_names(names@)[i as int] == name@);
            return true;
        }
        i += 1;
    }
    false
}

/// The frames held by a list of names.
pub open spec fn frame_names(names: Seq<String>) -> Seq<Seq<char>> {
    names.map_values(|name: String| name@)
}

/// The static edges of an edge map.
pub open spec fn static_edges(edges: Map<Seq<char>, (Seq<char>, bool)>) -> Map<Seq<char>, (Seq<char>, bool)> {
    edges.restrict(edges.dom().filter(|child: Seq<char>| edges[child].1))
}

impl View for TransformBuffer {
    /// The stored edges: each child frame with its parent and whether the
    /// edge is static.
    type V = Edges;

    closed spec fn view(&self) -> Edges {
        registry_edges(self.tree)
    }
}

/// The registry instant a stamp is looked up at: the stamp itself within
/// the registry's 64-bit clock, and zero for every later stamp. No dynamic
/// edge keeps a sample at or after a stamp beyond the clock, and none keeps
/// one at zero (see `insert_rejection`), so at either only chains of static
/// edges answer, with the same transforms as at every instant.
pub open spec fn registry_instant(stamp_ns: u128) -> u64 {
    if stamp_ns > u64::MAX {
        0
    } else {
        stamp_ns as u64
    }
}

/// The fault a lookup that finds no transform between two normalized
/// frames reports.
pub open spec fn lookup_fault(source: Seq<char>, target: Seq<char>) -> BufferFault {
    BufferFault::Lookup { from: source, to: target }
}

impl TransformBuffer {
    /// The transform stored on each static edge, keyed by its child.
    pub closed spec fn statics(&self) -> Map<Seq<char>, (Vector3, Quaternion)> {
        registry_statics(self.tree)
    }

    /// The samples kept on each dynamic edge, keyed by its child.
    pub closed spec fn samples(&self) -> Map<Seq<char>, Map<u64, (Vector3, Quaternion)>> {
        registry_samples(self.tree)
    }

    /// For each dynamic edge, keyed by its child, the newest stamp inserted.
    pub closed spec fn newest(&self) -> Map<Seq<char>, u64> {
        registry_newest(self.tree)
    }

    /// How far behind its newest sample a dynamic edge keeps samples, in
    /// nanoseconds.
    pub closed spec fn history(&self) -> u128 {
        registry_max_age(self.tree)
    }

    /// What the registry answers for `source` in `target` at `stamp_ns`.
    pub closed spec fn answer(&self, target: Seq<char>, source: Seq<char>, stamp_ns: u128) -> Option<
        (Vector3, Quaternion),
    > {
        registry_get(self.tree, target, source, registry_instant(stamp_ns))
    }

    /// Whether the registry answers a lookup of `source` in `target` at
    /// `stamp_ns` with a valid transform.
    pub open spec fn resolves(&self, target: Seq<char>, source: Seq<char>, stamp_ns: u128) -> bool {
        self.answer(target, source, stamp_ns) matches Some(a) && transform_valid(a.0, a.1)
    }

    /// The children of the dynamic edges, as recorded by the buffer.
    closed spec fn dynamic_frames(&self) -> Seq<Seq<char>> {
        frame_names(self.dynamic_children@)
    }

    /// The tree has no cycle; static edges hold one valid transform and
    /// dynamic ones their valid samples, none at zero; the buffer
    /// records each dynamic child exactly once; and newest stamps are kept
    /// for dynamic edges only.
    pub closed spec fn wf(&self) -> bool {
        &&& acyclic(self@)
        &&& forall|child: Seq<char>|
            #![trigger self.statics().contains_key(child)]
            self.statics().contains_key(child) <==> (self@.contains_key(child) && self@[child].1)
        &&& forall|child: Seq<char>|
            #![trigger self.statics().contains_key(child)]
            self.statics().contains_key(child) ==> transform_valid(
                self.statics()[child].0,
                self.statics()[child].1,
            )
        &&& forall|child: Seq<char>|
            #![trigger self.samples().contains_key(child)]
            self.samples().contains_key(child) <==> (self@.contains_key(child) && !self@[child].1)
        &&& forall|child: Seq<char>, stamp: u64|
            #![trigger self.samples()[child].contains_key(stamp)]
            self.samples().contains_key(child) && self.samples()[child].contains_key(stamp) ==> stamp
                > 0 && transform_valid(
                self.samples()[child][stamp].0,
                self.samples()[child][stamp].1,
            )
        &&& self.dynamic_frames().no_duplicates()
        &&& forall|child: Seq<char>|
            #![trigger self.dynamic_frames().contains(child)]
            self.dynamic_frames().contains(child) <==> (self@.contains_key(child)
                && !self@[child].1)
        &&& forall|child: Seq<char>|
            #![trigger self.newest().contains_key(child)]
            self.newest().contains_key(child) ==> self.dynamic_frames().contains(child)
    }

    /// Whether `lookup_ns(from, to, stamp_ns)` succeeds.
    pub open spec fn can_transform_spec(&self, from: Seq<char>, to: Seq<char>, stamp_ns: u128) -> bool {
        &&& normalized_frame(from) is Some
        &&& normalized_frame(to) is Some
        &&& self.resolves(normalized_frame(to)->0, normalized_frame(from)->0, stamp_ns)
    }

    /// What `lookup_ns(from, to, stamp_ns)` returns. Frame names are checked
    /// first. Then the result is the registry's valid answer, or an error:
    /// `Lookup` exactly when the registry has no answer, which holds for
    /// frames in different trees and for a path across a dynamic edge that
    /// keeps no sample at or before the stamp, or none at or after it. A
    /// single edge looked up from its child into its parent answers with its
    /// stored transform: a static one at every stamp, a dynamic one at each
    /// kept sample; between kept samples it has an answer.
    pub open spec fn lookup_ns_post(
        &self,
        from: Seq<char>,
        to: Seq<char>,
        stamp_ns: u128,
        res: Result<Pose, TransformBufferError>,
    ) -> bool {
        match (normalized_frame(from), normalized_frame(to)) {
            (None, _) => res matches Err(e) && e@ == frame_rejection(from),
            (Some(_), None) => res matches Err(e) && e@ == frame_rejection(to),
            (Some(source), Some(target)) => {
                &&& res is Ok <==> self.resolves(target, source, stamp_ns)
                &&& match self.answer(target, source, stamp_ns) {
                    None => res matches Err(e) && e@ == lookup_fault(source, target),
                    Some(answer) => match transform_validation(answer.0, answer.1) {
                        Validation::Valid => res matches Ok(pose) && pose.finite && (
                            pose.translation,
                            pose.rotation,
                        ) == answer,
                        Validation::NonFinite => res matches Err(e) && e@ == BufferFault::NonFinite,
                        Validation::NonUnitRotation => res matches Err(e) && e@
                            == BufferFault::NonUnitQuaternion,
                    },
                }
                &&& source == target ==> res is Ok
                &&& source != target && !connected(self@, target, source) ==> (res matches Err(e)
                    && e@ == lookup_fault(source, target))
                &&& source != target && !(frame_known(self@, source) && frame_known(self@, target))
                    ==> (res matches Err(e) && e@ == lookup_fault(source, target))
                &&& forall|child: Seq<char>|
                    #![trigger on_path(self@, child, target, source)]
                    source != target && on_path(self@, child, target, source) && !self@[child].1
                        && !covers(self.samples(), child, stamp_ns as int) ==> (res matches Err(e)
                        && e@ == lookup_fault(source, target))
                &&& self@.contains_key(source) && self@[source] == (target, true) ==> (res matches Ok(
                    pose,
                ) && (pose.translation, pose.rotation) == self.statics()[source])
                &&& self@.contains_key(source) && self@[source] == (target, false) && stamp_ns
                    <= u64::MAX && self.samples()[source].contains_key(stamp_ns as u64) ==> (res matches Ok(
                    pose,
                ) && (pose.translation, pose.rotation) == self.samples()[source][stamp_ns as u64])
                &&& self@.contains_key(source) && self@[source] == (target, false) && covers(
                    self.samples(),
                    source,
                    stamp_ns as int,
                ) ==> self.answer(target, source, stamp_ns) is Some
            },
        }
    }

    /// A buffer that keeps `history` of dynamic samples behind the newest
    /// one of each edge.
    pub fn new(history: Duration) -> (buffer: Self)
        ensures
            buffer.wf(),
            buffer@ == Map::<Seq<char>, (Seq<char>, bool)>::empty(),
            buffer.statics().dom().is_empty(),
            buffer.samples().dom().is_empty(),
            buffer.newest().dom().is_empty(),
            buffer.history() == duration_nanos(history),
    {
        let buffer = TransformBuffer {
            tree: registry_with_max_age(history),
            dynamic_children: Vec::new(),
        };
        assert(buffer@ =~= Map::<Seq<char>, (Seq<char>, bool)>::empty());
        proof {
            let rank = |frame: Seq<char>| 0nat;
            assert(crate::tree::ranked(buffer@, rank));
            assert(buffer.dynamic_frames() =~= Seq::<Seq<char>>::empty());
        }
        buffer
    }

    /// Inserts the transform of the edge `child -> parent`: valid at every
    /// instant when `is_static`, otherwise a sample at `stamp_ns`.
    ///
    /// After the checks of `insert_rejection`, the registry accepts the
    /// transform exactly when its numbers are valid and the edge is either
    /// the child's existing edge, of the same kind, or a new edge that
    /// closes no cycle.
    pub fn insert_isometry(
        &mut self,
        parent: &str,
        child: &str,
        pose: &Pose,
        stamp_ns: u128,
        is_static: bool,
    ) -> (res: Result<(), TransformBufferError>)
        requires
            old(self).wf(),
        ensures
            final(self).wf(),
            match insert_rejection(parent@, child@, pose.finite, stamp_ns, is_static) {
                Some(fault) => res matches Err(e) && e@ == fault && *final(self) == *old(self),
                None => {
                    let parent_frame = normalized_frame(parent@)->0;
                    let child_frame = normalized_frame(child@)->0;
                    let stored = (pose.translation, pose.rotation);
                    &&& res is Ok <==> {
                        &&& transform_valid(pose.translation, pose.rotation)
                        &&& if old(self)@.contains_key(child_frame) {
                            old(self)@[child_frame] == (parent_frame, is_static)
                        } else {
                            !is_ancestor(old(self)@, child_frame, parent_frame)
                        }
                    }
                    &&& res is Ok ==> final(self)@ == old(self)@.insert(
                        child_frame,
                        (parent_frame, is_static),
                    ) && final(self).history() == old(self).history()
                    &&& res is Ok && is_static ==> {
                        &&& final(self).statics() == old(self).statics().insert(child_frame, stored)
                        &&& final(self).samples() == old(self).samples()
                        &&& final(self).newest() == old(self).newest()
                    }
                    &&& res is Ok && !is_static ==> {
                        let newest = newest_after(old(self).newest(), child_frame, stamp_ns as u64);
                        &&& final(self).statics() == old(self).statics()
                        &&& final(self).newest() == old(self).newest().insert(child_frame, newest)
                        &&& final(self).samples() == old(self).samples().insert(
                            child_frame,
                            kept(
                                prior_samples(old(self).samples(), child_frame).insert(
                                    stamp_ns as u64,
                                    stored,
                                ),
                                newest,
                                old(self).history(),
                            ),
                        )
                    }
                    &&& res matches Err(e) ==> e@ == BufferFault::Insert {
                        parent: parent_frame,
                        child: child_frame,
                    } && *final(self) == *old(self)
                },
            },
    {
        let (parent, child) = edge_frames(parent, child)?;
        if !pose.finite {
            return Err(TransformBufferError::NonFinite);
        }
        let stamp = if is_static {
            None
        } else if stamp_ns == 0 {
            return Err(TransformBufferError::ZeroDynamicTimestamp { parent, child });
        } else if stamp_ns > u64::MAX as u128 {
            return Err(TransformBufferError::StampOutOfRange { stamp_ns });
        } else {
            Some(stamp_ns as u64)
        };
        let ghost before = *self;
        match registry_add(
            &mut self.tree,
            parent.as_str(),
            child.as_str(),
            pose.translation,
            pose.rotation,
            stamp,
        ) {
            Err(detail) => Err(TransformBufferError::Insert { parent, child, detail }),
            Ok(()) => {
                let ghost child_frame = child@;
                let ghost parent_frame = parent@;
                proof {
                    assert(before.dynamic_frames().contains(child_frame) ==> before@[child_frame]
                        == (parent_frame, is_static) && !is_static);
                    if before@.contains_key(child_frame) {
                        assert(self@ =~= before@);
                    } else {
                        lemma_insert_keeps_acyclic(before@, child_frame, parent_frame, is_static);
                    }
                    if !is_static {
                        let added = prior_samples(before.samples(), child_frame).insert(
                            stamp_ns as u64,
                            (pose.translation, pose.rotation),
                        );
                        let newest = newest_after(before.newest(), child_frame, stamp_ns as u64);
                        let kept_samples = kept(added, newest, before.history());
                        assert forall|stamp: u64| #[trigger]
                            kept_samples.contains_key(stamp) implies stamp > 0
                            && transform_valid(kept_samples[stamp].0, kept_samples[stamp].1) by {
                            assert(added.contains_key(stamp) && kept_samples[stamp] == added[stamp]);
                            if stamp != stamp_ns as u64 {
                                assert(before.samples().contains_key(child_frame));
                                assert(before.samples()[child_frame].contains_key(stamp));
                            }
                        }
                        assert(self.samples()[child_frame] == kept_samples);
                    }
                }
                if !is_static && !contains_frame(&self.dynamic_children, &child) {
                    self.dynamic_children.push(child);
                    proof {
                        assert(self.dynamic_frames() =~= before.dynamic_frames().push(child_frame));
                        lemma_push_distinct(before.dynamic_frames(), child_frame);
                    }
                }
                proof {
                    assert forall|c: Seq<char>| #[trigger]
                        self.newest().contains_key(c) implies self.dynamic_frames().contains(c) by {
                        if c != child_frame {
                            assert(before.newest().contains_key(c));
                            assert(before.dynamic_frames().contains(c));
                        }
                    }
                    assert forall|c: Seq<char>| #[trigger]
                        self.statics().contains_key(c) implies transform_valid(
                        self.statics()[c].0,
                        self.statics()[c].1,
                    ) by {
                        if c != child_frame || !is_static {
                            assert(before.statics().contains_key(c));
                        }
                    }
                    assert forall|c: Seq<char>|
                        #![trigger self.statics().contains_key(c)]
                        #![trigger self.samples().contains_key(c)]
                        (self.statics().contains_key(c) <==> (self@.contains_key(c) && self@[c].1))
                        && (self.samples().contains_key(c) <==> (self@.contains_key(c)
                        && !self@[c].1)) by {
                        assert(before.statics().contains_key(c) <==> (before@.contains_key(c)
                            && before@[c].1));
                        assert(before.samples().contains_key(c) <==> (before@.contains_key(c)
                            && !before@[c].1));
                    }
                    assert forall|c: Seq<char>, stamp: u64|
                        #![trigger self.samples()[c].contains_key(stamp)]
                        self.samples().contains_key(c) && self.samples()[c].contains_key(stamp)
                            implies stamp > 0 && transform_valid(
                            self.samples()[c][stamp].0,
                            self.samples()[c][stamp].1,
                        ) by {
                        if c != child_frame {
                            assert(before.samples().contains_key(c));
                            assert(before.samples()[c].contains_key(stamp));
                        }
                    }
                }
                Ok(())
            },
        }
    }

    /// Looks up the transform that maps coordinates in `from` into `to` at
    /// `stamp_ns`. Beyond the registry's 64-bit clock no dynamic sample
    /// exists, so only chains of static edges answer there, as at every
    /// instant; the registry is asked at instant zero, where the same holds.
    pub fn lookup_ns(&self, from: &str, to: &str, stamp_ns: u128) -> (res: Result<Pose, TransformBufferError>)
        requires
            self.wf(),
        ensures
            self.lookup_ns_post(from@, to@, stamp_ns, res),
    {
        let from = normalize_frame(from)?;
        let to = normalize_frame(to)?;
        let instant: u64 = if stamp_ns > u64::MAX as u128 {
            0
        } else {
            stamp_ns as u64
        };
        let res = registry_lookup(&self.tree, to.as_str(), from.as_str(), instant);
        proof {
            let source = from@;
            let target = to@;
            assert forall|child: Seq<char>|
                #![trigger on_path(self@, child, target, source)]
                source != target && on_path(self@, child, target, source) && !self@[child].1
                    && !covers(self.samples(), child, stamp_ns as int) implies !covers(
                    self.samples(),
                    child,
                    instant as int,
                ) by {
                if stamp_ns > u64::MAX && covers(self.samples(), child, instant as int) {
                    let early = choose|early: u64| #[trigger]
                        self.samples()[child].contains_key(early) && early <= instant;
                    assert(self.samples()[child].contains_key(early));
                }
            }
            if self@.contains_key(source) && self@[source] == (target, false) && covers(
                self.samples(),
                source,
                stamp_ns as int,
            ) && stamp_ns > u64::MAX {
                let late = choose|late: u64| #[trigger]
                    self.samples()[source].dom().contains(late) && late >= stamp_ns;
                assert(self.samples()[source].contains_key(late));
            }
            if self@.contains_key(source) && self@[source] == (target, true) {
                assert(self.statics().contains_key(source));
            }
            if self@.contains_key(source) && self@[source] == (target, false) && stamp_ns
                <= u64::MAX && self.samples()[source].contains_key(stamp_ns as u64) {
                assert(self.samples().contains_key(source));
            }
        }
        match res {
            Ok((translation, rotation)) => Ok(Pose { translation, rotation, finite: true }),
            Err(LookupFailure::Unresolved { detail }) => Err(
                TransformBufferError::Lookup { from, to, detail },
            ),
            Err(LookupFailure::NonFinite) => Err(TransformBufferError::NonFinite),
            Err(LookupFailure::NonUnitRotation { norm }) => Err(
                TransformBufferError::NonUnitQuaternion { norm },
            ),
        }
    }

    /// Whether `lookup_ns(from, to, stamp_ns)` would succeed.
    pub fn can_transform_ns(&self, from: &str, to: &str, stamp_ns: u128) -> (res: bool)
        requires
            self.wf(),
        ensures
            res == self.can_transform_spec(from@, to@, stamp_ns),
            forall|looked_up: Result<Pose, TransformBufferError>|
                #[trigger] self.lookup_ns_post(from@, to@, stamp_ns, looked_up) ==> (res
                    <==> looked_up is Ok),
    {
        self.lookup_ns(from, to, stamp_ns).is_ok()
    }

    /// Looks up the transform from `from` into `to` at a ROS timestamp: a
    /// valid timestamp gives what `lookup_ns` gives at its nanoseconds.
    pub fn lookup(&self, from: &str, to: &str, stamp: Time) -> (res: Result<Pose, TransformBufferError>)
        requires
            self.wf(),
        ensures
            match ros_nanoseconds(stamp) {
                Some(nanos) => self.lookup_ns_post(from@, to@, nanos as u128, res),
                None => res matches Err(e) && e@ == ros_time_rejection(stamp),
            },
    {
        let stamp_ns = nanoseconds_from_ros(stamp)?;
        self.lookup_ns(from, to, stamp_ns)
    }

    /// Whether `lookup(from, to, stamp)` would succeed.
    pub fn can_transform(&self, from: &str, to: &str, stamp: Time) -> (res: bool)
        requires
            self.wf(),
        ensures
            res == (ros_nanoseconds(stamp) matches Some(nanos) && self.can_transform_spec(
                from@,
                to@,
                nanos as u128,
            )),
    {
        self.lookup(from, to, stamp).is_ok()
    }

    /// Removes every dynamic edge, with its samples; static edges stay, and
    /// the child of each removed edge no longer reaches its former parent.
    pub fn clear_dynamic(&mut self)
        requires
            old(self).wf(),
        ensures
            final(self).wf(),
            final(self)@ == static_edges(old(self)@),
            final(self).statics() == old(self).statics(),
            final(self).samples().dom().is_empty(),
            final(self).newest().dom().is_empty(),
            final(self).history() == old(self).history(),
            old(self)@ == static_edges(old(self)@) ==> *final(self) == *old(self),
            forall|child: Seq<char>|
                #![trigger old(self)@[child]]
                old(self)@.contains_key(child) && !old(self)@[child].1 ==> !connected(
                    final(self)@,
                    old(self)@[child].0,
                    child,
                ),
    {
        if self.dynamic_children.len() == 0 {
            proof {
                assert(self@ =~= static_edges(self@)) by {
                    assert forall|c: Seq<char>| #[trigger] self@.contains_key(c) implies self@[c].1 by {
                        if !self@[c].1 {
                            assert(self.dynamic_frames().contains(c));
                        }
                    }
                }
                assert(self.samples().dom() =~= Set::<Seq<char>>::empty());
                assert(self.newest().dom() =~= Set::<Seq<char>>::empty()) by {
                    assert forall|c: Seq<char>| !#[trigger] self.newest().contains_key(c) by {
                        if self.newest().contains_key(c) {
                            assert(self.dynamic_frames().contains(c));
                        }
                    }
                }
            }
            return;
        }
        proof {
            assert(old(self)@ != static_edges(old(self)@)) by {
                let c = self.dynamic_frames()[0];
                assert(self.dynamic_frames().contains(c));
                assert(!static_edges(self@).contains_key(c));
            }
        }
        let ghost start = self@;
        let ghost start_statics = self.statics();
        let ghost start_samples = self.samples();
        let ghost start_history = self.history();
        while self.dynamic_children.len() > 0
            invariant
                self.dynamic_frames().no_duplicates(),
                forall|c: Seq<char>|
                    #![trigger self.dynamic_frames().contains(c)]
                    self.dynamic_frames().contains(c) ==> start.contains_key(c) && !start[c].1
                        && self@.contains_key(c),
                forall|c: Seq<char>|
                    #![trigger self@.contains_key(c)]
                    self@.contains_key(c) <==> (start.contains_key(c) && (start[c].1
                        || self.dynamic_frames().contains(c))),
                forall|c: Seq<char>| #![trigger self@[c]] self@.contains_key(c) ==> self@[c] == start[c],
                forall|c: Seq<char>|
                    #![trigger self.newest().contains_key(c)]
                    self.newest().contains_key(c) ==> self.dynamic_frames().contains(c),
                forall|c: Seq<char>|
                    #![trigger self.samples().contains_key(c)]
                    self.samples().contains_key(c) <==> self.dynamic_frames().contains(c),
                forall|c: Seq<char>|
                    #![trigger self.samples().contains_key(c)]
                    self.samples().contains_key(c) ==> self.samples()[c] == start_samples[c]
                        && start_samples.contains_key(c),
                self.statics() == start_statics,
                self.history() == start_history,
                forall|c: Seq<char>|
                    #![trigger start_statics.contains_key(c)]
                    start_statics.contains_key(c) <==> (start.contains_key(c) && start[c].1),
                forall|c: Seq<char>|
                    #![trigger start_statics.contains_key(c)]
                    start_statics.contains_key(c) ==> transform_valid(
                        start_statics[c].0,
                        start_statics[c].1,
                    ),
                forall|c: Seq<char>, stamp: u64|
                    #![trigger start_samples[c].contains_key(stamp)]
                    start_samples.contains_key(c) && start_samples[c].contains_key(stamp) ==> stamp
                        > 0 && transform_valid(
                        start_samples[c][stamp].0,
                        start_samples[c][stamp].1,
                    ),
            decreases self.dynamic_children.len(),
        {
            let ghost before = self.dynamic_frames();
            let ghost top_newest = self.newest();
            let ghost top_samples = self.samples();
            assert(forall|c: Seq<char>| #[trigger]
                top_newest.contains_key(c) ==> before.contains(c));
            match self.dynamic_children.pop() {
                Some(child) => {
                    proof {
                        let after = self.dynamic_frames();
                        assert(before =~= after.push(child@));
                        lemma_push_distinct(after, child@);
                        assert(after.no_duplicates() && !after.contains(child@));
                        assert(before.contains(child@));
                        assert forall|c: Seq<char>| #[trigger]
                            after.contains(c) <==> before.contains(c) && c != child@ by {
                            assert(before.contains(c) == after.push(child@).contains(c));
                        }
                        assert(!start_statics.contains_key(child@));
                    }
                    registry_remove_frame(&mut self.tree, child.as_str());
                    proof {
                        assert(self.statics() =~= start_statics);
                        assert forall|c: Seq<char>| #[trigger]
                            self.newest().contains_key(c) implies self.dynamic_frames().contains(
                            c,
                        ) by {
                            assert(top_newest.contains_key(c) && c != child@);
                            assert(before.contains(c));
                        }
                        assert forall|c: Seq<char>| #[trigger]
                            self.samples().contains_key(c) <==> self.dynamic_frames().contains(c) by {
                            assert(top_samples.contains_key(c) == before.contains(c));
                        }
                    }
                },
                None => {},
            }
        }
        proof {
            assert(self@ =~= static_edges(start));
            assert(self.samples().dom() =~= Set::<Seq<char>>::empty());
            assert(self.newest().dom() =~= Set::<Seq<char>>::empty());
            assert(self@.submap_of(start));
            lemma_submap_keeps_acyclic(self@, start);
            assert forall|child: Seq<char>| #![trigger start[child]]
                start.contains_key(child) && !start[child].1 implies !connected(
                self@,
                start[child].0,
                child,
            ) by {
                lemma_dropped_edge_disconnects(self@, start, child);
            }
        }
    }
}

/// Asking whether a transform is available is asking whether the lookup
/// succeeds: for every pair of names and every stamp, `can_transform_ns`
/// holds exactly when `lookup_ns` returns `Ok`.
pub proof fn law_can_transform_is_lookup_success(
    buffer: &TransformBuffer,
    from: Seq<char>,
    to: Seq<char>,
    stamp_ns: u128,
    looked_up: Result<Pose, TransformBufferError>,
)
    requires
        buffer.wf(),
        buffer.lookup_ns_post(from, to, stamp_ns, looked_up),
    ensures
        buffer.can_transform_spec(from, to, stamp_ns) <==> looked_up is Ok,
{
}

/// Availability depends on the frames a name denotes, not on how it is
/// written: a name with leading slashes answers as the name without them,
/// and a name that denotes no frame is never available.
pub proof fn law_can_transform_reads_normalized_names(
    buffer: &TransformBuffer,
    from: Seq<char>,
    to: Seq<char>,
    stamp_ns: u128,
)
    ensures
        normalized_frame(from) is None || normalized_frame(to) is None ==> !buffer.can_transform_spec(
            from,
            to,
            stamp_ns,
        ),
        normalized_frame(from) is Some && normalized_frame(to) is Some ==> buffer.can_transform_spec(
            from,
            to,
            stamp_ns,
        ) == buffer.can_transform_spec(
            normalized_frame(from)->0,
            normalized_frame(to)->0,
            stamp_ns,
        ),
        buffer.can_transform_spec(from, to, stamp_ns) == buffer.can_transform_spec(
            seq!['/'] + from,
            seq!['/'] + to,
            stamp_ns,
        ),
{
    law_normalize_frame_is_idempotent(from);
    law_normalize_frame_is_idempotent(to);
    if normalized_frame(from) is Some && normalized_frame(to) is Some {
        let source = normalized_frame(from)->0;
        let target = normalized_frame(to)->0;
        assert(normalized_frame(source) == Some(source));
        assert(normalized_frame(target) == Some(target));
    }
    assert((seq!['/'] + from).drop_first() =~= from);
    assert((seq!['/'] + to).drop_first() =~= to);
    assert(trim_leading(seq!['/'] + from, '/') == trim_leading(from, '/'));
    assert(trim_leading(seq!['/'] + to, '/') == trim_leading(to, '/'));
}

} // verus!
