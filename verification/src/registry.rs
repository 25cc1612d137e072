//! The `transforms` crate's frame-tree registry, as the library sees it.
//!
//! The registry is opaque here. What the library's logic relies on is named:
//! the edges it stores (each child frame with its pinned parent and its
//! static-or-dynamic kind), the transform of each static edge, the samples
//! each dynamic edge keeps, its age bound, what a lookup between two frames
//! at an instant answers, and whether the crate's numeric validation accepts
//! a transform.

use core::time::Duration;

use transforms::errors::TransformError;
use transforms::geometry::{Quaternion, Vector3};
use transforms::time::{Stamp, Timestamp};
use transforms::{Registry, Transform};
use vstd::prelude::*;

use crate::tree::{connected, is_ancestor, on_path, Edges};

verus! {

#[verifier::external_type_specification]
#[verifier::external_body]
pub struct ExVector3(Vector3);

#[verifier::external_type_specification]
#[verifier::external_body]
pub struct ExQuaternion(Quaternion);

/// A `transforms` registry over nanosecond timestamps.
///
/// The registry's type is generic over a trait of its crate, which cannot be
/// declared here, so it is held in this struct, whose contents the library
/// reads only through the names and functions below.
#[verifier::external_body]
#[derive(Debug)]
pub struct FrameTree {
    registry: Registry<Timestamp>,
}

/// The edges a registry stores: each child frame mapped to its pinned
/// parent frame and to whether the edge is static.
pub uninterp spec fn registry_edges(tree: FrameTree) -> Edges;

/// The transform stored on each static edge, keyed by its child frame.
pub uninterp spec fn registry_statics(tree: FrameTree) -> Map<Seq<char>, (Vector3, Quaternion)>;

/// The samples kept on each dynamic edge, keyed by its child frame: each
/// kept stamp with the translation and rotation stored at it.
pub uninterp spec fn registry_samples(tree: FrameTree) -> Map<
    Seq<char>,
    Map<u64, (Vector3, Quaternion)>,
>;

/// For each child frame of a dynamic edge, the newest stamp inserted on
/// that edge since it was created.
pub uninterp spec fn registry_newest(tree: FrameTree) -> Map<Seq<char>, u64>;

/// The age, in nanoseconds, beyond which a dynamic edge drops samples
/// older than its newest one.
pub uninterp spec fn registry_max_age(tree: FrameTree) -> u128;

/// What `Registry::get_transform(target, source, stamp)` answers: the
/// translation and rotation of its transform, or `None` for an error.
pub uninterp spec fn registry_get(
    tree: FrameTree,
    target: Seq<char>,
    source: Seq<char>,
    stamp: u64,
) -> Option<(Vector3, Quaternion)>;

/// What `Transform::validate` reports of a transform's numbers.
pub enum Validation {
    /// All components are finite and the rotation has unit norm within the
    /// crate's tolerance.
    Valid,
    /// A component is NaN or infinite.
    NonFinite,
    /// The components are finite, but the rotation's norm is off unity by
    /// more than the tolerance.
    NonUnitRotation,
}

/// What `Transform::validate` reports of a transform with this translation
/// and rotation.
pub uninterp spec fn transform_validation(translation: Vector3, rotation: Quaternion) -> Validation;

/// Whether `Transform::validate` accepts a transform with this translation
/// and rotation.
pub open spec fn transform_valid(translation: Vector3, rotation: Quaternion) -> bool {
    transform_validation(translation, rotation) is Valid
}

/// `Duration::as_nanos` of a duration.
pub uninterp spec fn duration_nanos(duration: Duration) -> u128;

/// The newest stamp of `child`'s edge after a sample at `stamp` is inserted.
pub open spec fn newest_after(newest: Map<Seq<char>, u64>, child: Seq<char>, stamp: u64) -> u64 {
    if newest.contains_key(child) && newest[child] > stamp {
        newest[child]
    } else {
        stamp
    }
}

/// The samples `child`'s edge holds, none if it holds no entry.
pub open spec fn prior_samples(
    samples: Map<Seq<char>, Map<u64, (Vector3, Quaternion)>>,
    child: Seq<char>,
) -> Map<u64, (Vector3, Quaternion)> {
    if samples.contains_key(child) {
        samples[child]
    } else {
        Map::empty()
    }
}

/// The samples that survive an age bound: when `max_age` does not exceed
/// `newest`, those stamped at or after `newest - max_age`; otherwise all.
pub open spec fn kept(
    samples: Map<u64, (Vector3, Quaternion)>,
    newest: u64,
    max_age: u128,
) -> Map<u64, (Vector3, Quaternion)> {
    if max_age <= newest {
        samples.restrict(samples.dom().filter(|stamp: u64| stamp >= newest - max_age))
    } else {
        samples
    }
}

/// Whether `child`'s edge keeps a sample at or before `stamp` and one at or
/// after it, so that it answers at `stamp` without extrapolating.
pub open spec fn covers(
    samples: Map<Seq<char>, Map<u64, (Vector3, Quaternion)>>,
    child: Seq<char>,
    stamp: int,
) -> bool {
    &&& samples.contains_key(child)
    &&& exists|early: u64| #[trigger] samples[child].contains_key(early) && early <= stamp
    &&& exists|late: u64| #[trigger] samples[child].dom().contains(late) && late >= stamp
}

/// A frame the registry knows: the child of an edge, or the parent of one.
pub open spec fn frame_known(edges: Edges, frame: Seq<char>) -> bool {
    edges.contains_key(frame) || exists|child: Seq<char>|
        #![trigger edges[child]]
        edges.contains_key(child) && edges[child].0 == frame
}

/// Why a lookup produced no usable transform.
pub(crate) enum LookupFailure {
    /// The registry could not answer: an unknown or disconnected frame, an
    /// instant outside the stored history, or a failed composition. Holds
    /// the registry error's message.
    Unresolved { detail: String },
    /// The answer has a NaN or infinite component.
    NonFinite,
    /// The answer's rotation is not a unit quaternion within the crate's
    /// tolerance. Holds the rotation's norm, written in decimal.
    NonUnitRotation { norm: String },
}

/// Whether a lookup failed for want of an answer from the registry.
pub(crate) open spec fn unresolved(res: Result<(Vector3, Quaternion), LookupFailure>) -> bool {
    res matches Err(failure) && failure is Unresolved
}

/// Whether a lookup failed because the answer has a non-finite component.
pub(crate) open spec fn failed_non_finite(res: Result<(Vector3, Quaternion), LookupFailure>) -> bool {
    res matches Err(failure) && failure is NonFinite
}

/// Whether a lookup failed because the answer's rotation is not of unit norm.
pub(crate) open spec fn failed_non_unit(res: Result<(Vector3, Quaternion), LookupFailure>) -> bool {
    res matches Err(failure) && failure is NonUnitRotation
}

/// Whether a lookup answered with exactly this translation and rotation.
pub(crate) open spec fn answers_with(
    res: Result<(Vector3, Quaternion), LookupFailure>,
    answer: (Vector3, Quaternion),
) -> bool {
    res matches Ok(found) && found == answer
}

/// Calls `Registry::with_max_age`: a registry with no edge, whose dynamic
/// edges drop samples older than `max_age` behind their newest one.
#[verifier::external_body]
pub(crate) fn registry_with_max_age(max_age: Duration) -> (tree: FrameTree)
    ensures
        registry_edges(tree).dom().is_empty(),
        registry_statics(tree).dom().is_empty(),
        registry_samples(tree).dom().is_empty(),
        registry_newest(tree).dom().is_empty(),
        registry_max_age(tree) == duration_nanos(max_age),
{
    FrameTree { registry: Registry::with_max_age(max_age) }
}

/// Calls `Registry::add_transform` on the transform that `Transform::new`
/// builds from the arguments, with `Stamp::Static` for `stamp == None` and
/// `Stamp::At(Timestamp::from_nanos(..))` otherwise; a rejection by
/// `Transform::new` is reported as well. An error is handed back as its
/// message. `Transform` is generic over a trait of its crate and cannot be
/// declared here, so it is built where it is consumed.
///
/// The contract claims what the crate's source shows of these calls. The
/// transform is accepted exactly when `Transform::validate` accepts its
/// numbers, the two frames differ, and either the child already has an edge
/// to the same parent of the same kind, or it has none and is no ancestor
/// of the parent (the edge would close a cycle). A rejected transform leaves
/// the registry as it was. An accepted one stores the edge; a static one
/// replaces the edge's stored transform; a dynamic one adds its sample,
/// moves the edge's newest stamp up to its own, and then drops the samples
/// stamped before the newest stamp less the age bound, when that difference
/// is not negative. The text of an error is not stated.
#[verifier::external_body]
pub(crate) fn registry_add(
    tree: &mut FrameTree,
    parent: &str,
    child: &str,
    translation: Vector3,
    rotation: Quaternion,
    stamp: Option<u64>,
) -> (res: Result<(), String>)
    ensures
        res is Ok <==> {
            &&& transform_valid(translation, rotation)
            &&& parent@ != child@
            &&& if registry_edges(*old(tree)).contains_key(child@) {
                registry_edges(*old(tree))[child@] == (parent@, stamp is None)
            } else {
                !is_ancestor(registry_edges(*old(tree)), child@, parent@)
            }
        },
        res is Err ==> *final(tree) == *old(tree),
        res is Ok ==> registry_edges(*final(tree)) == registry_edges(*old(tree)).insert(
            child@,
            (parent@, stamp is None),
        ),
        res is Ok ==> registry_max_age(*final(tree)) == registry_max_age(*old(tree)),
        res is Ok && stamp is None ==> {
            &&& registry_statics(*final(tree)) == registry_statics(*old(tree)).insert(
                child@,
                (translation, rotation),
            )
            &&& registry_samples(*final(tree)) == registry_samples(*old(tree))
            &&& registry_newest(*final(tree)) == registry_newest(*old(tree))
        },
        stamp matches Some(instant) ==> (res is Ok ==> {
            let newest = newest_after(registry_newest(*old(tree)), child@, instant);
            &&& registry_statics(*final(tree)) == registry_statics(*old(tree))
            &&& registry_newest(*final(tree)) == registry_newest(*old(tree)).insert(child@, newest)
            &&& registry_samples(*final(tree)) == registry_samples(*old(tree)).insert(
                child@,
                kept(
                    prior_samples(registry_samples(*old(tree)), child@).insert(
                        instant,
                        (translation, rotation),
                    ),
                    newest,
                    registry_max_age(*old(tree)),
                ),
            )
        }),
{
    let stamp = match stamp {
        Some(nanos) => Stamp::At(Timestamp::from_nanos(nanos)),
        None => Stamp::Static,
    };
    match Transform::new(parent, child, translation, rotation, stamp) {
        Ok(transform) => match tree.registry.add_transform(transform) {
            Ok(()) => Ok(()),
            Err(error) => Err(error.to_string()),
        },
        Err(error) => Err(error.to_string()),
    }
}

/// Calls `Registry::remove_frame`: drops the child's incoming edge, with its
/// stored transform or samples, and reports whether it had one. Other edges
/// stay, as the source shows.
#[verifier::external_body]
pub(crate) fn registry_remove_frame(tree: &mut FrameTree, child: &str) -> (removed: bool)
    ensures
        removed == registry_edges(*old(tree)).contains_key(child@),
        registry_edges(*final(tree)) == registry_edges(*old(tree)).remove(child@),
        registry_statics(*final(tree)) == registry_statics(*old(tree)).remove(child@),
        registry_samples(*final(tree)) == registry_samples(*old(tree)).remove(child@),
        registry_newest(*final(tree)) == registry_newest(*old(tree)).remove(child@),
        registry_max_age(*final(tree)) == registry_max_age(*old(tree)),
{
    tree.registry.remove_frame(child)
}

/// Calls `Registry::get_transform(target, source, Timestamp::from_nanos(stamp))`
/// and then `Transform::validate` on its answer, handing back the answer's
/// translation and rotation. `Transform` cannot be declared here (see
/// `registry_add`), so the answer is validated and taken apart where it is
/// received.
///
/// The contract claims, besides naming the answer, what the crate's source
/// shows of its walk up the tree from both frames: equal frames answer; a
/// pair with no common ancestor, including an unknown frame, has no answer;
/// nor has a pair whose path crosses a dynamic edge that keeps no sample at
/// or before the stamp, or none at or after it (no extrapolation). A single
/// edge looked up from its child into its parent answers with the stored
/// transform of a static edge, and of a dynamic edge with the sample kept at
/// the stamp; between two kept samples it answers, by interpolation, with
/// numbers not stated here. Which other lookups answer (the composition and
/// inversion of transforms can fail numerically), and the text of an error,
/// are not stated.
#[verifier::external_body]
pub(crate) fn registry_lookup(
    tree: &FrameTree,
    target: &str,
    source: &str,
    stamp: u64,
) -> (res: Result<(Vector3, Quaternion), LookupFailure>)
    ensures
        res matches Ok(answer) ==> registry_get(*tree, target@, source@, stamp) == Some(answer)
            && transform_valid(answer.0, answer.1),
        res is Err ==> !(registry_get(*tree, target@, source@, stamp) matches Some(answer)
            && transform_valid(answer.0, answer.1)),
        unresolved(res) <==> registry_get(*tree, target@, source@, stamp) is None,
        failed_non_finite(res) <==> (registry_get(*tree, target@, source@, stamp) matches Some(
            answer,
        ) && transform_validation(answer.0, answer.1) is NonFinite),
        failed_non_unit(res) <==> (registry_get(*tree, target@, source@, stamp) matches Some(
            answer,
        ) && transform_validation(answer.0, answer.1) is NonUnitRotation),
        target@ == source@ ==> res is Ok,
        target@ != source@ && !connected(registry_edges(*tree), target@, source@) ==> unresolved(res),
        target@ != source@ && !(frame_known(registry_edges(*tree), target@) && frame_known(
            registry_edges(*tree),
            source@,
        )) ==> unresolved(res),
        forall|child: Seq<char>|
            target@ != source@ && #[trigger] on_path(registry_edges(*tree), child, target@, source@)
                && !registry_edges(*tree)[child].1 && !covers(
                registry_samples(*tree),
                child,
                stamp as int,
            ) ==> unresolved(res),
        registry_edges(*tree).contains_key(source@) && registry_edges(*tree)[source@] == (
        target@, true) && registry_statics(*tree).contains_key(source@) && transform_valid(
            registry_statics(*tree)[source@].0,
            registry_statics(*tree)[source@].1,
        ) ==> answers_with(res, registry_statics(*tree)[source@]),
        registry_edges(*tree).contains_key(source@) && registry_edges(*tree)[source@] == (
        target@, false) && covers(registry_samples(*tree), source@, stamp as int) ==> !unresolved(
            res,
        ),
        registry_edges(*tree).contains_key(source@) && registry_edges(*tree)[source@] == (
        target@, false) && registry_samples(*tree).contains_key(source@) && registry_samples(
            *tree,
        )[source@].contains_key(stamp) && transform_valid(
            registry_samples(*tree)[source@][stamp].0,
            registry_samples(*tree)[source@][stamp].1,
        ) ==> answers_with(res, registry_samples(*tree)[source@][stamp]),
{
    let transform = match tree.registry.get_transform(target, source, Timestamp::from_nanos(stamp)) {
        Ok(transform) => transform,
        Err(error) => return Err(LookupFailure::Unresolved { detail: error.to_string() }),
    };
    match transform.validate() {
        Ok(()) => Ok((transform.translation(), transform.rotation())),
        Err(TransformError::NonUnitRotation(norm)) => {
            Err(LookupFailure::NonUnitRotation { norm: norm.to_string() })
        },
        Err(_) => Err(LookupFailure::NonFinite),
    }
}

} // verus!
