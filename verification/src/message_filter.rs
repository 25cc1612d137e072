//! A queue that holds stamped messages until the transforms they need are
//! available, delivering them in the order they arrived.

use std::collections::VecDeque;

use vstd::prelude::*;

use crate::buffer::{
    frame_names, frame_rejection, law_normalize_frame_is_idempotent, normalize_frame,
    normalized_frame, BufferFault, TransformBuffer, TransformBufferError,
};
use crate::text::{trim_leading, trim_leading_slashes};

verus! {

/// Why a stamped message was rejected by [`MessageFilter`].
#[derive(Clone, Copy, Debug, PartialEq, Eq, Structural)]
pub enum FilterFailureReason {
    /// The message's source frame was empty.
    EmptyFrameId,
    /// The message's source frame was not a valid frame name.
    InvalidFrameId,
    /// The bounded queue was full, so its oldest message was discarded.
    QueueFull,
}

/// A message removed from a filter without being delivered.
#[derive(Debug)]
pub struct DroppedMessage<M> {
    pub message: M,
    pub reason: FilterFailureReason,
}

#[derive(Debug)]
struct QueuedMessage<M> {
    message: M,
    source_frame: String,
    stamp_ns: u128,
}

/// A waiting message: its payload, its normalized source frame and its stamp.
pub type Pending<M> = (M, Seq<char>, u128);

/// How many items at the front of `items` satisfy `ready`, up to the first
/// one that does not.
pub open spec fn drained_count<A>(items: Seq<A>, ready: spec_fn(A) -> bool) -> nat
    decreases items.len(),
{
    if items.len() > 0 && ready(items[0]) {
        1 + drained_count(items.drop_first(), ready)
    } else {
        0
    }
}

/// How many of `len` waiting messages a queue bounded by `limit` (zero:
/// unbounded) must discard.
pub open spec fn overflow(len: nat, limit: usize) -> nat {
    if limit != 0 && len > limit {
        (len - limit) as nat
    } else {
        0
    }
}

/// Whether `buffer` holds the transform from `source` into `target` at
/// `stamp` and, for a nonzero tolerance, also at `stamp + tolerance`.
pub open spec fn target_ready(
    buffer: &TransformBuffer,
    source: Seq<char>,
    target: Seq<char>,
    stamp: u128,
    tolerance: u128,
) -> bool {
    &&& buffer.can_transform_spec(source, target, stamp)
    &&& tolerance == 0 || (stamp + tolerance <= u128::MAX && buffer.can_transform_spec(
        source,
        target,
        (stamp + tolerance) as u128,
    ))
}

/// Whether a message from `source` at `stamp` can be delivered into every
/// one of `targets`.
pub open spec fn message_ready(
    buffer: &TransformBuffer,
    targets: Seq<Seq<char>>,
    tolerance: u128,
    source: Seq<char>,
    stamp: u128,
) -> bool {
    forall|i: int|
        #![trigger targets[i]]
        0 <= i < targets.len() ==> target_ready(buffer, source, targets[i], stamp, tolerance)
}

/// The messages a queue drops, in order, each with the reason `QueueFull`.
pub open spec fn dropped_as_full<M>(dropped: Seq<DroppedMessage<M>>, messages: Seq<Pending<M>>) -> bool {
    &&& dropped.len() == messages.len()
    &&& forall|i: int|
        #![trigger dropped[i]]
        0 <= i < dropped.len() ==> dropped[i].message == messages[i].0 && dropped[i].reason
            == FilterFailureReason::QueueFull
}

/// The payloads of waiting messages.
pub open spec fn payloads<M>(messages: Seq<Pending<M>>) -> Seq<M> {
    messages.map_values(|p: Pending<M>| p.0)
}

/// Holds stamped messages until their required transforms are available.
///
/// Messages are delivered in insertion order. In particular, a later message
/// cannot overtake an earlier message whose transform is still unavailable.
/// This makes the result independent of whether a data callback or transform
/// callback happened to run first.
#[derive(Debug)]
pub struct MessageFilter<M> {
    target_frames: Vec<String>,
    queue_size: usize,
    tolerance_ns: u128,
    messages: VecDeque<QueuedMessage<M>>,
}

impl<M> MessageFilter<M> {
    /// The frames every message must be transformable into.
    pub closed spec fn targets(&self) -> Seq<Seq<char>> {
        frame_names(self.target_frames@)
    }

    /// The bound on waiting messages; zero means unbounded.
    pub closed spec fn limit(&self) -> usize {
        self.queue_size
    }

    /// The interval after a message's stamp that must be covered as well.
    pub closed spec fn tolerance(&self) -> u128 {
        self.tolerance_ns
    }

    /// The waiting messages, oldest first.
    pub closed spec fn pending(&self) -> Seq<Pending<M>> {
        self.messages@.map_values(
            |q: QueuedMessage<M>| (q.message, q.source_frame@, q.stamp_ns),
        )
    }

    /// Whether the waiting message `p` can be delivered with `buffer`.
    pub open spec fn ready_with(&self, buffer: &TransformBuffer) -> spec_fn(Pending<M>) -> bool {
        |p: Pending<M>| message_ready(buffer, self.targets(), self.tolerance(), p.1, p.2)
    }

    /// Targets are a non-empty list of normalized frames, waiting messages
    /// carry normalized frames, and a bounded queue respects its bound.
    pub open spec fn wf(&self) -> bool {
        &&& self.targets_wf()
        &&& self.queue_wf()
    }

    /// Targets are a non-empty list of normalized frames.
    pub closed spec fn targets_wf(&self) -> bool {
        &&& self.targets().len() > 0
        &&& forall|i: int|
            #![trigger self.targets()[i]]
            0 <= i < self.targets().len() ==> normalized_frame(self.targets()[i]) == Some(
                self.targets()[i],
            )
    }

    /// Waiting messages carry normalized frames, and a bounded queue
    /// respects its bound.
    pub closed spec fn queue_wf(&self) -> bool {
        &&& forall|i: int|
            #![trigger self.pending()[i]]
            0 <= i < self.pending().len() ==> normalized_frame(self.pending()[i].1) == Some(
                self.pending()[i].1,
            )
        &&& self.queue_size != 0 ==> self.pending().len() <= self.queue_size
    }

    /// The same configuration: targets, queue bound and tolerance.
    pub open spec fn same_config(&self, other: &Self) -> bool {
        &&& self.targets() == other.targets()
        &&& self.limit() == other.limit()
        &&& self.tolerance() == other.tolerance()
    }
}

impl<M> MessageFilter<M> {
    /// Creates a filter for one target frame.
    ///
    /// A `queue_size` of zero makes the queue unbounded.
    pub fn new(target_frame: &str, queue_size: usize) -> (res: Result<Self, TransformBufferError>)
        ensures
            match normalized_frame(target_frame@) {
                Some(frame) => res matches Ok(filter) && filter.wf() && filter.targets() == seq![
                    frame,
                ] && filter.limit() == queue_size && filter.tolerance() == 0
                    && filter.pending().len() == 0,
                None => res matches Err(e) && e@ == frame_rejection(target_frame@),
            },
    {
        let mut filter = MessageFilter {
            target_frames: Vec::new(),
            queue_size,
            tolerance_ns: 0,
            messages: VecDeque::new(),
        };
        let frames: [&str; 1] = [target_frame];
        filter.set_target_frames(&frames)?;
        proof {
            assert(frames@ =~= seq![target_frame]);
        }
        Ok(filter)
    }

    /// Replaces the frames that must all be reachable before delivery.
    ///
    /// Fails on the first frame that is not a valid name, and on an empty
    /// list; the filter is then unchanged.
    pub fn set_target_frames(&mut self, target_frames: &[&str]) -> (res: Result<(), TransformBufferError>)
        requires
            old(self).queue_wf(),
        ensures
            res is Ok <==> target_frames@.len() > 0 && forall|i: int|
                #![trigger target_frames@[i]]
                0 <= i < target_frames@.len() ==> normalized_frame(target_frames@[i]@) is Some,
            res is Ok ==> final(self).wf() && final(self).pending() == old(self).pending()
                && final(self).limit() == old(self).limit() && final(self).tolerance() == old(
                self,
            ).tolerance() && final(self).targets() == target_frames@.map_values(
                |frame: &str| normalized_frame(frame@)->0,
            ),
            res matches Err(e) ==> *final(self) == *old(self) && (forall|i: int|
                #![trigger target_frames@[i]]
                0 <= i < target_frames@.len() && normalized_frame(target_frames@[i]@) is None
                    && (forall|j: int| 0 <= j < i ==> normalized_frame(#[trigger] target_frames@[j]@) is Some)
                    ==> e@ == frame_rejection(target_frames@[i]@)) && (target_frames@.len() == 0
                ==> e@ == (BufferFault::InvalidFrame {
                frame: Seq::empty(),
                reason: "at least one target frame is required"@,
            })),
    {
        let mut normalized: Vec<String> = Vec::new();
        let mut i: usize = 0;
        while i < target_frames.len()
            invariant
                i <= target_frames@.len(),
                normalized@.len() == i,
                forall|j: int|
                    #![trigger target_frames@[j]]
                    0 <= j < i ==> normalized_frame(target_frames@[j]@) is Some,
                forall|j: int|
                    #![trigger normalized@[j]]
                    0 <= j < i ==> normalized@[j]@ == normalized_frame(target_frames@[j]@)->0,
            decreases target_frames@.len() - i,
        {
            let frame = normalize_frame(target_frames[i])?;
            normalized.push(frame);
            i += 1;
        }
        if normalized.len() == 0 {
            return Err(
                TransformBufferError::InvalidFrame {
                    frame: String::new(),
                    reason: "at least one target frame is required",
                },
            );
        }
        self.target_frames = normalized;
        proof {
            assert(self.targets() =~= target_frames@.map_values(
                |frame: &str| normalized_frame(frame@)->0,
            ));
            assert forall|j: int| 0 <= j < self.targets().len() implies normalized_frame(
                #[trigger] self.targets()[j],
            ) == Some(self.targets()[j]) by {
                law_normalize_frame_is_idempotent(target_frames@[j]@);
            }
        }
        Ok(())
    }

    /// Replaces the single target frame.
    pub fn set_target_frame(&mut self, target_frame: &str) -> (res: Result<(), TransformBufferError>)
        requires
            old(self).wf(),
        ensures
            final(self).wf(),
            match normalized_frame(target_frame@) {
                Some(frame) => res is Ok && final(self).targets() == seq![frame]
                    && final(self).pending() == old(self).pending() && final(self).limit() == old(
                    self,
                ).limit() && final(self).tolerance() == old(self).tolerance(),
                None => res matches Err(e) && e@ == frame_rejection(target_frame@) && *final(self)
                    == *old(self),
            },
    {
        let frames: [&str; 1] = [target_frame];
        proof {
            assert(frames@ =~= seq![target_frame]);
        }
        let res = self.set_target_frames(&frames);
        proof {
            if res is Ok {
                assert(self.targets() =~= seq![normalized_frame(target_frame@)->0]);
            }
        }
        res
    }

    /// Requires transforms at both the message timestamp and this much later.
    pub fn set_tolerance_ns(&mut self, tolerance_ns: u128)
        requires
            old(self).wf(),
        ensures
            final(self).wf(),
            final(self).tolerance() == tolerance_ns,
            final(self).targets() == old(self).targets(),
            final(self).limit() == old(self).limit(),
            final(self).pending() == old(self).pending(),
    {
        self.tolerance_ns = tolerance_ns;
    }

    /// Changes the maximum number of waiting messages. Zero is unbounded.
    /// Reports the oldest messages it discards to respect the new bound.
    pub fn set_queue_size(&mut self, queue_size: usize) -> (dropped: Vec<DroppedMessage<M>>)
        requires
            old(self).wf(),
        ensures
            final(self).wf(),
            final(self).limit() == queue_size,
            queue_size != 0 ==> final(self).pending().len() <= queue_size,
            final(self).targets() == old(self).targets(),
            final(self).tolerance() == old(self).tolerance(),
            dropped_as_full(
                dropped@,
                old(self).pending().take(overflow(old(self).pending().len(), queue_size) as int),
            ),
            final(self).pending() == old(self).pending().skip(
                overflow(old(self).pending().len(), queue_size) as int,
            ),
    {
        self.queue_size = queue_size;
        self.enforce_queue_size()
    }

    /// Discards the oldest waiting messages until the queue respects its bound.
    fn enforce_queue_size(&mut self) -> (dropped: Vec<DroppedMessage<M>>)
        requires
            forall|i: int|
                #![trigger old(self).pending()[i]]
                0 <= i < old(self).pending().len() ==> normalized_frame(old(self).pending()[i].1)
                    == Some(old(self).pending()[i].1),
        ensures
            final(self).queue_wf(),
            final(self).targets() == old(self).targets(),
            final(self).limit() == old(self).limit(),
            final(self).tolerance() == old(self).tolerance(),
            dropped_as_full(
                dropped@,
                old(self).pending().take(overflow(old(self).pending().len(), old(self).limit()) as int),
            ),
            final(self).pending() == old(self).pending().skip(
                overflow(old(self).pending().len(), old(self).limit()) as int,
            ),
    {
        let ghost start = self.pending();
        let ghost n = overflow(start.len(), self.queue_size);
        let mut dropped: Vec<DroppedMessage<M>> = Vec::new();
        while self.queue_size != 0 && self.messages.len() > self.queue_size
            invariant
                dropped@.len() <= n,
                self.pending() == start.skip(dropped@.len() as int),
                dropped_as_full(dropped@, start.take(dropped@.len() as int)),
                self.targets() == old(self).targets(),
                self.queue_size == old(self).queue_size,
                self.tolerance_ns == old(self).tolerance_ns,
                n == overflow(start.len(), self.queue_size),
                forall|i: int|
                    #![trigger start[i]]
                    0 <= i < start.len() ==> normalized_frame(start[i].1) == Some(start[i].1),
            decreases self.messages@.len(),
        {
            let ghost before = self.pending();
            match self.messages.pop_front() {
                Some(message) => {
                    proof {
                        assert(before[0] == start[dropped@.len() as int]);
                    }
                    dropped.push(
                        DroppedMessage { message: message.message, reason: FilterFailureReason::QueueFull },
                    );
                    proof {
                        assert(self.pending() =~= before.subrange(1, before.len() as int));
                        assert(self.pending() =~= start.skip(dropped@.len() as int));
                    }
                },
                None => {},
            }
        }
        proof {
            assert(self.pending().len() <= self.queue_size || self.queue_size == 0);
            assert forall|i: int|
                #![trigger self.pending()[i]]
                0 <= i < self.pending().len() implies normalized_frame(self.pending()[i].1) == Some(
                self.pending()[i].1,
            ) by {
                assert(self.pending()[i] == start[i + dropped@.len()]);
            }
        }
        dropped
    }

    /// Adds a stamped message and reports any message discarded as a result:
    /// the message itself when its source frame is empty or invalid, and
    /// otherwise the oldest messages beyond the queue's bound.
    pub fn add(&mut self, message: M, source_frame: &str, stamp_ns: u128) -> (dropped: Vec<DroppedMessage<M>>)
        requires
            old(self).wf(),
        ensures
            final(self).wf(),
            final(self).same_config(old(self)),
            final(self).limit() != 0 ==> final(self).pending().len() <= final(self).limit(),
            if trim_leading(source_frame@, '/').len() == 0 {
                &&& dropped@ == seq![(DroppedMessage { message, reason: FilterFailureReason::EmptyFrameId })]
                &&& final(self).pending() == old(self).pending()
            } else if normalized_frame(source_frame@) is None {
                &&& dropped@ == seq![(DroppedMessage { message, reason: FilterFailureReason::InvalidFrameId })]
                &&& final(self).pending() == old(self).pending()
            } else {
                let all = old(self).pending().push(
                    (message, normalized_frame(source_frame@)->0, stamp_ns),
                );
                let discarded = overflow(all.len(), old(self).limit());
                &&& dropped_as_full(dropped@, all.take(discarded as int))
                &&& final(self).pending() == all.skip(discarded as int)
            },
    {
        if trim_leading_slashes(source_frame).is_empty() {
            return vec![DroppedMessage { message, reason: FilterFailureReason::EmptyFrameId }];
        }
        let source_frame = match normalize_frame(source_frame) {
            Ok(frame) => frame,
            Err(_) => {
                return vec![DroppedMessage { message, reason: FilterFailureReason::InvalidFrameId }];
            },
        };
        let ghost before = self.pending();
        proof {
            law_normalize_frame_is_idempotent(source_frame@);
        }
        self.messages.push_back(QueuedMessage { message, source_frame, stamp_ns });
        proof {
            assert(self.pending() =~= before.push((message, source_frame@, stamp_ns)));
        }
        self.enforce_queue_size()
    }

    /// Whether `message` can be delivered into every target frame.
    fn is_ready(&self, buffer: &TransformBuffer, message: &QueuedMessage<M>) -> (res: bool)
        requires
            buffer.wf(),
        ensures
            res == message_ready(
                buffer,
                self.targets(),
                self.tolerance(),
                message.source_frame@,
                message.stamp_ns,
            ),
    {
        let mut i: usize = 0;
        while i < self.target_frames.len()
            invariant
                i <= self.target_frames@.len(),
                buffer.wf(),
                forall|j: int|
                    #![trigger self.targets()[j]]
                    0 <= j < i ==> target_ready(
                        buffer,
                        message.source_frame@,
                        self.targets()[j],
                        message.stamp_ns,
                        self.tolerance_ns,
                    ),
            decreases self.target_frames@.len() - i,
        {
            let target = self.target_frames[i].as_str();
            proof {
                assert(target@ == self.targets()[i as int]);
            }
            if !buffer.can_transform_ns(message.source_frame.as_str(), target, message.stamp_ns) {
                return false;
            }
            if self.tolerance_ns != 0 {
                match message.stamp_ns.checked_add(self.tolerance_ns) {
                    None => {
                        return false;
                    },
                    Some(end_stamp) => {
                        if !buffer.can_transform_ns(message.source_frame.as_str(), target, end_stamp) {
                            return false;
                        }
                    },
                }
            }
            i += 1;
        }
        true
    }

    /// Whether the oldest waiting message exists and can be delivered.
    fn front_is_ready(&self, buffer: &TransformBuffer) -> (res: bool)
        requires
            buffer.wf(),
        ensures
            res == (self.pending().len() > 0 && (self.ready_with(buffer))(self.pending()[0])),
    {
        if self.messages.len() == 0 {
            false
        } else {
            self.is_ready(buffer, &self.messages[0])
        }
    }

    /// Removes and returns the FIFO prefix whose transforms are available.
    pub fn drain_ready(&mut self, buffer: &TransformBuffer) -> (ready: Vec<M>)
        requires
            old(self).wf(),
            buffer.wf(),
        ensures
            final(self).wf(),
            final(self).same_config(old(self)),
            ready@ == payloads(
                old(self).pending().take(
                    drained_count(old(self).pending(), old(self).ready_with(buffer)) as int,
                ),
            ),
            final(self).pending() == old(self).pending().skip(
                drained_count(old(self).pending(), old(self).ready_with(buffer)) as int,
            ),
    {
        let ghost start = self.pending();
        let ghost is_ready = self.ready_with(buffer);
        let mut ready: Vec<M> = Vec::new();
        while self.front_is_ready(buffer)
            invariant
                ready@.len() <= start.len(),
                self.pending() == start.skip(ready@.len() as int),
                ready@ == payloads(start.take(ready@.len() as int)),
                forall|i: int| 0 <= i < ready@.len() ==> #[trigger] is_ready(start[i]),
                self.targets() == old(self).targets(),
                self.queue_size == old(self).queue_size,
                self.tolerance_ns == old(self).tolerance_ns,
                is_ready == self.ready_with(buffer),
                buffer.wf(),
            decreases self.messages@.len(),
        {
            let ghost before = self.pending();
            match self.messages.pop_front() {
                Some(message) => {
                    proof {
                        assert(before[0] == start[ready@.len() as int]);
                        assert(self.pending() =~= before.subrange(1, before.len() as int));
                    }
                    ready.push(message.message);
                    proof {
                        assert(self.pending() =~= start.skip(ready@.len() as int));
                        assert(ready@ =~= payloads(start.take(ready@.len() as int)));
                    }
                },
                None => {},
            }
        }
        proof {
            if ready@.len() < start.len() {
                assert(self.pending()[0] == start[ready@.len() as int]);
            }
            lemma_drained_count_exact(start, is_ready, ready@.len() as nat);
            assert forall|i: int|
                #![trigger self.pending()[i]]
                0 <= i < self.pending().len() implies normalized_frame(self.pending()[i].1) == Some(
                self.pending()[i].1,
            ) by {
                assert(self.pending()[i] == start[i + ready@.len()]);
            }
        }
        ready
    }

    /// Discards every waiting message without reporting failures.
    pub fn clear(&mut self)
        requires
            old(self).wf(),
        ensures
            final(self).wf(),
            final(self).same_config(old(self)),
            final(self).pending().len() == 0,
    {
        self.messages.clear();
        proof {
            assert(self.pending() =~= Seq::<Pending<M>>::empty());
        }
    }

    /// The number of waiting messages.
    pub fn pending_count(&self) -> (count: usize)
        ensures
            count == self.pending().len(),
    {
        self.messages.len()
    }

    /// The bound on waiting messages; zero means unbounded.
    pub fn queue_size(&self) -> (size: usize)
        ensures
            size == self.limit(),
    {
        self.queue_size
    }

    /// The interval after a message's stamp that must be covered as well.
    pub fn tolerance_ns(&self) -> (tolerance: u128)
        ensures
            tolerance == self.tolerance(),
    {
        self.tolerance_ns
    }

    /// The frames every message must be transformable into.
    pub fn target_frames(&self) -> (frames: &[String])
        ensures
            frame_names(frames@) == self.targets(),
    {
        self.target_frames.as_slice()
    }
}

/// The items `drained_count` counts are ready, and the first item after
/// them, if there is one, is not.
pub proof fn lemma_drained_prefix<A>(items: Seq<A>, ready: spec_fn(A) -> bool)
    ensures
        drained_count(items, ready) <= items.len(),
        forall|i: int| 0 <= i < drained_count(items, ready) ==> #[trigger] ready(items[i]),
        drained_count(items, ready) < items.len() ==> !ready(
            items[drained_count(items, ready) as int],
        ),
    decreases items.len(),
{
    if items.len() > 0 && ready(items[0]) {
        let rest = items.drop_first();
        lemma_drained_prefix(rest, ready);
        assert forall|i: int| 0 <= i < drained_count(items, ready) implies #[trigger] ready(items[i]) by {
            if i > 0 {
                assert(items[i] == rest[i - 1]);
            }
        }
        let k = drained_count(items, ready);
        if k < items.len() {
            assert(items[k as int] == rest[k - 1]);
        }
    }
}

/// A count of ready items followed by an item that is not ready, or by
/// nothing, is the drained count.
pub proof fn lemma_drained_count_exact<A>(items: Seq<A>, ready: spec_fn(A) -> bool, n: nat)
    requires
        n <= items.len(),
        forall|i: int| 0 <= i < n ==> #[trigger] ready(items[i]),
        n < items.len() ==> !ready(items[n as int]),
    ensures
        drained_count(items, ready) == n,
    decreases n,
{
    if n > 0 {
        let rest = items.drop_first();
        assert(ready(items[0]));
        assert forall|i: int| 0 <= i < n - 1 implies #[trigger] ready(rest[i]) by {
            assert(rest[i] == items[i + 1]);
            assert(ready(items[i + 1]));
        }
        if n - 1 < rest.len() {
            assert(rest[n - 1] == items[n as int]);
        }
        lemma_drained_count_exact(rest, ready, (n - 1) as nat);
    }
}

/// A bounded queue never holds more waiting messages than its bound: every
/// filter the public operations produce is well formed, and so respects it.
pub proof fn law_queue_is_bounded<M>(filter: &MessageFilter<M>)
    requires
        filter.wf(),
    ensures
        filter.limit() != 0 ==> filter.pending().len() <= filter.limit(),
{
}

/// Nothing is lost: the messages a drain delivers, or a bound discards,
/// followed by those that stay, are the messages that were waiting.
pub proof fn law_messages_are_conserved<M>(messages: Seq<Pending<M>>, n: int)
    requires
        0 <= n <= messages.len(),
    ensures
        payloads(messages.take(n)) + payloads(messages.skip(n)) == payloads(messages),
{
    assert(payloads(messages.take(n)) + payloads(messages.skip(n)) =~= payloads(messages));
}

/// Draining a second time with the same readiness delivers nothing: what
/// the first drain left starts with a message that is not ready, or is empty.
pub proof fn law_drain_is_idempotent<A>(items: Seq<A>, ready: spec_fn(A) -> bool)
    ensures
        drained_count(items.skip(drained_count(items, ready) as int), ready) == 0,
{
    lemma_drained_prefix(items, ready);
    let k = drained_count(items, ready);
    let rest = items.skip(k as int);
    if rest.len() > 0 {
        assert(rest[0] == items[k as int]);
    }
}

/// A filter drained with a buffer and drained again with the same buffer
/// delivers nothing the second time.
pub proof fn law_drain_twice_delivers_nothing<M>(
    before: MessageFilter<M>,
    after: MessageFilter<M>,
    buffer: &TransformBuffer,
)
    requires
        after.same_config(&before),
        after.pending() == before.pending().skip(
            drained_count(before.pending(), before.ready_with(buffer)) as int,
        ),
    ensures
        drained_count(after.pending(), after.ready_with(buffer)) == 0,
{
    assert(after.ready_with(buffer) =~= before.ready_with(buffer));
    law_drain_is_idempotent(before.pending(), before.ready_with(buffer));
}

/// Delivery does not depend on whether a message arrives before or after a
/// drain: draining after `message` is queued delivers what a drain before
/// its arrival delivers, followed by what draining the remainder with it
/// delivers. In particular `message` is not delivered ahead of an earlier
/// message that is not ready.
pub proof fn law_arrival_order<A>(items: Seq<A>, message: A, ready: spec_fn(A) -> bool)
    ensures
        drained_count(items.push(message), ready) == drained_count(items, ready) + drained_count(
            items.skip(drained_count(items, ready) as int).push(message),
            ready,
        ),
        drained_count(items, ready) < items.len() ==> drained_count(items.push(message), ready)
            == drained_count(items, ready),
{
    lemma_drained_prefix(items, ready);
    let k = drained_count(items, ready);
    let all = items.push(message);
    let rest = items.skip(k as int).push(message);
    lemma_drained_prefix(rest, ready);
    let j = drained_count(rest, ready);
    assert forall|i: int| 0 <= i < k + j implies #[trigger] ready(all[i]) by {
        if i < k {
            assert(all[i] == items[i]);
        } else {
            assert(all[i] == rest[i - k]);
            assert(ready(rest[i - k]));
        }
    }
    if k + j < all.len() {
        assert(all[(k + j) as int] == rest[j as int]);
    }
    lemma_drained_count_exact(all, ready, k + j);
    if k < items.len() {
        assert(rest[0] == items[k as int]);
    }
}

/// Whether `buffer` can transform `source` into `target` at `stamp`, and,
/// for a nonzero tolerance, also at `stamp + tolerance`, which must exist.
pub open spec fn covered_for(
    buffer: &TransformBuffer,
    source: Seq<char>,
    target: Seq<char>,
    stamp: u128,
    tolerance: u128,
) -> bool {
    &&& buffer.can_transform_spec(source, target, stamp)
    &&& tolerance != 0 ==> stamp + tolerance <= u128::MAX && buffer.can_transform_spec(
        source,
        target,
        (stamp + tolerance) as u128,
    )
}

/// A message is ready exactly when its source frame can be transformed into
/// every one of the targets at the message's own stamp, and, with a nonzero
/// tolerance, at the stamp plus the tolerance too. One target that cannot
/// be reached holds the message back, wherever it stands in the list.
pub proof fn law_ready_means_every_target_at_its_stamp(
    buffer: &TransformBuffer,
    targets: Seq<Seq<char>>,
    tolerance: u128,
    source: Seq<char>,
    stamp: u128,
)
    ensures
        message_ready(buffer, targets, tolerance, source, stamp) ==> forall|i: int|
            0 <= i < targets.len() ==> buffer.can_transform_spec(source, #[trigger] targets[i], stamp),
        message_ready(buffer, targets, tolerance, source, stamp) ==> forall|i: int|
            0 <= i < targets.len() ==> covered_for(buffer, source, #[trigger] targets[i], stamp, tolerance),
        forall|i: int|
            0 <= i < targets.len() && !buffer.can_transform_spec(source, #[trigger] targets[i], stamp)
                ==> !message_ready(buffer, targets, tolerance, source, stamp),
        (forall|i: int|
            0 <= i < targets.len() ==> covered_for(buffer, source, #[trigger] targets[i], stamp, tolerance))
            ==> message_ready(buffer, targets, tolerance, source, stamp),
{
    if message_ready(buffer, targets, tolerance, source, stamp) {
        assert forall|i: int| 0 <= i < targets.len() implies covered_for(
            buffer,
            source,
            #[trigger] targets[i],
            stamp,
            tolerance,
        ) by {
            assert(target_ready(buffer, source, targets[i], stamp, tolerance));
        }
    }
}

/// Every message a drain delivers can be transformed into every target at
/// its own stamp, and at its stamp plus the tolerance when that is nonzero;
/// the first message it holds back misses one of these.
pub proof fn law_delivered_messages_reach_every_target<M>(
    filter: &MessageFilter<M>,
    buffer: &TransformBuffer,
)
    ensures
        forall|k: int, i: int|
            0 <= k < drained_count(filter.pending(), filter.ready_with(buffer)) && 0 <= i
                < filter.targets().len() ==> covered_for(
                buffer,
                #[trigger] filter.pending()[k].1,
                #[trigger] filter.targets()[i],
                filter.pending()[k].2,
                filter.tolerance(),
            ),
        drained_count(filter.pending(), filter.ready_with(buffer)) < filter.pending().len() ==> {
            let held = filter.pending()[drained_count(filter.pending(), filter.ready_with(buffer)) as int];
            exists|i: int|
                0 <= i < filter.targets().len() && !covered_for(
                    buffer,
                    held.1,
                    #[trigger] filter.targets()[i],
                    held.2,
                    filter.tolerance(),
                )
        },
{
    let is_ready = filter.ready_with(buffer);
    lemma_drained_prefix(filter.pending(), is_ready);
    assert forall|k: int, i: int|
        0 <= k < drained_count(filter.pending(), is_ready) && 0 <= i < filter.targets().len()
            implies covered_for(
            buffer,
            #[trigger] filter.pending()[k].1,
            #[trigger] filter.targets()[i],
            filter.pending()[k].2,
            filter.tolerance(),
        ) by {
        assert(is_ready(filter.pending()[k]));
        assert(target_ready(
            buffer,
            filter.pending()[k].1,
            filter.targets()[i],
            filter.pending()[k].2,
            filter.tolerance(),
        ));
    }
    let n = drained_count(filter.pending(), is_ready);
    if n < filter.pending().len() {
        let held = filter.pending()[n as int];
        assert(!is_ready(held));
        let i = choose|i: int|
            0 <= i < filter.targets().len() && !target_ready(
                buffer,
                held.1,
                #[trigger] filter.targets()[i],
                held.2,
                filter.tolerance(),
            );
        assert(!covered_for(buffer, held.1, filter.targets()[i], held.2, filter.tolerance()));
    }
}

} // verus!
