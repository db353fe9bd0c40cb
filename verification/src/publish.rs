//! Publisher fan-out: one bounded queue per subscriber.
//!
//! Every subscriber owns an independent bounded queue of consolidated
//! views, fed by the engine's emitted snapshots. When a queue is full,
//! its backpressure policy decides: `DropOldest` silently discards the
//! oldest queued view so a slow consumer never stalls consolidation
//! (the default), while `Block` refuses the offer and leaves the queue
//! unchanged, telling the caller to wait. Subscriber disconnect just
//! removes the queue and is never an error.

use vstd::prelude::*;
use crate::consolidate::{ConsolidatedBook, cb_eq, clone_book};

verus! {

/// What to do when a subscriber's queue is full.
#[derive(Clone, Copy, PartialEq, Eq, Structural, Debug)]
pub enum BackpressurePolicy {
    /// Refuse the new view; the producer waits for the consumer.
    Block,
    /// Silently drop the oldest queued view to make room (default).
    DropOldest,
}

/// One subscriber's outbound queue; `buf[0]` is the oldest queued view.
pub struct SubscriberQueue {
    pub id: u32,
    pub capacity: usize,
    pub policy: BackpressurePolicy,
    pub buf: Vec<ConsolidatedBook>,
}

/// Queue invariant: positive capacity, never holding more than it.
pub open spec fn wf_queue(q: SubscriberQueue) -> bool {
    q.capacity >= 1 && q.buf@.len() <= q.capacity
}

/// Whether a queue in this state takes a new view: always, unless it is
/// full and its policy is to block.
pub open spec fn spec_accepts(q: SubscriberQueue) -> bool {
    q.buf@.len() < q.capacity || q.policy == BackpressurePolicy::DropOldest
}

/// What offering `book` to a queue does: appended when there is room; a
/// full `DropOldest` queue drops its oldest view and appends; a full
/// `Block` queue refuses and is unchanged.
pub open spec fn offer_transition(
    q0: SubscriberQueue,
    q1: SubscriberQueue,
    book: ConsolidatedBook,
) -> bool {
    &&& q1.id == q0.id
    &&& q1.capacity == q0.capacity
    &&& q1.policy == q0.policy
    &&& q0.buf@.len() < q0.capacity ==> ({
        &&& q1.buf@.len() == q0.buf@.len() + 1
        &&& forall|i: int| 0 <= i < q0.buf@.len() ==> #[trigger] q1.buf@[i] == q0.buf@[i]
        &&& cb_eq(q1.buf@.last(), book)
    })
    &&& q0.buf@.len() >= q0.capacity && q0.policy == BackpressurePolicy::DropOldest ==> ({
        &&& q1.buf@.len() == q0.buf@.len()
        &&& forall|i: int|
            0 <= i < q0.buf@.len() - 1 ==> #[trigger] q1.buf@[i] == q0.buf@[i + 1]
        &&& cb_eq(q1.buf@.last(), book)
    })
    &&& q0.buf@.len() >= q0.capacity && q0.policy == BackpressurePolicy::Block ==> q1.buf@
        == q0.buf@
}

impl SubscriberQueue {
    /// Fresh empty queue.
    pub fn new(id: u32, capacity: usize, policy: BackpressurePolicy) -> (q: SubscriberQueue)
        requires
            capacity >= 1,
        ensures
            wf_queue(q),
            q.id == id,
            q.capacity == capacity,
            q.policy == policy,
            q.buf@.len() == 0,
    {
        SubscriberQueue { id, capacity, policy, buf: Vec::new() }
    }

    /// Offer one consolidated view to the queue, per its backpressure
    /// policy.
    pub fn offer(&mut self, book: &ConsolidatedBook) -> (accepted: bool)
        requires
            wf_queue(*old(self)),
        ensures
            wf_queue(*final(self)),
            accepted == spec_accepts(*old(self)),
            offer_transition(*old(self), *final(self), *book),
    {
        if self.buf.len() < self.capacity {
            self.buf.push(clone_book(book));
            true
        } else {
            match self.policy {
                BackpressurePolicy::DropOldest => {
                    self.buf.remove(0);
                    self.buf.push(clone_book(book));
                    true
                },
                BackpressurePolicy::Block => false,
            }
        }
    }

    /// Take the oldest queued view, if any.
    pub fn poll(&mut self) -> (r: Option<ConsolidatedBook>)
        requires
            wf_queue(*old(self)),
        ensures
            wf_queue(*final(self)),
            final(self).id == old(self).id,
            final(self).capacity == old(self).capacity,
            final(self).policy == old(self).policy,
            old(self).buf@.len() == 0 ==> r is None && final(self).buf@ == old(self).buf@,
            old(self).buf@.len() > 0 ==> ({
                &&& r == Some(old(self).buf@[0])
                &&& final(self).buf@ == old(self).buf@.drop_first()
            }),
    {
        if self.buf.len() > 0 {
            let b = self.buf.remove(0);
            proof {
                assert(old(self).buf@.remove(0) =~= old(self).buf@.drop_first());
            }
            Some(b)
        } else {
            None
        }
    }
}

/// Index of the first queue with this subscriber id, or a negative
/// value if none has it.
pub open spec fn spec_find_queue(qs: Seq<SubscriberQueue>, id: u32) -> int
    decreases qs.len(),
{
    if qs.len() == 0 {
        -1
    } else if qs[0].id == id {
        0
    } else {
        let r = spec_find_queue(qs.drop_first(), id);
        if r < 0 {
            -1
        } else {
            r + 1
        }
    }
}

proof fn lemma_find_queue_at(qs: Seq<SubscriberQueue>, id: u32, i: int)
    requires
        0 <= i < qs.len(),
        forall|j: int| 0 <= j < i ==> (#[trigger] qs[j]).id != id,
        qs[i].id == id,
    ensures
        spec_find_queue(qs, id) == i,
    decreases i,
{
    if i > 0 {
        assert(forall|j: int|
            0 <= j < qs.drop_first().len() ==> #[trigger] qs.drop_first()[j] == qs[j + 1]);
        lemma_find_queue_at(qs.drop_first(), id, i - 1);
    }
}

proof fn lemma_find_queue_none(qs: Seq<SubscriberQueue>, id: u32)
    requires
        forall|j: int| 0 <= j < qs.len() ==> (#[trigger] qs[j]).id != id,
    ensures
        spec_find_queue(qs, id) < 0,
    decreases qs.len(),
{
    if qs.len() > 0 {
        assert(forall|j: int|
            0 <= j < qs.drop_first().len() ==> #[trigger] qs.drop_first()[j] == qs[j + 1]);
        lemma_find_queue_none(qs.drop_first(), id);
    }
}

/// The fan-out stage: all subscriber queues, in subscription order.
pub struct Publisher {
    pub subscribers: Vec<SubscriberQueue>,
    pub next_id: u32,
}

/// Publisher invariant: every queue well formed, ids strictly
/// increasing (so unique) and below the next id to hand out.
pub open spec fn wf_publisher(p: Publisher) -> bool {
    &&& forall|i: int| 0 <= i < p.subscribers@.len() ==> wf_queue(#[trigger] p.subscribers@[i])
    &&& forall|i: int, j: int|
        0 <= i < j < p.subscribers@.len() ==> (#[trigger] p.subscribers@[i]).id < (
        #[trigger] p.subscribers@[j]).id
    &&& forall|i: int|
        0 <= i < p.subscribers@.len() ==> (#[trigger] p.subscribers@[i]).id < p.next_id
}

impl Publisher {
    /// Fresh publisher with no subscribers.
    pub fn new() -> (p: Publisher)
        ensures
            wf_publisher(p),
            p.subscribers@.len() == 0,
    {
        Publisher { subscribers: Vec::new(), next_id: 0 }
    }

    /// Create a subscriber with its own empty queue and return its id.
    pub fn subscribe(&mut self, capacity: usize, policy: BackpressurePolicy) -> (id: u32)
        requires
            wf_publisher(*old(self)),
            old(self).next_id < u32::MAX,
            capacity >= 1,
        ensures
            wf_publisher(*final(self)),
            id == old(self).next_id,
            final(self).subscribers@.len() == old(self).subscribers@.len() + 1,
            forall|i: int|
                0 <= i < old(self).subscribers@.len() ==> #[trigger] final(self).subscribers@[i]
                    == old(self).subscribers@[i],
            final(self).subscribers@.last().id == id,
            final(self).subscribers@.last().capacity == capacity,
            final(self).subscribers@.last().policy == policy,
            final(self).subscribers@.last().buf@.len() == 0,
    {
        let id = self.next_id;
        self.subscribers.push(SubscriberQueue::new(id, capacity, policy));
        self.next_id = self.next_id + 1;
        id
    }

    /// Remove a subscriber's queue, as on disconnect; unknown ids are
    /// not an error.
    pub fn unsubscribe(&mut self, id: u32) -> (removed: bool)
        requires
            wf_publisher(*old(self)),
        ensures
            wf_publisher(*final(self)),
            final(self).next_id == old(self).next_id,
            spec_find_queue(old(self).subscribers@, id) < 0 ==> !removed
                && final(self).subscribers@ == old(self).subscribers@,
            spec_find_queue(old(self).subscribers@, id) >= 0 ==> removed
                && final(self).subscribers@ == old(self).subscribers@.remove(
                spec_find_queue(old(self).subscribers@, id),
            ),
    {
        let mut i: usize = 0;
        while i < self.subscribers.len()
            invariant
                self.subscribers@ == old(self).subscribers@,
                self.next_id == old(self).next_id,
                wf_publisher(*self),
                i <= self.subscribers@.len(),
                forall|j: int| 0 <= j < i ==> (#[trigger] self.subscribers@[j]).id != id,
            decreases self.subscribers.len() - i,
        {
            if self.subscribers[i].id == id {
                proof {
                    lemma_find_queue_at(self.subscribers@, id, i as int);
                }
                self.subscribers.remove(i);
                proof {
                    let qs = old(self).subscribers@;
                    assert(self.subscribers@ =~= qs.subrange(0, i as int) + qs.subrange(
                        i + 1,
                        qs.len() as int,
                    ));
                    assert(forall|j: int|
                        0 <= j < i ==> #[trigger] self.subscribers@[j] == qs[j]);
                    assert(forall|j: int|
                        i <= j < self.subscribers@.len() ==> #[trigger] self.subscribers@[j]
                            == qs[j + 1]);
                }
                return true;
            }
            i = i + 1;
        }
        proof {
            lemma_find_queue_none(self.subscribers@, id);
        }
        false
    }

    /// Offer one consolidated view to every subscriber queue, each per
    /// its own backpressure policy.
    pub fn broadcast(&mut self, book: &ConsolidatedBook)
        requires
            wf_publisher(*old(self)),
        ensures
            wf_publisher(*final(self)),
            final(self).next_id == old(self).next_id,
            final(self).subscribers@.len() == old(self).subscribers@.len(),
            forall|i: int|
                0 <= i < old(self).subscribers@.len() ==> offer_transition(
                    old(self).subscribers@[i],
                    #[trigger] final(self).subscribers@[i],
                    *book,
                ),
    {
        let ghost qs0 = self.subscribers@;
        let mut i: usize = 0;
        while i < self.subscribers.len()
            invariant
                self.subscribers@.len() == qs0.len(),
                self.next_id == old(self).next_id,
                i <= qs0.len(),
                forall|j: int| i <= j < qs0.len() ==> #[trigger] self.subscribers@[j] == qs0[j],
                forall|j: int| 0 <= j < qs0.len() ==> wf_queue(#[trigger] self.subscribers@[j]),
                forall|j: int|
                    0 <= j < i ==> offer_transition(
                        qs0[j],
                        #[trigger] self.subscribers@[j],
                        *book,
                    ),
                forall|j: int|
                    0 <= j < qs0.len() ==> (#[trigger] self.subscribers@[j]).id == qs0[j].id,
            decreases self.subscribers.len() - i,
        {
            let ghost pre = self.subscribers@;
            let mut q = self.subscribers.remove(i);
            let accepted = q.offer(book);
            let ghost gq = q;
            self.subscribers.insert(i, q);
            proof {
                assert(self.subscribers@ =~= pre.update(i as int, gq));
                assert(offer_transition(qs0[i as int], self.subscribers@[i as int], *book));
            }
            i = i + 1;
        }
        proof {
            assert forall|a: int, b: int|
                0 <= a < b < self.subscribers@.len() implies (
            #[trigger] self.subscribers@[a]).id < (#[trigger] self.subscribers@[b]).id by {
                assert(self.subscribers@[a].id == qs0[a].id);
                assert(self.subscribers@[b].id == qs0[b].id);
            }
        }
    }
}

} // verus!
