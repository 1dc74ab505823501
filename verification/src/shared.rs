use vstd::prelude::*;

use crate::{ids_contiguous, SplaycastEntry};
use std::collections::VecDeque;

verus! {

/// A wake registration: the message id a receiver is waiting to see,
/// paired with a wake token. The token stands for the receiver's task:
/// whoever drives the channel maps tokens to its own notion of waking
/// (re-polling the receiver, signalling its executor). Invoking the
/// callback is consuming the handle and delivering its token.
#[derive(Debug)]
pub struct WakeHandle {
    pub message_id: u64,
    pub waker: u64,
}

impl WakeHandle {
    pub fn new(message_id: u64, waker: u64) -> (r: Self)
        ensures
            r.message_id == message_id,
            r.waker == waker,
    {
        Self { message_id, waker }
    }

    /// Invoke the callback: the handle is consumed and its token is
    /// handed back to be delivered. A wake handle is single-use.
    pub fn wake(self) -> (r: u64)
        ensures
            r == self.waker,
    {
        self.waker
    }

    pub fn next_message_id(&self) -> (r: u64)
        ensures
            r == self.message_id,
    {
        self.message_id
    }

    /// Whether waking `self` would wake the same task as waking `other`.
    pub fn will_wake(&self, other: &Self) -> (r: bool)
        ensures
            r == (self.waker == other.waker),
    {
        self.waker == other.waker
    }
}

#[verifier::external_type_specification]
#[verifier::external_body]
#[verifier::reject_recursive_types(T)]
pub struct ExSegQueue<T>(crossbeam_queue::SegQueue<T>);

/// What a wake queue currently holds, front to back: triples of
/// (receiver id, awaited message id, wake token).
pub uninterp spec fn wake_queue_entries(q: crossbeam_queue::SegQueue<(u64, u64, u64)>) -> Seq<
    (u64, u64, u64),
>;

/// Relies on crossbeam_queue::SegQueue::new: creates an empty queue.
#[verifier::external_body]
fn wake_queue_new() -> (q: crossbeam_queue::SegQueue<(u64, u64, u64)>)
    ensures
        wake_queue_entries(q) == Seq::<(u64, u64, u64)>::empty(),
{
    crossbeam_queue::SegQueue::new()
}

/// Relies on crossbeam_queue::SegQueue::push: appends the element at the
/// tail of the queue.
#[verifier::external_body]
fn wake_queue_push(
    q: &mut crossbeam_queue::SegQueue<(u64, u64, u64)>,
    receiver_id: u64,
    handle: WakeHandle,
)
    ensures
        wake_queue_entries(*final(q)) == wake_queue_entries(*old(q)).push(
            (receiver_id, handle.message_id, handle.waker),
        ),
{
    q.push((receiver_id, handle.message_id, handle.waker))
}

/// Relies on crossbeam_queue::SegQueue::pop: pops the element at the head
/// of the queue, or returns None when the queue is empty.
#[verifier::external_body]
fn wake_queue_pop(q: &mut crossbeam_queue::SegQueue<(u64, u64, u64)>) -> (r: Option<
    (u64, WakeHandle),
>)
    ensures
        match r {
            Some(p) => {
                &&& wake_queue_entries(*old(q)).len() > 0
                &&& (p.0, p.1.message_id, p.1.waker) == wake_queue_entries(*old(q))[0]
                &&& wake_queue_entries(*final(q)) == wake_queue_entries(*old(q)).drop_first()
            },
            None => {
                &&& wake_queue_entries(*old(q)).len() == 0
                &&& wake_queue_entries(*final(q)) == wake_queue_entries(*old(q))
            },
        },
{
    match q.pop() {
        Some(t) => Some((t.0, WakeHandle { message_id: t.1, waker: t.2 })),
        None => None,
    }
}

/// The (receiver id, message id, token) triples behind a drained list of
/// wake registrations.
pub open spec fn handle_tuples(s: Seq<(u64, WakeHandle)>) -> Seq<(u64, u64, u64)> {
    s.map_values(|p: (u64, WakeHandle)| (p.0, p.1.message_id, p.1.waker))
}

/// Shared, lock-free state for splaying out notifications to receiver
/// streams from an upstream stream.
///
/// One engine writes the published buffer (`queue`) and consumes the wake
/// queue; receivers read the buffer and push wake registrations. The
/// single-slot engine notifier is modelled by two flags: `notifier_armed`
/// records that the engine stored its waker, `engine_woken` that the
/// notifier fired, i.e. that the embedding owes the engine a poll.
pub struct Shared<T> {
    pub next_receiver_id: u64,
    pub subscriber_count: usize,
    pub subscribe_sequence: u64,
    pub subscribe_tail_sequence: u64,
    pub wakers: crossbeam_queue::SegQueue<(u64, u64, u64)>,
    pub queue: VecDeque<SplaycastEntry<T>>,
    pub notifier_armed: bool,
    pub engine_woken: bool,
    pub is_dead: bool,
}

impl<T> Shared<T> {
    /// The published snapshot has contiguous ids, and the two
    /// subscription hints agree with it: the tip hint is one past the
    /// newest id (and at least 1, ids starting at 1), the tail hint is
    /// the oldest retained id, or equal to the tip hint while nothing is
    /// retained.
    pub open spec fn wf(&self) -> bool {
        &&& ids_contiguous(self.queue@)
        &&& self.subscribe_sequence >= 1
        &&& if self.queue@.len() > 0 {
            &&& self.subscribe_sequence == self.queue@.last().id + 1
            &&& self.subscribe_tail_sequence == self.queue@[0].id
        } else {
            self.subscribe_tail_sequence == self.subscribe_sequence
        }
    }

    pub fn new() -> (r: Self)
        ensures
            r.next_receiver_id == 0,
            r.subscriber_count == 0,
            r.subscribe_sequence == 1,
            r.subscribe_tail_sequence == 1,
            wake_queue_entries(r.wakers) == Seq::<(u64, u64, u64)>::empty(),
            r.queue@ == Seq::<SplaycastEntry<T>>::empty(),
            !r.notifier_armed,
            !r.engine_woken,
            !r.is_dead,
            r.wf(),
    {
        Self {
            next_receiver_id: 0,
            subscriber_count: 0,
            subscribe_sequence: 1,
            subscribe_tail_sequence: 1,
            wakers: wake_queue_new(),
            queue: VecDeque::new(),
            notifier_armed: false,
            engine_woken: false,
            is_dead: false,
        }
    }

    /// Idempotently mark the channel dead and fire the engine notifier so
    /// the engine runs its teardown path promptly.
    pub fn set_dead(&mut self)
        ensures
            final(self).is_dead,
            final(self).engine_woken == (old(self).engine_woken || old(self).notifier_armed),
            !final(self).notifier_armed,
            *final(self) == (Shared {
                is_dead: true,
                engine_woken: final(self).engine_woken,
                notifier_armed: false,
                ..*old(self)
            }),
    {
        self.is_dead = true;
        if self.notifier_armed {
            self.notifier_armed = false;
            self.engine_woken = true;
        }
    }

    pub fn is_dead(&self) -> (r: bool)
        ensures
            r == self.is_dead,
    {
        self.is_dead
    }

    /// Hand out the next receiver id; the counter wraps like the 64-bit
    /// atomic it models.
    pub fn next_receiver_id(&mut self) -> (r: u64)
        ensures
            r == old(self).next_receiver_id,
            *final(self) == (Shared {
                next_receiver_id: old(self).next_receiver_id.wrapping_add(1),
                ..*old(self)
            }),
    {
        let id = self.next_receiver_id;
        self.next_receiver_id = self.next_receiver_id.wrapping_add(1);
        id
    }

    #[inline]
    pub fn subscriber_count(&self) -> (r: usize)
        ensures
            r == self.subscriber_count,
    {
        self.subscriber_count
    }

    /// The count is advisory; like the relaxed atomic it models, it wraps
    /// at the ends rather than failing.
    #[inline]
    pub fn increment_subscriber_count(&mut self) -> (r: usize)
        ensures
            r == old(self).subscriber_count.wrapping_add(1),
            *final(self) == (Shared { subscriber_count: r, ..*old(self) }),
    {
        self.subscriber_count = self.subscriber_count.wrapping_add(1);
        self.subscriber_count
    }

    #[inline]
    pub fn decrement_subscriber_count(&mut self) -> (r: usize)
        ensures
            r == old(self).subscriber_count.wrapping_sub(1),
            *final(self) == (Shared { subscriber_count: r, ..*old(self) }),
    {
        self.subscriber_count = self.subscriber_count.wrapping_sub(1);
        self.subscriber_count
    }

    /// The latest published snapshot. Reads cost nothing and see
    /// contiguous ids whenever the state is well-formed.
    #[inline]
    pub fn load_queue(&self) -> (r: &VecDeque<SplaycastEntry<T>>)
        ensures
            r == &self.queue,
            self.wf() ==> ids_contiguous(r@),
    {
        &self.queue
    }

    /// Publish a new snapshot, returning the previous one. Only the
    /// engine calls this, with a buffer that keeps ids contiguous and
    /// never moves the front backwards; both subscription hints are
    /// updated from the new buffer.
    #[inline]
    pub fn swap_queue(&mut self, next: VecDeque<SplaycastEntry<T>>) -> (r: VecDeque<
        SplaycastEntry<T>,
    >)
        requires
            old(self).subscribe_sequence >= 1,
            ids_contiguous(next@),
            next@.len() > 0 ==> next@.last().id < u64::MAX,
            next@.len() > 0 ==> next@[0].id >= old(self).subscribe_tail_sequence,
        ensures
            r@ == old(self).queue@,
            final(self).queue@ == next@,
            next@.len() > 0 ==> final(self).subscribe_sequence == next@.last().id + 1
                && final(self).subscribe_tail_sequence == next@[0].id,
            next@.len() == 0 ==> final(self).subscribe_sequence == old(self).subscribe_sequence
                && final(self).subscribe_tail_sequence == old(self).subscribe_sequence,
            *final(self) == (Shared {
                queue: final(self).queue,
                subscribe_sequence: final(self).subscribe_sequence,
                subscribe_tail_sequence: final(self).subscribe_tail_sequence,
                ..*old(self)
            }),
            final(self).wf(),
            next@.len() > 0 ==> final(self).subscribe_tail_sequence >= old(
                self,
            ).subscribe_tail_sequence,
    {
        let mut next = next;
        let len = next.len();
        if len > 0 {
            proof {
                assert(next@[len - 1].id == next@[0].id + (len - 1));
                assert(next@.last() == next@[len - 1]);
            }
            let back_id = next[len - 1].id;
            let front_id = next[0].id;
            self.subscribe_sequence = back_id + 1;
            self.subscribe_tail_sequence = front_id;
        } else {
            self.subscribe_tail_sequence = self.subscribe_sequence;
        }
        core::mem::swap(&mut self.queue, &mut next);
        next
    }

    #[inline]
    pub(crate) fn subscribe_sequence_number(&self) -> (r: u64)
        ensures
            r == self.subscribe_sequence,
    {
        self.subscribe_sequence
    }

    #[inline]
    pub(crate) fn subscribe_tail_sequence_number(&self) -> (r: u64)
        ensures
            r == self.subscribe_tail_sequence,
    {
        self.subscribe_tail_sequence
    }

    /// Register a wake handle for `receiver_id`. On a live channel the
    /// handle joins the wake queue and the engine notifier fires. On a
    /// dead channel the callback must be invoked at once instead: the
    /// token comes back to the caller for immediate delivery, so a wake
    /// is never lost.
    #[inline]
    pub fn register_waker(&mut self, receiver_id: u64, handle: WakeHandle) -> (immediate: Option<
        u64,
    >)
        ensures
            old(self).is_dead ==> immediate == Some(handle.waker) && *final(self) == *old(self),
            !old(self).is_dead ==> {
                &&& immediate is None
                &&& wake_queue_entries(final(self).wakers) == wake_queue_entries(
                    old(self).wakers,
                ).push((receiver_id, handle.message_id, handle.waker))
                &&& final(self).engine_woken == (old(self).engine_woken || old(
                    self,
                ).notifier_armed)
                &&& !final(self).notifier_armed
                &&& *final(self) == (Shared {
                    wakers: final(self).wakers,
                    engine_woken: final(self).engine_woken,
                    notifier_armed: false,
                    ..*old(self)
                })
            },
    {
        if self.is_dead {
            return Some(handle.wake());
        }
        wake_queue_push(&mut self.wakers, receiver_id, handle);
        if self.notifier_armed {
            self.notifier_armed = false;
            self.engine_woken = true;
        }
        None
    }

    /// The engine stores its interest in being polled again: any later
    /// `register_waker` or `set_dead` will fire the notifier. Arming the
    /// notifier consumes a pending firing.
    #[inline]
    pub fn register_wake_interest(&mut self)
        ensures
            *final(self) == (Shared { notifier_armed: true, engine_woken: false, ..*old(self) }),
    {
        self.notifier_armed = true;
        self.engine_woken = false;
    }

    /// Pop every wake registration currently queued, in order.
    #[inline]
    pub fn drain_wakelist(&mut self) -> (r: Vec<(u64, WakeHandle)>)
        ensures
            handle_tuples(r@) == wake_queue_entries(old(self).wakers),
            wake_queue_entries(final(self).wakers) == Seq::<(u64, u64, u64)>::empty(),
            *final(self) == (Shared { wakers: final(self).wakers, ..*old(self) }),
    {
        let mut out: Vec<(u64, WakeHandle)> = Vec::new();
        loop
            invariant
                handle_tuples(out@) + wake_queue_entries(self.wakers) == wake_queue_entries(
                    old(self).wakers,
                ),
                *self == (Shared { wakers: self.wakers, ..*old(self) }),
            ensures
                wake_queue_entries(self.wakers).len() == 0,
            decreases wake_queue_entries(self.wakers).len(),
        {
            let ghost pre_out = out@;
            let ghost pre_entries = wake_queue_entries(self.wakers);
            match wake_queue_pop(&mut self.wakers) {
                Some(pair) => {
                    out.push(pair);
                    proof {
                        assert(handle_tuples(out@) =~= handle_tuples(pre_out).push(
                            (pair.0, pair.1.message_id, pair.1.waker),
                        ));
                        assert(handle_tuples(out@) + wake_queue_entries(self.wakers)
                            =~= handle_tuples(pre_out) + pre_entries);
                    }
                },
                None => {
                    proof {
                        assert(handle_tuples(out@) =~= handle_tuples(out@)
                            + wake_queue_entries(self.wakers));
                    }
                    break ;
                },
            }
        }
        out
    }

    /// Put drained-but-unprocessed registrations back, preserving their
    /// order. The engine uses this when it stops early under its wake
    /// budget; the notifier is left alone because the engine reschedules
    /// itself.
    #[inline]
    pub(crate) fn requeue_wakers(&mut self, mut handles: Vec<(u64, WakeHandle)>)
        ensures
            wake_queue_entries(final(self).wakers) == wake_queue_entries(old(self).wakers)
                + handle_tuples(handles@),
            *final(self) == (Shared { wakers: final(self).wakers, ..*old(self) }),
    {
        let ghost orig = handles@;
        proof {
            assert(wake_queue_entries(self.wakers) + handle_tuples(orig).take(0int)
                =~= wake_queue_entries(self.wakers));
        }
        while handles.len() > 0
            invariant
                handles@.len() <= orig.len(),
                handles@ == orig.skip(orig.len() - handles@.len()),
                wake_queue_entries(self.wakers) == wake_queue_entries(old(self).wakers)
                    + handle_tuples(orig).take(orig.len() - handles@.len()),
                *self == (Shared { wakers: self.wakers, ..*old(self) }),
            decreases handles@.len(),
        {
            let ghost k = orig.len() - handles@.len();
            let (rid, handle) = handles.remove(0);
            proof {
                assert(orig.skip(k)[0] == orig[k]);
                assert(handles@ =~= orig.skip(k + 1));
                assert(handle_tuples(orig).take(k + 1) =~= handle_tuples(orig).take(k).push(
                    (orig[k].0, orig[k].1.message_id, orig[k].1.waker),
                ));
            }
            wake_queue_push(&mut self.wakers, rid, handle);
            proof {
                assert(wake_queue_entries(self.wakers) =~= wake_queue_entries(old(self).wakers)
                    + handle_tuples(orig).take(orig.len() - handles@.len()));
            }
        }
        proof {
            assert(handle_tuples(orig).take(orig.len() as int) =~= handle_tuples(orig));
        }
    }

    #[inline]
    pub fn subscriber_count_handle(&self) -> (r: SubscriberCountHandle)
        ensures
            r == (SubscriberCountHandle {  }),
    {
        SubscriberCountHandle {  }
    }
}

/// A handle for inspecting the current subscriber count of a channel.
/// Subscriber counts are updated asynchronously, so values may be stale.
#[derive(Debug, Clone)]
pub struct SubscriberCountHandle {}

impl SubscriberCountHandle {
    /// Get the current subscriber count of the channel behind `shared`.
    /// Subscriber counts are updated asynchronously, so values may be
    /// stale.
    ///
    /// Returns None once the channel has been torn down.
    pub fn get<T>(&self, shared: &Shared<T>) -> (r: Option<usize>)
        ensures
            r == if shared.is_dead {
                Option::<usize>::None
            } else {
                Some(shared.subscriber_count)
            },
    {
        if shared.is_dead {
            None
        } else {
            Some(shared.subscriber_count)
        }
    }
}

} // verus!
