use vstd::prelude::*;

use std::sync::Arc;

verus! {

#[verifier::external_type_specification]
#[verifier::external_body]
#[verifier::reject_recursive_types(T)]
pub struct ExArrayQueue<T>(crossbeam_queue::ArrayQueue<T>);

#[verifier::external_type_specification]
#[verifier::external_body]
pub struct ExAtomicWaker(futures::task::AtomicWaker);

/// Relies on crossbeam_queue::ArrayQueue::new: creates a bounded queue
/// of the given capacity. The call panics when the capacity is zero or
/// so large that its rounded-up power of two overflows, so those
/// capacities are excluded here.
#[verifier::external_body]
fn ring_new<T>(capacity: usize) -> Arc<crossbeam_queue::ArrayQueue<T>>
    requires
        1 <= capacity <= usize::MAX / 2,
{
    Arc::new(crossbeam_queue::ArrayQueue::new(capacity))
}

/// Relies on crossbeam_queue::ArrayQueue::push: attempts to push,
/// handing the element back as the error when the queue is full. Whether
/// it succeeds depends on what other handles did; nothing more is
/// promised of the outcome.
#[verifier::external_body]
fn ring_push<T>(queue: &Arc<crossbeam_queue::ArrayQueue<T>>, item: T) -> (r: Result<(), T>)
    ensures
        (r matches Err(v) ==> v == item),
{
    queue.push(item)
}

/// Relies on futures::task::AtomicWaker::new: a notifier with no waker
/// registered yet.
#[verifier::external_body]
fn notifier_new() -> Arc<futures::task::AtomicWaker> {
    Arc::new(futures::task::AtomicWaker::new())
}

/// Relies on futures::task::AtomicWaker::wake: wakes the last registered
/// waker, if any; an external effect on the registered task.
#[verifier::external_body]
fn notifier_wake(waker: &Arc<futures::task::AtomicWaker>) {
    waker.wake()
}

/// A single-producer sender, for a splaycast.
///
/// If you're producing items for a splaycast in a way other than
/// streaming, you may use a Sender as an adapter: `send` puts the item
/// into a bounded ring shared with the upstream stream adapter and
/// nudges that adapter awake. The ring and the notifier are shared by
/// reference counting, so an embedding can drive the consuming side from
/// another task.
#[verifier::reject_recursive_types(T)]
pub struct Sender<T> {
    pub queue: Arc<crossbeam_queue::ArrayQueue<T>>,
    pub waker: Arc<futures::task::AtomicWaker>,
}

impl<T> Sender<T> {
    /// Make a sender over a fresh ring of capacity `buffer_size`.
    pub fn new(buffer_size: usize) -> (r: Sender<T>)
        requires
            1 <= buffer_size <= usize::MAX / 2,
    {
        let queue = ring_new(buffer_size);
        let waker = notifier_new();
        Sender { queue, waker }
    }

    /// Send a value. If the send buffer is full, you get your value back
    /// as the `Err` value: the channel is lossy under backpressure by
    /// design, and a full ring degrades to a retry for the caller rather
    /// than blocking. On success the consuming side is woken.
    pub fn send(&self, item: T) -> (r: Result<(), T>)
        ensures
            (r matches Err(v) ==> v == item),
    {
        match ring_push(&self.queue, item) {
            Ok(_) => {
                notifier_wake(&self.waker);
                Ok(())
            },
            Err(e) => Err(e),
        }
    }
}

} // verus!
