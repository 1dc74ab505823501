use splaycast::buffer_policy::BufferLengthPolicy;
use splaycast::engine::Engine;
use splaycast::receiver::{Receiver, ReceiverPoll};
use splaycast::shared::Shared;
use splaycast::receiver::find;
use splaycast::Message;
use splaycast::SplaycastEntry;
use std::collections::VecDeque;

fn entry(item: usize) -> ReceiverPoll<usize> {
    ReceiverPoll::Ready(Message::Entry { item })
}

fn lag(count: usize) -> ReceiverPoll<usize> {
    ReceiverPoll::Ready(Message::Lagged { count })
}

fn get_splaycast() -> (Shared<usize>, Engine<usize, BufferLengthPolicy>) {
    get_splaycast_with_buffer(2)
}

fn get_splaycast_with_buffer(length: usize) -> (Shared<usize>, Engine<usize, BufferLengthPolicy>) {
    (Shared::new(), Engine::new(BufferLengthPolicy::new(length)))
}

#[test]
fn empty_snapshot_wake_list() {
    let (mut shared, mut engine) = get_splaycast();

    let mut subscriber = Receiver::new(&mut shared);
    assert_eq!(
        ReceiverPoll::Pending,
        subscriber.poll_next(&mut shared, 7),
        "There isn't a next entry yet"
    );

    let step = engine.poll(&mut shared, vec![4], false); // Drive the engine 1 step
    assert!(!step.completed);

    assert_eq!(
        vec![7],
        step.woken,
        "Engine should have woken this subscriber from the wake list"
    );
    assert_eq!(
        entry(4),
        subscriber.poll_next(&mut shared, 7),
        "Engine should have woken this subscriber from the wake list"
    );
}

#[test]
fn empty_snapshot_park_list() {
    let (mut shared, mut engine) = get_splaycast();

    let mut subscriber = Receiver::new(&mut shared);
    assert!(!engine.poll(&mut shared, vec![], false).completed); // Drive the engine 1 step

    assert_eq!(
        ReceiverPoll::Pending,
        subscriber.poll_next(&mut shared, 7),
        "There isn't a next entry yet"
    );
    let step = engine.poll(&mut shared, vec![], false);
    assert!(!step.completed);
    assert_eq!(
        Vec::<u64>::new(),
        step.woken,
        "move the subscriber to the park list"
    );

    let step = engine.poll(&mut shared, vec![4], false); // Drive the engine 1 step
    assert_eq!(vec![7], step.woken);

    assert_eq!(
        entry(4),
        subscriber.poll_next(&mut shared, 7),
        "Engine should have woken this subscriber from the park list"
    );
}

#[test]
fn join_active_splaycast() {
    let (mut shared, mut engine) = get_splaycast_with_buffer(3);

    let mut subscriber = Receiver::new(&mut shared);
    let step = engine.poll(&mut shared, (0..100).collect(), false);
    assert!(!step.completed, "accept 100 messages and 1 subscriber");

    assert_eq!(
        lag(97),
        subscriber.poll_next(&mut shared, 7),
        "The queue length is 3, and the subscriber joined at 1."
    );
    assert_eq!(
        entry(97),
        subscriber.poll_next(&mut shared, 7),
        "The queue length is 3, and the subscriber joined at 1 - 97 is the front of the buffer"
    );
    assert!(
        !engine.poll(&mut shared, vec![], false).completed,
        "move the subscriber to the park list"
    );

    assert!(!engine.poll(&mut shared, vec![4], false).completed); // Drive the engine 1 step

    assert_eq!(
        entry(98),
        subscriber.poll_next(&mut shared, 7),
        "Engine accepted 4, and 97 should be dropped. This subscriber is now at the old end of the buffer"
    );

    assert_eq!(
        entry(99),
        subscriber.poll_next(&mut shared, 7),
        "This subscriber is now in the middle of the buffer"
    );

    assert_eq!(
        entry(4),
        subscriber.poll_next(&mut shared, 7),
        "Subscriber should be caught up"
    );

    assert_eq!(
        ReceiverPoll::Pending,
        subscriber.poll_next(&mut shared, 7),
        "Subscriber should be caught up"
    );

    // The buffer holds ids 99, 100, 101 (items 98, 99, 4); the tail hint
    // is the oldest retained id, 99.
    let mut tail_subscriber = Receiver::new_at_buffer_start(&mut shared);
    assert_eq!(
        entry(98),
        tail_subscriber.poll_next(&mut shared, 8),
        "Tail subscriber should receive old messages, starting from the oldest retained entry"
    );
}

#[test]
fn subscriber_count() {
    let (mut shared, _engine) = get_splaycast();
    let _subscribers: Vec<Receiver<usize>> = (0..100).map(|_| Receiver::new(&mut shared)).collect();

    assert_eq!(
        100,
        shared.subscriber_count(),
        "I subscribed 100 subscribers"
    );
}

#[test]
fn splay_to_subscribers() {
    let (mut shared, mut engine) = get_splaycast();
    let mut subscribers: Vec<Receiver<usize>> =
        (0..100).map(|_| Receiver::new(&mut shared)).collect();
    for (i, subscriber) in subscribers.iter_mut().enumerate() {
        assert_eq!(
            ReceiverPoll::Pending,
            subscriber.poll_next(&mut shared, i as u64),
            "everybody is pending"
        );
    }
    for (i, subscriber) in subscribers.iter_mut().enumerate() {
        assert_eq!(
            ReceiverPoll::Pending,
            subscriber.poll_next(&mut shared, i as u64),
            "upstream availability does not make the engine move forward. It only wakes it."
        );
    }

    let step = engine.poll(&mut shared, vec![4, 2], false);
    assert!(!step.completed, "consume 2 messages and wake all the subscribers");

    for (i, subscriber) in subscribers.iter_mut().enumerate() {
        assert_eq!(
            entry(4),
            subscriber.poll_next(&mut shared, i as u64),
            "everybody sees messages in order, and 4 came first"
        );
    }
    for (i, subscriber) in subscribers.iter_mut().enumerate() {
        assert_eq!(
            entry(2),
            subscriber.poll_next(&mut shared, i as u64),
            "everybody sees messages in order, and 2 came second"
        );
    }
    for (i, subscriber) in subscribers.iter_mut().enumerate() {
        assert_eq!(
            ReceiverPoll::Pending,
            subscriber.poll_next(&mut shared, i as u64),
            "everybody consumed to the tip and are now registered for wake"
        );
    }

    let step = engine.poll(&mut shared, vec![6], false);
    assert!(!step.completed, "consume 1 message and wake all the subscribers");
    for (i, subscriber) in subscribers.iter_mut().enumerate() {
        assert_eq!(
            entry(6),
            subscriber.poll_next(&mut shared, i as u64),
            "everybody sees messages in order, and 6 comes last"
        );
    }
    for (i, subscriber) in subscribers.iter_mut().enumerate() {
        assert_eq!(
            ReceiverPoll::Pending,
            subscriber.poll_next(&mut shared, i as u64),
            "everybody consumed to the tip and are now registered for wake"
        );
    }
}

#[test]
fn slow_subscriber() {
    let (mut shared, mut engine) = get_splaycast();
    let mut fast_subscriber: Receiver<usize> = Receiver::new(&mut shared);
    let mut slow_subscriber: Receiver<usize> = Receiver::new(&mut shared);
    assert_eq!(
        ReceiverPoll::Pending,
        slow_subscriber.poll_next(&mut shared, 2),
        "slowly consumes, has nothing at the start"
    );

    for i in 0..10 {
        let step = engine.poll(&mut shared, vec![i], false);
        assert!(!step.completed, "consume 1 message and wake all the subscribers");
        assert_eq!(
            entry(i),
            fast_subscriber.poll_next(&mut shared, 1),
            "quickly consumes"
        );
    }

    assert_eq!(
        lag(8),
        slow_subscriber.poll_next(&mut shared, 2),
        "Yes, we published 10 to a queue of 2.
        When we lag we move to the start of the buffer. This is done to try to minimize lag size.
        If your subscriber is always slow, this will make more lag messages than if it were to reconnect at the tip."
    );
    assert_eq!(
        entry(8),
        slow_subscriber.poll_next(&mut shared, 2),
        "Skipped to the start of the queue"
    );
    assert_eq!(
        entry(9),
        slow_subscriber.poll_next(&mut shared, 2),
        "can consume to the front of the queue"
    );
    assert_eq!(
        ReceiverPoll::Pending,
        slow_subscriber.poll_next(&mut shared, 2),
        "Should be all caught up with the fast subscriber"
    );
    assert_eq!(
        ReceiverPoll::Pending,
        fast_subscriber.poll_next(&mut shared, 1),
        "Should be all caught up with the slow subscriber"
    );
}

#[test]
fn drop_splaycast() {
    let (mut shared, mut engine) = get_splaycast();
    let mut parked_subscriber: Receiver<usize> = Receiver::new(&mut shared);
    assert_eq!(
        ReceiverPoll::Pending,
        parked_subscriber.poll_next(&mut shared, 1)
    );
    assert!(
        !engine.poll(&mut shared, vec![], false).completed,
        "move subscriber to park list"
    );

    let mut wake_queue_subscriber: Receiver<usize> = Receiver::new(&mut shared);
    assert_eq!(
        ReceiverPoll::Pending,
        wake_queue_subscriber.poll_next(&mut shared, 2),
        "this subscriber is only in the wake queue"
    );

    // Dropping the subscribe handle kills the splaycast.
    shared.set_dead();

    let step = engine.poll(&mut shared, vec![], false);
    assert!(
        step.completed,
        "Engine terminates promptly upon being set dead"
    );
    assert_eq!(
        vec![1, 2],
        step.woken,
        "the parked subscriber and the queued subscriber are both woken"
    );

    assert_eq!(
        ReceiverPoll::EndOfStream,
        parked_subscriber.poll_next(&mut shared, 1),
        "subscriber promptly receives an end-of-stream"
    );
    assert_eq!(
        ReceiverPoll::EndOfStream,
        wake_queue_subscriber.poll_next(&mut shared, 2),
        "subscriber promptly receives an end-of-stream"
    );
}

#[test]
fn drop_engine() {
    let (mut shared, mut engine) = get_splaycast();
    let mut parked_subscriber: Receiver<usize> = Receiver::new(&mut shared);
    assert_eq!(
        ReceiverPoll::Pending,
        parked_subscriber.poll_next(&mut shared, 1)
    );
    assert!(
        !engine.poll(&mut shared, vec![], false).completed,
        "move subscriber to park list"
    );

    let mut wake_queue_subscriber: Receiver<usize> = Receiver::new(&mut shared);
    assert_eq!(
        ReceiverPoll::Pending,
        wake_queue_subscriber.poll_next(&mut shared, 2),
        "this subscriber is only in the wake queue"
    );

    // Dropping the splaycast Engine kills the splaycast. Probably
    // dropping the Engine is a mistake, but it must not leak subscribers.
    let woken = engine.shutdown(&mut shared);
    assert_eq!(vec![1, 2], woken);

    assert_eq!(
        ReceiverPoll::EndOfStream,
        parked_subscriber.poll_next(&mut shared, 1),
        "subscriber promptly receives an end-of-stream"
    );
    assert_eq!(
        ReceiverPoll::EndOfStream,
        wake_queue_subscriber.poll_next(&mut shared, 2),
        "subscriber promptly receives an end-of-stream"
    );
}

#[test]
fn drop_upstream() {
    let (mut shared, mut engine) = get_splaycast();
    let mut parked_subscriber: Receiver<usize> = Receiver::new(&mut shared);
    assert_eq!(
        ReceiverPoll::Pending,
        parked_subscriber.poll_next(&mut shared, 1)
    );
    assert!(
        !engine.poll(&mut shared, vec![], false).completed,
        "move subscriber to park list"
    );

    let mut wake_queue_subscriber: Receiver<usize> = Receiver::new(&mut shared);
    assert_eq!(
        ReceiverPoll::Pending,
        wake_queue_subscriber.poll_next(&mut shared, 2),
        "this subscriber is only in the wake queue"
    );

    // The upstream ended: the engine kills the splaycast, notifying
    // every subscriber before releasing itself.
    let step = engine.poll(&mut shared, vec![], true);
    assert!(
        step.completed,
        "Engine sees the upstream is dead and wakes subscribers before releasing itself"
    );
    assert_eq!(vec![1, 2], step.woken);

    assert_eq!(
        ReceiverPoll::EndOfStream,
        parked_subscriber.poll_next(&mut shared, 1),
        "subscriber promptly receives an end-of-stream"
    );
    assert_eq!(
        ReceiverPoll::EndOfStream,
        wake_queue_subscriber.poll_next(&mut shared, 2),
        "subscriber promptly receives an end-of-stream"
    );
}

#[test]
fn drop_downstreams() {
    let (mut shared, mut engine) = get_splaycast();
    let mut parked_subscriber: Receiver<usize> = Receiver::new(&mut shared);
    assert_eq!(
        ReceiverPoll::Pending,
        parked_subscriber.poll_next(&mut shared, 1)
    );
    assert!(
        !engine.poll(&mut shared, vec![], false).completed,
        "move subscriber to park list"
    );

    let mut wake_queue_subscriber: Receiver<usize> = Receiver::new(&mut shared);
    assert_eq!(
        ReceiverPoll::Pending,
        wake_queue_subscriber.poll_next(&mut shared, 2),
        "this subscriber is only in the wake queue"
    );

    // Dropping the subscribers does not kill the splaycast: their wake
    // registrations become harmless callbacks and the channel works on.
    shared.decrement_subscriber_count();
    shared.decrement_subscriber_count();
    drop(parked_subscriber);
    drop(wake_queue_subscriber);

    let step = engine.poll(&mut shared, vec![4], false);
    assert!(
        !step.completed,
        "Engine receives a message and goes to wake the subscribers who no longer exist"
    );
    assert_eq!(0, shared.subscriber_count());
    assert!(
        !engine.poll(&mut shared, vec![], false).completed,
        "Engine is still happily pending"
    );
}

#[test]
fn tail_subscribe() {
    let (mut shared, mut engine) = get_splaycast_with_buffer(3);
    assert!(!engine.poll(&mut shared, (0..100).collect(), false).completed);

    // The buffer holds ids 98, 99, 100 (items 97, 98, 99); the tail hint
    // is the oldest retained id.
    let mut subscriber = Receiver::new_at_buffer_start(&mut shared);
    assert_eq!(98, subscriber.next_message_id, "first poll starts at the tail hint");
    assert_eq!(entry(97), subscriber.poll_next(&mut shared, 1));
    assert_eq!(entry(98), subscriber.poll_next(&mut shared, 1));
    assert_eq!(entry(99), subscriber.poll_next(&mut shared, 1));
    assert_eq!(
        ReceiverPoll::Pending,
        subscriber.poll_next(&mut shared, 1),
        "caught up with the tip"
    );
}

#[test]
fn join_at_tip_parks_until_newer() {
    let (mut shared, mut engine) = get_splaycast();
    assert!(!engine.poll(&mut shared, (0..99).collect(), false).completed);

    // A default subscription on an active channel starts one past the
    // tip: nothing is delivered until a strictly newer item arrives.
    let mut subscriber = Receiver::new(&mut shared);
    assert_eq!(100, subscriber.next_message_id);
    assert_eq!(ReceiverPoll::Pending, subscriber.poll_next(&mut shared, 1));

    assert!(!engine.poll(&mut shared, vec![99], false).completed);
    assert_eq!(entry(99), subscriber.poll_next(&mut shared, 1));
}

#[test]
fn conservation_of_ids() {
    let (mut shared, mut engine) = get_splaycast();
    let mut subscriber = Receiver::new(&mut shared);
    let initial = subscriber.next_message_id;

    assert!(!engine.poll(&mut shared, vec![10, 11, 12, 13, 14], false).completed);

    // Buffer holds ids 4 and 5; the subscriber is at 1: the lag count
    // plus the entries delivered account exactly for the id movement.
    assert_eq!(lag(3), subscriber.poll_next(&mut shared, 1));
    assert_eq!(entry(13), subscriber.poll_next(&mut shared, 1));
    assert_eq!(entry(14), subscriber.poll_next(&mut shared, 1));
    assert_eq!(ReceiverPoll::Pending, subscriber.poll_next(&mut shared, 1));

    let delivered = 2;
    let lagged = 3;
    assert_eq!(
        subscriber.next_message_id - initial,
        delivered + lagged,
        "entries plus lag counts equal the position movement"
    );
}

#[test]
fn wake_limit_spreads_wakes_over_polls() {
    let (mut shared, mut engine) = get_splaycast();
    engine.set_wake_limit(1);

    let mut subs: Vec<Receiver<usize>> = (0..3).map(|_| Receiver::new(&mut shared)).collect();
    for (i, subscriber) in subs.iter_mut().enumerate() {
        assert_eq!(
            ReceiverPoll::Pending,
            subscriber.poll_next(&mut shared, i as u64)
        );
    }

    let step = engine.poll(&mut shared, vec![4], false);
    assert!(!step.completed);
    assert_eq!(
        vec![0, 1],
        step.woken,
        "the budget stops the engine after servicing its limit plus one"
    );
    assert!(
        shared.engine_woken,
        "the engine rescheduled itself for the remaining registration"
    );

    let step = engine.poll(&mut shared, vec![], false);
    assert_eq!(vec![2], step.woken, "the leftover registration is woken next poll");
}

#[test]
fn register_waker_on_dead_channel_wakes_immediately() {
    let mut shared: Shared<usize> = Shared::new();
    shared.set_dead();
    let handle = splaycast::shared::WakeHandle::new(5, 77);
    assert_eq!(Some(77), shared.register_waker(9, handle));
}

#[test]
fn wake_handle_accessors() {
    let handle = splaycast::shared::WakeHandle::new(5, 7);
    assert_eq!(5, handle.next_message_id());
    let other = splaycast::shared::WakeHandle::new(6, 7);
    assert!(handle.will_wake(&other));
    let third = splaycast::shared::WakeHandle::new(5, 8);
    assert!(!handle.will_wake(&third));
    assert_eq!(7, handle.wake());
}

#[test]
fn subscriber_count_handle_sees_teardown() {
    let mut shared: Shared<usize> = Shared::new();
    let handle = shared.subscriber_count_handle();
    let _one = Receiver::new(&mut shared);
    let _two = Receiver::new(&mut shared);
    assert_eq!(Some(2), handle.get(&shared));
    shared.set_dead();
    assert_eq!(None, handle.get(&shared));
}

#[test]
fn engine_notifier_fires_on_registration() {
    let (mut shared, mut engine) = get_splaycast();
    let mut subscriber = Receiver::new(&mut shared);

    // The engine arms its notifier on every poll; a later registration
    // fires it, owing the engine a poll.
    assert!(!engine.poll(&mut shared, vec![], false).completed);
    assert!(!shared.engine_woken);
    assert_eq!(ReceiverPoll::Pending, subscriber.poll_next(&mut shared, 1));
    assert!(shared.engine_woken, "registering a waker fires the engine notifier");
}

#[test]
fn find_locates_ids_by_offset() {
    let empty: VecDeque<SplaycastEntry<usize>> = VecDeque::new();
    assert_eq!(Err(0), find(1, &empty));

    let mut buffer: VecDeque<SplaycastEntry<usize>> = VecDeque::new();
    buffer.push_back(SplaycastEntry { id: 98, item: 97 });
    buffer.push_back(SplaycastEntry { id: 99, item: 98 });
    buffer.push_back(SplaycastEntry { id: 100, item: 99 });
    assert_eq!(98, buffer[0].id());

    assert_eq!(Err(0), find(97, &buffer), "before the front: a lag");
    assert_eq!(Ok(0), find(98, &buffer));
    assert_eq!(Ok(2), find(100, &buffer));
    assert_eq!(Err(3), find(101, &buffer), "not admitted yet: parks");
}

#[test]
fn sender_hands_the_item_back_on_overflow() {
    let sender: splaycast::sender::Sender<usize> = splaycast::sender::Sender::new(1);
    assert_eq!(Ok(()), sender.send(5));
    assert_eq!(Err(6), sender.send(6), "a full ring returns the item to the caller");
}
