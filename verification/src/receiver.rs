use vstd::prelude::*;

use crate::shared::{wake_queue_entries, Shared, WakeHandle};
use crate::{Message, SplaycastEntry};
use std::collections::VecDeque;

verus! {

/// What one poll of a [`Receiver`] yields: the next message, a request to
/// be polled again once woken, or the end of the stream.
#[derive(Debug, PartialEq)]
pub enum ReceiverPoll<T> {
    /// The next message is ready.
    Ready(Message<T>),
    /// Nothing to deliver yet; a wake registration was left with the
    /// channel and the caller should poll again when its token is woken.
    Pending,
    /// The channel is dead; no further message will ever arrive.
    EndOfStream,
}

/// This is a cloned view of the upstream stream that the channel wraps.
/// Each `Receiver` moves independently and tracks its own position with
/// `next_message_id`; it reads published snapshots and never blocks the
/// engine or other receivers. When the next message is not retained any
/// more it observes a `Lagged` notice and resumes from the oldest
/// retained entry.
#[derive(Debug)]
pub struct Receiver<Item> {
    pub id: u64,
    pub next_message_id: u64,
    pub phantom: core::marker::PhantomData<Item>,
}

/// The effect of registering a wake handle on a live channel: the
/// receiver's (id, awaited message id, wake token) triple joins the wake
/// queue and the engine notifier fires.
pub open spec fn wake_registered<T>(
    pre: Receiver<T>,
    waker: u64,
    s0: Shared<T>,
    s1: Shared<T>,
) -> bool {
    &&& wake_queue_entries(s1.wakers) == wake_queue_entries(s0.wakers).push(
        (pre.id, pre.next_message_id, waker),
    )
    &&& s1.engine_woken == (s0.engine_woken || s0.notifier_armed)
    &&& !s1.notifier_armed
    &&& s1 == (Shared {
        wakers: s1.wakers,
        engine_woken: s1.engine_woken,
        notifier_armed: false,
        ..s0
    })
}

/// One poll of a receiver, as a relation between the states before and
/// after and the outcome: on a dead channel the stream ends; otherwise
/// the receiver locates `next_message_id` in the published snapshot and
/// either delivers the entry there, reports how far it lagged behind the
/// oldest retained entry, or registers `waker` and suspends.
pub open spec fn receiver_step<T: Clone>(
    pre: Receiver<T>,
    s0: Shared<T>,
    post: Receiver<T>,
    s1: Shared<T>,
    waker: u64,
    out: ReceiverPoll<T>,
) -> bool {
    if s0.is_dead {
        &&& out == ReceiverPoll::<T>::EndOfStream
        &&& post == pre
        &&& s1 == s0
    } else {
        let q = s0.queue@;
        let tip_id = if q.len() > 0 {
            q.last().id
        } else {
            pre.next_message_id
        };
        if q.len() == 0 || pre.next_message_id < q[0].id {
            if tip_id == 1 {
                // Nothing was ever published: wait for the first message.
                &&& out == ReceiverPoll::<T>::Pending
                &&& post == pre
                &&& wake_registered(pre, waker, s0, s1)
            } else {
                // The awaited id fell off the front: report the gap and
                // recover at the oldest retained entry.
                let next = if q.len() > 0 {
                    q[0].id
                } else {
                    tip_id
                };
                let gap = next - pre.next_message_id;
                &&& out == ReceiverPoll::<T>::Ready(
                    Message::Lagged {
                        count: if gap > usize::MAX {
                            usize::MAX
                        } else {
                            gap as usize
                        },
                    },
                )
                &&& post == (Receiver { next_message_id: next as u64, ..pre })
                &&& s1 == s0
            }
        } else if q.len() <= pre.next_message_id - q[0].id {
            // The awaited id has not been admitted yet: park.
            &&& out == ReceiverPoll::<T>::Pending
            &&& post == pre
            &&& wake_registered(pre, waker, s0, s1)
        } else {
            // The awaited id is retained: deliver a clone of its item.
            let i = pre.next_message_id - q[0].id;
            &&& out matches ReceiverPoll::Ready(Message::Entry { item })
                && cloned::<T>(q[i].item, item)
            &&& post == (Receiver { next_message_id: (q[i].id + 1) as u64, ..pre })
            &&& s1 == s0
        }
    }
}

impl<Item> Receiver<Item> where Item: Clone {
    /// Attach a new receiver at the channel's tip: its first message will
    /// be the first one published after this call. Takes the next
    /// receiver id and counts the new subscriber.
    pub fn new(shared: &mut Shared<Item>) -> (r: Self)
        ensures
            r.id == old(shared).next_receiver_id,
            r.next_message_id == old(shared).subscribe_sequence,
            *final(shared) == (Shared {
                next_receiver_id: old(shared).next_receiver_id.wrapping_add(1),
                subscriber_count: old(shared).subscriber_count.wrapping_add(1),
                ..*old(shared)
            }),
    {
        let id = shared.next_receiver_id();
        shared.increment_subscriber_count();
        Self {
            id,
            next_message_id: shared.subscribe_sequence_number(),
            phantom: core::marker::PhantomData,
        }
    }

    /// Attach a new receiver at the oldest retained entry: it first reads
    /// the buffered history, racing the buffer policy, and may see lag
    /// notices while it catches up.
    pub fn new_at_buffer_start(shared: &mut Shared<Item>) -> (r: Self)
        ensures
            r.id == old(shared).next_receiver_id,
            r.next_message_id == old(shared).subscribe_tail_sequence,
            *final(shared) == (Shared {
                next_receiver_id: old(shared).next_receiver_id.wrapping_add(1),
                subscriber_count: old(shared).subscriber_count.wrapping_add(1),
                ..*old(shared)
            }),
    {
        let id = shared.next_receiver_id();
        shared.increment_subscriber_count();
        Self {
            id,
            next_message_id: shared.subscribe_tail_sequence_number(),
            phantom: core::marker::PhantomData,
        }
    }

    fn mark_clean_and_register_for_wake(&mut self, shared: &mut Shared<Item>, waker: u64)
        requires
            !old(shared).is_dead,
        ensures
            *final(self) == *old(self),
            wake_registered(*old(self), waker, *old(shared), *final(shared)),
    {
        let immediate = shared.register_waker(
            self.id,
            WakeHandle::new(self.next_message_id, waker),
        );
    }

    /// One demand-pulled step of this receiver against the channel state.
    /// `waker` is the token under which the caller wants to be woken if
    /// the receiver has to wait.
    pub fn poll_next(&mut self, shared: &mut Shared<Item>, waker: u64) -> (r: ReceiverPoll<Item>)
        requires
            old(shared).wf(),
        ensures
            receiver_step(*old(self), *old(shared), *final(self), *final(shared), waker, r),
            final(self).id == old(self).id,
    {
        if shared.is_dead() {
            return ReceiverPoll::EndOfStream;
        }
        let tip_id = {
            let q = shared.load_queue();
            let n = q.len();
            if n > 0 {
                q[n - 1].id
            } else {
                self.next_message_id
            }
        };
        proof {
            if shared.queue@.len() > 0 {
                assert(shared.queue@.last() == shared.queue@[shared.queue@.len() - 1]);
            }
        }

        match find(self.next_message_id, shared.load_queue()) {
            Ok(index) => {
                proof {
                    let q = shared.queue@;
                    assert(q[index as int].id == q[0].id + index);
                    assert(q.last().id == q[0].id + (q.len() - 1));
                }
                let entry = &shared.load_queue()[index];
                let message_id = entry.id;
                let item = entry.item.clone();
                self.next_message_id = message_id + 1;
                ReceiverPoll::Ready(Message::Entry { item })
            },
            Err(missing_at) => {
                if missing_at == 0 {
                    if tip_id == 1 {
                        self.mark_clean_and_register_for_wake(shared, waker);
                        return ReceiverPoll::Pending;
                    }
                    // We fell off the buffer.
                    let next = {
                        let q = shared.load_queue();
                        if q.len() > 0 {
                            q[0].id
                        } else {
                            tip_id
                        }
                    };
                    let gap = next - self.next_message_id;
                    let count = if gap > usize::MAX as u64 {
                        usize::MAX
                    } else {
                        gap as usize
                    };
                    self.next_message_id = next;
                    ReceiverPoll::Ready(Message::Lagged { count })
                } else if missing_at == shared.load_queue().len() {
                    // We're caught up; wake us on delivery of new items.
                    self.mark_clean_and_register_for_wake(shared, waker);
                    ReceiverPoll::Pending
                } else {
                    // Unreachable while ids are contiguous; fail-stop.
                    ReceiverPoll::EndOfStream
                }
            },
        }
    }
}

/// Whether an observation delivers an entry.
pub open spec fn is_entry<T>(out: ReceiverPoll<T>) -> bool {
    match out {
        ReceiverPoll::Ready(Message::Entry { item: _ }) => true,
        _ => false,
    }
}

/// Whether an observation is a lag notice.
pub open spec fn is_lagged<T>(out: ReceiverPoll<T>) -> bool {
    match out {
        ReceiverPoll::Ready(Message::Lagged { count: _ }) => true,
        _ => false,
    }
}

/// How many observations of a run delivered an entry.
pub open spec fn entry_count<T>(obs: Seq<ReceiverPoll<T>>) -> int
    decreases obs.len(),
{
    if obs.len() == 0 {
        0
    } else {
        (if is_entry(obs[0]) {
            1int
        } else {
            0int
        }) + entry_count(obs.drop_first())
    }
}

/// The sum of the `count` fields of the lag notices of a run.
pub open spec fn lag_sum<T>(obs: Seq<ReceiverPoll<T>>) -> int
    decreases obs.len(),
{
    if obs.len() == 0 {
        0
    } else {
        (match obs[0] {
            ReceiverPoll::Ready(Message::Lagged { count }) => count as int,
            _ => 0int,
        }) + lag_sum(obs.drop_first())
    }
}

/// No lag notice of the run saturated its `usize` count; every count is
/// then exactly the id gap it reports.
pub open spec fn lag_counts_exact<T>(obs: Seq<ReceiverPoll<T>>) -> bool {
    forall|k: int| 0 <= k < obs.len() ==> match #[trigger] obs[k] {
        ReceiverPoll::Ready(Message::Lagged { count }) => count < usize::MAX,
        _ => true,
    }
}

/// A run of one receiver: `rs` are its states, `obs` what each poll
/// yielded, with arbitrary well-formed channel states in between (the
/// engine may publish, other receivers may register, between any two
/// polls).
/// One link of a run: some well-formed channel state carried the
/// receiver from `r0` to `r1` with outcome `out`.
pub open spec fn chain_step_ok<T: Clone>(
    r0: Receiver<T>,
    r1: Receiver<T>,
    out: ReceiverPoll<T>,
) -> bool {
    exists|s0: Shared<T>, s1: Shared<T>, w: u64|
        s0.wf() && #[trigger] receiver_step(r0, s0, r1, s1, w, out)
}

pub open spec fn observed_chain<T: Clone>(
    rs: Seq<Receiver<T>>,
    obs: Seq<ReceiverPoll<T>>,
) -> bool {
    &&& rs.len() == obs.len() + 1
    &&& forall|k: int| 0 <= k < obs.len() ==> chain_step_ok(rs[k], rs[k + 1], #[trigger] obs[k])
}

/// Accounting for one poll: an entry advances the receiver's position by
/// exactly 1 (and carries the id the position pointed at), an unsaturated
/// lag notice advances it by exactly its count, and a pending or
/// end-of-stream observation leaves it alone.
pub proof fn lemma_step_accounting<T: Clone>(
    pre: Receiver<T>,
    s0: Shared<T>,
    post: Receiver<T>,
    s1: Shared<T>,
    w: u64,
    out: ReceiverPoll<T>,
)
    requires
        s0.wf(),
        receiver_step(pre, s0, post, s1, w, out),
        match out {
            ReceiverPoll::Ready(Message::Lagged { count }) => count < usize::MAX,
            _ => true,
        },
    ensures
        post.id == pre.id,
        is_entry(out) ==> post.next_message_id == pre.next_message_id + 1,
        is_lagged(out) ==> out == ReceiverPoll::<T>::Ready(
            Message::Lagged { count: (post.next_message_id - pre.next_message_id) as usize },
        ),
        !is_entry(out) && !is_lagged(out) ==> post.next_message_id == pre.next_message_id,
{
    if !s0.is_dead {
        let q = s0.queue@;
        if q.len() > 0 && pre.next_message_id >= q[0].id && pre.next_message_id - q[0].id
            < q.len() {
            let i = pre.next_message_id - q[0].id;
            assert(q[i].id == q[0].id + i);
        }
    }
}

/// Conservation over any run of one receiver: the number of ids
/// delivered as entries plus the sum of the lag counts equals how far
/// `next_message_id` moved.
pub proof fn lemma_conservation<T: Clone>(rs: Seq<Receiver<T>>, obs: Seq<ReceiverPoll<T>>)
    requires
        observed_chain(rs, obs),
        lag_counts_exact(obs),
    ensures
        rs.last().next_message_id == rs[0].next_message_id + entry_count(obs) + lag_sum(obs),
        rs.last().id == rs[0].id,
    decreases obs.len(),
{
    if obs.len() == 0 {
        assert(rs.last() == rs[0]);
    } else {
        assert(chain_step_ok(rs[0], rs[1], obs[0]));
        let (s0, s1, w) = choose|s0: Shared<T>, s1: Shared<T>, w: u64|
            s0.wf() && #[trigger] receiver_step(rs[0], s0, rs[1], s1, w, obs[0]);
        lemma_step_accounting(rs[0], s0, rs[1], s1, w, obs[0]);
        let rs2 = rs.drop_first();
        let obs2 = obs.drop_first();
        assert forall|k: int| 0 <= k < obs2.len() implies chain_step_ok(
            rs2[k],
            rs2[k + 1],
            #[trigger] obs2[k],
        ) by {
            assert(chain_step_ok(rs[k + 1], rs[k + 2], obs[k + 1]));
            assert(obs2[k] == obs[k + 1]);
            assert(rs2[k] == rs[k + 1] && rs2[k + 1] == rs[k + 2]);
        }
        assert(observed_chain(rs2, obs2));
        assert forall|k: int| 0 <= k < obs2.len() implies match #[trigger] obs2[k] {
            ReceiverPoll::Ready(Message::Lagged { count }) => count < usize::MAX,
            _ => true,
        } by {
            assert(obs2[k] == obs[k + 1]);
        }
        lemma_conservation(rs2, obs2);
        assert(rs2.last() == rs.last());
        assert(rs2[0] == rs[1]);
    }
}

/// Every observation contributes a nonnegative amount.
pub proof fn lemma_counts_nonnegative<T>(obs: Seq<ReceiverPoll<T>>)
    ensures
        entry_count(obs) >= 0,
        lag_sum(obs) >= 0,
        entry_count(obs) + lag_sum(obs) >= 0,
    decreases obs.len(),
{
    if obs.len() > 0 {
        lemma_counts_nonnegative(obs.drop_first());
    }
}

/// A run that delivers no entry counts no entry.
pub proof fn lemma_entry_count_zero<T>(obs: Seq<ReceiverPoll<T>>)
    requires
        forall|k: int| 0 <= k < obs.len() ==> !is_entry(#[trigger] obs[k]),
    ensures
        entry_count(obs) == 0,
    decreases obs.len(),
{
    if obs.len() > 0 {
        assert forall|k: int| 0 <= k < obs.drop_first().len() implies !is_entry(
            #[trigger] obs.drop_first()[k],
        ) by {
            assert(obs.drop_first()[k] == obs[k + 1]);
        }
        lemma_entry_count_zero(obs.drop_first());
    }
}

/// A run without lag notices has lag sum zero.
pub proof fn lemma_lag_sum_zero<T>(obs: Seq<ReceiverPoll<T>>)
    requires
        forall|k: int| 0 <= k < obs.len() ==> !is_lagged(#[trigger] obs[k]),
    ensures
        lag_sum(obs) == 0,
    decreases obs.len(),
{
    if obs.len() > 0 {
        assert forall|k: int| 0 <= k < obs.drop_first().len() implies !is_lagged(
            #[trigger] obs.drop_first()[k],
        ) by {
            assert(obs.drop_first()[k] == obs[k + 1]);
        }
        lemma_lag_sum_zero(obs.drop_first());
    }
}

/// Monotonicity: over one receiver's run, the ids it delivers as entries
/// strictly increase (an entry delivered at a step carries the id the
/// receiver's position pointed at before that step); and between two
/// successive entries with nothing but pending polls in between, the
/// positions differ by exactly 1.
pub proof fn lemma_entries_monotonic<T: Clone>(
    rs: Seq<Receiver<T>>,
    obs: Seq<ReceiverPoll<T>>,
    a: int,
    b: int,
)
    requires
        observed_chain(rs, obs),
        lag_counts_exact(obs),
        0 <= a < b < obs.len(),
        is_entry(obs[a]),
        is_entry(obs[b]),
    ensures
        rs[b].next_message_id > rs[a].next_message_id,
        (forall|k: int| a < k < b ==> !is_entry(#[trigger] obs[k]) && !is_lagged(obs[k]))
            ==> rs[b].next_message_id == rs[a].next_message_id + 1,
{
    lemma_run_between(rs, obs, a, b);
    let mid = obs.subrange(a, b);
    assert(is_entry(mid[0]));
    lemma_counts_nonnegative(mid.drop_first());
    if forall|k: int| a < k < b ==> !is_entry(#[trigger] obs[k]) && !is_lagged(obs[k]) {
        assert forall|k: int| 0 <= k < mid.drop_first().len() implies !is_entry(
            #[trigger] mid.drop_first()[k],
        ) && !is_lagged(mid.drop_first()[k]) by {
            assert(mid.drop_first()[k] == obs[a + 1 + k]);
        }
        lemma_entry_count_zero(mid.drop_first());
        lemma_lag_sum_zero(mid.drop_first());
        assert(obs[a] == mid[0]);
        assert(!is_lagged(mid[0]));
    }
}

/// No loss without notice: if a receiver delivers an entry at `a`, then
/// delivers its next entry at `b`, the id gap between the two entries
/// beyond 1 is exactly the sum of the lag counts it observed in between.
pub proof fn lemma_no_loss_without_notice<T: Clone>(
    rs: Seq<Receiver<T>>,
    obs: Seq<ReceiverPoll<T>>,
    a: int,
    b: int,
)
    requires
        observed_chain(rs, obs),
        lag_counts_exact(obs),
        0 <= a < b < obs.len(),
        is_entry(obs[a]),
        is_entry(obs[b]),
        forall|k: int| a < k < b ==> !is_entry(#[trigger] obs[k]),
    ensures
        rs[b].next_message_id - rs[a].next_message_id - 1 == lag_sum(obs.subrange(a + 1, b)),
{
    lemma_run_between(rs, obs, a, b);
    let mid = obs.subrange(a, b);
    assert(is_entry(mid[0]) && !is_lagged(mid[0]));
    assert forall|k: int| 0 <= k < mid.drop_first().len() implies !is_entry(
        #[trigger] mid.drop_first()[k],
    ) by {
        assert(mid.drop_first()[k] == obs[a + 1 + k]);
    }
    lemma_entry_count_zero(mid.drop_first());
    assert(mid.drop_first() =~= obs.subrange(a + 1, b));
}

/// The movement of a receiver's position between two points of its run
/// is accounted for by the entries and lag notices observed in between.
pub proof fn lemma_run_between<T: Clone>(
    rs: Seq<Receiver<T>>,
    obs: Seq<ReceiverPoll<T>>,
    a: int,
    b: int,
)
    requires
        observed_chain(rs, obs),
        lag_counts_exact(obs),
        0 <= a <= b <= obs.len(),
    ensures
        rs[b].next_message_id == rs[a].next_message_id + entry_count(obs.subrange(a, b))
            + lag_sum(obs.subrange(a, b)),
{
    let rsm = rs.subrange(a, b + 1);
    let mid = obs.subrange(a, b);
    assert forall|k: int| 0 <= k < mid.len() implies chain_step_ok(
        rsm[k],
        rsm[k + 1],
        #[trigger] mid[k],
    ) by {
        assert(chain_step_ok(rs[a + k], rs[a + k + 1], obs[a + k]));
        assert(mid[k] == obs[a + k]);
        assert(rsm[k] == rs[a + k] && rsm[k + 1] == rs[a + k + 1]);
    }
    assert(observed_chain(rsm, mid));
    assert forall|k: int| 0 <= k < mid.len() implies match #[trigger] mid[k] {
        ReceiverPoll::Ready(Message::Lagged { count }) => count < usize::MAX,
        _ => true,
    } by {
        assert(mid[k] == obs[a + k]);
    }
    lemma_conservation(rsm, mid);
    assert(rsm[0] == rs[a]);
    assert(rsm.last() == rs[b]);
}

/// Idempotent teardown: once the channel is dead, the very next poll of
/// any receiver observes end-of-stream, whatever its position.
pub proof fn lemma_prompt_end_of_stream<T: Clone>(
    pre: Receiver<T>,
    s0: Shared<T>,
    post: Receiver<T>,
    s1: Shared<T>,
    w: u64,
    out: ReceiverPoll<T>,
)
    requires
        s0.is_dead,
        receiver_step(pre, s0, post, s1, w, out),
    ensures
        out == ReceiverPoll::<T>::EndOfStream,
        post == pre,
{
}

/// Since the engine increases sequence numbers one by one, the position
/// of an id in the buffer is its offset from the front id: no search is
/// needed. Returns `Ok(offset)` when the id is retained, `Err(0)` when it
/// lies before the front (or the buffer is empty), and `Err(len)` when it
/// was not admitted yet.
#[inline]
pub fn find<Item>(id: u64, buffer: &VecDeque<SplaycastEntry<Item>>) -> (r: Result<usize, usize>)
    ensures
        buffer@.len() == 0 ==> r == Err::<usize, usize>(0),
        buffer@.len() > 0 && id < buffer@[0].id ==> r == Err::<usize, usize>(0),
        buffer@.len() > 0 && id >= buffer@[0].id + buffer@.len() ==> r == Err::<usize, usize>(
            buffer@.len() as usize,
        ),
        buffer@.len() > 0 && buffer@[0].id <= id < buffer@[0].id + buffer@.len() ==> r == Ok::<
            usize,
            usize,
        >((id - buffer@[0].id) as usize),
{
    let n = buffer.len();
    if n == 0 {
        return Err(0);
    }
    let front_id = buffer[0].id;
    if id < front_id {
        Err(0)  // before the start - this is a lag
    } else {
        let offset = id - front_id;
        if (n as u64) <= offset {
            Err(n)  // hasn't happened yet - this will park the receiver
        } else {
            Ok(offset as usize)  // ready to poll at offset
        }
    }
}

} // verus!
