use vstd::prelude::*;

use crate::buffer_policy::{BufferInstruction, BufferLengthPolicy, BufferPolicy};
use crate::shared::{wake_queue_entries, Shared, WakeHandle};
use crate::{ids_contiguous, SplaycastEntry};
use std::collections::HashMap;
use std::collections::VecDeque;

verus! {

broadcast use vstd::std_specs::hash::group_hash_axioms;

/// What one engine poll hands back to its driver: whether the engine is
/// finished for good, and the wake tokens to deliver, in order. The
/// driver re-polls the engine when the channel's notifier says so (see
/// [`Shared::engine_woken`](crate::shared::Shared)).
pub struct EngineStep {
    pub completed: bool,
    pub woken: Vec<u64>,
}

/// An Engine is an api-less plugin to an event loop: the adapter between
/// one upstream stream and the downstream subscriber streams.
///
/// Each poll is a single explicit step: the caller hands in the items the
/// upstream yielded since the last poll (and whether it ended), and the
/// engine evicts, admits and publishes, then services wake
/// registrations. The engine does its work without blocking or
/// synchronizing with the receivers.
pub struct Engine<Item, Policy> {
    pub next_message_id: u64,
    pub buffer_policy: Policy,
    pub park_queue: Vec<u64>,
    pub wake_queue: Vec<u64>,
    pub parked_wakers: HashMap<u64, WakeHandle>,
    pub wake_limit: usize,
    pub completed: bool,
    pub phantom: core::marker::PhantomData<Item>,
}

/// The policy states along a run of evictions from the front of `b0`:
/// `ps[i]` is the policy state before the i-th eviction, and each
/// eviction is sanctioned by a `Pop` answer and reported to the policy.
pub open spec fn evict_run_ok<T, P: BufferPolicy<T>>(
    ps: Seq<P>,
    b0: Seq<SplaycastEntry<T>>,
) -> bool {
    &&& ps.len() >= 1
    &&& ps.len() - 1 <= b0.len()
    &&& forall|i: int|
        0 <= i < ps.len() - 1 ==> (#[trigger] ps[i]).decision_ok(
            b0[i].item,
            BufferInstruction::Pop,
        ) && ps[i].evict_ok(b0[i].item, ps[i + 1])
}

/// Evictions run to quiescence: some run of sanctioned evictions carries
/// `(p0, b0)` to `(p1, b1)`, and the surviving buffer is empty or its
/// front was deemed `Retain` by the surviving policy state. This is the
/// engine's eviction discipline: an entry stays in front of the
/// published buffer only past a `Retain` answer.
pub open spec fn evicts_to<T, P: BufferPolicy<T>>(
    p0: P,
    b0: Seq<SplaycastEntry<T>>,
    p1: P,
    b1: Seq<SplaycastEntry<T>>,
) -> bool {
    exists|ps: Seq<P>|
        {
            &&& #[trigger] evict_run_ok(ps, b0)
            &&& ps[0] == p0
            &&& ps.last() == p1
            &&& b1 == b0.skip(ps.len() - 1)
            &&& (b1.len() == 0 || p1.decision_ok(b1[0].item, BufferInstruction::Retain))
        }
}

/// One absorption step: evictions run to quiescence, then `item` is
/// admitted through the policy and enters the back of the buffer under
/// the id `id`.
pub open spec fn absorb_step<T, P: BufferPolicy<T>>(
    p0: P,
    b0: Seq<SplaycastEntry<T>>,
    item: T,
    id: u64,
    p1: P,
    b1: Seq<SplaycastEntry<T>>,
) -> bool {
    exists|pm: P, bm: Seq<SplaycastEntry<T>>, admitted: T|
        #![trigger evicts_to(p0, b0, pm, bm), pm.admit_ok(item, p1, admitted)]
        {
            &&& evicts_to(p0, b0, pm, bm)
            &&& pm.admit_ok(item, p1, admitted)
            &&& b1 == bm.push(SplaycastEntry { id, item: admitted })
        }
}

/// The policy states and buffers along the absorption of `items`
/// starting at id `id0`: `states[j]` holds before item `j` is absorbed.
pub open spec fn absorb_trace_ok<T, P: BufferPolicy<T>>(
    states: Seq<(P, Seq<SplaycastEntry<T>>)>,
    items: Seq<T>,
    id0: u64,
) -> bool {
    &&& states.len() == items.len() + 1
    &&& id0 + items.len() <= u64::MAX
    &&& forall|j: int|
        0 <= j < items.len() ==> absorb_step(
            states[j].0,
            states[j].1,
            #[trigger] items[j],
            (id0 + j) as u64,
            states[j + 1].0,
            states[j + 1].1,
        )
}

/// The whole absorption of a batch of upstream items, item by item in
/// upstream order: for each item, evictions run to quiescence, then the
/// item is admitted under the next sequence id.
pub open spec fn absorbs_to<T, P: BufferPolicy<T>>(
    p0: P,
    b0: Seq<SplaycastEntry<T>>,
    id0: u64,
    items: Seq<T>,
    p1: P,
    b1: Seq<SplaycastEntry<T>>,
    id1: u64,
) -> bool {
    &&& id1 == id0 + items.len()
    &&& exists|states: Seq<(P, Seq<SplaycastEntry<T>>)>|
        {
            &&& #[trigger] absorb_trace_ok(states, items, id0)
            &&& states[0] == (p0, b0)
            &&& states.last() == (p1, b1)
        }
}

impl<Item, Policy> Engine<Item, Policy> where Policy: BufferPolicy<Item> {
    /// The engine's own bookkeeping invariant: the park and wake queues
    /// carry each parked receiver id exactly once, exactly the ids of the
    /// parked handle map; handles still in the park queue await ids
    /// beyond the current tip; ids start at 1 and the wake budget is at
    /// least 1.
    /// The park and wake lists carry each parked receiver id exactly
    /// once, and exactly the ids of the parked handle map.
    pub open spec fn wake_bookkeeping_ok(&self) -> bool {
        &&& (self.park_queue@ + self.wake_queue@).no_duplicates()
        &&& forall|id: u64| #[trigger]
            self.parked_wakers@.dom().contains(id) <==> (self.park_queue@
                + self.wake_queue@).contains(id)
    }

    pub open spec fn wf(&self) -> bool {
        &&& self.buffer_policy.wf()
        &&& self.wake_limit >= 1
        &&& self.next_message_id >= 1
        &&& self.wake_bookkeeping_ok()
        &&& forall|id: u64| #[trigger]
            self.park_queue@.contains(id) ==> self.parked_wakers@.dom().contains(id)
                && self.parked_wakers@[id].message_id > self.next_message_id - 1
    }

    /// The engine is the single publisher of `shared`: its next sequence
    /// id continues exactly where the published tip hint stands.
    pub open spec fn in_sync(&self, shared: Shared<Item>) -> bool {
        self.next_message_id == shared.subscribe_sequence
    }

    pub fn new(buffer_policy: Policy) -> (r: Self)
        requires
            buffer_policy.wf(),
        ensures
            r.next_message_id == 1,
            r.buffer_policy == buffer_policy,
            r.park_queue@ == Seq::<u64>::empty(),
            r.wake_queue@ == Seq::<u64>::empty(),
            r.parked_wakers@ == Map::<u64, WakeHandle>::empty(),
            r.wake_limit == 32,
            !r.completed,
            r.wf(),
    {
        let r = Self {
            next_message_id: 1,
            buffer_policy,
            park_queue: Vec::new(),
            wake_queue: Vec::new(),
            parked_wakers: HashMap::new(),
            wake_limit: 32,
            completed: false,
            phantom: core::marker::PhantomData,
        };
        proof {
            assert(r.park_queue@ + r.wake_queue@ =~= Seq::<u64>::empty());
        }
        r
    }

    /// Set the maximum number of wakers to wake in a single poll cycle.
    /// Larger numbers are more efficient, but can lead to excessive poll
    /// times. The budget never goes below 1.
    pub fn set_wake_limit(&mut self, wake_limit: usize)
        ensures
            *final(self) == (Engine { wake_limit: final(self).wake_limit, ..*old(self) }),
            final(self).wake_limit == if wake_limit >= 1 {
                wake_limit
            } else {
                1
            },
    {
        self.wake_limit = if wake_limit >= 1 {
            wake_limit
        } else {
            1
        };
    }

    /// Pull a batch of upstream items into the buffer: for each item in
    /// order, run evictions to quiescence, then admit the item under the
    /// next sequence id; if anything was admitted, publish the new buffer.
    /// Returns whether this cycle is dirty (published something).
    fn absorb_upstream(&mut self, shared: &mut Shared<Item>, items: Vec<Item>) -> (dirty: bool)
        requires
            old(shared).wf(),
            old(self).buffer_policy.wf(),
            old(self).in_sync(*old(shared)),
            old(self).next_message_id >= 1,
            old(self).next_message_id + items@.len() <= u64::MAX,
        ensures
            dirty == (items@.len() > 0),
            absorbs_to(
                old(self).buffer_policy,
                old(shared).queue@,
                old(self).next_message_id,
                items@,
                final(self).buffer_policy,
                final(shared).queue@,
                final(self).next_message_id,
            ),
            final(self).next_message_id == old(self).next_message_id + items@.len(),
            final(self).buffer_policy.wf(),
            final(shared).wf(),
            final(self).in_sync(*final(shared)),
            *final(self) == (Engine {
                next_message_id: final(self).next_message_id,
                buffer_policy: final(self).buffer_policy,
                ..*old(self)
            }),
            *final(shared) == (Shared {
                queue: final(shared).queue,
                subscribe_sequence: final(shared).subscribe_sequence,
                subscribe_tail_sequence: final(shared).subscribe_tail_sequence,
                ..*old(shared)
            }),
            final(shared).subscribe_tail_sequence >= old(shared).subscribe_tail_sequence,
            dirty ==> final(shared).queue@.len() > 0,
            !dirty ==> *final(shared) == *old(shared) && *final(self) == *old(self),
    {
        if items.len() == 0 {
            proof {
                let states0: Seq<(Policy, Seq<SplaycastEntry<Item>>)> = seq![
                    (self.buffer_policy, shared.queue@),
                ];
                assert(absorb_trace_ok(states0, items@, self.next_message_id));
                assert(states0[0] == (self.buffer_policy, shared.queue@));
                assert(states0.last() == (self.buffer_policy, shared.queue@));
            }
            return false;
        }
        let ghost p_orig = self.buffer_policy;
        let ghost q_orig = shared.queue@;
        let ghost id_orig = self.next_message_id;
        let ghost all_items = items@;
        let ghost old_tail = shared.subscribe_tail_sequence;

        let mut items = items;
        let mut working: VecDeque<SplaycastEntry<Item>> = VecDeque::new();
        core::mem::swap(&mut shared.queue, &mut working);

        let ghost mut states: Seq<(Policy, Seq<SplaycastEntry<Item>>)> = seq![(p_orig, q_orig)];
        proof {
            assert(all_items.take(0) =~= Seq::<Item>::empty());
            assert(absorb_trace_ok(states, all_items.take(0), id_orig));
            if q_orig.len() > 0 {
                assert(q_orig.last() == q_orig[q_orig.len() - 1]);
                assert(q_orig[q_orig.len() - 1].id == q_orig[0].id + (q_orig.len() - 1));
            }
        }

        while items.len() > 0
            invariant
                self.buffer_policy.wf(),
                items@.len() <= all_items.len(),
                items@ == all_items.skip(all_items.len() - items@.len()),
                self.next_message_id == id_orig + (all_items.len() - items@.len()),
                id_orig >= 1,
                id_orig + all_items.len() <= u64::MAX,
                states.len() == all_items.len() - items@.len() + 1,
                absorb_trace_ok(states, all_items.take(all_items.len() - items@.len()), id_orig),
                states[0] == (p_orig, q_orig),
                states.last() == (self.buffer_policy, working@),
                ids_contiguous(working@),
                working@.len() > 0 ==> working@.last().id + 1 == self.next_message_id,
                working@.len() > 0 ==> working@[0].id >= old_tail,
                working@.len() > 0 || all_items.len() == items@.len(),
                self.next_message_id >= old_tail,
                self.next_message_id >= 1,
                *self == (Engine {
                    next_message_id: self.next_message_id,
                    buffer_policy: self.buffer_policy,
                    ..*old(self)
                }),
                *shared == (Shared { queue: shared.queue, ..*old(shared) }),
                shared.queue@.len() == 0,
            decreases items@.len(),
        {
            let ghost k = all_items.len() - items@.len();
            let ghost p_start = self.buffer_policy;
            let ghost w_start = working@;

            let mut item = items.remove(0);
            let ghost mut ps: Seq<Policy> = seq![p_start];
            proof {
                assert(all_items.skip(k)[0] == all_items[k]);
                assert(items@ =~= all_items.skip(k + 1));
                assert(item == all_items[k]);
                assert(evict_run_ok(ps, w_start));
                assert(working@ =~= w_start.skip(0));
            }

            // Run evictions to quiescence.
            loop
                invariant
                    self.buffer_policy.wf(),
                    evict_run_ok(ps, w_start),
                    ps[0] == p_start,
                    ps.last() == self.buffer_policy,
                    working@ == w_start.skip(ps.len() - 1),
                    ids_contiguous(working@),
                    working@.len() > 0 ==> working@.last().id + 1 == self.next_message_id,
                    working@.len() > 0 ==> working@[0].id >= old_tail,
                    self.next_message_id == id_orig + k,
                    *self == (Engine {
                        next_message_id: self.next_message_id,
                        buffer_policy: self.buffer_policy,
                        ..*old(self)
                    }),
                ensures
                    self.buffer_policy.wf(),
                    evicts_to(p_start, w_start, self.buffer_policy, working@),
                    ids_contiguous(working@),
                    working@.len() > 0 ==> working@.last().id + 1 == self.next_message_id,
                    working@.len() > 0 ==> working@[0].id >= old_tail,
                    self.next_message_id == id_orig + k,
                    *self == (Engine {
                        next_message_id: self.next_message_id,
                        buffer_policy: self.buffer_policy,
                        ..*old(self)
                    }),
                decreases working@.len(),
            {
                if working.len() == 0 {
                    proof {
                        assert(evicts_to(p_start, w_start, self.buffer_policy, working@));
                    }
                    break ;
                }
                let ghost p_pre = self.buffer_policy;
                let ghost w_pre = working@;
                let instruction = self.buffer_policy.buffer_tail_policy(&working[0].item);
                if instruction == BufferInstruction::Pop {
                    let popped = working.pop_front();
                    match popped {
                        Some(mut oldest) => {
                            self.buffer_policy.on_after_pop(&mut oldest.item);
                            proof {
                                let ps_pre = ps;
                                ps = ps.push(self.buffer_policy);
                                assert(w_pre.len() > 0);
                                assert(ps_pre.len() - 1 < w_start.len()) by {
                                    assert(w_pre == w_start.skip(ps_pre.len() - 1));
                                }
                                assert(w_pre[0] == w_start[ps_pre.len() - 1]) by {
                                    assert(w_start.skip(ps_pre.len() - 1)[0] == w_start[ps_pre.len()
                                        - 1]);
                                }
                                assert(evict_run_ok(ps, w_start)) by {
                                    assert forall|i: int| 0 <= i < ps.len() - 1 implies #[trigger]
                                    ps[i].decision_ok(w_start[i].item, BufferInstruction::Pop)
                                        && ps[i].evict_ok(w_start[i].item, ps[i + 1]) by {
                                        if i < ps_pre.len() - 1 {
                                            assert(ps[i] == ps_pre[i] && ps[i + 1] == ps_pre[i
                                                + 1]);
                                            assert(ps_pre[i].decision_ok(
                                                w_start[i].item,
                                                BufferInstruction::Pop,
                                            ) && ps_pre[i].evict_ok(w_start[i].item, ps_pre[i
                                                + 1]));
                                        } else {
                                            assert(ps[i] == ps_pre.last());
                                        }
                                    }
                                }
                                assert(working@ =~= w_start.skip(ps.len() - 1)) by {
                                    assert(working@ =~= w_pre.subrange(1, w_pre.len() as int));
                                }
                                assert forall|i: int| 0 <= i < working@.len() implies #[trigger]
                                working@[i].id == working@[0].id + i by {
                                    assert(working@[i] == w_pre[i + 1]);
                                    assert(working@[0] == w_pre[1]);
                                    assert(w_pre[i + 1].id == w_pre[0].id + i + 1);
                                    assert(w_pre[1].id == w_pre[0].id + 1);
                                }
                                if working@.len() > 0 {
                                    assert(working@.last() == w_pre.last());
                                    assert(working@[0].id == w_pre[0].id + 1);
                                }
                            }
                        },
                        None => {
                            // The front was checked above; the pop returns it.
                            proof {
                                assert(false);
                            }
                        },
                    }
                } else {
                    proof {
                        assert(evicts_to(p_start, w_start, self.buffer_policy, working@));
                    }
                    break ;
                }
            }

            // Admit the item under the next sequence id.
            let ghost p_evicted = self.buffer_policy;
            let ghost w_evicted = working@;
            let ghost item_in = item;
            let id = self.next_message_id;
            self.next_message_id = self.next_message_id + 1;
            self.buffer_policy.on_before_send(&mut item);
            let ghost admitted = item;
            working.push_back(SplaycastEntry { id, item });

            proof {
                assert(p_evicted.admit_ok(item_in, self.buffer_policy, admitted));
                assert(working@ == w_evicted.push(SplaycastEntry { id, item: admitted }));
                assert(absorb_step(
                    p_start,
                    w_start,
                    all_items[k],
                    id,
                    self.buffer_policy,
                    working@,
                ));
                let states_pre = states;
                states = states.push((self.buffer_policy, working@));
                assert(absorb_trace_ok(states, all_items.take(k + 1), id_orig)) by {
                    assert(all_items.take(k + 1).len() == k + 1);
                    assert forall|j: int| 0 <= j < k + 1 implies absorb_step(
                        states[j].0,
                        states[j].1,
                        #[trigger] all_items.take(k + 1)[j],
                        (id_orig + j) as u64,
                        states[j + 1].0,
                        states[j + 1].1,
                    ) by {
                        assert(all_items.take(k + 1)[j] == all_items[j]);
                        if j < k {
                            assert(all_items.take(k)[j] == all_items[j]);
                            assert(absorb_step(
                                states_pre[j].0,
                                states_pre[j].1,
                                all_items.take(k)[j],
                                (id_orig + j) as u64,
                                states_pre[j + 1].0,
                                states_pre[j + 1].1,
                            ));
                            assert(states[j] == states_pre[j] && states[j + 1] == states_pre[j
                                + 1]);
                        } else {
                            assert(states[j] == states_pre.last());
                            assert(states[j] == (p_start, w_start));
                            assert(states[j + 1] == (self.buffer_policy, working@));
                        }
                    }
                }
                assert forall|i: int| 0 <= i < working@.len() implies #[trigger] working@[i].id
                    == working@[0].id + i by {
                    if i < working@.len() - 1 {
                        assert(working@[i] == w_evicted[i]);
                    }
                    if w_evicted.len() > 0 {
                        assert(working@[0] == w_evicted[0]);
                        assert(w_evicted.last() == w_evicted[w_evicted.len() - 1]);
                    }
                }
                assert(working@.last() == working@[working@.len() - 1]);
            }
        }

        proof {
            assert(all_items.take(all_items.len() as int) =~= all_items);
            assert(working@.len() > 0);
            assert(working@.last() == working@[working@.len() - 1]);
            assert(working@[working@.len() - 1].id == working@[0].id + (working@.len() - 1));
            assert(absorbs_to(
                p_orig,
                q_orig,
                id_orig,
                all_items,
                self.buffer_policy,
                working@,
                self.next_message_id,
            ));
        }
        let _previous = shared.swap_queue(working);
        true
    }
}

/// The wake tokens behind a list of parked receiver ids, resolved
/// through the parked handle map, in list order.
pub open spec fn map_tokens(ids: Seq<u64>, m: Map<u64, WakeHandle>) -> Seq<u64> {
    ids.map_values(|id: u64| m[id].waker)
}

/// The wake tokens of queued wake registrations, in queue order.
pub open spec fn queue_tokens(entries: Seq<(u64, u64, u64)>) -> Seq<u64> {
    entries.map_values(|t: (u64, u64, u64)| t.2)
}

/// Whether a token was actually registered: it belongs to a parked
/// handle of the engine or to a queued registration.
pub open spec fn token_sourced(
    parked: Map<u64, WakeHandle>,
    entries: Seq<(u64, u64, u64)>,
    t: u64,
) -> bool {
    ||| exists|id: u64| #[trigger] parked.dom().contains(id) && parked[id].waker == t
    ||| exists|j: int| 0 <= j < entries.len() && #[trigger] entries[j].2 == t
}

/// How many of the queued wake registrations one poll services: all of
/// them, unless they exceed the wake budget plus one; the rest stays
/// queued for the next poll.
pub open spec fn served_count(queued: int, wake_limit: int) -> int {
    if queued <= wake_limit + 1 {
        queued
    } else {
        wake_limit + 1
    }
}

/// The servicing rule for one drained wake registration (receiver id,
/// awaited id, wake token): its token is delivered when the awaited id
/// is at or below the tip; otherwise the receiver is parked under its id.
pub open spec fn registration_serviced<Item, Policy>(
    e: Engine<Item, Policy>,
    woken: Seq<u64>,
    tip: int,
    reg: (u64, u64, u64),
) -> bool {
    if reg.1 <= tip {
        woken.contains(reg.2)
    } else {
        e.parked_wakers@.dom().contains(reg.0)
    }
}

proof fn lemma_push_preserves_contains<A>(s: Seq<A>, x: A, y: A)
    requires
        s.contains(y),
    ensures
        s.push(x).contains(y),
{
    let w = choose|w: int| 0 <= w < s.len() && s[w] == y;
    assert(s.push(x)[w] == y);
}

impl<Item, Policy> Engine<Item, Policy> where Policy: BufferPolicy<Item> {
    /// The teardown path: consume every parked handle (park list first,
    /// then pending wake list) and every queued registration, handing all
    /// their tokens back for immediate delivery, so that every waiting
    /// receiver re-polls and observes end-of-stream.
    fn wake_everybody_because_i_am_dead(&mut self, shared: &mut Shared<Item>) -> (woken: Vec<u64>)
        requires
            old(self).wake_bookkeeping_ok(),
        ensures
            woken@ == map_tokens(
                old(self).park_queue@ + old(self).wake_queue@,
                old(self).parked_wakers@,
            ) + queue_tokens(wake_queue_entries(old(shared).wakers)),
            final(self).park_queue@.len() == 0,
            final(self).wake_queue@.len() == 0,
            final(self).parked_wakers@.dom() =~= Set::<u64>::empty(),
            *final(self) == (Engine {
                park_queue: final(self).park_queue,
                wake_queue: final(self).wake_queue,
                parked_wakers: final(self).parked_wakers,
                ..*old(self)
            }),
            wake_queue_entries(final(shared).wakers).len() == 0,
            *final(shared) == (Shared { wakers: final(shared).wakers, ..*old(shared) }),
            final(self).wake_bookkeeping_ok(),
    {
        let ghost ids_orig = old(self).park_queue@ + old(self).wake_queue@;
        let ghost map_orig = self.parked_wakers@;
        let mut woken: Vec<u64> = Vec::new();

        while self.park_queue.len() > 0 || self.wake_queue.len() > 0
            invariant
                (self.park_queue@ + self.wake_queue@).len() <= ids_orig.len(),
                ids_orig.skip(ids_orig.len() - (self.park_queue@ + self.wake_queue@).len())
                    == self.park_queue@ + self.wake_queue@,
                (self.park_queue@ + self.wake_queue@).no_duplicates(),
                forall|id: u64| #[trigger]
                    self.parked_wakers@.dom().contains(id) <==> (self.park_queue@
                        + self.wake_queue@).contains(id),
                forall|id: u64| #[trigger]
                    self.parked_wakers@.dom().contains(id) ==> self.parked_wakers@[id]
                        == map_orig[id],
                woken@ == map_tokens(
                    ids_orig.take(ids_orig.len() - (self.park_queue@ + self.wake_queue@).len()),
                    map_orig,
                ),
                *self == (Engine {
                    park_queue: self.park_queue,
                    wake_queue: self.wake_queue,
                    parked_wakers: self.parked_wakers,
                    ..*old(self)
                }),
                *shared == *old(shared),
            decreases (self.park_queue@ + self.wake_queue@).len(),
        {
            let ghost remaining = self.park_queue@ + self.wake_queue@;
            let ghost k = ids_orig.len() - remaining.len();
            let id = if self.park_queue.len() > 0 {
                self.park_queue.remove(0)
            } else {
                self.wake_queue.remove(0)
            };
            proof {
                assert(remaining[0] == id);
                assert(ids_orig.skip(k)[0] == ids_orig[k]);
                assert(self.park_queue@ + self.wake_queue@ =~= remaining.drop_first());
                assert(remaining.drop_first() =~= ids_orig.skip(k + 1));
                assert(remaining.contains(id));
            }
            match self.parked_wakers.remove(&id) {
                Some(handle) => {
                    woken.push(handle.wake());
                    proof {
                        assert(handle == map_orig[id]);
                        assert(map_tokens(ids_orig.take(k + 1), map_orig) =~= map_tokens(
                            ids_orig.take(k),
                            map_orig,
                        ).push(map_orig[ids_orig[k]].waker));
                        assert forall|jd: u64| #[trigger]
                            self.parked_wakers@.dom().contains(jd) <==> (self.park_queue@
                                + self.wake_queue@).contains(jd) by {
                            if jd != id {
                                if remaining.drop_first().contains(jd) {
                                    let w = choose|w: int|
                                        0 <= w < remaining.drop_first().len()
                                            && remaining.drop_first()[w] == jd;
                                    assert(remaining[w + 1] == jd);
                                }
                                if remaining.contains(jd) {
                                    let w = choose|w: int|
                                        0 <= w < remaining.len() && remaining[w] == jd;
                                    assert(w != 0);
                                    assert(remaining.drop_first()[w - 1] == jd);
                                }
                            } else {
                                if remaining.drop_first().contains(jd) {
                                    let w = choose|w: int|
                                        0 <= w < remaining.drop_first().len()
                                            && remaining.drop_first()[w] == jd;
                                    assert(remaining[w + 1] == jd);
                                    assert(remaining[0] == jd);
                                    assert(!remaining.no_duplicates());
                                }
                            }
                        }
                    }
                },
                None => {
                    // Every listed id has a parked handle.
                    proof {
                        assert(false);
                    }
                },
            }
        }

        proof {
            assert(ids_orig.take(ids_orig.len() as int) =~= ids_orig);
            assert forall|id: u64| !(#[trigger] self.parked_wakers@.dom().contains(id)) by {
                if self.parked_wakers@.dom().contains(id) {
                    assert((self.park_queue@ + self.wake_queue@).contains(id));
                }
            }
        }

        let mut drained = shared.drain_wakelist();
        let ghost entries_orig = wake_queue_entries(old(shared).wakers);
        let ghost woken_mid = woken@;

        while drained.len() > 0
            invariant
                drained@.len() <= entries_orig.len(),
                crate::shared::handle_tuples(drained@) == entries_orig.skip(
                    entries_orig.len() - drained@.len(),
                ),
                woken@ == woken_mid + queue_tokens(
                    entries_orig.take(entries_orig.len() - drained@.len()),
                ),
            decreases drained@.len(),
        {
            let ghost k = entries_orig.len() - drained@.len();
            let ghost tuples = crate::shared::handle_tuples(drained@);
            let (_rid, handle) = drained.remove(0);
            proof {
                assert(tuples[0] == entries_orig.skip(k)[0]);
                assert(entries_orig.skip(k)[0] == entries_orig[k]);
                assert(handle.waker == entries_orig[k].2);
                assert(crate::shared::handle_tuples(drained@) =~= tuples.drop_first());
                assert(tuples.drop_first() =~= entries_orig.skip(k + 1));
            }
            woken.push(handle.wake());
            proof {
                assert(queue_tokens(entries_orig.take(k + 1)) =~= queue_tokens(
                    entries_orig.take(k),
                ).push(entries_orig[k].2));
            }
        }

        proof {
            assert(entries_orig.take(entries_orig.len() as int) =~= entries_orig);
            assert(map_tokens(ids_orig, map_orig) + queue_tokens(entries_orig) =~= woken@);
        }
        woken
    }
}

impl<Item, Policy> Engine<Item, Policy> where Policy: BufferPolicy<Item> {
    /// One poll cycle of the engine. The caller hands in the items the
    /// upstream yielded since the last poll, in order, and whether the
    /// upstream ended. The phases run in order: observe death; arm the
    /// notifier; absorb the upstream (evict, admit, publish); on a dirty
    /// cycle move the parked handles into the wake list; then service
    /// the wake list and the shared wake queue under the wake budget,
    /// parking registrations whose awaited id lies beyond the tip.
    ///
    /// The returned tokens are to be delivered to their receivers; the
    /// engine itself must be polled again whenever the channel's
    /// `engine_woken` flag stands (it reschedules itself under budget
    /// pressure, so no wakeup is ever lost).
    pub fn poll(&mut self, shared: &mut Shared<Item>, upstream: Vec<Item>, upstream_ended: bool)
        -> (r: EngineStep)
        requires
            old(self).wf(),
            old(shared).wf(),
            old(self).in_sync(*old(shared)),
            old(self).next_message_id + upstream@.len() <= u64::MAX,
        ensures
            final(self).wf(),
            r.completed == (old(self).completed || old(shared).is_dead || upstream_ended),
            final(self).completed == r.completed,
            old(self).completed ==> *final(self) == *old(self) && *final(shared) == *old(shared)
                && r.woken@ == Seq::<u64>::empty(),
            !old(self).completed && old(shared).is_dead ==> {
                &&& r.woken@ == map_tokens(
                    old(self).park_queue@ + old(self).wake_queue@,
                    old(self).parked_wakers@,
                ) + queue_tokens(wake_queue_entries(old(shared).wakers))
                &&& final(self).parked_wakers@.dom() =~= Set::<u64>::empty()
                &&& wake_queue_entries(final(shared).wakers).len() == 0
                &&& *final(shared) == (Shared { wakers: final(shared).wakers, ..*old(shared) })
                &&& final(shared).wf()
                &&& final(shared).is_dead
                &&& *final(self) == (Engine {
                    park_queue: final(self).park_queue,
                    wake_queue: final(self).wake_queue,
                    parked_wakers: final(self).parked_wakers,
                    completed: true,
                    ..*old(self)
                })
            },
            !old(self).completed && !old(shared).is_dead ==> {
                &&& absorbs_to(
                    old(self).buffer_policy,
                    old(shared).queue@,
                    old(self).next_message_id,
                    upstream@,
                    final(self).buffer_policy,
                    final(shared).queue@,
                    final(self).next_message_id,
                )
                &&& final(self).next_message_id == old(self).next_message_id + upstream@.len()
                &&& final(shared).wf()
                &&& final(self).in_sync(*final(shared))
                &&& final(shared).subscribe_tail_sequence >= old(shared).subscribe_tail_sequence
                &&& final(shared).is_dead == upstream_ended
                &&& upstream_ended ==> {
                    &&& final(self).parked_wakers@.dom() =~= Set::<u64>::empty()
                    &&& wake_queue_entries(final(shared).wakers).len() == 0
                    &&& r.woken@ == map_tokens(
                        old(self).park_queue@ + old(self).wake_queue@,
                        old(self).parked_wakers@,
                    ) + queue_tokens(wake_queue_entries(old(shared).wakers))
                    &&& *final(shared) == (Shared {
                        queue: final(shared).queue,
                        subscribe_sequence: final(shared).subscribe_sequence,
                        subscribe_tail_sequence: final(shared).subscribe_tail_sequence,
                        wakers: final(shared).wakers,
                        notifier_armed: final(shared).notifier_armed,
                        engine_woken: final(shared).engine_woken,
                        is_dead: true,
                        ..*old(shared)
                    })
                }
                &&& !upstream_ended ==> {
                    &&& (final(self).wake_queue@.len() > 0 || wake_queue_entries(
                        final(shared).wakers,
                    ).len() > 0) ==> final(shared).engine_woken
                    &&& forall|t: u64| #[trigger]
                        r.woken@.contains(t) ==> token_sourced(
                            old(self).parked_wakers@,
                            wake_queue_entries(old(shared).wakers),
                            t,
                        )
                    &&& *final(shared) == (Shared {
                        queue: final(shared).queue,
                        subscribe_sequence: final(shared).subscribe_sequence,
                        subscribe_tail_sequence: final(shared).subscribe_tail_sequence,
                        wakers: final(shared).wakers,
                        notifier_armed: final(shared).notifier_armed,
                        engine_woken: final(shared).engine_woken,
                        ..*old(shared)
                    })
                    &&& *final(self) == (Engine {
                        next_message_id: final(self).next_message_id,
                        buffer_policy: final(self).buffer_policy,
                        park_queue: final(self).park_queue,
                        wake_queue: final(self).wake_queue,
                        parked_wakers: final(self).parked_wakers,
                        ..*old(self)
                    })
                    &&& r.woken@.len() <= 2 * old(self).wake_limit + 1
                    &&& ({
                        let entries = wake_queue_entries(old(shared).wakers);
                        let served = served_count(
                            entries.len() as int,
                            old(self).wake_limit as int,
                        );
                        let tip = old(self).next_message_id + upstream@.len() - 1;
                        &&& wake_queue_entries(final(shared).wakers) == entries.skip(served)
                        &&& forall|j: int|
                            #![trigger entries[j]]
                            0 <= j < served ==> registration_serviced(
                                *final(self),
                                r.woken@,
                                tip,
                                entries[j],
                            )
                        &&& forall|j: int|
                            #![trigger entries[j]]
                            0 <= j < served && entries[j].1 > tip && (forall|j2: int|
                                #![trigger entries[j2]]
                                j < j2 < served ==> entries[j2].0 != entries[j].0)
                                ==> final(self).parked_wakers@.dom().contains(entries[j].0)
                                && final(self).parked_wakers@[entries[j].0].waker == entries[j].2
                    })
                    &&& forall|id: u64| #[trigger]
                        (old(self).park_queue@ + old(self).wake_queue@).contains(id) ==> {
                            ||| (final(self).park_queue@ + final(self).wake_queue@).contains(id)
                            ||| r.woken@.contains(old(self).parked_wakers@[id].waker)
                        }
                    &&& upstream@.len() == 0 ==> (forall|id: u64| #[trigger]
                        old(self).park_queue@.contains(id) ==> final(self).park_queue@.contains(id)
                            && final(self).parked_wakers@.dom().contains(id) && ((forall|j: int|
                            #![trigger wake_queue_entries(old(shared).wakers)[j]]
                            0 <= j < wake_queue_entries(old(shared).wakers).len()
                                ==> wake_queue_entries(old(shared).wakers)[j].0 != id)
                            ==> final(self).parked_wakers@[id] == old(self).parked_wakers@[id]))
                    &&& upstream@.len() > 0 ==> (forall|id: u64| #[trigger]
                        final(self).park_queue@.contains(id) ==> exists|j: int|
                            #![trigger wake_queue_entries(old(shared).wakers)[j]]
                            0 <= j < served_count(
                                wake_queue_entries(old(shared).wakers).len() as int,
                                old(self).wake_limit as int,
                            ) && wake_queue_entries(old(shared).wakers)[j].0 == id)
                }
            },
    {
        if self.completed {
            return EngineStep { completed: true, woken: Vec::new() };
        }
        if shared.is_dead() {
            let woken = self.wake_everybody_because_i_am_dead(shared);
            self.completed = true;
            proof {
                assert((self.park_queue@ + self.wake_queue@).len() == 0);
                assert(self.wf());
            }
            return EngineStep { completed: true, woken };
        }

        shared.register_wake_interest();

        let dirty = self.absorb_upstream(shared, upstream);
        if upstream_ended {
            shared.set_dead();
            let woken = self.wake_everybody_because_i_am_dead(shared);
            self.completed = true;
            proof {
                assert((self.park_queue@ + self.wake_queue@).len() == 0);
                assert(self.wf());
            }
            return EngineStep { completed: true, woken };
        }

        let ghost self_mid = *self;
        let ghost shared_mid = *shared;
        let ghost map0 = self.parked_wakers@;
        let ghost entries0 = wake_queue_entries(shared.wakers);
        let ghost tip_ghost = self.next_message_id - 1;

        let mut woken: Vec<u64> = Vec::new();

        // Phase 3: on a dirty cycle the parked handles become eligible.
        if dirty {
            let ghost park_old = self.park_queue@;
            let ghost wake_old = self.wake_queue@;
            if self.wake_queue.len() == 0 {
                core::mem::swap(&mut self.park_queue, &mut self.wake_queue);
                proof {
                    assert(self.park_queue@ + self.wake_queue@ =~= park_old + wake_old);
                }
            } else {
                self.wake_queue.append(&mut self.park_queue);
                proof {
                    let s1 = park_old + wake_old;
                    let s2 = self.park_queue@ + self.wake_queue@;
                    assert(s2 =~= wake_old + park_old);
                    assert(s2.len() == s1.len());
                    assert forall|i: int, j: int| 0 <= i < j < s2.len() implies s2[i] != s2[j] by {
                        let mi = if i < wake_old.len() {
                            park_old.len() + i
                        } else {
                            i - wake_old.len()
                        };
                        let mj = if j < wake_old.len() {
                            park_old.len() + j
                        } else {
                            j - wake_old.len()
                        };
                        assert(s2[i] == s1[mi]);
                        assert(s2[j] == s1[mj]);
                        assert(mi != mj);
                        if mi < mj {
                            assert(s1[mi] != s1[mj]);
                        } else {
                            assert(s1[mj] != s1[mi]);
                        }
                    }
                    assert(s2.no_duplicates());
                    assert forall|jd: u64| #[trigger] s2.contains(jd) <==> s1.contains(jd) by {
                        if s2.contains(jd) {
                            let w = choose|w: int| 0 <= w < s2.len() && s2[w] == jd;
                            if w < wake_old.len() {
                                assert(s1[park_old.len() + w] == jd);
                            } else {
                                assert(s1[w - wake_old.len()] == jd);
                            }
                        }
                        if s1.contains(jd) {
                            let w = choose|w: int| 0 <= w < s1.len() && s1[w] == jd;
                            if w < park_old.len() {
                                assert(s2[wake_old.len() + w] == jd);
                            } else {
                                assert(s2[w - park_old.len()] == jd);
                            }
                        }
                    }
                }
            }
        }

        let ghost lists_4a = self.park_queue@ + self.wake_queue@;
        proof {
            assert forall|id: u64| #[trigger]
                (self_mid.park_queue@ + self_mid.wake_queue@).contains(id) <==> lists_4a.contains(
                    id,
                ) by {}
            if dirty {
                assert(self.park_queue@.len() == 0);
            }
        }

        // Phase 4a: wake from the wake list, under the budget.
        let ghost park_4a = self.park_queue@;
        if self.wake_queue.len() > 0 {
            let mut n: usize = 0;
            while n < self.wake_limit && self.wake_queue.len() > 0
                invariant
                    n <= self.wake_limit,
                    woken@.len() == n,
                    self.park_queue@ == park_4a,
                    forall|id: u64| #[trigger]
                        lists_4a.contains(id) ==> ((self.park_queue@
                            + self.wake_queue@).contains(id) || woken@.contains(map0[id].waker)),
                    (self.park_queue@ + self.wake_queue@).no_duplicates(),
                    forall|id: u64| #[trigger]
                        self.parked_wakers@.dom().contains(id) <==> (self.park_queue@
                            + self.wake_queue@).contains(id),
                    forall|id: u64| #[trigger]
                        self.parked_wakers@.dom().contains(id) ==> map0.dom().contains(id)
                            && self.parked_wakers@[id] == map0[id],
                    forall|id: u64| #[trigger]
                        self.park_queue@.contains(id) ==> self.parked_wakers@.dom().contains(id)
                            && self.parked_wakers@[id].message_id > tip_ghost,
                    forall|t: u64| #[trigger]
                        woken@.contains(t) ==> token_sourced(map0, entries0, t),
                    *self == (Engine {
                        park_queue: self.park_queue,
                        wake_queue: self.wake_queue,
                        parked_wakers: self.parked_wakers,
                        ..self_mid
                    }),
                    *shared == shared_mid,
                decreases self.wake_limit - n,
            {
                let ghost wake_pre = self.wake_queue@;
                let ghost map_pre = self.parked_wakers@;
                let ghost woken_pre = woken@;
                let popped = self.wake_queue.pop();
                match popped {
                    Some(id) => {
                        proof {
                            assert(wake_pre.last() == id);
                            assert((self.park_queue@ + wake_pre).contains(id)) by {
                                assert((self.park_queue@ + wake_pre)[self.park_queue@.len()
                                    + wake_pre.len() - 1] == id);
                            }
                            assert(map_pre.dom().contains(id));
                        }
                        match self.parked_wakers.remove(&id) {
                            Some(handle) => {
                                woken.push(handle.wake());
                                proof {
                                    let s1 = self.park_queue@ + wake_pre;
                                    let s2 = self.park_queue@ + self.wake_queue@;
                                    assert(s2 =~= s1.take(s1.len() - 1));
                                    assert forall|i: int, j: int|
                                        0 <= i < j < s2.len() implies s2[i] != s2[j] by {
                                        assert(s2[i] == s1[i] && s2[j] == s1[j]);
                                    }
                                    assert(s2.no_duplicates());
                                    assert forall|jd: u64| #[trigger]
                                        self.parked_wakers@.dom().contains(jd) <==> s2.contains(
                                            jd,
                                        ) by {
                                        if jd != id {
                                            if s2.contains(jd) {
                                                let w = choose|w: int|
                                                    0 <= w < s2.len() && s2[w] == jd;
                                                assert(s1[w] == jd);
                                            }
                                            if s1.contains(jd) {
                                                let w = choose|w: int|
                                                    0 <= w < s1.len() && s1[w] == jd;
                                                assert(w != s1.len() - 1);
                                                assert(s2[w] == jd);
                                            }
                                        } else {
                                            if s2.contains(jd) {
                                                let w = choose|w: int|
                                                    0 <= w < s2.len() && s2[w] == jd;
                                                assert(s1[w] == jd);
                                                assert(s1[s1.len() - 1] == jd);
                                                assert(!s1.no_duplicates());
                                            }
                                        }
                                    }
                                    assert forall|jd: u64| #[trigger]
                                        self.park_queue@.contains(jd) implies self.parked_wakers@
                                        .dom().contains(jd) && self.parked_wakers@[jd].message_id
                                        > tip_ghost by {
                                        let w = choose|w: int|
                                            0 <= w < self.park_queue@.len()
                                                && self.park_queue@[w] == jd;
                                        assert(s1[w] == jd);
                                        if jd == id {
                                            assert(s1[s1.len() - 1] == id);
                                            assert(w != s1.len() - 1);
                                            assert(!s1.no_duplicates());
                                        }
                                        assert(map_pre.dom().contains(jd));
                                        assert(map_pre[jd].message_id > tip_ghost);
                                        assert(self.parked_wakers@[jd] == map_pre[jd]);
                                    }
                                    assert(handle == map_pre[id]);
                                    assert(map_pre[id] == map0[id]);
                                    assert(token_sourced(map0, entries0, handle.waker)) by {
                                        assert(map0.dom().contains(id) && map0[id].waker
                                            == handle.waker);
                                    }
                                    assert(woken@ == woken_pre.push(handle.waker));
                                    assert forall|t: u64| #[trigger]
                                        woken@.contains(t) implies token_sourced(
                                        map0,
                                        entries0,
                                        t,
                                    ) by {
                                        let w = choose|w: int|
                                            0 <= w < woken@.len() && woken@[w] == t;
                                        if w < woken@.len() - 1 {
                                            assert(woken_pre[w] == t);
                                            assert(woken_pre.contains(t));
                                        }
                                    }
                                    assert forall|jd: u64| #[trigger]
                                        lists_4a.contains(jd) implies (s2.contains(jd)
                                        || woken@.contains(map0[jd].waker)) by {
                                        if jd == id {
                                            assert(woken@[woken@.len() - 1] == map0[id].waker);
                                        } else {
                                            if s1.contains(jd) {
                                                let w = choose|w: int|
                                                    0 <= w < s1.len() && s1[w] == jd;
                                                assert(w != s1.len() - 1);
                                                assert(s2[w] == jd);
                                            } else {
                                                assert(woken_pre.contains(map0[jd].waker));
                                                lemma_push_preserves_contains(
                                                    woken_pre,
                                                    handle.waker,
                                                    map0[jd].waker,
                                                );
                                            }
                                        }
                                    }
                                }
                            },
                            None => {
                                // Every listed id has a parked handle.
                                proof {
                                    assert(false);
                                }
                            },
                        }
                    },
                    None => {
                        // The wake list was checked nonempty above.
                        proof {
                            assert(false);
                        }
                    },
                }
                n = n + 1;
            }
            if self.wake_queue.len() > 0 {
                // Budget exhausted with work left: reschedule this engine.
                shared.engine_woken = true;
            }
        }
        let ghost woke_self_a = shared.engine_woken;
        let ghost wake_q_4b = self.wake_queue@;
        let ghost self_4b = *self;
        let ghost map_4b0 = self.parked_wakers@;
        let ghost len_4a = woken@.len();
        proof {
            assert(len_4a <= self_4b.wake_limit);
            assert forall|id: u64| #[trigger]
                map_4b0.dom().contains(id) implies map0.dom().contains(id) && map_4b0[id]
                == map0[id] by {}
            assert forall|id: u64| #[trigger]
                park_4a.contains(id) implies map_4b0.dom().contains(id) by {
                assert((self.park_queue@ + self.wake_queue@).contains(id)) by {
                    let w = choose|w: int| 0 <= w < park_4a.len() && park_4a[w] == id;
                    assert((self.park_queue@ + self.wake_queue@)[w] == id);
                }
            }
        }

        // Phase 4b: service the shared wake queue.
        let tip = self.next_message_id - 1;
        let mut drained = shared.drain_wakelist();
        let dlen0 = drained.len();
        proof {
            assert(entries0.len() == drained@.len());
        }
        let mut idx: usize = 0;
        let mut overflow = false;
        while drained.len() > 0 && !overflow
            invariant
                entries0.len() == dlen0,
                drained@.len() <= entries0.len(),
                crate::shared::handle_tuples(drained@) == entries0.skip(
                    entries0.len() - drained@.len(),
                ),
                !overflow ==> idx == entries0.len() - drained@.len(),
                !overflow ==> idx <= self_4b.wake_limit,
                overflow ==> entries0.len() - drained@.len() == self_4b.wake_limit + 1,
                idx <= entries0.len(),
                tip == tip_ghost,
                woken@.len() <= len_4a + (entries0.len() - drained@.len()),
                forall|j: int|
                    #![trigger entries0[j]]
                    0 <= j < entries0.len() - drained@.len() ==> registration_serviced(
                        *self,
                        woken@,
                        tip_ghost,
                        entries0[j],
                    ),
                forall|j: int|
                    #![trigger entries0[j]]
                    0 <= j < entries0.len() - drained@.len() && entries0[j].1 > tip_ghost && (
                    forall|j2: int|
                        #![trigger entries0[j2]]
                        j < j2 < entries0.len() - drained@.len() ==> entries0[j2].0
                            != entries0[j].0) ==> self.parked_wakers@.dom().contains(entries0[j].0)
                        && self.parked_wakers@[entries0[j].0].waker == entries0[j].2,
                forall|id: u64| #[trigger]
                    lists_4a.contains(id) ==> ((self.park_queue@ + self.wake_queue@).contains(id)
                        || woken@.contains(map0[id].waker)),
                forall|id: u64| #[trigger] park_4a.contains(id) ==> self.park_queue@.contains(id),
                forall|id: u64| #[trigger]
                    self.park_queue@.contains(id) ==> (park_4a.contains(id) || (exists|j: int|
                        #![trigger entries0[j]]
                        0 <= j < entries0.len() - drained@.len() && entries0[j].0 == id)),
                forall|id: u64| #[trigger]
                    map_4b0.dom().contains(id) ==> self.parked_wakers@.dom().contains(id) && (
                    self.parked_wakers@[id] == map_4b0[id] || (exists|j: int|
                        #![trigger entries0[j]]
                        0 <= j < entries0.len() - drained@.len() && entries0[j].0 == id)),
                self.wake_queue@ == wake_q_4b,
                (self.park_queue@ + self.wake_queue@).no_duplicates(),
                forall|id: u64| #[trigger]
                    self.parked_wakers@.dom().contains(id) <==> (self.park_queue@
                        + self.wake_queue@).contains(id),
                forall|id: u64| #[trigger]
                    self.park_queue@.contains(id) ==> self.parked_wakers@.dom().contains(id)
                        && self.parked_wakers@[id].message_id > tip_ghost,
                forall|t: u64| #[trigger]
                    woken@.contains(t) ==> token_sourced(map0, entries0, t),
                *self == (Engine {
                    park_queue: self.park_queue,
                    parked_wakers: self.parked_wakers,
                    ..self_4b
                }),
                *shared == (Shared {
                    wakers: shared.wakers,
                    engine_woken: shared.engine_woken,
                    ..shared_mid
                }),
                woke_self_a ==> shared.engine_woken,
                wake_queue_entries(shared.wakers).len() == 0,
            decreases drained@.len(),
        {
            let ghost k = entries0.len() - drained@.len();
            let ghost tuples = crate::shared::handle_tuples(drained@);
            let (id, handle) = drained.remove(0);
            proof {
                assert(tuples[0] == entries0.skip(k)[0]);
                assert(entries0.skip(k)[0] == entries0[k]);
                assert(handle.waker == entries0[k].2);
                assert(handle.message_id == entries0[k].1);
                assert(crate::shared::handle_tuples(drained@) =~= tuples.drop_first());
                assert(tuples.drop_first() =~= entries0.skip(k + 1));
            }
            if tip < handle.next_message_id() {
                // This receiver awaits an id beyond the tip: park it.
                if self.parked_wakers.contains_key(&id) {
                    let ghost map_pre = self.parked_wakers@;
                    let keep = match self.parked_wakers.get(&id) {
                        Some(e) => e.will_wake(&handle),
                        None => true,
                    };
                    if !keep {
                        // A new waker for the same task id replaces the old.
                        self.parked_wakers.insert(id, handle);
                        proof {
                            assert(self.parked_wakers@.dom() =~= map_pre.dom());
                            assert forall|jd: u64| #[trigger]
                                self.park_queue@.contains(jd) implies self.parked_wakers@.dom()
                                .contains(jd) && self.parked_wakers@[jd].message_id > tip_ghost by {
                                assert(map_pre.dom().contains(jd));
                                assert(map_pre[jd].message_id > tip_ghost);
                                if jd != id {
                                    assert(self.parked_wakers@[jd] == map_pre[jd]);
                                } else {
                                    assert(self.parked_wakers@[jd] == handle);
                                    assert(handle.message_id > tip_ghost);
                                }
                            }
                            assert forall|jd: u64| #[trigger]
                                map_4b0.dom().contains(jd) implies self.parked_wakers@.dom()
                                .contains(jd) && (self.parked_wakers@[jd] == map_4b0[jd] || (
                            exists|j: int|
                                #![trigger entries0[j]]
                                0 <= j < entries0.len() - drained@.len() && entries0[j].0
                                    == jd)) by {
                                if jd == id {
                                    assert(0 <= k < entries0.len() - drained@.len()
                                        && entries0[k].0 == jd);
                                } else {
                                    assert(self.parked_wakers@[jd] == map_pre[jd]);
                                }
                            }
                        }
                    }
                    // Otherwise: a duplicate registration; drop it.
                    proof {
                        assert(self.parked_wakers@.dom().contains(id));
                        assert(self.parked_wakers@.dom() =~= map_pre.dom());
                        assert forall|j: int|
                            #![trigger entries0[j]]
                            0 <= j < entries0.len() - drained@.len() implies registration_serviced(
                            *self,
                            woken@,
                            tip_ghost,
                            entries0[j],
                        ) by {
                            if j < k {
                                if entries0[j].1 > tip_ghost {
                                    assert(map_pre.dom().contains(entries0[j].0));
                                }
                            } else {
                                assert(j == k);
                                assert(entries0[k].0 == id && entries0[k].1 > tip_ghost);
                            }
                        }
                        assert forall|j: int|
                            #![trigger entries0[j]]
                            (0 <= j < entries0.len() - drained@.len() && entries0[j].1 > tip_ghost
                                && (forall|j2: int|
                                #![trigger entries0[j2]]
                                j < j2 < entries0.len() - drained@.len() ==> entries0[j2].0
                                    != entries0[j].0)) implies (self.parked_wakers@.dom().contains(
                            entries0[j].0,
                        ) && self.parked_wakers@[entries0[j].0].waker == entries0[j].2) by {
                            if j < k {
                                assert(entries0[k].0 != entries0[j].0);
                                assert(forall|j2: int|
                                    #![trigger entries0[j2]]
                                    j < j2 < k ==> entries0[j2].0 != entries0[j].0);
                                assert(map_pre.dom().contains(entries0[j].0)
                                    && map_pre[entries0[j].0].waker == entries0[j].2);
                                assert(self.parked_wakers@[entries0[j].0] == map_pre[entries0[j].0]);
                            } else {
                                assert(j == k);
                                if keep {
                                    assert(self.parked_wakers@[id] == map_pre[id]);
                                    assert(map_pre[id].waker == handle.waker);
                                } else {
                                    assert(self.parked_wakers@[id] == handle);
                                }
                            }
                        }
                    }
                } else {
                    let ghost park_pre = self.park_queue@;
                    let ghost map_pre = self.parked_wakers@;
                    self.park_queue.push(id);
                    self.parked_wakers.insert(id, handle);
                    proof {
                        let s1 = park_pre + wake_q_4b;
                        let s2 = self.park_queue@ + self.wake_queue@;
                        assert(s2 =~= s1.insert(park_pre.len() as int, id));
                        assert(!s1.contains(id));
                        assert forall|i: int, j: int| 0 <= i < j < s2.len() implies s2[i]
                            != s2[j] by {
                            let mi = if i < park_pre.len() {
                                i
                            } else {
                                i - 1
                            };
                            let mj = if j < park_pre.len() {
                                j
                            } else {
                                j - 1
                            };
                            if i == park_pre.len() {
                                assert(s2[i] == id);
                                assert(s2[j] == s1[mj]);
                                if s2[j] == id {
                                    assert(s1.contains(s1[mj]));
                                }
                            } else if j == park_pre.len() {
                                assert(s2[j] == id);
                                assert(s2[i] == s1[mi]);
                                if s2[i] == id {
                                    assert(s1.contains(s1[mi]));
                                }
                            } else {
                                assert(s2[i] == s1[mi] && s2[j] == s1[mj]);
                                assert(mi != mj);
                                if mi < mj {
                                    assert(s1[mi] != s1[mj]);
                                } else {
                                    assert(s1[mj] != s1[mi]);
                                }
                            }
                        }
                        assert(s2.no_duplicates());
                        assert forall|jd: u64| #[trigger]
                            self.parked_wakers@.dom().contains(jd) <==> s2.contains(jd) by {
                            if jd == id {
                                assert(s2[park_pre.len() as int] == id);
                            } else {
                                if s2.contains(jd) {
                                    let w = choose|w: int| 0 <= w < s2.len() && s2[w] == jd;
                                    if w < park_pre.len() {
                                        assert(s1[w] == jd);
                                    } else {
                                        assert(s1[w - 1] == jd);
                                    }
                                }
                                if s1.contains(jd) {
                                    let w = choose|w: int| 0 <= w < s1.len() && s1[w] == jd;
                                    if w < park_pre.len() {
                                        assert(s2[w] == jd);
                                    } else {
                                        assert(s2[w + 1] == jd);
                                    }
                                }
                            }
                        }
                        assert forall|jd: u64| #[trigger]
                            self.park_queue@.contains(jd) implies self.parked_wakers@.dom()
                            .contains(jd) && self.parked_wakers@[jd].message_id > tip_ghost by {
                            if jd != id {
                                let w = choose|w: int|
                                    0 <= w < self.park_queue@.len() && self.park_queue@[w] == jd;
                                assert(w < park_pre.len());
                                assert(park_pre[w] == jd);
                                assert(park_pre.contains(jd));
                                assert(map_pre.dom().contains(jd));
                                assert(map_pre[jd].message_id > tip_ghost);
                                assert(self.parked_wakers@[jd] == map_pre[jd]);
                            } else {
                                assert(self.parked_wakers@[jd] == handle);
                                assert(handle.message_id > tip_ghost);
                            }
                        }
                        assert forall|j: int|
                            #![trigger entries0[j]]
                            0 <= j < entries0.len() - drained@.len() implies registration_serviced(
                            *self,
                            woken@,
                            tip_ghost,
                            entries0[j],
                        ) by {
                            if j < k {
                                if entries0[j].1 > tip_ghost {
                                    assert(map_pre.dom().contains(entries0[j].0));
                                    assert(self.parked_wakers@.dom() =~= map_pre.dom().insert(id));
                                }
                            } else {
                                assert(j == k);
                                assert(entries0[k].0 == id && entries0[k].1 > tip_ghost);
                                assert(self.parked_wakers@.dom().contains(id));
                            }
                        }
                        assert forall|jd: u64| #[trigger]
                            lists_4a.contains(jd) implies (s2.contains(jd) || woken@.contains(
                            map0[jd].waker,
                        )) by {
                            if (park_pre + wake_q_4b).contains(jd) {
                                let w = choose|w: int| 0 <= w < s1.len() && s1[w] == jd;
                                if w < park_pre.len() {
                                    assert(s2[w] == jd);
                                } else {
                                    assert(s2[w + 1] == jd);
                                }
                            }
                        }
                        assert forall|jd: u64| #[trigger]
                            park_4a.contains(jd) implies self.park_queue@.contains(jd) by {
                            assert(park_pre.contains(jd));
                            lemma_push_preserves_contains(park_pre, id, jd);
                        }
                        assert forall|jd: u64| #[trigger]
                            self.park_queue@.contains(jd) implies (park_4a.contains(jd) || (
                            exists|j: int|
                                #![trigger entries0[j]]
                                0 <= j < entries0.len() - drained@.len() && entries0[j].0
                                    == jd)) by {
                            if jd == id {
                                assert(0 <= k < entries0.len() - drained@.len() && entries0[k].0
                                    == jd);
                            } else {
                                let w = choose|w: int|
                                    0 <= w < self.park_queue@.len() && self.park_queue@[w] == jd;
                                assert(w < park_pre.len());
                                assert(park_pre.contains(jd));
                            }
                        }
                        assert forall|jd: u64| #[trigger]
                            map_4b0.dom().contains(jd) implies self.parked_wakers@.dom().contains(
                            jd,
                        ) && (self.parked_wakers@[jd] == map_4b0[jd] || (exists|j: int|
                            #![trigger entries0[j]]
                            0 <= j < entries0.len() - drained@.len() && entries0[j].0 == jd)) by {
                            assert(map_pre.dom().contains(jd));
                            if jd != id {
                                assert(self.parked_wakers@[jd] == map_pre[jd]);
                            } else {
                                assert(0 <= k < entries0.len() - drained@.len() && entries0[k].0
                                    == jd);
                            }
                        }
                        assert forall|j: int|
                            #![trigger entries0[j]]
                            (0 <= j < entries0.len() - drained@.len() && entries0[j].1 > tip_ghost
                                && (forall|j2: int|
                                #![trigger entries0[j2]]
                                j < j2 < entries0.len() - drained@.len() ==> entries0[j2].0
                                    != entries0[j].0)) implies (self.parked_wakers@.dom().contains(
                            entries0[j].0,
                        ) && self.parked_wakers@[entries0[j].0].waker == entries0[j].2) by {
                            if j < k {
                                assert(entries0[k].0 != entries0[j].0);
                                assert(forall|j2: int|
                                    #![trigger entries0[j2]]
                                    j < j2 < k ==> entries0[j2].0 != entries0[j].0);
                                assert(map_pre.dom().contains(entries0[j].0)
                                    && map_pre[entries0[j].0].waker == entries0[j].2);
                                assert(self.parked_wakers@[entries0[j].0] == map_pre[entries0[j].0]);
                            } else {
                                assert(j == k);
                                assert(self.parked_wakers@[id] == handle);
                            }
                        }
                    }
                }
            } else {
                let ghost woken_pre = woken@;
                woken.push(handle.wake());
                proof {
                    assert(token_sourced(map0, entries0, handle.waker)) by {
                        assert(0 <= k < entries0.len() && entries0[k].2 == handle.waker);
                    }
                    assert(woken@ == woken_pre.push(handle.waker));
                    assert forall|t: u64| #[trigger]
                        woken@.contains(t) implies token_sourced(map0, entries0, t) by {
                        let w = choose|w: int| 0 <= w < woken@.len() && woken@[w] == t;
                        if w < woken@.len() - 1 {
                            assert(woken_pre[w] == t);
                            assert(woken_pre.contains(t));
                        }
                    }
                    assert forall|j: int|
                        #![trigger entries0[j]]
                        0 <= j < entries0.len() - drained@.len() implies registration_serviced(
                        *self,
                        woken@,
                        tip_ghost,
                        entries0[j],
                    ) by {
                        if j < k {
                            if entries0[j].1 <= tip_ghost {
                                assert(woken_pre.contains(entries0[j].2));
                                lemma_push_preserves_contains(
                                    woken_pre,
                                    handle.waker,
                                    entries0[j].2,
                                );
                            }
                        } else {
                            assert(j == k);
                            assert(entries0[k].1 <= tip_ghost);
                            assert(woken@[woken@.len() - 1] == entries0[k].2);
                        }
                    }
                    assert forall|jd: u64| #[trigger]
                        lists_4a.contains(jd) implies ((self.park_queue@
                        + self.wake_queue@).contains(jd) || woken@.contains(map0[jd].waker)) by {
                        if !(self.park_queue@ + self.wake_queue@).contains(jd) {
                            assert(woken_pre.contains(map0[jd].waker));
                            lemma_push_preserves_contains(woken_pre, handle.waker, map0[jd].waker);
                        }
                    }
                        assert forall|j: int|
                            #![trigger entries0[j]]
                            (0 <= j < entries0.len() - drained@.len() && entries0[j].1 > tip_ghost
                                && (forall|j2: int|
                                #![trigger entries0[j2]]
                                j < j2 < entries0.len() - drained@.len() ==> entries0[j2].0
                                    != entries0[j].0)) implies (self.parked_wakers@.dom().contains(
                            entries0[j].0,
                        ) && self.parked_wakers@[entries0[j].0].waker == entries0[j].2) by {
                        if j < k {
                            assert(forall|j2: int|
                                #![trigger entries0[j2]]
                                j < j2 < k ==> entries0[j2].0 != entries0[j].0);
                        } else {
                            assert(j == k);
                            assert(entries0[k].1 <= tip_ghost);
                        }
                    }
                }
            }
            if idx == self.wake_limit {
                // Budget exhausted: reschedule and leave the rest queued.
                overflow = true;
            } else {
                idx = idx + 1;
            }
        }
        let ghost processed = entries0.len() - drained@.len();
        proof {
            if drained@.len() == 0 {
                assert(processed == entries0.len());
            } else {
                assert(overflow);
            }
            assert(processed == served_count(entries0.len() as int, self_4b.wake_limit as int));
        }
        if drained.len() > 0 {
            shared.engine_woken = true;
        }
        shared.requeue_wakers(drained);

        proof {
            assert(wake_queue_entries(shared.wakers) =~= entries0.skip(processed));
            assert(self.wf());
            assert(map0 == old(self).parked_wakers@);
            assert(woken@.len() <= 2 * old(self).wake_limit + 1);
            assert(*shared == (Shared {
                queue: shared.queue,
                subscribe_sequence: shared.subscribe_sequence,
                subscribe_tail_sequence: shared.subscribe_tail_sequence,
                wakers: shared.wakers,
                notifier_armed: shared.notifier_armed,
                engine_woken: shared.engine_woken,
                ..*old(shared)
            }));
            assert(*self == (Engine {
                next_message_id: self.next_message_id,
                buffer_policy: self.buffer_policy,
                park_queue: self.park_queue,
                wake_queue: self.wake_queue,
                parked_wakers: self.parked_wakers,
                ..*old(self)
            }));
            assert forall|id: u64| #[trigger]
                (old(self).park_queue@ + old(self).wake_queue@).contains(id) implies ((
            self.park_queue@ + self.wake_queue@).contains(id) || woken@.contains(
                old(self).parked_wakers@[id].waker,
            )) by {
                assert(lists_4a.contains(id));
            }
            if !dirty {
                // A clean cycle leaves every parked receiver parked; its
                // handle is kept verbatim unless a fresh registration for
                // the same receiver replaced it.
                assert(park_4a == old(self).park_queue@);
                assert forall|id: u64| #[trigger]
                    old(self).park_queue@.contains(id) implies (self.park_queue@.contains(id)
                    && self.parked_wakers@.dom().contains(id) && ((forall|j: int|
                    #![trigger entries0[j]]
                    0 <= j < entries0.len() ==> entries0[j].0 != id)
                    ==> self.parked_wakers@[id] == old(self).parked_wakers@[id])) by {
                    assert(park_4a.contains(id));
                    assert(map_4b0.dom().contains(id));
                    assert(map_4b0[id] == map0[id]);
                    if forall|j: int|
                        #![trigger entries0[j]]
                        0 <= j < entries0.len() ==> entries0[j].0 != id {
                        if self.parked_wakers@[id] != map_4b0[id] {
                            let j = choose|j: int|
                                0 <= j < processed && (#[trigger] entries0[j]).0 == id;
                            assert(entries0[j].0 != id);
                        }
                    }
                }
            }
            if dirty {
                // A dirty cycle flushed the park list, so every parked
                // receiver was freshly drained this poll.
                assert(park_4a.len() == 0);
                assert forall|id: u64| #[trigger]
                    self.park_queue@.contains(id) implies exists|j: int|
                    #![trigger entries0[j]]
                    0 <= j < served_count(entries0.len() as int, old(self).wake_limit as int)
                        && entries0[j].0 == id by {
                    assert(!park_4a.contains(id));
                }
            }
        }
        EngineStep { completed: false, woken }
    }

    /// What dropping the engine (or the subscribe handle) does in an
    /// embedding: the channel is marked dead and every waiting receiver
    /// is woken, so each observes end-of-stream on its next poll. The
    /// engine is terminal afterwards.
    pub fn shutdown(&mut self, shared: &mut Shared<Item>) -> (woken: Vec<u64>)
        requires
            old(self).wf(),
        ensures
            final(self).wf(),
            final(self).completed,
            final(shared).is_dead,
            final(shared).queue@ == old(shared).queue@,
            woken@ == map_tokens(
                old(self).park_queue@ + old(self).wake_queue@,
                old(self).parked_wakers@,
            ) + queue_tokens(wake_queue_entries(old(shared).wakers)),
            final(self).parked_wakers@.dom() =~= Set::<u64>::empty(),
            wake_queue_entries(final(shared).wakers).len() == 0,
    {
        shared.set_dead();
        let woken = self.wake_everybody_because_i_am_dead(shared);
        self.completed = true;
        proof {
            assert((self.park_queue@ + self.wake_queue@).len() == 0);
            assert(self.wf());
        }
        woken
    }
}

/// Eviction discipline: whenever a cycle admits at least one item, the
/// front of the published buffer either is the item just admitted (the
/// whole previous buffer was evicted) or it survived a `Retain` answer
/// of the policy state that stood at the last admission.
pub proof fn lemma_eviction_discipline<T, P: BufferPolicy<T>>(
    p0: P,
    b0: Seq<SplaycastEntry<T>>,
    id0: u64,
    items: Seq<T>,
    p1: P,
    b1: Seq<SplaycastEntry<T>>,
    id1: u64,
)
    requires
        absorbs_to(p0, b0, id0, items, p1, b1, id1),
        items.len() > 0,
    ensures
        b1.len() >= 1,
        b1.len() > 1 ==> exists|pm: P| #[trigger] pm.decision_ok(
            b1[0].item,
            BufferInstruction::Retain,
        ),
{
    let states = choose|states: Seq<(P, Seq<SplaycastEntry<T>>)>|
        {
            &&& #[trigger] absorb_trace_ok(states, items, id0)
            &&& states[0] == (p0, b0)
            &&& states.last() == (p1, b1)
        };
    let j = items.len() - 1;
    assert(items[j] == items[j]);
    assert(absorb_step(
        states[j].0,
        states[j].1,
        items[j],
        (id0 + j) as u64,
        states[j + 1].0,
        states[j + 1].1,
    ));
    assert(states[j + 1] == states.last());
    let (pm, bm, admitted) = choose|pm: P, bm: Seq<SplaycastEntry<T>>, admitted: T|
        #![trigger evicts_to(states[j].0, states[j].1, pm, bm), pm.admit_ok(items[j], states[j + 1].0, admitted)]
        {
            &&& evicts_to(states[j].0, states[j].1, pm, bm)
            &&& pm.admit_ok(items[j], states[j + 1].0, admitted)
            &&& states[j + 1].1 == bm.push(
                SplaycastEntry { id: (id0 + j) as u64, item: admitted },
            )
        };
    if b1.len() > 1 {
        assert(bm.len() == b1.len() - 1);
        assert(b1[0] == bm[0]);
        assert(pm.decision_ok(b1[0].item, BufferInstruction::Retain));
    }
}

/// Along an eviction run of the length policy whose count agrees with
/// the buffer, the count tracks the evictions one by one.
proof fn lemma_length_policy_run<T>(ps: Seq<BufferLengthPolicy>, b: Seq<SplaycastEntry<T>>, i: int)
    requires
        evict_run_ok::<T, BufferLengthPolicy>(ps, b),
        ps[0].count == b.len(),
        0 <= i < ps.len(),
    ensures
        ps[i].count == b.len() - i,
        ps[i].limit == ps[0].limit,
    decreases i,
{
    if i > 0 {
        lemma_length_policy_run(ps, b, i - 1);
        assert(ps[i - 1].decision_ok(
            b[i - 1].item,
            BufferInstruction::Pop,
        ) && ps[i - 1].evict_ok(b[i - 1].item, ps[i]));
    }
}

/// One absorption step of the length policy: a count that agrees with
/// the buffer keeps agreeing, and the buffer never grows beyond the
/// limit (or beyond the single just-admitted item when the limit is 0).
proof fn lemma_length_policy_step<T>(
    p0: BufferLengthPolicy,
    b0: Seq<SplaycastEntry<T>>,
    item: T,
    id: u64,
    p1: BufferLengthPolicy,
    b1: Seq<SplaycastEntry<T>>,
)
    requires
        absorb_step(p0, b0, item, id, p1, b1),
        p0.count == b0.len(),
        b0.len() < usize::MAX,
    ensures
        p1.count == b1.len(),
        p1.limit == p0.limit,
        b1.len() <= if p0.limit >= 1 {
            p0.limit as int
        } else {
            1
        },
{
    let (pm, bm, admitted) = choose|pm: BufferLengthPolicy,
        bm: Seq<SplaycastEntry<T>>,
        admitted: T|
        #![trigger evicts_to(p0, b0, pm, bm), pm.admit_ok(item, p1, admitted)]
        {
            &&& evicts_to(p0, b0, pm, bm)
            &&& pm.admit_ok(item, p1, admitted)
            &&& b1 == bm.push(SplaycastEntry { id, item: admitted })
        };
    let ps = choose|ps: Seq<BufferLengthPolicy>|
        {
            &&& #[trigger] evict_run_ok(ps, b0)
            &&& ps[0] == p0
            &&& ps.last() == pm
            &&& bm == b0.skip(ps.len() - 1)
            &&& (bm.len() == 0 || pm.decision_ok(bm[0].item, BufferInstruction::Retain))
        };
    lemma_length_policy_run(ps, b0, ps.len() - 1);
    assert(pm.count == bm.len());
    if bm.len() > 0 {
        assert(pm.count < pm.limit);
    }
}

/// The length policy keeps the published buffer within its limit: after
/// any absorption of at least one item that started with an agreeing
/// count, the count still equals the buffer length and the buffer holds
/// at most `limit` entries (at most 1 when the limit is 0).
pub proof fn lemma_length_policy_bound<T>(
    p0: BufferLengthPolicy,
    b0: Seq<SplaycastEntry<T>>,
    id0: u64,
    items: Seq<T>,
    p1: BufferLengthPolicy,
    b1: Seq<SplaycastEntry<T>>,
    id1: u64,
)
    requires
        absorbs_to::<T, BufferLengthPolicy>(p0, b0, id0, items, p1, b1, id1),
        p0.count == b0.len(),
        p0.limit < usize::MAX,
        b0.len() < usize::MAX,
    ensures
        p1.count == b1.len(),
        p1.limit == p0.limit,
        items.len() > 0 ==> b1.len() <= if p0.limit >= 1 {
            p0.limit as int
        } else {
            1
        },
    decreases items.len(),
{
    if items.len() == 0 {
        let states = choose|states: Seq<(BufferLengthPolicy, Seq<SplaycastEntry<T>>)>|
            {
                &&& #[trigger] absorb_trace_ok(states, items, id0)
                &&& states[0] == (p0, b0)
                &&& states.last() == (p1, b1)
            };
        assert(states.last() == states[0]);
    } else {
        let states = choose|states: Seq<(BufferLengthPolicy, Seq<SplaycastEntry<T>>)>|
            {
                &&& #[trigger] absorb_trace_ok(states, items, id0)
                &&& states[0] == (p0, b0)
                &&& states.last() == (p1, b1)
            };
        let j = items.len() - 1;
        let front = states.take(states.len() - 1);
        let front_items = items.take(j);
        assert forall|w: int| 0 <= w < front_items.len() implies absorb_step(
            front[w].0,
            front[w].1,
            #[trigger] front_items[w],
            (id0 + w) as u64,
            front[w + 1].0,
            front[w + 1].1,
        ) by {
            assert(front_items[w] == items[w]);
            assert(absorb_step(
                states[w].0,
                states[w].1,
                items[w],
                (id0 + w) as u64,
                states[w + 1].0,
                states[w + 1].1,
            ));
            assert(front[w] == states[w] && front[w + 1] == states[w + 1]);
        }
        assert(absorb_trace_ok(front, front_items, id0));
        assert(front[0] == states[0]);
        assert(front.last() == states[states.len() - 2]);
        let (pj, bj) = states[states.len() - 2];
        assert(absorbs_to(p0, b0, id0, front_items, pj, bj, (id0 + j) as u64));
        lemma_length_policy_bound(p0, b0, id0, front_items, pj, bj, (id0 + j) as u64);
        assert(items[j] == items[j]);
        assert(absorb_step(
            states[j].0,
            states[j].1,
            items[j],
            (id0 + j) as u64,
            states[j + 1].0,
            states[j + 1].1,
        ));
        assert(states[j] == (pj, bj) && states[j + 1] == (p1, b1));
        assert(bj.len() < usize::MAX) by {
            if j > 0 {
                assert(bj.len() <= if p0.limit >= 1 {
                    p0.limit as int
                } else {
                    1
                });
            }
        }
        lemma_length_policy_step(pj, bj, items[j], (id0 + j) as u64, p1, b1);
    }
}

} // verus!
