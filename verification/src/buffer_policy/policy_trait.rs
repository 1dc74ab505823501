use vstd::prelude::*;

verus! {

/// What to do with the oldest buffered item when a new item is about to be
/// admitted.
#[derive(Debug, Clone, Copy, PartialEq, Eq, Structural)]
pub enum BufferInstruction {
    /// Keep the tail as-is.
    Retain,
    /// Remove the tail item. The engine pops it, reports the pop through
    /// `on_after_pop`, and asks again about the new tail.
    Pop,
}

/// Decides when the engine's buffer should pop or retain its oldest item.
///
/// Popping too eagerly leaves slow subscribers behind and causes lag
/// notices; retaining forever exhausts memory. A policy is a pure state
/// transition system: it never fails, it only answers `Retain` or `Pop`
/// and keeps its own bookkeeping as items enter and leave the buffer.
///
/// The spec side of the trait states what each implementation guarantees:
/// `decision_ok` relates a policy state and a tail item to the answers the
/// policy may give, and `admit_ok` / `evict_ok` relate the state before a
/// notification to the state after it. Policies whose answers depend on a
/// caller-supplied projection are related to the projection's contract;
/// policies that only count are pinned down exactly.
pub trait BufferPolicy<T>: Sized {
    /// The invariant this policy value carries (for example, that a
    /// caller-supplied projection may be applied to every item).
    spec fn wf(&self) -> bool;

    /// Which answers this state may give for this tail item.
    spec fn decision_ok(&self, tail_item: T, r: BufferInstruction) -> bool;

    /// How the state and the admitted item may change in `on_before_send`:
    /// `post` is the state after the call, `admitted` the item as it
    /// enters the buffer (a policy may stamp the item in place).
    spec fn admit_ok(&self, new_item: T, post: Self, admitted: T) -> bool;

    /// How the state may change in `on_after_pop`.
    spec fn evict_ok(&self, popped_item: T, post: Self) -> bool;

    /// Asked by the engine, repeatedly, before admitting a new item:
    /// should the current oldest buffered item be evicted? Answering does
    /// not change the policy state.
    fn buffer_tail_policy(&mut self, tail_item: &T) -> (r: BufferInstruction)
        requires
            old(self).wf(),
        ensures
            *final(self) == *old(self),
            old(self).decision_ok(*tail_item, r),
    ;

    /// Called once as `new_item` is committed to the buffer, before it
    /// becomes visible to subscribers. The policy may mutate the item in
    /// place (for example, to add a timestamp); that mutation is visible
    /// to every subscriber.
    fn on_before_send(&mut self, new_item: &mut T)
        requires
            old(self).wf(),
        ensures
            final(self).wf(),
            old(self).admit_ok(*old(new_item), *final(self), *final(new_item)),
    ;

    /// Called once per eviction, after the item left the buffer, for
    /// bookkeeping. The item has already left the buffer, so nothing a
    /// policy could write into it would be observable; the contract
    /// therefore asks policies to leave it as it is.
    fn on_after_pop(&mut self, popped_item: &mut T)
        requires
            old(self).wf(),
        ensures
            final(self).wf(),
            *final(popped_item) == *old(popped_item),
            old(self).evict_ok(*old(popped_item), *final(self)),
    ;
}

} // verus!
