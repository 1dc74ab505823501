use vstd::prelude::*;

use super::{BufferInstruction, BufferPolicy};

verus! {

/// A buffer policy that limits the buffer to a certain age.
///
/// Ages are measured in caller-chosen ticks (for example, milliseconds).
/// The caller supplies a projection from an item to its current age — how
/// long ago the item's timestamp lies — so the clock read stays with the
/// caller, and this policy is a pure comparison against the limit.
#[derive(Debug)]
pub struct BufferAgePolicy<T, F> where F: Fn(&T) -> u64 {
    pub age_limit: u64,
    pub get_age: F,
    pub phantom: core::marker::PhantomData<T>,
}

impl<T, F> BufferAgePolicy<T, F> where F: Fn(&T) -> u64 {
    /// Create a new buffer age policy.
    ///
    /// Ages retrieved from the items are compared to the age limit. When
    /// the tail is older than `age_limit`, it is popped.
    pub fn new(age_limit: u64, get_age: F) -> (r: Self)
        requires
            forall|x: &T| #[trigger] get_age.requires((x,)),
        ensures
            r.age_limit == age_limit,
            r.get_age == get_age,
            r.wf(),
    {
        Self { age_limit, get_age, phantom: core::marker::PhantomData }
    }
}

impl<T, F> BufferPolicy<T> for BufferAgePolicy<T, F> where F: Fn(&T) -> u64 {
    /// The projection may be applied to any item.
    open spec fn wf(&self) -> bool {
        forall|x: &T| #[trigger] self.get_age.requires((x,))
    }

    /// `Pop` exactly when an age the projection may report for the tail
    /// item exceeds the limit.
    open spec fn decision_ok(&self, tail_item: T, r: BufferInstruction) -> bool {
        exists|age: u64|
            #[trigger] self.get_age.ensures((&tail_item,), age)
                && r == (if self.age_limit < age {
                BufferInstruction::Pop
            } else {
                BufferInstruction::Retain
            })
    }

    /// No bookkeeping: the state is unchanged and the item untouched.
    open spec fn admit_ok(&self, new_item: T, post: Self, admitted: T) -> bool {
        &&& admitted == new_item
        &&& post == *self
    }

    /// No bookkeeping.
    open spec fn evict_ok(&self, popped_item: T, post: Self) -> bool {
        post == *self
    }

    fn buffer_tail_policy(&mut self, tail_item: &T) -> (r: BufferInstruction) {
        if self.age_limit < (self.get_age)(tail_item) {
            BufferInstruction::Pop
        } else {
            BufferInstruction::Retain
        }
    }

    fn on_before_send(&mut self, _new_item: &mut T) {
    }

    fn on_after_pop(&mut self, _popped_item: &mut T) {
    }
}

} // verus!
