use vstd::prelude::*;

use super::{BufferInstruction, BufferPolicy};

verus! {

/// A buffer policy that limits the buffer to a certain accumulated weight.
#[derive(Debug)]
pub struct BufferWeightPolicy<T, F> where F: Fn(&T) -> usize {
    pub weight_limit: usize,
    pub weight: usize,
    pub get_weight: F,
    pub phantom: core::marker::PhantomData<T>,
}

impl<T, F> BufferWeightPolicy<T, F> where F: Fn(&T) -> usize {
    /// Create a new buffer weight policy.
    ///
    /// Weights retrieved from the items are compared to the weight limit.
    /// When the buffer is heavier than `weight_limit`, the tail is popped.
    ///
    /// The weight limit is soft: a single oversized item is still admitted
    /// above the threshold.
    pub fn new(weight_limit: usize, get_weight: F) -> (r: Self)
        requires
            forall|x: &T| #[trigger] get_weight.requires((x,)),
        ensures
            r.weight_limit == weight_limit,
            r.weight == 0,
            r.get_weight == get_weight,
            r.wf(),
    {
        Self { weight_limit, weight: 0, get_weight, phantom: core::marker::PhantomData }
    }
}

impl<T, F> BufferPolicy<T> for BufferWeightPolicy<T, F> where F: Fn(&T) -> usize {
    /// The projection may be applied to any item.
    open spec fn wf(&self) -> bool {
        forall|x: &T| #[trigger] self.get_weight.requires((x,))
    }

    open spec fn decision_ok(&self, tail_item: T, r: BufferInstruction) -> bool {
        r == (if self.weight_limit < self.weight {
            BufferInstruction::Pop
        } else {
            BufferInstruction::Retain
        })
    }

    /// Admission adds the item's weight, saturating; the item itself is
    /// not touched. The added weight is one the projection may return for
    /// this item.
    open spec fn admit_ok(&self, new_item: T, post: Self, admitted: T) -> bool {
        &&& admitted == new_item
        &&& post.weight_limit == self.weight_limit
        &&& post.get_weight == self.get_weight
        &&& exists|w: usize|
            #[trigger] self.get_weight.ensures((&new_item,), w)
                && post.weight == self.weight.saturating_add(w)
    }

    /// Eviction subtracts the popped item's weight, saturating.
    open spec fn evict_ok(&self, popped_item: T, post: Self) -> bool {
        &&& post.weight_limit == self.weight_limit
        &&& post.get_weight == self.get_weight
        &&& exists|w: usize|
            #[trigger] self.get_weight.ensures((&popped_item,), w)
                && post.weight == self.weight.saturating_sub(w)
    }

    fn buffer_tail_policy(&mut self, _tail_item: &T) -> (r: BufferInstruction) {
        if self.weight_limit < self.weight {
            BufferInstruction::Pop
        } else {
            BufferInstruction::Retain
        }
    }

    fn on_before_send(&mut self, new_item: &mut T) {
        let w = (self.get_weight)(new_item);
        self.weight = self.weight.saturating_add(w);
    }

    fn on_after_pop(&mut self, popped_item: &mut T) {
        let w = (self.get_weight)(popped_item);
        self.weight = self.weight.saturating_sub(w);
    }
}

} // verus!
