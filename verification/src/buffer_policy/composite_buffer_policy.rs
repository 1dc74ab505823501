use vstd::prelude::*;

use super::{BufferInstruction, BufferPolicy};

verus! {

/// A buffer policy for joining buffer policies.
///
/// Composite policies only retain items that all policies agree to
/// retain: if any policy says to pop, the item is popped.
///
/// The upper policy is checked first. If it says to pop, the item is
/// popped without consulting the lower policy.
#[derive(Debug)]
pub struct CompositeBufferPolicy<T, U> {
    pub upper: T,
    pub lower: U,
}

impl<T, PUpper, PLower> BufferPolicy<T> for CompositeBufferPolicy<PUpper, PLower> where
    PUpper: BufferPolicy<T>,
    PLower: BufferPolicy<T>,
 {
    open spec fn wf(&self) -> bool {
        self.upper.wf() && self.lower.wf()
    }

    /// The upper policy's possible answer decides `Pop` outright; on
    /// `Retain` the lower policy answers.
    open spec fn decision_ok(&self, tail_item: T, r: BufferInstruction) -> bool {
        exists|ru: BufferInstruction|
            #[trigger] self.upper.decision_ok(tail_item, ru) && (if ru == BufferInstruction::Pop {
                r == BufferInstruction::Pop
            } else {
                self.lower.decision_ok(tail_item, r)
            })
    }

    /// Both policies see the admitted item, upper first; the item passes
    /// through the upper policy before the lower one sees it.
    open spec fn admit_ok(&self, new_item: T, post: Self, admitted: T) -> bool {
        exists|mid: T|
            #[trigger] self.upper.admit_ok(new_item, post.upper, mid) && self.lower.admit_ok(
                mid,
                post.lower,
                admitted,
            )
    }

    /// Both policies are told of the eviction, upper first.
    open spec fn evict_ok(&self, popped_item: T, post: Self) -> bool {
        self.upper.evict_ok(popped_item, post.upper) && self.lower.evict_ok(
            popped_item,
            post.lower,
        )
    }

    fn buffer_tail_policy(&mut self, tail_item: &T) -> (r: BufferInstruction) {
        match self.upper.buffer_tail_policy(tail_item) {
            BufferInstruction::Retain => self.lower.buffer_tail_policy(tail_item),
            BufferInstruction::Pop => BufferInstruction::Pop,
        }
    }

    fn on_before_send(&mut self, new_item: &mut T) {
        self.upper.on_before_send(new_item);
        self.lower.on_before_send(new_item);
    }

    fn on_after_pop(&mut self, popped_item: &mut T) {
        self.upper.on_after_pop(popped_item);
        self.lower.on_after_pop(popped_item);
    }
}

/// Extension trait for building composite buffer policies.
pub trait BufferPolicyExtension<T, PLower> where PLower: BufferPolicy<T>, Self: Sized {
    /// Wrap this buffer policy above a lower-priority buffer policy.
    ///
    /// Composite policies only retain items that all policies agree to
    /// retain. If any policy says to pop, the item is popped.
    fn wrap(self, lower: PLower) -> (r: CompositeBufferPolicy<Self, PLower>)
        ensures
            r.upper == self,
            r.lower == lower,
    ;
}

impl<T, PUpper, PLower> BufferPolicyExtension<T, PLower> for PUpper where
    PUpper: BufferPolicy<T>,
    PLower: BufferPolicy<T>,
 {
    fn wrap(self, lower: PLower) -> (r: CompositeBufferPolicy<PUpper, PLower>) {
        CompositeBufferPolicy { upper: self, lower }
    }
}

} // verus!
