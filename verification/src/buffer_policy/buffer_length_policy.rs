use vstd::prelude::*;

use super::{BufferInstruction, BufferPolicy};

verus! {

/// A buffer policy that limits the buffer to a certain length.
#[derive(Debug, Clone, Copy)]
pub struct BufferLengthPolicy {
    pub limit: usize,
    pub count: usize,
}

impl BufferLengthPolicy {
    /// Create a new buffer length policy.
    pub fn new(limit: usize) -> (r: Self)
        ensures
            r.limit == limit,
            r.count == 0,
    {
        Self { limit, count: 0 }
    }
}

impl<T> BufferPolicy<T> for BufferLengthPolicy {
    open spec fn wf(&self) -> bool {
        true
    }

    open spec fn decision_ok(&self, tail_item: T, r: BufferInstruction) -> bool {
        r == (if self.limit <= self.count {
            BufferInstruction::Pop
        } else {
            BufferInstruction::Retain
        })
    }

    open spec fn admit_ok(&self, new_item: T, post: Self, admitted: T) -> bool {
        &&& admitted == new_item
        &&& post.limit == self.limit
        &&& post.count == self.count.saturating_add(1)
    }

    open spec fn evict_ok(&self, popped_item: T, post: Self) -> bool {
        &&& post.limit == self.limit
        &&& post.count == self.count.saturating_sub(1)
    }

    fn buffer_tail_policy(&mut self, _tail_item: &T) -> (r: BufferInstruction) {
        if self.limit <= self.count {
            BufferInstruction::Pop
        } else {
            BufferInstruction::Retain
        }
    }

    fn on_before_send(&mut self, _new_item: &mut T) {
        self.count = self.count.saturating_add(1);
    }

    fn on_after_pop(&mut self, _popped_item: &mut T) {
        self.count = self.count.saturating_sub(1);
    }
}

} // verus!
