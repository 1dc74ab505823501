//! A broadcast fan-out channel for streams: one upstream sequence of
//! cloneable items is splayed out to many independent downstream readers.
//!
//! Three parties cooperate around a [`shared::Shared`] rendezvous value:
//! the [`engine::Engine`] drains the upstream and publishes immutable
//! buffer snapshots, each [`receiver::Receiver`] reads the snapshot at its
//! own pace, and wake registrations flow back from readers to the engine
//! through a lock-free queue. Here the coordination logic is written as an
//! explicitly-stepped state machine: every poll is an ordinary function
//! from the current state to the next, so the whole protocol is stated in
//! contracts and machine-checked. An asynchronous embedding only has to
//! own the `Shared` value, call these step functions, and deliver the wake
//! tokens they hand back.

use vstd::prelude::*;

pub mod buffer_policy;
pub mod engine;
pub mod receiver;
pub mod sender;
pub mod shared;

verus! {

/// What a downstream reader observes on a successful poll: either the next
/// item of the stream, or a notice that `count` messages were skipped
/// because the reader fell off the retained buffer.
#[derive(Debug, Clone, PartialEq)]
pub enum Message<T> {
    /// The item is cloned from the upstream stream.
    Entry { item: T },
    /// How many messages this reader missed. Consume faster, publish
    /// slower, or buffer more to reduce these.
    Lagged { count: usize },
}

/// One buffered element: a monotonically increasing 64-bit message id
/// paired with the item payload. Ids start at 1 and increase by exactly
/// one per admitted upstream item; they are never reused within a channel.
#[derive(Debug, Clone)]
pub struct SplaycastEntry<T> {
    pub id: u64,
    pub item: T,
}

impl<T> SplaycastEntry<T> {
    pub fn id(&self) -> (r: u64)
        ensures
            r == self.id,
    {
        self.id
    }
}

/// The id sequence of a buffer.
pub open spec fn entry_ids<T>(s: Seq<SplaycastEntry<T>>) -> Seq<u64> {
    s.map_values(|e: SplaycastEntry<T>| e.id)
}

/// The buffer-snapshot invariant: ids are contiguous, each position offset
/// from the front id by its index.
pub open spec fn ids_contiguous<T>(s: Seq<SplaycastEntry<T>>) -> bool {
    forall|i: int| 0 <= i < s.len() ==> #[trigger] s[i].id == s[0].id + i
}

/// Contiguity, stated pairwise: for any two positions `i < j` of one
/// snapshot, `s[j].id == s[i].id + (j - i)`.
pub proof fn lemma_snapshot_contiguous<T>(s: Seq<SplaycastEntry<T>>, i: int, j: int)
    requires
        ids_contiguous(s),
        0 <= i < j < s.len(),
    ensures
        s[j].id == s[i].id + (j - i),
{
}

} // verus!
