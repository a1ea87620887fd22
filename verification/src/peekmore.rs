//! The extension trait that wraps an iterator in a multi-peek iterator.

use crate::lookahead::Lookahead;
use crate::peek_iterator::PeekMoreIterator;
use vstd::prelude::*;

verus! {

/// Creates a multi-peek iterator from any iterator.
pub trait PeekMore: Iterator + Sized {
    /// Wraps the iterator in an adapter that can peek at any unconsumed element. Nothing is
    /// pulled yet: the queue is empty and the cursor is at the consumption point.
    fn peekmore(self) -> (adapter: PeekMoreIterator<Self>)
        ensures
            adapter.iterator == self,
            adapter.queue@ == Seq::<Option<Self::Item>>::empty(),
            adapter.cursor == 0,
            forall|pending: Seq<Self::Item>| #[trigger]
                adapter.state(pending) == Lookahead::fresh(pending),
    ;
}

impl<I: Iterator> PeekMore for I {
    fn peekmore(self) -> (adapter: PeekMoreIterator<I>) {
        PeekMoreIterator { iterator: self, queue: Vec::new(), cursor: 0usize }
    }
}

} // verus!
