//! The multi-peek iterator: the queue of peeked elements, the cursor into it, and the
//! operations that fill, read, consume and truncate them.
//!
//! Each operation states what it does to the queue and the cursor whatever the source yields,
//! and, for a source that keeps to the iterator laws, which state of [`Lookahead`] it leads to
//! and which slot of it it returns.

use crate::lookahead::{
    advanced, borrowed, items_in, moved_back, moved_back_or_reset, Lookahead,
};
use crate::peekerror::PeekMoreError;
use vstd::prelude::*;
use vstd::std_specs::cmp::PartialEqSpec;
use vstd::std_specs::iter::IteratorSpec;

verus! {

/// The number of pulls above which the queue is filled in batches.
pub const FILL_BATCH_THRESHOLD: usize = 1000;

/// The number of pulls in one batch of a batched fill.
pub const FILL_BATCH_SIZE: usize = 500;

/// The length of a jump of the cursor above which the queue is prepared for the jump as a
/// whole.
pub const JUMP_BATCH_THRESHOLD: usize = 100;

/// The length of a peeked range above which the queue is filled in chunks.
pub const RANGE_BATCH_THRESHOLD: usize = 2000;

/// The number of slots that the queue holds at least once every position from the cursor at
/// `from` to the cursor at `to` has been peeked at, `usize::MAX` left out as a position that
/// no queue can hold.
pub open spec fn peeked_len(from: usize, to: usize) -> int {
    if to < usize::MAX {
        to + 1
    } else if from < usize::MAX {
        usize::MAX as int
    } else {
        0
    }
}

/// The number of slots that the queue holds at least after a peek at a range that ends at
/// `end`, where it held `buffered` before. A range that the queue holds already pulls nothing;
/// any other is filled up to and including offset `end`.
pub open spec fn range_fill(buffered: int, end: int) -> int {
    if end <= buffered {
        buffered
    } else {
        end + 1
    }
}

/// A peek at a range fills the queue as a peek at the offset of its end does where the range
/// ends beyond the queue, and not at all otherwise: neither the start of the range nor its
/// length plays a part.
pub proof fn range_fills_as_peek<T>(s: Lookahead<T>, end: int)
    ensures
        end > s.buffered.len() ==> s.grown(range_fill(s.buffered.len() as int, end)) == s.filled(
            end,
        ),
        end <= s.buffered.len() ==> s.grown(range_fill(s.buffered.len() as int, end)) == s,
{
}

/// An iterator adapter that can peek at any element which has not been consumed yet.
///
/// Elements that were peeked at are kept in `queue` until `next` consumes them; `cursor` is the
/// offset into that queue which `peek` reads.
#[derive(Clone, Debug)]
pub struct PeekMoreIterator<I: Iterator> {
    /// The underlying iterator. Consumption of this inner iterator does not represent
    /// consumption of the adapter.
    pub iterator: I,
    /// The elements pulled from the underlying iterator and not yet consumed, oldest first.
    /// A pull that found the iterator exhausted is recorded as `None`.
    pub queue: Vec<Option<I::Item>>,
    /// The offset into the queue of the element that `peek` returns. It may point beyond the
    /// end of the queue; the queue is then filled on the next peek.
    pub cursor: usize,
}

impl<I: Iterator> PeekMoreIterator<I> {
    /// The adapter as a mathematical value, given the items that its source will still yield.
    pub open spec fn state(&self, pending: Seq<I::Item>) -> Lookahead<I::Item> {
        Lookahead { buffered: self.queue@, pending, cursor: self.cursor }
    }

    /// Whether the source keeps to the iterator laws: it yields a fixed sequence of items and
    /// then reports its end on every further pull.
    pub open spec fn lawful(&self) -> bool {
        self.iterator.obeys_prophetic_iter_laws()
    }

    /// What holds of a queue that was grown from that of `before` to hold at least `len` slots,
    /// whatever the source yields: the queue has exactly the missing slots more, the slots it
    /// had are still in front, and where none was missing the source was not touched.
    pub open spec fn extends(&self, before: &Self, len: int) -> bool {
        &&& self.lawful() == before.lawful()
        &&& self.queue@.len() == if len <= before.queue@.len() {
            before.queue@.len()
        } else {
            len as nat
        }
        &&& self.queue@.take(before.queue@.len() as int) == before.queue@
        &&& len <= before.queue@.len() ==> self.queue@ == before.queue@ && self.iterator
            == before.iterator
    }

    /// Growing a queue in two steps is growing it once, to the greater length.
    proof fn extends_chain(&self, before: &Self, after: &Self, first: int, second: int)
        requires
            self.extends(before, first),
            after.extends(self, second),
            first <= second,
        ensures
            after.extends(before, second),
    {
        assert(after.queue@.take(before.queue@.len() as int) =~= self.queue@.take(
            before.queue@.len() as int,
        ));
    }

    /// Returns a reference to the element under the cursor, or `None` where the source ends
    /// before it. The queue is filled up to the cursor first; the cursor does not move, and
    /// no element is consumed.
    pub fn peek(&mut self) -> (peek: Option<&I::Item>)
        requires
            old(self).cursor < usize::MAX,
        ensures
            final(self).cursor == old(self).cursor,
            final(self).extends(old(self), old(self).cursor + 1),
            peek == borrowed(&final(self).queue@[old(self).cursor as int]),
            old(self).lawful() ==> {
                let before = old(self).state(old(self).iterator.remaining());
                &&& final(self).state(final(self).iterator.remaining()) == before.filled(
                    old(self).cursor as int,
                )
                &&& peek == borrowed(&before.peeked())
            },
    {
        self.fill_queue(self.cursor);
        self.queue[self.cursor].as_ref()
    }

    /// Returns a reference to the first unconsumed element, wherever the cursor is.
    pub fn peek_first(&mut self) -> (peek: Option<&I::Item>)
        ensures
            final(self).cursor == old(self).cursor,
            final(self).extends(old(self), 1),
            peek == borrowed(&final(self).queue@[0]),
            old(self).lawful() ==> {
                let before = old(self).state(old(self).iterator.remaining());
                &&& final(self).state(final(self).iterator.remaining()) == before.filled(0)
                &&& peek == borrowed(&before.slot(0))
            },
    {
        self.peek_nth(0)
    }

    /// Moves the cursor one element forward and returns a reference to the element it then
    /// points at, or `None` where the source ends before it.
    pub fn peek_next(&mut self) -> (peek: Option<&I::Item>)
        requires
            old(self).cursor < usize::MAX - 1,
        ensures
            final(self).cursor == old(self).cursor + 1,
            final(self).extends(old(self), old(self).cursor + 2),
            peek == borrowed(&final(self).queue@[old(self).cursor + 1]),
            old(self).lawful() ==> {
                let before = old(self).state(old(self).iterator.remaining());
                &&& final(self).state(final(self).iterator.remaining()) == before.at(
                    final(self).cursor,
                ).filled(old(self).cursor + 1)
                &&& peek == borrowed(&before.slot(old(self).cursor + 1))
            },
    {
        let this = self.advance_cursor();
        this.peek()
    }

    /// Moves the cursor one element back and returns a reference to the element it then points
    /// at. Where the cursor is at the consumption point already, nothing changes and the
    /// result is the error `ElementHasBeenConsumed`.
    pub fn peek_previous(&mut self) -> (result: Result<Option<&I::Item>, PeekMoreError>)
        ensures
            old(self).cursor >= 1 <==> result is Ok,
            result is Err ==> *final(self) == *old(self),
            result matches Ok(peek) ==> {
                &&& final(self).cursor == old(self).cursor - 1
                &&& final(self).extends(old(self), old(self).cursor as int)
                &&& peek == borrowed(&final(self).queue@[old(self).cursor - 1])
                &&& old(self).lawful() ==> {
                    let before = old(self).state(old(self).iterator.remaining());
                    &&& final(self).state(final(self).iterator.remaining()) == before.at(
                        final(self).cursor,
                    ).filled(old(self).cursor - 1)
                    &&& peek == borrowed(&before.slot(old(self).cursor - 1))
                }
            },
    {
        if self.cursor >= 1 {
            match self.move_cursor_back() {
                Ok(this) => Ok(this.peek()),
                Err(error) => Err(error),
            }
        } else {
            Err(PeekMoreError::ElementHasBeenConsumed)
        }
    }

    /// Moves the cursor `n` elements forward and returns a reference to the element it then
    /// points at, or `None` where the source ends before it.
    pub fn peek_forward(&mut self, n: usize) -> (peek: Option<&I::Item>)
        requires
            old(self).cursor + n < usize::MAX,
        ensures
            final(self).cursor == old(self).cursor + n,
            final(self).extends(old(self), old(self).cursor + n + 1),
            peek == borrowed(&final(self).queue@[old(self).cursor + n]),
            old(self).lawful() ==> {
                let before = old(self).state(old(self).iterator.remaining());
                &&& final(self).state(final(self).iterator.remaining()) == before.at(
                    final(self).cursor,
                ).filled(old(self).cursor + n)
                &&& peek == borrowed(&before.slot(old(self).cursor + n))
            },
    {
        let this = self.advance_cursor_by(n);
        this.peek()
    }

    /// Moves the cursor `n` elements back and returns a reference to the element it then
    /// points at. Where that would pass the consumption point, nothing changes and the result
    /// is the error `ElementHasBeenConsumed`.
    pub fn peek_backward(&mut self, n: usize) -> (result: Result<Option<&I::Item>, PeekMoreError>)
        requires
            old(self).cursor < usize::MAX || n > 0,
        ensures
            old(self).cursor >= n <==> result is Ok,
            result is Err ==> *final(self) == *old(self),
            result matches Ok(peek) ==> {
                &&& final(self).cursor == old(self).cursor - n
                &&& final(self).extends(old(self), old(self).cursor - n + 1)
                &&& peek == borrowed(&final(self).queue@[old(self).cursor - n])
                &&& old(self).lawful() ==> {
                    let before = old(self).state(old(self).iterator.remaining());
                    &&& final(self).state(final(self).iterator.remaining()) == before.at(
                        final(self).cursor,
                    ).filled(old(self).cursor - n)
                    &&& peek == borrowed(&before.slot(old(self).cursor - n))
                }
            },
    {
        match self.move_cursor_back_by(n) {
            Ok(this) => Ok(this.peek()),
            Err(error) => Err(error),
        }
    }

    /// Moves the cursor `n` elements back, or to the first unconsumed element where that would
    /// pass the consumption point, and returns a reference to the element it then points at.
    pub fn peek_backward_or_first(&mut self, n: usize) -> (peek: Option<&I::Item>)
        requires
            moved_back_or_reset(old(self).cursor, n) < usize::MAX,
        ensures
            final(self).cursor == moved_back_or_reset(old(self).cursor, n),
            final(self).extends(old(self), final(self).cursor + 1),
            peek == borrowed(&final(self).queue@[final(self).cursor as int]),
            old(self).lawful() ==> {
                let before = old(self).state(old(self).iterator.remaining());
                &&& final(self).state(final(self).iterator.remaining()) == before.at(
                    final(self).cursor,
                ).filled(final(self).cursor as int)
                &&& peek == borrowed(&before.slot(final(self).cursor as int))
            },
    {
        if self.move_cursor_back_by(n).is_err() {
            self.reset_cursor();
        }
        self.peek()
    }

    /// Returns a reference to the element at offset `n` from the consumption point, or `None`
    /// where the source ends before it. The queue is filled up to that offset first; the
    /// cursor plays no part and does not move.
    pub fn peek_nth(&mut self, n: usize) -> (peek: Option<&I::Item>)
        requires
            n < usize::MAX,
        ensures
            final(self).cursor == old(self).cursor,
            final(self).extends(old(self), n + 1),
            peek == borrowed(&final(self).queue@[n as int]),
            old(self).lawful() ==> {
                let before = old(self).state(old(self).iterator.remaining());
                &&& final(self).state(final(self).iterator.remaining()) == before.filled(n as int)
                &&& peek == borrowed(&before.slot(n as int))
            },
    {
        self.fill_queue(n);
        self.queue[n].as_ref()
    }

    /// Moves the cursor one element forward. A cursor at `usize::MAX` stays there.
    pub fn advance_cursor(&mut self) -> (this: &mut PeekMoreIterator<I>)
        ensures
            this.cursor == advanced(old(self).cursor, 1),
            this.queue == old(self).queue,
            this.iterator == old(self).iterator,
            *final(self) == *final(this),
    {
        self.increment_cursor();
        self
    }

    /// Moves the cursor `n` elements forward, no further than `usize::MAX`.
    pub fn advance_cursor_by(&mut self, n: usize) -> (this: &mut PeekMoreIterator<I>)
        ensures
            this.cursor == advanced(old(self).cursor, n),
            this.queue == old(self).queue,
            this.iterator == old(self).iterator,
            *final(self) == *final(this),
    {
        if n > 0 {
            self.cursor = self.cursor.saturating_add(n);
            self
        } else {
            self
        }
    }

    /// Moves the cursor `n` elements forward and fills the queue up to its new position, so
    /// that a peek there pulls nothing more. With `n` zero nothing changes.
    pub fn advance_cursor_by_optimized(&mut self, n: usize) -> (this: &mut PeekMoreIterator<I>)
        requires
            n == 0 || old(self).cursor + n < usize::MAX,
        ensures
            this.cursor == advanced(old(self).cursor, n),
            n == 0 ==> this.queue == old(self).queue && this.iterator == old(self).iterator,
            n > 0 ==> this.extends(old(self), old(self).cursor + n + 1),
            n > 0 && old(self).lawful() ==> this.state(this.iterator.remaining()) == old(
                self,
            ).state(old(self).iterator.remaining()).at(this.cursor).filled(old(self).cursor + n),
            *final(self) == *final(this),
    {
        if n == 0 {
            return self;
        }
        let new_cursor = self.cursor + n;

        if n > JUMP_BATCH_THRESHOLD {
            self.optimize_queue_for_cursor(new_cursor);
        } else {
            self.fill_queue(new_cursor);
        }

        self.cursor = new_cursor;
        proof {
            if old(self).lawful() {
                crate::lookahead::grown_at(
                    old(self).state(old(self).iterator.remaining()),
                    new_cursor + 1,
                    new_cursor,
                );
            }
        }
        self
    }

    /// Prepares the queue for a cursor at `target_cursor`: fills it up to and including that
    /// offset.
    fn optimize_queue_for_cursor(&mut self, target_cursor: usize)
        requires
            target_cursor < usize::MAX,
        ensures
            final(self).cursor == old(self).cursor,
            final(self).extends(old(self), target_cursor + 1),
            old(self).lawful() ==> final(self).state(final(self).iterator.remaining()) == old(
                self,
            ).state(old(self).iterator.remaining()).filled(target_cursor as int),
    {
        let current_len = self.queue.len();

        if current_len <= target_cursor {
            self.fill_queue(target_cursor);
        } else {
            proof {
                assert(self.queue@.take(self.queue@.len() as int) =~= self.queue@);
            }
        }
    }

    /// Moves the cursor forward for as long as `predicate` accepts what a peek at the cursor
    /// returns, and leaves it at the first position whose peek the predicate rejects. A peek
    /// beyond the end of the source hands the predicate `None`. A cursor that reaches
    /// `usize::MAX` stops there.
    pub fn advance_cursor_while<P: Fn(Option<&I::Item>) -> bool>(&mut self, predicate: P) -> (this:
        &mut PeekMoreIterator<I>)
        requires
            forall|peek: Option<&I::Item>| predicate.requires((peek,)),
        ensures
            old(self).cursor <= this.cursor,
            this.extends(old(self), peeked_len(old(self).cursor, this.cursor)),
            forall|k: int|
                old(self).cursor <= k < this.cursor ==> predicate.ensures(
                    (borrowed(&#[trigger] this.queue@[k]),),
                    true,
                ),
            this.cursor < usize::MAX ==> predicate.ensures(
                (borrowed(&this.queue@[this.cursor as int]),),
                false,
            ),
            old(self).lawful() ==> {
                let before = old(self).state(old(self).iterator.remaining());
                &&& this.state(this.iterator.remaining()) == before.at(this.cursor).grown(
                    peeked_len(old(self).cursor, this.cursor),
                )
                &&& forall|k: int|
                    old(self).cursor <= k < this.cursor ==> predicate.ensures(
                        (borrowed(&#[trigger] before.slot(k)),),
                        true,
                    )
                &&& this.cursor < usize::MAX ==> predicate.ensures(
                    (borrowed(&before.slot(this.cursor as int)),),
                    false,
                )
            },
            *final(self) == *final(this),
    {
        proof {
            assert(self.queue@.take(self.queue@.len() as int) =~= self.queue@);
        }
        while self.cursor < usize::MAX
            invariant_except_break
                self.extends(
                    old(self),
                    if self.cursor == old(self).cursor {
                        0
                    } else {
                        self.cursor as int
                    },
                ),
                old(self).lawful() ==> self.state(self.iterator.remaining()) == old(self).state(
                    old(self).iterator.remaining(),
                ).at(self.cursor).grown(
                    if self.cursor == old(self).cursor {
                        0
                    } else {
                        self.cursor as int
                    },
                ),
            invariant
                forall|peek: Option<&I::Item>| predicate.requires((peek,)),
                old(self).cursor <= self.cursor,
                forall|k: int|
                    old(self).cursor <= k < self.cursor ==> predicate.ensures(
                        (borrowed(&#[trigger] self.queue@[k]),),
                        true,
                    ),
            ensures
                self.extends(old(self), peeked_len(old(self).cursor, self.cursor)),
                self.cursor < usize::MAX ==> predicate.ensures(
                    (borrowed(&self.queue@[self.cursor as int]),),
                    false,
                ),
                old(self).lawful() ==> self.state(self.iterator.remaining()) == old(self).state(
                    old(self).iterator.remaining(),
                ).at(self.cursor).grown(peeked_len(old(self).cursor, self.cursor)),
            decreases usize::MAX - self.cursor,
        {
            let ghost before = *self;
            let view = self.peek();
            let accepted = predicate(view);
            proof {
                before.extends_chain(
                    old(self),
                    self,
                    if before.cursor == old(self).cursor {
                        0
                    } else {
                        before.cursor as int
                    },
                    before.cursor + 1,
                );
                assert forall|k: int| old(self).cursor <= k < self.cursor implies predicate.ensures(
                    (borrowed(&#[trigger] self.queue@[k]),),
                    true,
                ) by {
                    assert(self.queue@.take(before.queue@.len() as int)[k] == self.queue@[k]);
                    assert(self.queue@[k] == before.queue@[k]);
                    assert(predicate.ensures((borrowed(&before.queue@[k]),), true));
                }
                assert(predicate.ensures((borrowed(&self.queue@[self.cursor as int]),), accepted));
                if old(self).lawful() {
                    let start = old(self).state(old(self).iterator.remaining());
                    crate::lookahead::grown_twice(
                        start.at(before.cursor),
                        if before.cursor == old(self).cursor {
                            0
                        } else {
                            before.cursor as int
                        },
                        before.cursor + 1,
                    );
                    crate::lookahead::grown_at(
                        start.at(before.cursor),
                        before.cursor + 1,
                        (before.cursor + 1) as usize,
                    );
                }
            }
            if accepted {
                self.increment_cursor();
            } else {
                break ;
            }
        }
        proof {
            if old(self).lawful() {
                let before = old(self).state(old(self).iterator.remaining());
                let reached = peeked_len(old(self).cursor, self.cursor);
                assert forall|k: int| old(self).cursor <= k < reached implies self.queue@[k]
                    == #[trigger] before.slot(k) by {
                    crate::lookahead::grown_keeps_slots(before.at(self.cursor), reached, k);
                }
            }
        }
        self
    }

    /// Moves the cursor one element back. Where the cursor is at the consumption point
    /// already, nothing changes and the result is the error `ElementHasBeenConsumed`.
    pub fn move_cursor_back(&mut self) -> (result: Result<&mut PeekMoreIterator<I>, PeekMoreError>)
        ensures
            moved_back(old(self).cursor, 1) is Some <==> result is Ok,
            result is Err ==> *final(self) == *old(self),
            result matches Ok(this) ==> {
                &&& Some(this.cursor) == moved_back(old(self).cursor, 1)
                &&& this.queue == old(self).queue
                &&& this.iterator == old(self).iterator
                &&& *final(self) == *final(this)
            },
    {
        if self.cursor >= 1 {
            self.decrement_cursor();
            Ok(self)
        } else {
            Err(PeekMoreError::ElementHasBeenConsumed)
        }
    }

    /// Moves the cursor `n` elements back. Where that would pass the consumption point,
    /// nothing changes and the result is the error `ElementHasBeenConsumed`.
    pub fn move_cursor_back_by(&mut self, n: usize) -> (result: Result<
        &mut PeekMoreIterator<I>,
        PeekMoreError,
    >)
        ensures
            moved_back(old(self).cursor, n) is Some <==> result is Ok,
            result is Err ==> *final(self) == *old(self),
            result matches Ok(this) ==> {
                &&& Some(this.cursor) == moved_back(old(self).cursor, n)
                &&& this.queue == old(self).queue
                &&& this.iterator == old(self).iterator
                &&& *final(self) == *final(this)
            },
    {
        if self.cursor < n {
            Err(PeekMoreError::ElementHasBeenConsumed)
        } else {
            self.cursor -= n;
            Ok(self)
        }
    }

    /// Moves the cursor `n` elements back, or to the first unconsumed element where that would
    /// pass the consumption point.
    pub fn move_cursor_back_or_reset(&mut self, n: usize) -> (this: &mut PeekMoreIterator<I>)
        ensures
            this.cursor == moved_back_or_reset(old(self).cursor, n),
            this.queue == old(self).queue,
            this.iterator == old(self).iterator,
            *final(self) == *final(this),
    {
        if self.cursor < n {
            self.reset_cursor();
        } else {
            self.cursor -= n;
        }

        self
    }

    /// Places the cursor at offset `n` from the consumption point, wherever it was.
    pub fn move_nth(&mut self, n: usize) -> (this: &mut PeekMoreIterator<I>)
        ensures
            this.cursor == n,
            this.queue == old(self).queue,
            this.iterator == old(self).iterator,
            *final(self) == *final(this),
    {
        self.cursor = n;
        self
    }

    /// Places the cursor at the first unconsumed element. An older name of `reset_cursor`.
    pub fn reset_view(&mut self)
        ensures
            final(self).cursor == 0,
            final(self).queue == old(self).queue,
            final(self).iterator == old(self).iterator,
    {
        self.reset_cursor()
    }

    /// Places the cursor at the first unconsumed element.
    pub fn reset_cursor(&mut self)
        ensures
            final(self).cursor == 0,
            final(self).queue == old(self).queue,
            final(self).iterator == old(self).iterator,
    {
        self.cursor = 0;
    }

    /// Returns the offset of the cursor from the consumption point.
    pub fn cursor(&self) -> (cursor: usize)
        ensures
            cursor == self.cursor,
    {
        self.cursor
    }

    /// Fills the queue up to and including offset `required_elements`: each missing slot is
    /// pulled from the source, a pull that finds it exhausted included. A queue that holds the
    /// offset already is left as it is.
    fn fill_queue(&mut self, required_elements: usize)
        requires
            required_elements < usize::MAX,
        ensures
            final(self).cursor == old(self).cursor,
            final(self).extends(old(self), required_elements + 1),
            old(self).lawful() ==> final(self).state(final(self).iterator.remaining()) == old(
                self,
            ).state(old(self).iterator.remaining()).filled(required_elements as int),
    {
        let stored_elements = self.queue.len();

        if stored_elements <= required_elements {
            let elements_needed = required_elements - stored_elements + 1;

            if elements_needed > FILL_BATCH_THRESHOLD {
                self.fill_queue_divide_conquer(required_elements);
            } else {
                self.push_run(elements_needed);
            }
        } else {
            proof {
                assert(self.queue@.take(self.queue@.len() as int) =~= self.queue@);
            }
        }
    }

    /// Fills the queue up to and including offset `required_elements`, in batches of
    /// `FILL_BATCH_SIZE` pulls followed by the pulls that are left over.
    fn fill_queue_divide_conquer(&mut self, required_elements: usize)
        requires
            old(self).queue@.len() <= required_elements < usize::MAX,
        ensures
            final(self).cursor == old(self).cursor,
            final(self).extends(old(self), required_elements + 1),
            old(self).lawful() ==> final(self).state(final(self).iterator.remaining()) == old(
                self,
            ).state(old(self).iterator.remaining()).filled(required_elements as int),
    {
        let current_len = self.queue.len();
        let remaining = required_elements - current_len + 1;

        if remaining > FILL_BATCH_SIZE {
            let chunks = remaining / FILL_BATCH_SIZE;
            let remainder = remaining % FILL_BATCH_SIZE;

            let mut done: usize = 0;
            proof {
                assert(self.queue@.take(self.queue@.len() as int) =~= self.queue@);
            }
            while done < chunks
                invariant
                    done <= chunks,
                    chunks * FILL_BATCH_SIZE + remainder == remaining,
                    current_len == old(self).queue@.len(),
                    current_len + remaining == required_elements + 1,
                    required_elements < usize::MAX,
                    self.queue@.len() == current_len + done * FILL_BATCH_SIZE,
                    self.cursor == old(self).cursor,
                    self.extends(old(self), current_len + done * FILL_BATCH_SIZE),
                    old(self).lawful() ==> self.state(self.iterator.remaining()) == old(
                        self,
                    ).state(old(self).iterator.remaining()).grown(
                        current_len + done * FILL_BATCH_SIZE,
                    ),
                decreases chunks - done,
            {
                let ghost before = *self;
                self.push_run(FILL_BATCH_SIZE);
                done += 1;
                proof {
                    before.extends_chain(
                        old(self),
                        self,
                        current_len + (done - 1) * FILL_BATCH_SIZE,
                        current_len + done * FILL_BATCH_SIZE,
                    );
                    if old(self).lawful() {
                        crate::lookahead::grown_twice(
                            old(self).state(old(self).iterator.remaining()),
                            current_len + (done - 1) * FILL_BATCH_SIZE,
                            current_len + done * FILL_BATCH_SIZE,
                        );
                    }
                }
            }

            let ghost before = *self;
            self.push_run(remainder);
            proof {
                before.extends_chain(
                    old(self),
                    self,
                    current_len + chunks * FILL_BATCH_SIZE,
                    required_elements + 1,
                );
                if old(self).lawful() {
                    crate::lookahead::grown_twice(
                        old(self).state(old(self).iterator.remaining()),
                        current_len + chunks * FILL_BATCH_SIZE,
                        required_elements + 1,
                    );
                }
            }
        } else {
            self.push_run(remaining);
        }
    }

    /// Pulls `count` slots from the source to the back of the queue.
    fn push_run(&mut self, count: usize)
        requires
            old(self).queue@.len() + count <= usize::MAX,
        ensures
            final(self).cursor == old(self).cursor,
            final(self).extends(old(self), old(self).queue@.len() + count),
            old(self).lawful() ==> final(self).state(final(self).iterator.remaining()) == old(
                self,
            ).state(old(self).iterator.remaining()).grown(old(self).queue@.len() + count),
    {
        let mut pushed: usize = 0;
        proof {
            assert(self.queue@.take(self.queue@.len() as int) =~= self.queue@);
        }
        while pushed < count
            invariant
                pushed <= count,
                old(self).queue@.len() + count <= usize::MAX,
                self.cursor == old(self).cursor,
                self.extends(old(self), old(self).queue@.len() + pushed),
                self.queue@.len() == old(self).queue@.len() + pushed,
                old(self).lawful() ==> self.state(self.iterator.remaining()) == old(self).state(
                    old(self).iterator.remaining(),
                ).grown(old(self).queue@.len() + pushed),
            decreases count - pushed,
        {
            let ghost before = *self;
            self.push_next_to_queue();
            pushed += 1;
            proof {
                before.extends_chain(
                    old(self),
                    self,
                    old(self).queue@.len() + pushed - 1,
                    old(self).queue@.len() + pushed,
                );
                if old(self).lawful() {
                    crate::lookahead::grown_twice(
                        old(self).state(old(self).iterator.remaining()),
                        old(self).queue@.len() + pushed - 1,
                        old(self).queue@.len() + pushed,
                    );
                }
            }
        }
    }

    /// Pulls one slot from the source to the back of the queue.
    fn push_next_to_queue(&mut self)
        requires
            old(self).queue@.len() < usize::MAX,
        ensures
            final(self).cursor == old(self).cursor,
            final(self).extends(old(self), old(self).queue.len() + 1),
            old(self).lawful() ==> final(self).state(final(self).iterator.remaining()) == old(
                self,
            ).state(old(self).iterator.remaining()).grown(old(self).queue.len() + 1),
    {
        let item = self.iterator.next();
        self.queue.push(item);
        proof {
            assert(self.queue@.take(old(self).queue@.len() as int) =~= old(self).queue@);
            if old(self).lawful() {
                let before = old(self).state(old(self).iterator.remaining());
                let target = before.grown(old(self).queue.len() + 1);
                let after = self.state(self.iterator.remaining());
                assert(after.buffered =~= target.buffered);
                assert(after.pending =~= target.pending);
            }
        }
    }

    /// Moves the cursor one element forward, no further than `usize::MAX`.
    fn increment_cursor(&mut self)
        ensures
            final(self).cursor == advanced(old(self).cursor, 1),
            final(self).queue == old(self).queue,
            final(self).iterator == old(self).iterator,
    {
        self.cursor = self.cursor.saturating_add(1);
    }

    /// Moves the cursor one element back, no further than the consumption point.
    fn decrement_cursor(&mut self)
        ensures
            final(self).cursor == moved_back_or_reset(old(self).cursor, 1),
            final(self).queue == old(self).queue,
            final(self).iterator == old(self).iterator,
    {
        if self.cursor > usize::MIN {
            self.cursor -= 1;
        }
    }

    /// Discards every element in front of the cursor, as if each had been consumed, and places
    /// the cursor at the first element that is left. Buffered elements are dropped from the
    /// queue; elements that the cursor had passed without their being buffered are pulled from
    /// the source and dropped. A peek returns afterwards what it returned before.
    pub fn truncate_iterator_to_cursor(&mut self)
        ensures
            final(self).cursor == 0,
            final(self).lawful() == old(self).lawful(),
            final(self).queue@ == if old(self).cursor < old(self).queue@.len() {
                old(self).queue@.skip(old(self).cursor as int)
            } else {
                Seq::empty()
            },
            old(self).cursor <= old(self).queue@.len() ==> final(self).iterator == old(
                self,
            ).iterator,
            old(self).lawful() ==> {
                let before = old(self).state(old(self).iterator.remaining());
                let after = final(self).state(final(self).iterator.remaining());
                &&& after == before.truncated()
                &&& after.peeked() == before.peeked()
                &&& forall|k: int| 0 <= k ==> after.slot(k) == before.slot(old(self).cursor + k)
            },
    {
        if self.cursor < self.queue.len() {
            let kept = self.queue.split_off(self.cursor);
            self.queue = kept;
        } else {
            let unbuffered = self.cursor - self.queue.len();
            let mut dropped: usize = 0;
            while dropped < unbuffered
                invariant
                    dropped <= unbuffered,
                    self.cursor == old(self).cursor,
                    self.queue == old(self).queue,
                    self.lawful() == old(self).lawful(),
                    dropped == 0 ==> self.iterator == old(self).iterator,
                    old(self).lawful() ==> self.iterator.remaining() == if dropped <= old(
                        self,
                    ).iterator.remaining().len() {
                        old(self).iterator.remaining().skip(dropped as int)
                    } else {
                        Seq::empty()
                    },
                decreases unbuffered - dropped,
            {
                let _ = self.iterator.next();
                dropped += 1;
                proof {
                    if old(self).lawful() {
                        let rest = old(self).iterator.remaining();
                        assert(dropped <= rest.len() ==> rest.skip(dropped - 1).drop_first()
                            =~= rest.skip(dropped as int));
                        assert(rest.skip(rest.len() as int) =~= Seq::empty());
                    }
                }
            }
            self.queue.clear();
        }

        self.cursor = 0;
        proof {
            if old(self).lawful() {
                crate::lookahead::truncated_shifts_slots(
                    old(self).state(old(self).iterator.remaining()),
                );
                assert(self.state(self.iterator.remaining()).buffered =~= old(self).state(
                    old(self).iterator.remaining(),
                ).truncated().buffered);
            }
        }
    }

    /// Returns a view of the slots from offset `start` up to, not including, offset `end`,
    /// both counted from the consumption point; the cursor plays no part. The view always has
    /// `end - start` slots: one that lies beyond the end of the source is `None`. Where the
    /// range ends beyond the queue, the queue is first filled up to and including offset `end`,
    /// however long the range is; otherwise nothing is pulled.
    pub fn peek_range(&mut self, start: usize, end: usize) -> (view: &[Option<I::Item>])
        requires
            start <= end,
            end > old(self).queue@.len() ==> end < usize::MAX,
        ensures
            final(self).cursor == old(self).cursor,
            final(self).extends(
                old(self),
                range_fill(old(self).queue@.len() as int, end as int),
            ),
            view@.len() == end - start,
            view@ == final(self).queue@.subrange(start as int, end as int),
            old(self).lawful() ==> {
                let before = old(self).state(old(self).iterator.remaining());
                &&& final(self).state(final(self).iterator.remaining()) == before.grown(
                    range_fill(old(self).queue@.len() as int, end as int),
                )
                &&& forall|k: int| 0 <= k < end - start ==> view@[k] == before.slot(start + k)
            },
    {
        let range_size = end - start;
        if range_size > RANGE_BATCH_THRESHOLD {
            self.peek_range_optimized(start, end)
        } else {
            if end > self.queue.len() {
                self.fill_queue(end);
            } else {
                proof {
                    assert(self.queue@.take(self.queue@.len() as int) =~= self.queue@);
                }
            }
            proof {
                if old(self).lawful() {
                    let before = old(self).state(old(self).iterator.remaining());
                    assert forall|k: int| 0 <= k < end - start implies self.queue@.subrange(
                        start as int,
                        end as int,
                    )[k] == before.slot(start + k) by {
                        crate::lookahead::grown_keeps_slots(
                            before,
                            range_fill(old(self).queue@.len() as int, end as int),
                            start + k,
                        );
                    }
                }
            }
            &self.queue.as_slice()[start..end]
        }
    }

    /// Returns a view of the slots from offset `start` up to offset `end`, after filling the
    /// queue up to and including offset `end` in chunks whose size goes by the number of slots
    /// that are missing.
    fn peek_range_optimized(&mut self, start: usize, end: usize) -> (view: &[Option<I::Item>])
        requires
            start <= end,
            end > old(self).queue@.len() ==> end < usize::MAX,
        ensures
            final(self).cursor == old(self).cursor,
            final(self).extends(
                old(self),
                range_fill(old(self).queue@.len() as int, end as int),
            ),
            view@ == final(self).queue@.subrange(start as int, end as int),
            old(self).lawful() ==> {
                let before = old(self).state(old(self).iterator.remaining());
                &&& final(self).state(final(self).iterator.remaining()) == before.grown(
                    range_fill(old(self).queue@.len() as int, end as int),
                )
                &&& forall|k: int| 0 <= k < end - start ==> view@[k] == before.slot(start + k)
            },
    {
        let current_len = self.queue.len();

        if end > current_len {
            let range_size = end - current_len;
            let chunk_size: usize = if range_size > 10000 {
                2000
            } else if range_size > 5000 {
                1000
            } else {
                500
            };

            self.fill_queue_in_chunks(current_len, end + 1, chunk_size);
        } else {
            proof {
                assert(self.queue@.take(self.queue@.len() as int) =~= self.queue@);
            }
        }
        proof {
            if old(self).lawful() {
                let before = old(self).state(old(self).iterator.remaining());
                assert forall|k: int| 0 <= k < end - start implies self.queue@.subrange(
                    start as int,
                    end as int,
                )[k] == before.slot(start + k) by {
                    crate::lookahead::grown_keeps_slots(
                        before,
                        range_fill(old(self).queue@.len() as int, end as int),
                        start + k,
                    );
                }
            }
        }

        &self.queue.as_slice()[start..end]
    }

    /// Fills the queue from its end at `current_end` up to `target_end` slots, `chunk_size`
    /// pulls at a time.
    fn fill_queue_in_chunks(&mut self, current_end: usize, target_end: usize, chunk_size: usize)
        requires
            current_end == old(self).queue@.len(),
            chunk_size > 0,
        ensures
            final(self).cursor == old(self).cursor,
            final(self).extends(old(self), target_end as int),
            old(self).lawful() ==> final(self).state(final(self).iterator.remaining()) == old(
                self,
            ).state(old(self).iterator.remaining()).grown(target_end as int),
    {
        let mut current_pos = current_end;
        proof {
            assert(self.queue@.take(self.queue@.len() as int) =~= self.queue@);
        }

        while current_pos < target_end
            invariant
                chunk_size > 0,
                current_end <= current_pos,
                current_pos <= target_end || current_pos == current_end,
                current_end == old(self).queue@.len(),
                self.queue@.len() == current_pos,
                self.cursor == old(self).cursor,
                self.extends(old(self), current_pos as int),
                old(self).lawful() ==> self.state(self.iterator.remaining()) == old(self).state(
                    old(self).iterator.remaining(),
                ).grown(current_pos as int),
            decreases target_end - current_pos,
        {
            let next_end = if target_end - current_pos > chunk_size {
                current_pos + chunk_size
            } else {
                target_end
            };

            let ghost before = *self;
            self.push_run(next_end - current_pos);
            proof {
                before.extends_chain(old(self), self, current_pos as int, next_end as int);
                if old(self).lawful() {
                    crate::lookahead::grown_twice(
                        old(self).state(old(self).iterator.remaining()),
                        current_pos as int,
                        next_end as int,
                    );
                }
            }

            current_pos = next_end;
        }
    }

    /// Returns a view of the first `n` slots, counted from the consumption point. The view
    /// always has `n` slots: one that lies beyond the end of the source is `None`.
    pub fn peek_amount(&mut self, n: usize) -> (view: &[Option<I::Item>])
        requires
            n > old(self).queue@.len() ==> n < usize::MAX,
        ensures
            final(self).cursor == old(self).cursor,
            final(self).extends(old(self), range_fill(old(self).queue@.len() as int, n as int)),
            view@.len() == n,
            view@ == final(self).queue@.subrange(0, n as int),
            old(self).lawful() ==> {
                let before = old(self).state(old(self).iterator.remaining());
                &&& final(self).state(final(self).iterator.remaining()) == before.grown(
                    range_fill(old(self).queue@.len() as int, n as int),
                )
                &&& forall|k: int| 0 <= k < n ==> view@[k] == before.slot(k)
            },
    {
        self.peek_range(0, n)
    }

    /// Consumes the first unconsumed element and returns it, or returns `None` where the
    /// source has ended. The element comes from the front of the queue if the queue holds any
    /// slot, and from the source otherwise. The cursor moves one element back, no further than
    /// the consumption point, so that it still points at the element it pointed at.
    pub fn next(&mut self) -> (item: Option<I::Item>)
        ensures
            final(self).cursor == moved_back_or_reset(old(self).cursor, 1),
            final(self).lawful() == old(self).lawful(),
            old(self).queue@.len() > 0 ==> {
                &&& item == old(self).queue@[0]
                &&& final(self).queue@ == old(self).queue@.drop_first()
                &&& final(self).iterator == old(self).iterator
            },
            old(self).queue@.len() == 0 ==> final(self).queue@ == old(self).queue@,
            old(self).lawful() ==> {
                let before = old(self).state(old(self).iterator.remaining());
                &&& final(self).state(final(self).iterator.remaining()) == before.consumed()
                &&& item == before.slot(0)
            },
    {
        let res = if self.queue.is_empty() {
            self.iterator.next()
        } else {
            self.queue.remove(0)
        };

        self.decrement_cursor();
        proof {
            if old(self).queue@.len() > 0 {
                assert(self.queue@ =~= old(self).queue@.drop_first());
            }
        }

        res
    }

    /// Consumes the first unconsumed element and returns it if `func` accepts it. Where the
    /// source has ended, or `func` rejects the element, nothing is consumed and the result is
    /// `None`; the element is then buffered, and the cursor stays where it is. The position of
    /// the cursor plays no part in which element is tested.
    pub fn next_if(&mut self, func: impl FnOnce(&I::Item) -> bool) -> (item: Option<I::Item>)
        requires
            forall|first: &I::Item| func.requires((first,)),
        ensures
            final(self).lawful() == old(self).lawful(),
            item matches Some(first) ==> {
                &&& func.ensures((&first,), true)
                &&& final(self).cursor == moved_back_or_reset(old(self).cursor, 1)
                &&& final(self).queue@ == if old(self).queue@.len() > 0 {
                    old(self).queue@.drop_first()
                } else {
                    old(self).queue@
                }
                &&& old(self).queue@.len() > 0 ==> old(self).queue@[0] == Some(first)
                    && final(self).iterator == old(self).iterator
            },
            item is None ==> {
                &&& final(self).cursor == old(self).cursor
                &&& final(self).extends(old(self), 1)
                &&& final(self).queue@[0] matches Some(first) ==> func.ensures((&first,), false)
            },
            old(self).lawful() ==> {
                let before = old(self).state(old(self).iterator.remaining());
                &&& item is Some ==> item == before.slot(0) && final(self).state(
                    final(self).iterator.remaining(),
                ) == before.consumed()
                &&& item is None ==> final(self).state(final(self).iterator.remaining())
                    == before.filled(0)
                &&& item is None ==> (before.slot(0) matches Some(first) ==> func.ensures(
                    (&first,),
                    false,
                ))
            },
    {
        let accepted = match self.peek_first() {
            Some(matched) => func(matched),
            None => false,
        };
        if accepted {
            proof {
                if old(self).lawful() {
                    crate::lookahead::filled_then_consumed(
                        old(self).state(old(self).iterator.remaining()),
                    );
                }
            }
            let item = self.next();
            proof {
                if old(self).queue@.len() == 0 {
                    assert(self.queue@ =~= old(self).queue@);
                }
            }
            item
        } else {
            None
        }
    }

    /// Consumes the first unconsumed element and returns it if it is equal to `expected`.
    /// Where the source has ended, or the element is not equal to it, nothing is consumed and
    /// the result is `None`.
    pub fn next_if_eq<T>(&mut self, expected: &T) -> (item: Option<I::Item>) where
        T: ?Sized,
        I::Item: PartialEq<T>,

        ensures
            final(self).lawful() == old(self).lawful(),
            item matches Some(first) ==> {
                &&& call_ensures(<I::Item as PartialEq<T>>::eq, (&first, expected), true)
                &&& <I::Item as PartialEqSpec<T>>::obeys_eq_spec() ==> first.eq_spec(expected)
                &&& final(self).cursor == moved_back_or_reset(old(self).cursor, 1)
                &&& final(self).queue@ == if old(self).queue@.len() > 0 {
                    old(self).queue@.drop_first()
                } else {
                    old(self).queue@
                }
                &&& old(self).queue@.len() > 0 ==> old(self).queue@[0] == Some(first)
                    && final(self).iterator == old(self).iterator
            },
            item is None ==> {
                &&& final(self).cursor == old(self).cursor
                &&& final(self).extends(old(self), 1)
                &&& final(self).queue@[0] matches Some(first) ==> {
                    &&& call_ensures(<I::Item as PartialEq<T>>::eq, (&first, expected), false)
                    &&& <I::Item as PartialEqSpec<T>>::obeys_eq_spec() ==> !first.eq_spec(
                        expected,
                    )
                }
            },
            old(self).lawful() ==> {
                let before = old(self).state(old(self).iterator.remaining());
                &&& item is Some ==> item == before.slot(0) && final(self).state(
                    final(self).iterator.remaining(),
                ) == before.consumed()
                &&& item is None ==> final(self).state(final(self).iterator.remaining())
                    == before.filled(0)
                &&& item is None ==> (before.slot(0) matches Some(first) ==> {
                    &&& call_ensures(<I::Item as PartialEq<T>>::eq, (&first, expected), false)
                    &&& <I::Item as PartialEqSpec<T>>::obeys_eq_spec() ==> !first.eq_spec(
                        expected,
                    )
                })
            },
    {
        let equals_expected = |next: &I::Item| -> (equal: bool)
            ensures
                <I::Item as PartialEqSpec<T>>::obeys_eq_spec() ==> equal == next.eq_spec(expected),
                call_ensures(<I::Item as PartialEq<T>>::eq, (next, expected), equal),
            {
                next.eq(expected)
            };
        self.next_if(equals_expected)
    }

    /// Returns the number of elements that are left to consume, for a source that holds
    /// exactly `source_len` more: the buffered elements count until they are consumed, the
    /// recorded ends of the source do not. The result is `None` where the number does not fit
    /// a `usize`.
    pub fn remaining_len(&self, source_len: usize) -> (len: Option<usize>)
        ensures
            items_in(self.queue@) + source_len <= usize::MAX ==> len == Some(
                (items_in(self.queue@) + source_len) as usize,
            ),
            items_in(self.queue@) + source_len > usize::MAX ==> len == None::<usize>,
            forall|pending: Seq<I::Item>|
                pending.len() == source_len ==> #[trigger] self.state(pending).live() == items_in(
                    self.queue@,
                ) + source_len,
    {
        let mut buffered: usize = 0;
        let mut k: usize = 0;
        while k < self.queue.len()
            invariant
                k <= self.queue@.len(),
                buffered <= k,
                buffered == items_in(self.queue@.take(k as int)),
            decreases self.queue@.len() - k,
        {
            if self.queue[k].is_some() {
                buffered += 1;
            }
            k += 1;
            proof {
                assert(self.queue@.take(k as int).drop_last() =~= self.queue@.take(k - 1));
            }
        }
        proof {
            assert(self.queue@.take(k as int) =~= self.queue@);
        }
        if source_len <= usize::MAX - buffered {
            Some(buffered + source_len)
        } else {
            None
        }
    }
}

} // verus!
