//! The adapter as a mathematical value, and the laws that its transitions obey.

use vstd::prelude::*;

verus! {

/// What a multi-peek iterator stands for: the slots it has buffered, the items its source has
/// yet to yield, and the offset of its cursor from the front of the buffer.
///
/// Offset `0` is the consumption point: the slot that the next consumption returns.
pub struct Lookahead<T> {
    /// The slots pulled from the source and not yet consumed, oldest first. `None` records a
    /// pull that found the source exhausted.
    pub buffered: Seq<Option<T>>,
    /// The items that the source will still yield, in order.
    pub pending: Seq<T>,
    /// The offset of the peek position from the consumption point.
    pub cursor: usize,
}

/// The cursor after moving `n` positions forward: the sum, held at `usize::MAX`.
pub open spec fn advanced(cursor: usize, n: usize) -> usize {
    if cursor + n <= usize::MAX {
        (cursor + n) as usize
    } else {
        usize::MAX
    }
}

/// The cursor after moving `n` positions back, where that does not pass the consumption point.
pub open spec fn moved_back(cursor: usize, n: usize) -> Option<usize> {
    if cursor < n {
        None
    } else {
        Some((cursor - n) as usize)
    }
}

/// The cursor after moving `n` positions back, or at the consumption point where that would
/// pass it.
pub open spec fn moved_back_or_reset(cursor: usize, n: usize) -> usize {
    if cursor < n {
        0
    } else {
        (cursor - n) as usize
    }
}

/// A slot as a peek hands it out: a reference to its item, if it holds one.
pub open spec fn borrowed<T>(slot: &Option<T>) -> Option<&T> {
    match slot {
        Some(item) => Some(item),
        None => None,
    }
}

impl<T> Lookahead<T> {
    /// A source that yields `items`, wrapped and not yet touched.
    pub open spec fn fresh(items: Seq<T>) -> Self {
        Lookahead { buffered: Seq::empty(), pending: items, cursor: 0 }
    }

    /// The slot at offset `k` from the consumption point: the buffered slot if there is one,
    /// else the item that the source yields at that position, else nothing.
    pub open spec fn slot(self, k: int) -> Option<T> {
        if 0 <= k < self.buffered.len() {
            self.buffered[k]
        } else if self.buffered.len() <= k < self.buffered.len() + self.pending.len() {
            Some(self.pending[k - self.buffered.len()])
        } else {
            None
        }
    }

    /// The same state with the cursor at `cursor`.
    pub open spec fn at(self, cursor: usize) -> Self {
        Lookahead { buffered: self.buffered, pending: self.pending, cursor }
    }

    /// The slot under the cursor.
    pub open spec fn peeked(self) -> Option<T> {
        self.slot(self.cursor as int)
    }

    /// The number of pulls that growing the buffer to `len` slots takes from the source's items.
    pub open spec fn pulled(self, len: int) -> nat {
        if len <= self.buffered.len() {
            0
        } else if len - self.buffered.len() <= self.pending.len() {
            (len - self.buffered.len()) as nat
        } else {
            self.pending.len()
        }
    }

    /// The state once the buffer holds at least `len` slots: every missing slot is pulled from
    /// the source in order, a pull past the end leaving an empty slot.
    pub open spec fn grown(self, len: int) -> Self {
        if len <= self.buffered.len() {
            self
        } else {
            Lookahead {
                buffered: Seq::new(len as nat, |k: int| self.slot(k)),
                pending: self.pending.skip(self.pulled(len) as int),
                cursor: self.cursor,
            }
        }
    }

    /// The state once the slot at offset `k` is buffered.
    pub open spec fn filled(self, k: int) -> Self {
        self.grown(k + 1)
    }

    /// The state after one consumption: the front slot is gone, taken from the buffer if it
    /// holds one and from the source otherwise, and the cursor has followed it by one step.
    pub open spec fn consumed(self) -> Self {
        Lookahead {
            buffered: if self.buffered.len() > 0 {
                self.buffered.drop_first()
            } else {
                self.buffered
            },
            pending: if self.buffered.len() == 0 && self.pending.len() > 0 {
                self.pending.drop_first()
            } else {
                self.pending
            },
            cursor: moved_back_or_reset(self.cursor, 1),
        }
    }

    /// The state after everything in front of the cursor has been discarded.
    pub open spec fn truncated(self) -> Self {
        if self.cursor < self.buffered.len() {
            Lookahead {
                buffered: self.buffered.skip(self.cursor as int),
                pending: self.pending,
                cursor: 0,
            }
        } else {
            let unbuffered = self.cursor - self.buffered.len();
            Lookahead {
                buffered: Seq::empty(),
                pending: if unbuffered <= self.pending.len() {
                    self.pending.skip(unbuffered)
                } else {
                    Seq::empty()
                },
                cursor: 0,
            }
        }
    }

    /// Whether the slots are those of one sequence of items followed by its end: once a slot
    /// is empty, every later slot is. A source that was just wrapped is in such a state, and
    /// no operation leaves it.
    pub open spec fn settled(self) -> bool {
        forall|i: int, j: int|
            #![trigger self.slot(i), self.slot(j)]
            0 <= i <= j && self.slot(i) is None ==> self.slot(j) is None
    }

    /// The number of items that are left to consume in a settled state: those in the buffer
    /// and those that the source has yet to yield.
    pub open spec fn live(self) -> nat {
        items_in(self.buffered) + self.pending.len()
    }
}

/// The number of slots of `slots` that hold an item.
pub open spec fn items_in<T>(slots: Seq<Option<T>>) -> nat
    decreases slots.len(),
{
    if slots.len() == 0 {
        0
    } else if slots.last() is Some {
        items_in(slots.drop_last()) + 1
    } else {
        items_in(slots.drop_last())
    }
}

/// On a source that was just wrapped, the slot at offset `k` holds the item that the source
/// yields at position `k`, and nothing from the end of the source on. Filling the buffer up
/// to that offset, as a peek there does, leaves the cursor at the consumption point.
pub proof fn fresh_slots<T>(items: Seq<T>, k: int)
    requires
        0 <= k,
    ensures
        k < items.len() ==> Lookahead::fresh(items).slot(k) == Some(items[k]),
        k >= items.len() ==> Lookahead::fresh(items).slot(k) == None::<T>,
        Lookahead::fresh(items).filled(k).slot(k) == Lookahead::fresh(items).slot(k),
        Lookahead::fresh(items).filled(k).cursor == 0,
{
}

/// A slot beyond everything that is buffered or pending is empty.
pub proof fn slot_past_end<T>(s: Lookahead<T>, k: int)
    requires
        k >= s.buffered.len() + s.pending.len(),
    ensures
        s.slot(k) == None::<T>,
{
}

/// A peek that follows a peek, the cursor not having moved, finds the same slot under the
/// cursor and leaves the state as the first peek left it: the buffer does not grow again.
pub proof fn peek_again<T>(s: Lookahead<T>)
    ensures
        s.filled(s.cursor as int).peeked() == s.peeked(),
        s.filled(s.cursor as int).filled(s.cursor as int) == s.filled(s.cursor as int),
        s.filled(s.cursor as int).buffered.len() > s.cursor,
{
    grown_twice(s, s.cursor + 1, s.cursor + 1);
}

/// One step forward and one step back bring a cursor below `usize::MAX` to where it was.
pub proof fn advance_then_back(cursor: usize)
    requires
        cursor < usize::MAX,
    ensures
        moved_back(advanced(cursor, 1), 1) == Some(cursor),
{
}

/// A step back of `n` succeeds exactly where the cursor is at least `n` from the consumption
/// point; from the consumption point itself no step back of one or more succeeds.
pub proof fn back_past_front_fails(cursor: usize, n: usize)
    ensures
        moved_back(cursor, n) is None <==> n > cursor,
        n > 0 ==> moved_back(0, n) is None,
{
}

/// Growing the buffer changes no slot: what was pending is buffered, in the same place.
pub proof fn grown_keeps_slots<T>(s: Lookahead<T>, len: int, k: int)
    ensures
        s.grown(len).slot(k) == s.slot(k),
        s.grown(len).cursor == s.cursor,
        s.grown(len).peeked() == s.peeked(),
{
}

/// Growing the buffer twice is growing it once, to the larger of the two lengths. In
/// particular, growing it again to a length that it already has changes nothing.
pub proof fn grown_twice<T>(s: Lookahead<T>, a: int, b: int)
    ensures
        s.grown(a).grown(b) == s.grown(if a <= b { b } else { a }),
        s.grown(a).grown(a) == s.grown(a),
{
    let once = s.grown(a);
    let twice = once.grown(b);
    let direct = s.grown(if a <= b { b } else { a });
    assert(twice.buffered =~= direct.buffered);
    assert(twice.pending =~= direct.pending);
}

/// Moving the cursor and growing the buffer do not depend on each other: either may come first.
pub proof fn grown_at<T>(s: Lookahead<T>, len: int, cursor: usize)
    ensures
        s.at(cursor).grown(len) == s.grown(len).at(cursor),
{
    assert(s.at(cursor).grown(len).buffered =~= s.grown(len).at(cursor).buffered);
}

/// A consumption moves every slot behind the consumption point one place to the front, and
/// the cursor with them: one step back, but not past the consumption point.
pub proof fn consumed_shifts_slots<T>(s: Lookahead<T>)
    ensures
        s.consumed().cursor == if s.cursor >= 1 {
            s.cursor - 1
        } else {
            0
        },
        s.cursor >= 1 ==> s.consumed().peeked() == s.peeked(),
        forall|k: int| 0 <= k ==> s.consumed().slot(k) == s.slot(k + 1),
{
}

/// Buffering the first slot before it is consumed changes nothing about the consumption.
pub proof fn filled_then_consumed<T>(s: Lookahead<T>)
    ensures
        s.filled(0).consumed() == s.consumed(),
{
    assert(s.filled(0).consumed().buffered =~= s.consumed().buffered);
    assert(s.filled(0).consumed().pending =~= s.consumed().pending);
}

/// Discarding what is in front of the cursor moves every slot from the cursor on to the
/// front, and so changes nothing about what a peek returns.
pub proof fn truncated_shifts_slots<T>(s: Lookahead<T>)
    ensures
        s.truncated().cursor == 0,
        s.truncated().peeked() == s.peeked(),
        forall|k: int| 0 <= k ==> s.truncated().slot(k) == s.slot(s.cursor + k),
{
}

/// A source that was just wrapped is in a settled state.
pub proof fn fresh_is_settled<T>(items: Seq<T>)
    ensures
        Lookahead::fresh(items).settled(),
{
}

/// No transition leaves the settled states: not a move of the cursor, not a growth of the
/// buffer, not a consumption and not a truncation.
pub proof fn settled_is_kept<T>(s: Lookahead<T>, cursor: usize, len: int)
    requires
        s.settled(),
    ensures
        s.at(cursor).settled(),
        s.grown(len).settled(),
        s.consumed().settled(),
        s.truncated().settled(),
{
    let moved = s.at(cursor);
    assert forall|i: int, j: int| 0 <= i <= j && moved.slot(i) is None implies moved.slot(j)
        is None by {
        assert(s.slot(i) is None ==> s.slot(j) is None);
    }
    let larger = s.grown(len);
    assert forall|i: int, j: int| 0 <= i <= j && larger.slot(i) is None implies larger.slot(j)
        is None by {
        grown_keeps_slots(s, len, i);
        grown_keeps_slots(s, len, j);
        assert(s.slot(i) is None ==> s.slot(j) is None);
    }
    let after = s.consumed();
    assert forall|i: int, j: int| 0 <= i <= j && after.slot(i) is None implies after.slot(j)
        is None by {
        consumed_shifts_slots(s);
        assert(s.slot(i + 1) is None ==> s.slot(j + 1) is None);
    }
    let cut = s.truncated();
    assert forall|i: int, j: int| 0 <= i <= j && cut.slot(i) is None implies cut.slot(j)
        is None by {
        truncated_shifts_slots(s);
        assert(s.slot(s.cursor + i) is None ==> s.slot(s.cursor + j) is None);
    }
}

/// In a settled state the end of the source is final: once a consumption has found nothing,
/// every later one finds nothing.
pub proof fn end_is_final<T>(s: Lookahead<T>)
    requires
        s.settled(),
        s.slot(0) is None,
    ensures
        s.consumed().settled(),
        s.consumed().slot(0) is None,
{
    settled_is_kept(s, s.cursor, 0);
    consumed_shifts_slots(s);
    assert(s.slot(0) is None ==> s.slot(1) is None);
}

/// Among slots of which none follows an empty one, those that hold an item are the first
/// `items_in` of them.
pub proof fn items_come_first<T>(slots: Seq<Option<T>>)
    requires
        forall|i: int, j: int|
            #![trigger slots[i], slots[j]]
            0 <= i <= j < slots.len() && slots[i] is None ==> slots[j] is None,
    ensures
        items_in(slots) <= slots.len(),
        forall|k: int|
            0 <= k < slots.len() ==> (#[trigger] slots[k] is Some <==> k < items_in(slots)),
    decreases slots.len(),
{
    if slots.len() > 0 {
        let front = slots.drop_last();
        assert forall|i: int, j: int|
            #![trigger front[i], front[j]]
            0 <= i <= j < front.len() && front[i] is None implies front[j] is None by {
            assert(slots[i] is None ==> slots[j] is None);
        }
        items_come_first(front);
        assert forall|k: int| 0 <= k < slots.len() implies (#[trigger] slots[k] is Some <==> k
            < items_in(slots)) by {
            if k < front.len() {
                assert(front[k] == slots[k]);
                assert(slots[k] is None ==> slots[slots.len() - 1] is None);
            }
        }
    }
}

/// In a settled state exactly the first `live` slots hold an item: `live` is the number of
/// items that consumption returns before it finds nothing.
pub proof fn live_counts_items<T>(s: Lookahead<T>, k: int)
    requires
        s.settled(),
        0 <= k,
    ensures
        s.slot(k) is Some <==> k < s.live(),
{
    let slots = s.buffered;
    assert forall|i: int, j: int|
        #![trigger slots[i], slots[j]]
        0 <= i <= j < slots.len() && slots[i] is None implies slots[j] is None by {
        assert(s.slot(i) is None ==> s.slot(j) is None);
    }
    items_come_first(slots);
    if s.pending.len() > 0 && slots.len() > 0 {
        assert(s.slot(slots.len() - 1) is None ==> s.slot(slots.len() as int) is None);
        assert(slots[slots.len() - 1] is Some);
    }
    if k < slots.len() {
        assert(s.slot(k) == slots[k]);
    }
}

} // verus!
