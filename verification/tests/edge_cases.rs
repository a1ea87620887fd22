use obsessive_peek::{PeekMore, PeekMoreError};

/// A source that counts its pulls and, against the custom of iterators, yields one more item
/// after it has reported its end.
struct Restarting {
    pulls: usize,
}

impl Iterator for Restarting {
    type Item = usize;

    fn next(&mut self) -> Option<usize> {
        self.pulls += 1;
        match self.pulls {
            1 | 2 => Some(self.pulls),
            3 => None,
            4 => Some(self.pulls),
            _ => None,
        }
    }
}

#[test]
fn a_pull_beyond_the_end_is_recorded_and_not_repeated() {
    let mut iter = Restarting { pulls: 0 }.peekmore();

    assert_eq!(iter.peek_nth(2), None);
    assert_eq!(iter.iterator.pulls, 3);
    assert_eq!(iter.peek_nth(2), None);
    assert_eq!(iter.peek_nth(0), Some(&1));
    assert_eq!(iter.iterator.pulls, 3);
    assert_eq!(iter.queue, vec![Some(1), Some(2), None]);
}

#[test]
fn a_source_that_restarts_is_buffered_as_it_yields() {
    let mut iter = Restarting { pulls: 0 }.peekmore();

    assert_eq!(iter.peek_range(0, 5), &[Some(1), Some(2), None, Some(4), None]);
    assert_eq!(iter.next(), Some(1));
    assert_eq!(iter.next(), Some(2));
    assert_eq!(iter.next(), None);
    assert_eq!(iter.next(), Some(4));
    assert_eq!(iter.next(), None);
}

#[test]
fn next_takes_from_the_source_when_the_queue_is_empty() {
    let mut iter = Restarting { pulls: 0 }.peekmore();

    assert_eq!(iter.next(), Some(1));
    assert_eq!(iter.iterator.pulls, 1);
    assert!(iter.queue.is_empty());
}

#[test]
fn truncate_pulls_what_was_never_buffered() {
    let mut iter = Restarting { pulls: 0 }.peekmore();
    assert_eq!(iter.peek(), Some(&1));
    iter.move_nth(2);

    iter.truncate_iterator_to_cursor();

    assert_eq!(iter.iterator.pulls, 2);
    assert!(iter.queue.is_empty());
    assert_eq!(iter.cursor(), 0);
}

#[test]
fn truncate_with_the_cursor_at_the_end_of_the_queue_pulls_nothing() {
    let mut iter = Restarting { pulls: 0 }.peekmore();
    assert_eq!(iter.peek_nth(1), Some(&2));
    iter.move_nth(2);

    iter.truncate_iterator_to_cursor();

    assert_eq!(iter.iterator.pulls, 2);
    assert!(iter.queue.is_empty());
    assert_eq!(iter.cursor(), 0);
}

#[test]
fn fill_pulls_exactly_up_to_the_offset() {
    for offset in [0usize, 1, 499, 500, 998, 999, 1000, 1001, 1233, 1499, 1500, 2750] {
        let mut iter = (0..5000usize).peekmore();
        assert_eq!(iter.peek_nth(offset), Some(&offset));
        assert_eq!(iter.queue.len(), offset + 1);
        for (k, slot) in iter.queue.iter().enumerate() {
            assert_eq!(*slot, Some(k));
        }
        assert_eq!(iter.iterator.next(), Some(offset + 1));
    }
}

#[test]
fn fill_in_batches_starts_from_what_is_buffered() {
    let mut iter = (0..5000usize).peekmore();
    assert_eq!(iter.peek_nth(6), Some(&6));
    assert_eq!(iter.peek_nth(1240), Some(&1240));
    assert_eq!(iter.queue.len(), 1241);
    assert_eq!(iter.peek_nth(3), Some(&3));
    assert_eq!(iter.queue.len(), 1241);
}

#[test]
fn fill_in_batches_beyond_the_end_records_empty_slots() {
    let mut iter = (0..1200usize).peekmore();
    assert_eq!(iter.peek_nth(2600), None);
    assert_eq!(iter.queue.len(), 2601);
    assert_eq!(iter.queue[1199], Some(1199));
    assert_eq!(iter.queue[1200], None);
    assert_eq!(iter.queue[2600], None);
}

#[test]
fn short_range_fills_up_to_and_including_its_end() {
    let mut iter = (0..100usize).peekmore();
    assert_eq!(iter.peek_range(2, 5), &[Some(2), Some(3), Some(4)]);
    assert_eq!(iter.queue.len(), 6);
    assert_eq!(iter.peek_range(1, 6), &[Some(1), Some(2), Some(3), Some(4), Some(5)]);
    assert_eq!(iter.queue.len(), 6);
    assert_eq!(iter.peek_range(7, 7).len(), 0);
    assert_eq!(iter.queue.len(), 8);
}

#[test]
fn range_fills_up_to_and_including_its_end_whatever_its_length() {
    let ranges = [
        (0usize, 1usize),
        (10, 2010),
        (10, 2011),
        (0, 2001),
        (10, 2500),
        (0, 5600),
        (100, 12000),
    ];
    for (start, end) in ranges {
        let mut iter = (0..20000usize).peekmore();
        let view = iter.peek_range(start, end);
        assert_eq!(view.len(), end - start);
        assert_eq!(view[0], Some(start));
        assert_eq!(view[end - start - 1], Some(end - 1));
        assert_eq!(iter.queue.len(), end + 1);
        for (k, slot) in iter.queue.iter().enumerate() {
            assert_eq!(*slot, Some(k));
        }
        assert_eq!(iter.iterator.next(), Some(end + 1));
    }
}

#[test]
fn ranges_with_one_end_leave_one_queue() {
    let mut long = (0..9000usize).peekmore();
    let mut short = (0..9000usize).peekmore();
    let mut single = (0..9000usize).peekmore();

    assert_eq!(long.peek_range(10, 2011).len(), 2001);
    assert_eq!(short.peek_range(11, 2011).len(), 2000);
    assert_eq!(single.peek_nth(2011), Some(&2011));

    assert_eq!(long.queue.len(), 2012);
    assert_eq!(long.queue, short.queue);
    assert_eq!(long.queue, single.queue);
    assert_eq!(long.iterator.next(), Some(2012));
    assert_eq!(short.iterator.next(), Some(2012));
    assert_eq!(single.iterator.next(), Some(2012));
}

#[test]
fn long_range_starts_from_what_is_buffered() {
    let mut iter = (0..20000usize).peekmore();
    assert_eq!(iter.peek_nth(6), Some(&6));
    assert_eq!(iter.peek_range(0, 7000).len(), 7000);
    assert_eq!(iter.queue.len(), 7001);
    assert_eq!(iter.queue[7000], Some(7000));
    assert_eq!(iter.iterator.next(), Some(7001));
}

#[test]
fn long_range_beyond_the_end_is_padded() {
    let mut iter = (0..3usize).peekmore();
    let view = iter.peek_range(1, 2600);
    assert_eq!(view.len(), 2599);
    assert_eq!(view[0], Some(1));
    assert_eq!(view[1], Some(2));
    assert_eq!(view[2], None);
    assert_eq!(view[2598], None);
    assert_eq!(iter.queue.len(), 2601);
}

#[test]
fn long_range_that_is_buffered_pulls_nothing() {
    let mut iter = (0..20000usize).peekmore();
    assert_eq!(iter.peek_nth(3000), Some(&3000));
    assert_eq!(iter.queue.len(), 3001);
    assert_eq!(iter.peek_range(0, 2900).len(), 2900);
    assert_eq!(iter.queue.len(), 3001);
}

#[test]
fn peek_amount_is_a_range_from_the_consumption_point() {
    let mut iter = (5..9usize).peekmore();
    iter.advance_cursor_by(2);
    assert_eq!(iter.peek_amount(3), &[Some(5), Some(6), Some(7)]);
    assert_eq!(iter.cursor(), 2);
    assert_eq!(iter.next(), Some(5));
    assert_eq!(iter.peek_amount(4), &[Some(6), Some(7), Some(8), None]);
}

#[test]
fn advance_by_optimized_fills_up_to_the_new_cursor() {
    for jump in [1usize, 99, 100, 101, 1500] {
        let mut iter = (0..5000usize).peekmore();
        iter.advance_cursor();
        iter.advance_cursor_by_optimized(jump);
        assert_eq!(iter.cursor(), jump + 1);
        assert_eq!(iter.queue.len(), jump + 2);
        assert_eq!(iter.peek(), Some(&(jump + 1)));
        assert_eq!(iter.queue.len(), jump + 2);
    }
}

#[test]
fn advance_by_optimized_with_zero_changes_nothing() {
    let mut iter = (0..50usize).peekmore();
    iter.move_nth(7);
    iter.advance_cursor_by_optimized(0);
    assert_eq!(iter.cursor(), 7);
    assert!(iter.queue.is_empty());
}

#[test]
fn advance_by_plain_does_not_touch_the_queue() {
    let mut iter = (0..50usize).peekmore();
    iter.advance_cursor_by(7);
    assert_eq!(iter.cursor(), 7);
    assert!(iter.queue.is_empty());
}

#[test]
fn advance_while_stops_at_the_first_rejected_peek() {
    let mut iter = (0..50usize).peekmore();
    iter.advance_cursor_while(|peek| peek.is_some_and(|v| *v < 10));
    assert_eq!(iter.cursor(), 10);
    assert_eq!(iter.queue.len(), 11);
    assert_eq!(iter.peek(), Some(&10));
}

#[test]
fn advance_while_runs_past_the_end_until_rejected() {
    let mut iter = (0..3usize).peekmore();
    iter.advance_cursor_while(|peek| peek.is_some());
    assert_eq!(iter.cursor(), 3);
    assert_eq!(iter.queue.len(), 4);
    assert_eq!(iter.peek(), None);
}

#[test]
fn advance_while_over_a_long_run_does_not_exhaust_the_stack() {
    let mut iter = (0..300_000usize).peekmore();
    iter.advance_cursor_while(|peek| peek.is_some());
    assert_eq!(iter.cursor(), 300_000);
}

#[test]
fn advance_while_at_the_largest_cursor_stays_there() {
    let mut iter = (0..3usize).peekmore();
    iter.move_nth(usize::MAX);
    iter.advance_cursor_while(|_| true);
    assert_eq!(iter.cursor(), usize::MAX);
    assert!(iter.queue.is_empty());
}

#[test]
fn every_backward_move_reports_a_consumed_element() {
    let mut iter = [1, 2, 3].iter().peekmore();
    assert_eq!(iter.move_cursor_back().err(), Some(PeekMoreError::ElementHasBeenConsumed));
    assert_eq!(iter.peek_previous(), Err(PeekMoreError::ElementHasBeenConsumed));
    iter.advance_cursor();
    assert_eq!(iter.move_cursor_back_by(2).err(), Some(PeekMoreError::ElementHasBeenConsumed));
    assert_eq!(iter.peek_backward(2), Err(PeekMoreError::ElementHasBeenConsumed));
    assert_eq!(iter.cursor(), 1);
    assert_eq!(iter.peek_backward(1), Ok(Some(&&1)));
    assert_eq!(iter.cursor(), 0);
}

#[test]
fn back_or_reset_moves_back_or_goes_to_the_front() {
    let mut iter = [1, 2, 3].iter().peekmore();
    iter.move_nth(5);
    assert_eq!(iter.move_cursor_back_or_reset(2).cursor(), 3);
    assert_eq!(iter.move_cursor_back_or_reset(3).cursor(), 0);
    iter.move_nth(2);
    assert_eq!(iter.move_cursor_back_or_reset(3).cursor(), 0);
    iter.move_nth(2);
    assert_eq!(iter.peek_backward_or_first(1), Some(&&2));
    assert_eq!(iter.peek_backward_or_first(7), Some(&&1));
}

#[test]
fn peek_next_and_forward_move_the_cursor_first() {
    let mut iter = [1, 2, 3, 4, 5].iter().peekmore();
    assert_eq!(iter.peek_next(), Some(&&2));
    assert_eq!(iter.cursor(), 1);
    assert_eq!(iter.peek_forward(3), Some(&&5));
    assert_eq!(iter.cursor(), 4);
    assert_eq!(iter.peek_forward(0), Some(&&5));
    assert_eq!(iter.peek_next(), None);
    assert_eq!(iter.cursor(), 5);
    assert_eq!(iter.peek_previous(), Ok(Some(&&5)));
}

#[test]
fn next_if_rejecting_buffers_the_first_element() {
    let mut iter = (1..4usize).peekmore();
    assert_eq!(iter.next_if(|v| *v > 1), None);
    assert_eq!(iter.queue, vec![Some(1)]);
    assert_eq!(iter.next_if(|v| *v == 1), Some(1));
    assert!(iter.queue.is_empty());
    assert_eq!(iter.next_if_eq(&3), None);
    assert_eq!(iter.next_if_eq(&2), Some(2));
    assert_eq!(iter.next_if_eq(&3), Some(3));
    assert_eq!(iter.next_if_eq(&3), None);
    assert_eq!(iter.next_if(|_| true), None);
}

#[test]
fn next_if_moves_the_cursor_as_next_does() {
    let mut iter = (1..9usize).peekmore();
    iter.move_nth(2);
    assert_eq!(iter.next_if(|v| *v == 1), Some(1));
    assert_eq!(iter.cursor(), 1);
    assert_eq!(iter.next_if(|v| *v == 1), None);
    assert_eq!(iter.cursor(), 1);
    assert_eq!(iter.peek(), Some(&3));
}

#[test]
fn reset_places_the_cursor_at_the_front() {
    let mut iter = (1..9usize).peekmore();
    iter.move_nth(4);
    iter.reset_cursor();
    assert_eq!(iter.cursor(), 0);
    iter.move_nth(4);
    iter.reset_view();
    assert_eq!(iter.cursor(), 0);
    assert_eq!(iter.peek(), Some(&1));
}

#[test]
fn wrapping_pulls_nothing() {
    let iter = Restarting { pulls: 0 }.peekmore();
    assert_eq!(iter.iterator.pulls, 0);
    assert!(iter.queue.is_empty());
    assert_eq!(iter.cursor(), 0);
    assert_eq!(iter.cursor, 0);
}

#[test]
fn a_clone_peeks_on_its_own() {
    let mut iter = (1..9usize).peekmore();
    iter.advance_cursor();
    let mut copy = iter.clone();
    assert_eq!(copy.next(), Some(1));
    assert_eq!(copy.peek(), Some(&2));
    assert_eq!(iter.peek(), Some(&2));
    assert_eq!(iter.next(), Some(1));
    assert_eq!(format!("{:?}", copy.queue), "[Some(2)]");
}

#[test]
fn remaining_len_counts_buffered_items_and_the_source() {
    let mut iter = (0..10usize).peekmore();
    assert_eq!(iter.remaining_len(iter.iterator.len()), Some(10));
    assert_eq!(iter.peek_nth(3), Some(&3));
    assert_eq!(iter.iterator.len(), 6);
    assert_eq!(iter.remaining_len(iter.iterator.len()), Some(10));
    assert_eq!(iter.next(), Some(0));
    assert_eq!(iter.remaining_len(iter.iterator.len()), Some(9));
    iter.move_nth(2);
    iter.truncate_iterator_to_cursor();
    assert_eq!(iter.remaining_len(iter.iterator.len()), Some(7));
}

#[test]
fn remaining_len_leaves_out_empty_slots() {
    let mut iter = (0..2usize).peekmore();
    assert_eq!(iter.peek_nth(5), None);
    assert_eq!(iter.queue.len(), 6);
    assert_eq!(iter.remaining_len(iter.iterator.len()), Some(2));
    assert_eq!(iter.next(), Some(0));
    assert_eq!(iter.next(), Some(1));
    assert_eq!(iter.remaining_len(iter.iterator.len()), Some(0));
    assert_eq!(iter.next(), None);
    assert_eq!(iter.next(), None);
    assert_eq!(iter.remaining_len(0), Some(0));
}

#[test]
fn remaining_len_that_does_not_fit_is_none() {
    let mut iter = (0..2usize).peekmore();
    assert_eq!(iter.remaining_len(usize::MAX), Some(usize::MAX));
    assert_eq!(iter.peek(), Some(&0));
    assert_eq!(iter.remaining_len(usize::MAX - 1), Some(usize::MAX));
    assert_eq!(iter.remaining_len(usize::MAX), None);
}

#[test]
fn the_end_of_a_source_is_final() {
    let mut iter = (0..2usize).peekmore();
    assert_eq!(iter.peek_nth(3), None);
    assert_eq!(iter.next(), Some(0));
    assert_eq!(iter.next(), Some(1));
    for _ in 0..5 {
        assert_eq!(iter.next(), None);
        assert_eq!(iter.peek(), None);
    }
}
