//! The error of the cursor operations.

use vstd::prelude::*;

verus! {

/// The ways in which an operation of the multi-peek iterator can fail.
#[derive(Debug, PartialEq, Eq, Structural)]
pub enum PeekMoreError {
    /// The cursor was asked to move to an element that the iterator has already consumed.
    /// Only elements that have not been consumed can be peeked at.
    ElementHasBeenConsumed,
}

} // verus!
