//! A multi-peek adapter for iterators.
//!
//! [`PeekMoreIterator`] sits in front of any iterator and lets a consumer look arbitrarily far
//! ahead of the element that `next` would return. Elements that have been looked at but not yet
//! consumed are kept in a queue; a cursor marks the position that `peek` reads.
//!
//! The behaviour of every operation is stated against [`Lookahead`], the adapter seen as a
//! mathematical value: the buffered slots, the items the source has yet to yield, and the cursor.

pub mod lookahead;
pub mod peek_iterator;
pub mod peekerror;
pub mod peekmore;

pub use lookahead::Lookahead;
pub use peek_iterator::PeekMoreIterator;
pub use peekerror::PeekMoreError;
pub use peekmore::PeekMore;
