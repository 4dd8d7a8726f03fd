//! Lazy grouping of consecutive items by key.
//!
//! A [`GroupBy`] walks a sequence once and splits it into maximal runs of
//! neighbouring items whose keys compare equal. Each run is handed out as a
//! [`GroupIter`], which yields the items of that run only; whatever the caller
//! leaves unread of a run is dropped when the next run is asked for.

pub mod group;
pub mod key;
pub mod lookahead;
pub mod model;

pub use group::{GroupBy, GroupByIterator, GroupIter};
pub use lookahead::Lookahead;
