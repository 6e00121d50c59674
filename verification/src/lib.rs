//! A generic max-priority queue that orders arbitrary items by a score,
//! derived either from the queue's score function or given explicitly.

mod order;
mod queue;
mod scored_item;

pub use order::score_le;
pub use queue::PriorityQueue;
pub use scored_item::ScoredItem;
