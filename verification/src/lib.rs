//! Read-side object resolution for a multi-pack store: a validated
//! multi-pack index file, a fanout-accelerated binary search from object id
//! to the owning pack and byte offset, and a breadth-first walk of commit
//! ancestry that yields every reachable id exactly once.

pub mod bytes;
pub mod hash;
pub mod chunk;
pub mod multi_index;
pub mod ancestry;
pub mod parse;
