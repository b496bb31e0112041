//! A key-value container that spreads the cost of a rehash over many
//! operations.  Instead of moving every entry into a fresh table at once, a
//! reorganization moves at most one entry per call, so no single operation
//! pays a cost proportional to the number of entries.

pub mod iters;
pub mod map;
pub mod table;

pub use iters::Iter;
pub use iters::IterMut;
pub use iters::Keys;
pub use iters::Values;
pub use map::RehashingHashMap;
