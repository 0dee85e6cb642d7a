//! A dual-cursor bootstrap memory allocator for early kernel boot.
//!
//! Each donated physical extent becomes a [`Block`]: byte-granularity
//! allocations grow from its low end, page-granularity allocations grow
//! down from its high end, and the two cursors never cross. The
//! [`EarlyAllocator`] owns a bounded table of such blocks, serves
//! requests first-fit in registration order, and aggregates statistics.
//! Nothing is ever reclaimed: the allocator lives only until the
//! kernel's real allocators take over.

pub mod block;
pub mod early;
pub mod hashmap;
pub mod laws;

pub use block::Block;
pub use early::AllocError;
pub use early::EarlyAllocator;
