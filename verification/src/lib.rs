//! Building blocks for a small kernel: a two-level feedback-queue CPU
//! scheduler and a linear (bump) byte allocator, each with a verified
//! contract.
//!
//! The scheduler orders opaque task handles across two FIFO ready queues,
//! demoting a task one priority level whenever it exhausts its quantum or
//! returns to the scheduler without having been preempted. The allocator
//! hands out addresses linearly from a single region and can only recycle
//! the region once every allocation has been returned.

pub mod allocator;
pub mod scheduler;
