//! A small real-time kernel for Cortex-M: a fixed task table with priority
//! round-robin scheduling and time slices, a wrapping tick counter with
//! deadlines and tickless idle, semaphores, a mutex, message queues and
//! event flags with FIFO waiter queues, a ring buffer, a fixed-block
//! allocator, and reliability support (trace ring, stack and deadlock
//! checks). The hardware layer performs the context switches, interrupt
//! masking and register writes that these decisions call for.
use vstd::prelude::*;

pub mod event_flags;
pub mod memory;
pub mod mutex;
pub mod priority;
pub mod queue;
pub mod reliability;
pub mod ring_buffer;
pub mod scheduler;
pub mod semaphore;
pub mod sync;
pub mod task;
pub mod timer;
pub mod waiters;

verus! {
} // verus!
