//! Verified core of a small x86_64 kernel: buddy heap allocator, physical
//! frame source, bounded event queues, timer and task bookkeeping, and the
//! in-kernel terminal application.

pub mod buddy;
pub mod graphics;
pub mod keyboard;
pub mod logger;
pub mod memory;
pub mod queues;
pub mod task;
pub mod terminal;
pub mod time;
pub mod trampoline;
