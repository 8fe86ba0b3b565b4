//! Process bookkeeping of a small kernel.

pub mod config;
pub mod mm;
pub mod signed;
pub mod sync;
pub mod syscall;
pub mod task;
