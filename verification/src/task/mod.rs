//! Processes, their threads and the scheduler.

pub mod arguments;
pub mod control;
pub mod deadlock;
pub mod deadlock_laws;
pub mod id;
pub mod manager;
pub mod mutex_deadlock;
pub mod mutex_laws;
pub mod process;
pub mod process_laws;
pub mod semaphore_deadlock;
pub mod semaphore_laws;
pub mod waiting;
