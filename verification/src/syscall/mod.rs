//! System calls.

pub mod laws;
pub mod process;
pub mod time;
