//! Threads, as far as the scheduler and the process see them.

use vstd::prelude::*;

verus! {

/// What a thread goes on with when it returns to user mode.
#[derive(Clone, Copy, Debug, PartialEq, Eq, Structural)]
pub struct TrapContext {
    /// The address of the next instruction.
    pub entry_point: usize,
    /// The stack pointer in user mode.
    pub user_sp: usize,
    /// The first argument register.
    pub a0: usize,
    /// The second argument register.
    pub a1: usize,
    /// The token of the kernel's address space.
    pub kernel_token: usize,
    /// The stack pointer in the kernel.
    pub kernel_sp: usize,
    /// The address of the kernel's trap handler.
    pub trap_handler: usize,
}

impl TrapContext {
    /// The context of a thread that starts at `entry_point` with `user_sp`, all its registers
    /// zero.
    pub fn app_init_context(
        entry_point: usize,
        user_sp: usize,
        kernel_token: usize,
        kernel_sp: usize,
        trap_handler: usize,
    ) -> (cx: TrapContext)
        ensures
            cx == (TrapContext {
                entry_point,
                user_sp,
                a0: 0,
                a1: 0,
                kernel_token,
                kernel_sp,
                trap_handler,
            }),
    {
        TrapContext {
            entry_point,
            user_sp,
            a0: 0,
            a1: 0,
            kernel_token,
            kernel_sp,
            trap_handler,
        }
    }
}

/// Where a trap enters the kernel.
#[derive(Clone, Copy, Debug, PartialEq, Eq, Structural)]
pub struct KernelEntry {
    /// The token of the kernel's address space.
    pub token: usize,
    /// The address of the trap handler.
    pub trap_handler: usize,
}

/// A thread of a process.
#[derive(Clone, Copy, Debug, PartialEq, Eq, Structural)]
pub struct TaskControlBlock {
    /// The process of the thread.
    pub pid: usize,
    /// The thread in its process.
    pub tid: usize,
    /// How far the thread has run, for stride scheduling.
    pub stride: usize,
    /// The base of the user stacks of the process.
    pub ustack_base: usize,
    /// The top of the thread's user stack.
    pub ustack_top: usize,
    /// The top of the thread's kernel stack.
    pub kstack_top: usize,
    /// What the thread goes on with in user mode.
    pub trap_cx: TrapContext,
}

impl TaskControlBlock {
    /// How far the thread has run.
    pub fn stride_value(&self) -> (stride: usize)
        ensures
            stride == self.stride,
    {
        self.stride
    }

    /// The process of the thread.
    pub fn getpid(&self) -> (pid: usize)
        ensures
            pid == self.pid,
    {
        self.pid
    }
}

} // verus!
