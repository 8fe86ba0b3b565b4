//! What happens to a process, field by field.

use crate::mm::MemorySet;
use crate::task::arguments;
use crate::task::arguments::ArgStack;
use crate::task::control::{KernelEntry, TaskControlBlock, TrapContext};
use crate::task::id::PidHandle;
use crate::task::process;
use crate::task::process::{
    ElfImage, FileHandle, ProcessControlBlock, ProcessControlBlockInner, ProcessModel, SignalFlags,
};
use vstd::prelude::*;

verus! {

/// Nothing but the threads and the address space differs.
pub open spec fn same_but_program(a: ProcessModel, b: ProcessModel) -> bool {
    &&& b.is_zombie == a.is_zombie
    &&& b.parent == a.parent
    &&& b.children == a.children
    &&& b.exit_code == a.exit_code
    &&& b.fd_table == a.fd_table
    &&& b.signals == a.signals
    &&& b.ids == a.ids
    &&& b.mutex_list == a.mutex_list
    &&& b.semaphore_list == a.semaphore_list
    &&& b.condvar_list == a.condvar_list
    &&& b.deadlock == a.deadlock
}

/// Nothing but the threads differs.
pub open spec fn same_but_tasks(a: ProcessModel, b: ProcessModel) -> bool {
    same_but_program(a, b) && b.memory_set == a.memory_set
}

/// Nothing but the open files differs.
pub open spec fn same_but_files(a: ProcessModel, b: ProcessModel) -> bool {
    &&& b.is_zombie == a.is_zombie
    &&& b.memory_set == a.memory_set
    &&& b.parent == a.parent
    &&& b.children == a.children
    &&& b.exit_code == a.exit_code
    &&& b.signals == a.signals
    &&& b.tasks == a.tasks
    &&& b.ids == a.ids
    &&& b.mutex_list == a.mutex_list
    &&& b.semaphore_list == a.semaphore_list
    &&& b.condvar_list == a.condvar_list
    &&& b.deadlock == a.deadlock
}

/// Nothing but the children differs.
pub open spec fn same_but_children(a: ProcessModel, b: ProcessModel) -> bool {
    &&& b.is_zombie == a.is_zombie
    &&& b.memory_set == a.memory_set
    &&& b.parent == a.parent
    &&& b.exit_code == a.exit_code
    &&& b.fd_table == a.fd_table
    &&& b.signals == a.signals
    &&& b.tasks == a.tasks
    &&& b.ids == a.ids
    &&& b.mutex_list == a.mutex_list
    &&& b.semaphore_list == a.semaphore_list
    &&& b.condvar_list == a.condvar_list
    &&& b.deadlock == a.deadlock
}

/// Nothing but the thread identifiers differs.
pub open spec fn same_but_ids(a: ProcessModel, b: ProcessModel) -> bool {
    &&& b.is_zombie == a.is_zombie
    &&& b.memory_set == a.memory_set
    &&& b.parent == a.parent
    &&& b.children == a.children
    &&& b.exit_code == a.exit_code
    &&& b.fd_table == a.fd_table
    &&& b.signals == a.signals
    &&& b.tasks == a.tasks
    &&& b.mutex_list == a.mutex_list
    &&& b.semaphore_list == a.semaphore_list
    &&& b.condvar_list == a.condvar_list
    &&& b.deadlock == a.deadlock
}

/// A process that has not run yet: alive, with no children, threads, signals or locks, no thread
/// identifier in use, and detection of deadlock off.
pub open spec fn has_not_run(m: ProcessModel) -> bool {
    &&& !m.is_zombie
    &&& m.exit_code == 0
    &&& m.children.len() == 0
    &&& m.tasks.len() == 0
    &&& m.signals.bits == 0
    &&& m.ids.next == 0
    &&& m.ids.free.len() == 0
    &&& m.mutex_list.len() == 0
    &&& m.semaphore_list.len() == 0
    &&& m.condvar_list.len() == 0
    &&& !m.deadlock.enabled
    &&& m.deadlock.mutex.owners.len() == 0
    &&& m.deadlock.mutex.waiting.dom().is_empty()
    &&& m.deadlock.semaphore.available.len() == 0
    &&& m.deadlock.semaphore.allocation.dom().is_empty()
    &&& m.deadlock.semaphore.waiting.dom().is_empty()
}

/// The files of a process that was started from a program: standard input on 0, and standard
/// output on 1 and 2.
pub open spec fn standard_files(fds: Seq<Option<FileHandle>>) -> bool {
    &&& fds.len() == 3
    &&& fds[0] == Some(FileHandle::Stdin)
    &&& fds[1] == Some(FileHandle::Stdout)
    &&& fds[2] == Some(FileHandle::Stdout)
}

/// The two threads differ at most in what they go on with.
pub open spec fn same_thread(a: TaskControlBlock, b: TaskControlBlock) -> bool {
    &&& b.pid == a.pid
    &&& b.tid == a.tid
    &&& b.stride == a.stride
    &&& b.ustack_base == a.ustack_base
    &&& b.ustack_top == a.ustack_top
    &&& b.kstack_top == a.kstack_top
}

/// A thread that starts a program: at its first instruction, with the given stack pointer and
/// arguments in its registers, and into the kernel on its own kernel stack.
pub open spec fn starts(
    task: TaskControlBlock,
    entry_point: usize,
    user_sp: usize,
    a0: usize,
    a1: usize,
    kernel: KernelEntry,
) -> bool {
    &&& task.trap_cx.entry_point == entry_point
    &&& task.trap_cx.user_sp == user_sp
    &&& task.trap_cx.a0 == a0
    &&& task.trap_cx.a1 == a1
    &&& task.trap_cx.kernel_token == kernel.token
    &&& task.trap_cx.kernel_sp == task.kstack_top
    &&& task.trap_cx.trap_handler == kernel.trap_handler
}

/// A thread that goes on where another was, but on its own kernel stack.
pub open spec fn goes_on(from: TaskControlBlock, task: TaskControlBlock) -> bool {
    &&& task.trap_cx.entry_point == from.trap_cx.entry_point
    &&& task.trap_cx.user_sp == from.trap_cx.user_sp
    &&& task.trap_cx.a0 == from.trap_cx.a0
    &&& task.trap_cx.a1 == from.trap_cx.a1
    &&& task.trap_cx.kernel_token == from.trap_cx.kernel_token
    &&& task.trap_cx.trap_handler == from.trap_cx.trap_handler
    &&& task.trap_cx.kernel_sp == task.kstack_top
}

/// `b` has the threads of `a` and behind them one more, which is `task` but for what it goes on
/// with.
pub open spec fn one_more_thread(a: ProcessModel, b: ProcessModel, task: TaskControlBlock) -> bool {
    &&& b.tasks.len() == a.tasks.len() + 1
    &&& forall|i: int| 0 <= i < a.tasks.len() ==> #[trigger] b.tasks[i] == a.tasks[i]
    &&& b.tasks[a.tasks.len() as int] is Some
    &&& same_thread(task, b.tasks[a.tasks.len() as int]->0)
}

/// A context starts with the given values and empty registers.
pub proof fn law_app_init_context(
    entry_point: usize,
    user_sp: usize,
    kernel_token: usize,
    kernel_sp: usize,
    trap_handler: usize,
    cx: TrapContext,
)
    requires
        call_ensures(
            TrapContext::app_init_context,
            (entry_point, user_sp, kernel_token, kernel_sp, trap_handler),
            cx,
        ),
    ensures
        cx.entry_point == entry_point,
        cx.user_sp == user_sp,
        cx.a0 == 0,
        cx.a1 == 0,
        cx.kernel_token == kernel_token,
        cx.kernel_sp == kernel_sp,
        cx.trap_handler == trap_handler,
{
}

/// A thread tells its stride and its process.
pub proof fn law_thread_tells(task: &TaskControlBlock, stride: usize, pid: usize)
    requires
        call_ensures(TaskControlBlock::stride_value, (task,), stride),
        call_ensures(TaskControlBlock::getpid, (task,), pid),
    ensures
        stride == task.stride,
        pid == task.pid,
{
}

/// A loaded process has not run, has no parent, and has the standard files.
pub proof fn law_load(pid: PidHandle, memory_set: MemorySet, p: ProcessControlBlock)
    requires
        call_ensures(ProcessControlBlock::load, (pid, memory_set), p),
    ensures
        p.id() == pid,
        p.wf(),
        has_not_run(p@),
        p@.memory_set == memory_set,
        p@.parent is None,
        standard_files(p@.fd_table),
{
}

/// The main thread comes last and starts at the entry point on its own stacks. Nothing else changes.
pub proof fn law_start_main_thread(
    p: &mut ProcessControlBlock,
    task: TaskControlBlock,
    entry_point: usize,
    kernel: KernelEntry,
)
    requires
        call_ensures(
            ProcessControlBlock::start_main_thread,
            (p, task, entry_point, kernel),
            (),
        ),
    ensures
        final(p).id() == old(p).id(),
        final(p).wf() == old(p).wf(),
        same_but_tasks(old(p)@, final(p)@),
        one_more_thread(old(p)@, final(p)@, task),
        starts(
            final(p)@.tasks.last()->0,
            entry_point,
            task.ustack_top,
            0,
            0,
            kernel,
        ),
{
}

/// A new process is a loaded one to which the main thread was added. What makes the thread is handed
/// the loaded process, the base of the user stacks of the program, and that it is to allocate.
pub proof fn law_new<
    F: FnOnce(ProcessControlBlock, usize, bool) -> (ProcessControlBlock, TaskControlBlock),
>(
    image: ElfImage,
    pid: PidHandle,
    kernel: KernelEntry,
    make_task: F,
    started: ProcessControlBlock,
)
    requires
        call_ensures(ProcessControlBlock::new::<F>, (image, pid, kernel, make_task), started),
    ensures
        exists|p: ProcessControlBlock, made: (ProcessControlBlock, TaskControlBlock)|
            #[trigger] call_ensures(make_task, (p, image.ustack_base, true), made) && p.id() == pid
                && p.wf() && has_not_run(p@) && p@.memory_set == image.memory_set
                && p@.parent is None && standard_files(p@.fd_table) && started.id() == made.0.id()
                && started.wf() == made.0.wf() && same_but_tasks(made.0@, started@)
                && one_more_thread(made.0@, started@, made.1) && starts(
                started@.tasks.last()->0,
                image.entry_point,
                made.1.ustack_top,
                0,
                0,
                kernel,
            ),
{
    let (p, made) = choose|p: ProcessControlBlock, made: (ProcessControlBlock, TaskControlBlock)|
        p.is_loaded(pid, image.memory_set) && #[trigger] call_ensures(
            make_task,
            (p, image.ustack_base, true),
            made,
        ) && started@ == made.0@.with_task(
            process::started(made.1, image.entry_point, kernel),
        ) && started.id() == made.0.id() && started.wf() == made.0.wf();
    assert(call_ensures(make_task, (p, image.ustack_base, true), made));
    assert(has_not_run(p@));
}

/// What holds once a process runs another program on its one thread: that thread, with the stacks of
/// `task`, starts the program with the number of arguments and the address of their vector in its
/// registers; its stack pointer is at a whole word, below all arguments and by less than a word; the
/// arguments stand on the stack; and nothing else changes.
pub open spec fn runs_program(
    before: ProcessModel,
    after: ProcessModel,
    image: ElfImage,
    args: Seq<String>,
    task: TaskControlBlock,
    kernel: KernelEntry,
    stack: ArgStack,
) -> bool {
    let w = vstd::layout::size_of::<usize>();
    let now = after.tasks[0]->0;
    &&& same_but_program(before, after)
    &&& after.memory_set == image.memory_set
    &&& after.tasks.len() == 1
    &&& after.tasks[0] is Some
    &&& same_thread(task, now)
    &&& starts(now, image.entry_point, stack.user_sp, args.len() as usize, stack.argv_base, kernel)
    &&& now.trap_cx.user_sp as int % w as int == 0
    &&& now.trap_cx.user_sp <= stack.strings_base < now.trap_cx.user_sp + w
    &&& now.trap_cx.a0 == args.len()
    &&& arguments::stack_of(stack, task.ustack_top, args)
}

/// The process runs the program.
pub proof fn law_replace_program(
    p: &mut ProcessControlBlock,
    image: ElfImage,
    args: &Vec<String>,
    task: TaskControlBlock,
    kernel: KernelEntry,
    stack: ArgStack,
)
    requires
        old(p)@.tasks.len() == 1,
        call_ensures(
            ProcessControlBlock::replace_program,
            (p, image, args, task, kernel),
            stack,
        ),
    ensures
        final(p).id() == old(p).id(),
        final(p).wf() == old(p).wf(),
        runs_program(old(p)@, final(p)@, image, args@, task, kernel, stack),
{
    arguments::lemma_stack_of(stack, task.ustack_top, args@);
    lemma_argc(stack, task.ustack_top, args@);
}

/// The number of arguments on a stack fits in a word.
proof fn lemma_argc(stack: ArgStack, ustack_top: usize, args: Seq<String>)
    requires
        arguments::stack_of(stack, ustack_top, args),
    ensures
        args.len() <= usize::MAX,
{
    broadcast use vstd::layout::layout_of_primitives;

    let w = vstd::layout::size_of::<usize>();
    assert(args.len() <= (args.len() + 1) * w) by (nonlinear_arith)
        requires
            w >= 1,
    ;
}

/// The process runs the program on its one thread. What allocates the user stack anew is handed that
/// thread with the base of the user stacks of the program, and otherwise as it was.
pub proof fn law_exec<F: FnOnce(TaskControlBlock) -> TaskControlBlock>(
    p: &mut ProcessControlBlock,
    image: ElfImage,
    args: Vec<String>,
    kernel: KernelEntry,
    alloc_user_res: F,
    stack: ArgStack,
)
    requires
        old(p)@.tasks.len() == 1,
        old(p)@.tasks[0] is Some,
        call_ensures(
            ProcessControlBlock::exec::<F>,
            (p, image, args, kernel, alloc_user_res),
            stack,
        ),
    ensures
        final(p).id() == old(p).id(),
        final(p).wf() == old(p).wf(),
        exists|given: TaskControlBlock, task: TaskControlBlock|
            #[trigger] call_ensures(alloc_user_res, (given,), task) && given.ustack_base
                == image.ustack_base && given.pid == (old(p)@.tasks[0]->0).pid && given.tid == (
            old(p)@.tasks[0]->0).tid && given.stride == (old(p)@.tasks[0]->0).stride
                && given.ustack_top == (old(p)@.tasks[0]->0).ustack_top && given.kstack_top == (
            old(p)@.tasks[0]->0).kstack_top && given.trap_cx == (old(p)@.tasks[0]->0).trap_cx
                && runs_program(old(p)@, final(p)@, image, args@, task, kernel, stack),
{
    let given = process::rebased(old(p)@.tasks[0]->0, image.ustack_base);
    let task = choose|task: TaskControlBlock|
        #[trigger] call_ensures(alloc_user_res, (given,), task) && stack.holds(
            task.ustack_top,
            arguments::arg_bytes(args@),
        ) && final(p)@ == old(p)@.running(
            image.memory_set,
            process::started_with_arguments(
                task,
                image.entry_point,
                kernel,
                args@.len(),
                stack,
            ),
        );
    arguments::lemma_stack_of(stack, task.ustack_top, args@);
    lemma_argc(stack, task.ustack_top, args@);
    assert(call_ensures(alloc_user_res, (given,), task));
    assert(runs_program(old(p)@, final(p)@, image, args@, task, kernel, stack));
}

/// A child has not run, has its parent's pid and the same files under the same descriptors. The
/// parent has one child more, behind the others, and is otherwise as it was.
pub proof fn law_spawn_child(
    p: &mut ProcessControlBlock,
    memory_set: MemorySet,
    pid: PidHandle,
    child: ProcessControlBlock,
)
    requires
        call_ensures(ProcessControlBlock::spawn_child, (p, memory_set, pid), child),
    ensures
        child.id() == pid,
        child.wf(),
        has_not_run(child@),
        child@.memory_set == memory_set,
        child@.parent == Some(old(p).id().0),
        child@.fd_table == old(p)@.fd_table,
        final(p).id() == old(p).id(),
        final(p).wf() == old(p).wf(),
        same_but_children(old(p)@, final(p)@),
        final(p)@.children == old(p)@.children.push(pid.0),
{
}

/// The thread of a copy goes on where it was, but on its own kernel stack. Nothing else changes.
pub proof fn law_start_copied_thread(p: &mut ProcessControlBlock, task: TaskControlBlock)
    requires
        call_ensures(ProcessControlBlock::start_copied_thread, (p, task), ()),
    ensures
        final(p).id() == old(p).id(),
        final(p).wf() == old(p).wf(),
        same_but_tasks(old(p)@, final(p)@),
        one_more_thread(old(p)@, final(p)@, task),
        goes_on(task, final(p)@.tasks.last()->0),
{
}

/// A fork gives a child of the process to which a thread was added that goes on where it was. What
/// makes the thread is handed the child, the base of the user stacks of the parent, and that it is
/// not to allocate. The parent has one child more and is otherwise as it was.
pub proof fn law_fork<
    F: FnOnce(ProcessControlBlock, usize, bool) -> (ProcessControlBlock, TaskControlBlock),
>(
    p: &mut ProcessControlBlock,
    memory_set: MemorySet,
    pid: PidHandle,
    make_task: F,
    child: ProcessControlBlock,
)
    requires
        old(p)@.tasks.len() == 1,
        old(p)@.tasks[0] is Some,
        call_ensures(ProcessControlBlock::fork::<F>, (p, memory_set, pid, make_task), child),
    ensures
        final(p).id() == old(p).id(),
        final(p).wf() == old(p).wf(),
        same_but_children(old(p)@, final(p)@),
        final(p)@.children == old(p)@.children.push(pid.0),
        exists|c: ProcessControlBlock, made: (ProcessControlBlock, TaskControlBlock)|
            #[trigger] call_ensures(
                make_task,
                (c, (old(p)@.tasks[0]->0).ustack_base, false),
                made,
            ) && c.id() == pid && c.wf() && has_not_run(c@) && c@.memory_set == memory_set
                && c@.parent == Some(old(p).id().0) && c@.fd_table == old(p)@.fd_table
                && child.id() == made.0.id() && child.wf() == made.0.wf() && same_but_tasks(
                made.0@,
                child@,
            ) && one_more_thread(made.0@, child@, made.1) && goes_on(
                made.1,
                child@.tasks.last()->0,
            ),
{
    let base = (old(p)@.tasks[0]->0).ustack_base;
    let (c, made) = choose|c: ProcessControlBlock, made: (ProcessControlBlock, TaskControlBlock)|
        c.is_child(pid, memory_set, old(p).id(), old(p)@) && #[trigger] call_ensures(
            make_task,
            (c, base, false),
            made,
        ) && child@ == made.0@.with_task(process::resumed(made.1)) && child.id()
            == made.0.id() && child.wf() == made.0.wf();
    assert(call_ensures(make_task, (c, base, false), made));
    assert(has_not_run(c@));
}

/// What is changed through the inner part of a process is changed in the process, and nothing else.
pub proof fn law_inner_exclusive_access(
    p: &mut ProcessControlBlock,
    inner: &mut ProcessControlBlockInner,
)
    requires
        call_ensures(ProcessControlBlock::inner_exclusive_access, (p,), inner),
    ensures
        old(inner)@ == old(p)@,
        old(inner).wf() == old(p).wf(),
        final(p)@ == final(inner)@,
        final(p).wf() == final(inner).wf(),
        final(p).id() == old(p).id(),
{
}

/// The process tells its pid.
pub proof fn law_getpid(p: &ProcessControlBlock, pid: usize)
    requires
        call_ensures(ProcessControlBlock::getpid, (p,), pid),
    ensures
        pid == p.id().0,
{
}

/// The descriptor that is allocated is free, every lower one is in use, and none that was in use or
/// free changes; the table grows by one free entry exactly where all were in use. Nothing else
/// changes.
pub proof fn law_alloc_fd(m: &mut ProcessControlBlockInner, fd: usize)
    requires
        call_ensures(ProcessControlBlockInner::alloc_fd, (m,), fd),
    ensures
        same_but_files(old(m)@, final(m)@),
        fd < final(m)@.fd_table.len(),
        final(m)@.fd_table[fd as int] is None,
        forall|k: int| 0 <= k < fd ==> (#[trigger] final(m)@.fd_table[k]) is Some,
        forall|k: int|
            0 <= k < old(m)@.fd_table.len() ==> #[trigger] final(m)@.fd_table[k]
                == old(m)@.fd_table[k],
        final(m)@.fd_table.len() == if fd < old(m)@.fd_table.len() {
            old(m)@.fd_table.len()
        } else {
            old(m)@.fd_table.len() + 1
        },
{
}

/// A thread identifier that is handed out is the one that came back last, or else a new one, and
/// nothing but the identifiers changes.
pub proof fn law_alloc_tid(m: &mut ProcessControlBlockInner, tid: usize)
    requires
        old(m).wf(),
        old(m)@.ids.free.len() > 0 || old(m)@.ids.next < usize::MAX,
        call_ensures(ProcessControlBlockInner::alloc_tid, (m,), tid),
    ensures
        same_but_ids(old(m)@, final(m)@),
        final(m).wf(),
        old(m)@.ids.free.len() > 0 ==> {
            &&& final(m)@.ids.free.push(tid) == old(m)@.ids.free
            &&& final(m)@.ids.next == old(m)@.ids.next
        },
        old(m)@.ids.free.len() == 0 ==> {
            &&& tid == old(m)@.ids.next
            &&& final(m)@.ids.next == old(m)@.ids.next + 1
            &&& final(m)@.ids.free.len() == 0
        },
{
    if old(m)@.ids.free.len() > 0 {
        let free = old(m)@.ids.free;
        assert(free.drop_last().push(free.last()) =~= free);
    }
}

/// A thread identifier that comes back is the next to be handed out, and nothing but the identifiers
/// changes.
pub proof fn law_dealloc_tid(m: &mut ProcessControlBlockInner, tid: usize)
    requires
        old(m).wf(),
        call_ensures(ProcessControlBlockInner::dealloc_tid, (m, tid), ()),
    ensures
        same_but_ids(old(m)@, final(m)@),
        final(m).wf(),
        final(m)@.ids.free == old(m)@.ids.free.push(tid),
        final(m)@.ids.next == old(m)@.ids.next,
{
}

/// A process tells the token of its address space, how many threads it has, and each thread that is
/// alive.
pub proof fn law_process_tells(
    m: &ProcessControlBlockInner,
    token: usize,
    threads: usize,
    tid: usize,
    task: TaskControlBlock,
)
    requires
        call_ensures(ProcessControlBlockInner::get_user_token, (m,), token),
        call_ensures(ProcessControlBlockInner::thread_count, (m,), threads),
        tid < m@.tasks.len(),
        m@.tasks[tid as int] is Some,
        call_ensures(ProcessControlBlockInner::get_task, (m, tid), task),
    ensures
        token == m@.memory_set@,
        threads == m@.tasks.len(),
        task == m@.tasks[tid as int]->0,
{
}

/// An address space has the token that it was made with. No signal waits at first.
pub proof fn law_token(token: usize, space: MemorySet, told: usize, flags: SignalFlags)
    requires
        call_ensures(MemorySet::new, (token,), space),
        call_ensures(MemorySet::token, (&space,), told),
        call_ensures(SignalFlags::empty, (), flags),
    ensures
        told == token,
        flags.bits == 0,
{
}

} // verus!
