//! Implementation of [`ProcessControlBlock`].

use crate::mm::MemorySet;
use crate::task::arguments;
use crate::task::arguments::ArgStack;
use crate::task::control::{KernelEntry, TaskControlBlock, TrapContext};
use crate::task::deadlock::{DeadlockModel, DeadlockState};
use crate::task::id::{IdModel, PidHandle, RecycleAllocator};
use vstd::prelude::*;

verus! {

/// An open file.
#[derive(Clone, Copy, Debug, PartialEq, Eq, Structural)]
pub enum FileHandle {
    /// The standard input.
    Stdin,
    /// The standard output.
    Stdout,
    /// Another file, by its number.
    Other(usize),
}

/// The signals that wait for a process, one bit each.
#[derive(Clone, Copy, Debug, PartialEq, Eq, Structural)]
pub struct SignalFlags {
    /// The bits.
    pub bits: u32,
}

impl SignalFlags {
    /// No signal waits.
    pub open spec fn none() -> SignalFlags {
        SignalFlags { bits: 0 }
    }

    /// No signal waits.
    pub fn empty() -> (flags: SignalFlags)
        ensures
            flags == SignalFlags::none(),
    {
        SignalFlags { bits: 0 }
    }
}

/// A program that was loaded into an address space of its own.
#[derive(Clone, Copy, Debug, PartialEq, Eq, Structural)]
pub struct ElfImage {
    /// The address space.
    pub memory_set: MemorySet,
    /// The base of its user stacks.
    pub ustack_base: usize,
    /// The address of its first instruction.
    pub entry_point: usize,
}

/// What a [`ProcessControlBlockInner`] holds.
#[verifier::ext_equal]
pub struct ProcessModel {
    pub is_zombie: bool,
    pub memory_set: MemorySet,
    pub parent: Option<usize>,
    pub children: Seq<usize>,
    pub exit_code: i32,
    pub fd_table: Seq<Option<FileHandle>>,
    pub signals: SignalFlags,
    pub tasks: Seq<Option<TaskControlBlock>>,
    pub ids: IdModel,
    pub mutex_list: Seq<Option<usize>>,
    pub semaphore_list: Seq<Option<usize>>,
    pub condvar_list: Seq<Option<usize>>,
    pub deadlock: DeadlockModel,
}

impl ProcessModel {
    /// A process without threads that runs in `memory_set`, with the given parent and files.
    pub open spec fn fresh(
        memory_set: MemorySet,
        parent: Option<usize>,
        fd_table: Seq<Option<FileHandle>>,
    ) -> ProcessModel {
        ProcessModel {
            is_zombie: false,
            memory_set,
            parent,
            children: Seq::empty(),
            exit_code: 0,
            fd_table,
            signals: SignalFlags::none(),
            tasks: Seq::empty(),
            ids: IdModel::empty(),
            mutex_list: Seq::empty(),
            semaphore_list: Seq::empty(),
            condvar_list: Seq::empty(),
            deadlock: DeadlockModel::empty(),
        }
    }

    /// A process that was started from a program: its files are the standard input, the standard
    /// output, and the standard output once more for errors.
    pub open spec fn loaded(memory_set: MemorySet) -> ProcessModel {
        ProcessModel::fresh(
            memory_set,
            None,
            seq![
                Some(FileHandle::Stdin),
                Some(FileHandle::Stdout),
                Some(FileHandle::Stdout),
            ],
        )
    }

    /// The process with one more thread.
    pub open spec fn with_task(self, task: TaskControlBlock) -> ProcessModel {
        ProcessModel { tasks: self.tasks.push(Some(task)), ..self }
    }

    /// The process has one thread, and that thread is alive.
    pub open spec fn single_threaded(self) -> bool {
        self.tasks.len() == 1 && self.tasks[0] is Some
    }

    /// The lowest free file descriptor, or else the next new one.
    pub open spec fn is_lowest_free(self, fd: int) -> bool {
        &&& 0 <= fd <= self.fd_table.len()
        &&& fd < self.fd_table.len() ==> self.fd_table[fd] is None
        &&& forall|k: int| 0 <= k < fd ==> #[trigger] self.fd_table[k] is Some
    }

    /// The process once it runs another program on its one thread.
    pub open spec fn running(self, memory_set: MemorySet, task: TaskControlBlock) -> ProcessModel {
        ProcessModel { memory_set, tasks: self.tasks.update(0, Some(task)), ..self }
    }
}

/// The thread as it starts a program from its first instruction.
pub open spec fn started(
    task: TaskControlBlock,
    entry_point: usize,
    kernel: KernelEntry,
) -> TaskControlBlock {
    TaskControlBlock {
        trap_cx: TrapContext {
            entry_point,
            user_sp: task.ustack_top,
            a0: 0,
            a1: 0,
            kernel_token: kernel.token,
            kernel_sp: task.kstack_top,
            trap_handler: kernel.trap_handler,
        },
        ..task
    }
}

/// The thread as it starts a program with `argc` arguments on its stack.
pub open spec fn started_with_arguments(
    task: TaskControlBlock,
    entry_point: usize,
    kernel: KernelEntry,
    argc: nat,
    stack: ArgStack,
) -> TaskControlBlock {
    TaskControlBlock {
        trap_cx: TrapContext {
            user_sp: stack.user_sp,
            a0: argc as usize,
            a1: stack.argv_base,
            ..started(task, entry_point, kernel).trap_cx
        },
        ..task
    }
}

/// The thread with another base of its user stacks.
pub open spec fn rebased(task: TaskControlBlock, ustack_base: usize) -> TaskControlBlock {
    TaskControlBlock { ustack_base, ..task }
}

/// The thread as it goes on in a copy of its process: only its kernel stack is another.
pub open spec fn resumed(task: TaskControlBlock) -> TaskControlBlock {
    TaskControlBlock {
        trap_cx: TrapContext { kernel_sp: task.kstack_top, ..task.trap_cx },
        ..task
    }
}

/// Inner of Process Control Block
pub struct ProcessControlBlockInner {
    /// is zombie?
    pub is_zombie: bool,
    /// memory set(address space)
    pub memory_set: MemorySet,
    /// the pid of the parent process
    pub parent: Option<usize>,
    /// the pids of the children processes
    pub children: Vec<usize>,
    /// exit code
    pub exit_code: i32,
    /// file descriptor table
    pub fd_table: Vec<Option<FileHandle>>,
    /// signal flags
    pub signals: SignalFlags,
    /// tasks(also known as threads)
    pub tasks: Vec<Option<TaskControlBlock>>,
    /// task resource allocator
    pub task_res_allocator: RecycleAllocator,
    /// mutex list
    pub mutex_list: Vec<Option<usize>>,
    /// semaphore list
    pub semaphore_list: Vec<Option<usize>>,
    /// condvar list
    pub condvar_list: Vec<Option<usize>>,
    /// deadlock detection state
    pub deadlock: DeadlockState,
}

impl View for ProcessControlBlockInner {
    type V = ProcessModel;

    open spec fn view(&self) -> ProcessModel {
        ProcessModel {
            is_zombie: self.is_zombie,
            memory_set: self.memory_set,
            parent: self.parent,
            children: self.children@,
            exit_code: self.exit_code,
            fd_table: self.fd_table@,
            signals: self.signals,
            tasks: self.tasks@,
            ids: self.task_res_allocator@,
            mutex_list: self.mutex_list@,
            semaphore_list: self.semaphore_list@,
            condvar_list: self.condvar_list@,
            deadlock: self.deadlock@,
        }
    }
}

impl ProcessControlBlockInner {
    /// The thread identifiers and the deadlock detection are in order.
    pub open spec fn wf(&self) -> bool {
        self.task_res_allocator@.wf() && self.deadlock.wf()
    }

    /// A process without threads.
    fn fresh(
        memory_set: MemorySet,
        parent: Option<usize>,
        fd_table: Vec<Option<FileHandle>>,
    ) -> (inner: Self)
        ensures
            inner@ == ProcessModel::fresh(memory_set, parent, fd_table@),
            inner.wf(),
    {
        ProcessControlBlockInner {
            is_zombie: false,
            memory_set,
            parent,
            children: Vec::new(),
            exit_code: 0,
            fd_table,
            signals: SignalFlags::empty(),
            tasks: Vec::new(),
            task_res_allocator: RecycleAllocator::new(),
            mutex_list: Vec::new(),
            semaphore_list: Vec::new(),
            condvar_list: Vec::new(),
            deadlock: DeadlockState::new(),
        }
    }

    /// get the address of app's page table
    pub fn get_user_token(&self) -> (token: usize)
        ensures
            token == self@.memory_set@,
    {
        self.memory_set.token()
    }

    /// allocate a new file descriptor
    pub fn alloc_fd(&mut self) -> (fd: usize)
        ensures
            old(self)@.is_lowest_free(fd as int),
            fd < old(self)@.fd_table.len() ==> *final(self) == *old(self),
            fd == old(self)@.fd_table.len() ==> final(self)@ == (ProcessModel {
                fd_table: old(self)@.fd_table.push(None),
                ..old(self)@
            }),
            old(self).wf() ==> final(self).wf(),
    {
        let mut fd: usize = 0;
        while fd < self.fd_table.len()
            invariant
                fd <= self.fd_table.len(),
                *self == *old(self),
                forall|k: int| 0 <= k < fd ==> #[trigger] self.fd_table[k] is Some,
            decreases self.fd_table.len() - fd,
        {
            if self.fd_table[fd].is_none() {
                return fd;
            }
            fd = fd + 1;
        }
        self.fd_table.push(None);
        self.fd_table.len() - 1
    }

    /// allocate a new task id
    pub fn alloc_tid(&mut self) -> (tid: usize)
        requires
            old(self).wf(),
            old(self)@.ids.has_room(),
        ensures
            tid == old(self)@.ids.allocated_id(),
            final(self)@ == (ProcessModel { ids: old(self)@.ids.allocated(), ..old(self)@ }),
            final(self).wf(),
    {
        self.task_res_allocator.alloc_id()
    }

    /// deallocate a task id
    pub fn dealloc_tid(&mut self, tid: usize)
        requires
            old(self).wf(),
            old(self)@.ids.live(tid),
        ensures
            final(self)@ == (ProcessModel { ids: old(self)@.ids.freed(tid), ..old(self)@ }),
            final(self).wf(),
    {
        self.task_res_allocator.dealloc_id(tid)
    }

    /// the count of tasks(threads) in this process
    pub fn thread_count(&self) -> (n: usize)
        ensures
            n == self@.tasks.len(),
    {
        self.tasks.len()
    }

    /// get a task with tid in this process
    pub fn get_task(&self, tid: usize) -> (task: TaskControlBlock)
        requires
            tid < self@.tasks.len(),
            self@.tasks[tid as int] is Some,
        ensures
            self@.tasks[tid as int] == Some(task),
    {
        self.tasks[tid].unwrap()
    }
}

/// Process Control Block
pub struct ProcessControlBlock {
    /// immutable
    pub pid: PidHandle,
    /// mutable
    inner: ProcessControlBlockInner,
}

impl View for ProcessControlBlock {
    type V = ProcessModel;

    closed spec fn view(&self) -> ProcessModel {
        self.inner@
    }
}

impl ProcessControlBlock {
    /// The thread identifiers and the deadlock detection of the process are in order.
    pub closed spec fn wf(&self) -> bool {
        self.inner.wf()
    }

    /// The identifier of the process.
    pub closed spec fn id(&self) -> PidHandle {
        self.pid
    }

    /// The process that `new` hands to the maker of its main thread.
    pub open spec fn is_loaded(&self, pid: PidHandle, memory_set: MemorySet) -> bool {
        self.id() == pid && self@ == ProcessModel::loaded(memory_set) && self.wf()
    }

    /// The process that `fork` hands to the maker of its main thread: it has the files of its
    /// parent, and nothing else of it.
    pub open spec fn is_child(
        &self,
        pid: PidHandle,
        memory_set: MemorySet,
        parent_pid: PidHandle,
        parent: ProcessModel,
    ) -> bool {
        &&& self.id() == pid
        &&& self@ == ProcessModel::fresh(memory_set, Some(parent_pid.0), parent.fd_table)
        &&& self.wf()
    }

    /// inner_exclusive_access
    pub fn inner_exclusive_access(&mut self) -> (inner: &mut ProcessControlBlockInner)
        ensures
            inner@ == old(self)@,
            inner.wf() == old(self).wf(),
            final(self)@ == final(inner)@,
            final(self).wf() == final(inner).wf(),
            final(self).id() == old(self).id(),
    {
        &mut self.inner
    }

    /// A process that is to run a program, before it has a thread.
    pub fn load(pid: PidHandle, memory_set: MemorySet) -> (process: Self)
        ensures
            process.is_loaded(pid, memory_set),
    {
        let fd_table = vec![
            // 0 -> stdin
            Some(FileHandle::Stdin),
            // 1 -> stdout
            Some(FileHandle::Stdout),
            // 2 -> stderr
            Some(FileHandle::Stdout),
        ];
        let inner = ProcessControlBlockInner::fresh(memory_set, None, fd_table);
        assert(inner@ =~= ProcessModel::loaded(memory_set));
        ProcessControlBlock { pid, inner }
    }

    /// Add the main thread, which starts at `entry_point`.
    pub fn start_main_thread(
        &mut self,
        task: TaskControlBlock,
        entry_point: usize,
        kernel: KernelEntry,
    )
        ensures
            final(self)@ == old(self)@.with_task(started(task, entry_point, kernel)),
            final(self).id() == old(self).id(),
            final(self).wf() == old(self).wf(),
    {
        let mut task = task;
        task.trap_cx = TrapContext::app_init_context(
            entry_point,
            task.ustack_top,
            kernel.token,
            task.kstack_top,
            kernel.trap_handler,
        );
        self.inner.tasks.push(Some(task));
    }

    /// new process from elf file
    ///
    /// `make_task` makes the main thread. It is handed the process, the base of the user stacks,
    /// and that it is to allocate a user stack and a trap context.
    pub fn new<F>(
        image: ElfImage,
        pid: PidHandle,
        kernel: KernelEntry,
        make_task: F,
    ) -> (process: Self) where
        F: FnOnce(ProcessControlBlock, usize, bool) -> (ProcessControlBlock, TaskControlBlock),

        requires
            forall|p: ProcessControlBlock|
                p.is_loaded(pid, image.memory_set) ==> #[trigger] call_requires(
                    make_task,
                    (p, image.ustack_base, true),
                ),
        ensures
            exists|p: ProcessControlBlock, made: (ProcessControlBlock, TaskControlBlock)|
                p.is_loaded(pid, image.memory_set) && #[trigger] call_ensures(
                    make_task,
                    (p, image.ustack_base, true),
                    made,
                ) && process@ == made.0@.with_task(started(made.1, image.entry_point, kernel))
                    && process.id() == made.0.id() && process.wf() == made.0.wf(),
    {
        let loaded = ProcessControlBlock::load(pid, image.memory_set);
        let (process, task) = make_task(loaded, image.ustack_base, true);
        let mut process = process;
        process.start_main_thread(task, image.entry_point, kernel);
        process
    }

    /// Run another program on the one thread of the process.
    ///
    /// `task` is the thread with the user stack that was allocated for the new program. What is
    /// to be written to that stack is returned.
    pub fn replace_program(
        &mut self,
        image: ElfImage,
        args: &Vec<String>,
        task: TaskControlBlock,
        kernel: KernelEntry,
    ) -> (stack: ArgStack)
        requires
            old(self)@.single_threaded(),
            arguments::fits(task.ustack_top as int, arguments::arg_bytes(args@)),
        ensures
            stack.holds(task.ustack_top, arguments::arg_bytes(args@)),
            final(self)@ == old(self)@.running(
                image.memory_set,
                started_with_arguments(task, image.entry_point, kernel, args@.len(), stack),
            ),
            final(self).id() == old(self).id(),
            final(self).wf() == old(self).wf(),
    {
        let stack = ArgStack::lay_out(task.ustack_top, args);
        let mut task = task;
        task.trap_cx = TrapContext::app_init_context(
            image.entry_point,
            stack.user_sp,
            kernel.token,
            task.kstack_top,
            kernel.trap_handler,
        );
        task.trap_cx.a0 = args.len();
        task.trap_cx.a1 = stack.argv_base;
        self.inner.memory_set = image.memory_set;
        self.inner.tasks[0] = Some(task);
        stack
    }

    /// Only support processes with a single thread.
    ///
    /// `alloc_user_res` allocates the user stack and the trap context of the thread anew. It is
    /// handed the thread with the base of the new user stacks, and gives it back with the top of
    /// its own. What is to be written to that stack is returned.
    pub fn exec<F>(
        &mut self,
        image: ElfImage,
        args: Vec<String>,
        kernel: KernelEntry,
        alloc_user_res: F,
    ) -> (stack: ArgStack) where F: FnOnce(TaskControlBlock) -> TaskControlBlock
        requires
            old(self)@.single_threaded(),
            call_requires(
                alloc_user_res,
                (rebased(old(self)@.tasks[0]->0, image.ustack_base),),
            ),
            forall|task: TaskControlBlock|
                #[trigger] call_ensures(
                    alloc_user_res,
                    (rebased(old(self)@.tasks[0]->0, image.ustack_base),),
                    task,
                ) ==> arguments::fits(task.ustack_top as int, arguments::arg_bytes(args@)),
        ensures
            exists|task: TaskControlBlock|
                #[trigger] call_ensures(
                    alloc_user_res,
                    (rebased(old(self)@.tasks[0]->0, image.ustack_base),),
                    task,
                ) && stack.holds(task.ustack_top, arguments::arg_bytes(args@)) && final(self)@
                    == old(self)@.running(
                    image.memory_set,
                    started_with_arguments(task, image.entry_point, kernel, args@.len(), stack),
                ),
            final(self).id() == old(self).id(),
            final(self).wf() == old(self).wf(),
    {
        let mut task = self.inner.get_task(0);
        task.ustack_base = image.ustack_base;
        let task = alloc_user_res(task);
        self.replace_program(image, &args, task, kernel)
    }

    /// A copy of the process in `memory_set`, before it has a thread.
    pub fn spawn_child(&mut self, memory_set: MemorySet, pid: PidHandle) -> (child: Self)
        ensures
            child.is_child(pid, memory_set, old(self).id(), old(self)@),
            final(self)@ == (ProcessModel {
                children: old(self)@.children.push(pid.0),
                ..old(self)@
            }),
            final(self).id() == old(self).id(),
            final(self).wf() == old(self).wf(),
    {
        // copy fd table
        let mut new_fd_table: Vec<Option<FileHandle>> = Vec::new();
        let mut fd: usize = 0;
        while fd < self.inner.fd_table.len()
            invariant
                fd <= self.inner.fd_table.len(),
                new_fd_table@ == self.inner.fd_table@.take(fd as int),
            decreases self.inner.fd_table.len() - fd,
        {
            new_fd_table.push(self.inner.fd_table[fd]);
            fd = fd + 1;
            assert(new_fd_table@ =~= self.inner.fd_table@.take(fd as int));
        }
        assert(new_fd_table@ =~= self.inner.fd_table@);
        let inner = ProcessControlBlockInner::fresh(memory_set, Some(self.pid.0), new_fd_table);
        // add child
        self.inner.children.push(pid.0);
        ProcessControlBlock { pid, inner }
    }

    /// Add the thread that goes on where the thread of the copied process was.
    pub fn start_copied_thread(&mut self, task: TaskControlBlock)
        ensures
            final(self)@ == old(self)@.with_task(resumed(task)),
            final(self).id() == old(self).id(),
            final(self).wf() == old(self).wf(),
    {
        let mut task = task;
        task.trap_cx.kernel_sp = task.kstack_top;
        self.inner.tasks.push(Some(task));
    }

    /// Only support processes with a single thread.
    ///
    /// `memory_set` is a copy of the memory of the process. `make_task` makes the main thread of
    /// the child. It is handed the child, the base of the user stacks, and that it is not to
    /// allocate a user stack or a trap context, since the copy holds both.
    pub fn fork<F>(&mut self, memory_set: MemorySet, pid: PidHandle, make_task: F) -> (child:
        Self) where
        F: FnOnce(ProcessControlBlock, usize, bool) -> (ProcessControlBlock, TaskControlBlock),

        requires
            old(self)@.single_threaded(),
            forall|p: ProcessControlBlock|
                p.is_child(pid, memory_set, old(self).id(), old(self)@) ==> #[trigger] call_requires(
                    make_task,
                    (p, (old(self)@.tasks[0]->0).ustack_base, false),
                ),
        ensures
            exists|p: ProcessControlBlock, made: (ProcessControlBlock, TaskControlBlock)|
                p.is_child(pid, memory_set, old(self).id(), old(self)@) && #[trigger] call_ensures(
                    make_task,
                    (p, (old(self)@.tasks[0]->0).ustack_base, false),
                    made,
                ) && child@ == made.0@.with_task(resumed(made.1)) && child.id() == made.0.id()
                    && child.wf() == made.0.wf(),
            final(self)@ == (ProcessModel {
                children: old(self)@.children.push(pid.0),
                ..old(self)@
            }),
            final(self).id() == old(self).id(),
            final(self).wf() == old(self).wf(),
    {
        let child = self.spawn_child(memory_set, pid);
        let ustack_base = self.inner.get_task(0).ustack_base;
        assert(ustack_base == (old(self)@.tasks[0]->0).ustack_base);
        let (child, task) = make_task(child, ustack_base, false);
        let mut child = child;
        child.start_copied_thread(task);
        child
    }

    /// get pid
    pub fn getpid(&self) -> (pid: usize)
        ensures
            pid == self.id().0,
    {
        self.pid.0
    }
}

/// There is only one lowest free file descriptor.
pub proof fn law_lowest_free_is_unique(m: ProcessModel, a: int, b: int)
    requires
        m.is_lowest_free(a),
        m.is_lowest_free(b),
    ensures
        a == b,
{
    if a < b {
        assert(m.fd_table[a] is Some);
    }
    if b < a {
        assert(m.fd_table[b] is Some);
    }
}

/// A file descriptor that was allocated is free, and stays the one that is allocated until a file
/// is opened on it; after that a higher one is allocated.
pub proof fn law_descriptor_is_free_until_used(
    before: ProcessModel,
    after: ProcessModel,
    fd: int,
    file: FileHandle,
    later: int,
)
    requires
        before.is_lowest_free(fd),
        fd < before.fd_table.len() ==> after == before,
        fd == before.fd_table.len() ==> after == (ProcessModel {
            fd_table: before.fd_table.push(None),
            ..before
        }),
        (ProcessModel {
            fd_table: after.fd_table.update(fd, Some(file)),
            ..after
        }).is_lowest_free(later),
    ensures
        fd < after.fd_table.len(),
        after.fd_table[fd] is None,
        after.is_lowest_free(fd),
        later > fd,
{
    let opened = after.fd_table.update(fd, Some(file));
    if later == fd {
        assert(opened[fd] is Some);
    }
    if later < fd {
        assert(opened[later] == before.fd_table[later]);
    }
}

} // verus!
