use os_kernel::mm::MemorySet;
use os_kernel::task::arguments::{arguments_fit, ArgStack};
use os_kernel::task::control::{KernelEntry, TaskControlBlock, TrapContext};
use os_kernel::task::id::{PidHandle, RecycleAllocator};
use os_kernel::task::manager::TaskManager;
use os_kernel::task::process::{ElfImage, FileHandle, ProcessControlBlock, SignalFlags};

const KERNEL: KernelEntry = KernelEntry { token: 0x80000, trap_handler: 0x8020_0000 };

fn blank_context() -> TrapContext {
    TrapContext::app_init_context(0, 0, 0, 0, 0)
}

fn thread(pid: usize, stride: usize) -> TaskControlBlock {
    TaskControlBlock {
        pid,
        tid: 0,
        stride,
        ustack_base: 0x1000,
        ustack_top: 0x3000,
        kstack_top: 0x9000,
        trap_cx: blank_context(),
    }
}

fn image() -> ElfImage {
    ElfImage { memory_set: MemorySet::new(17), ustack_base: 0x1000, entry_point: 0x400 }
}

/// A process with one thread, numbered by the process itself.
fn process(pid: usize) -> ProcessControlBlock {
    ProcessControlBlock::new(image(), PidHandle(pid), KERNEL, |mut p, ustack_base, fresh| {
        assert_eq!(p.getpid(), pid);
        assert_eq!(p.inner_exclusive_access().thread_count(), 0);
        assert_eq!(ustack_base, 0x1000);
        assert!(fresh);
        let tid = p.inner_exclusive_access().alloc_tid();
        (p, TaskControlBlock { tid, ustack_base, ..thread(pid, 0) })
    })
}

fn words(text: &[&str]) -> Vec<String> {
    text.iter().map(|s| s.to_string()).collect()
}

#[test]
fn queue_without_threads_gives_none() {
    let mut m = TaskManager::new();
    assert_eq!(m.fetch(), None);
    m.add(thread(1, 5));
    assert_eq!(m.fetch(), Some(thread(1, 5)));
    assert_eq!(m.fetch(), None);
}

#[test]
fn lowest_stride_runs_first() {
    let mut m = TaskManager::new();
    for (pid, stride) in [(1, 30), (2, 10), (3, 20), (4, 40)] {
        m.add(thread(pid, stride));
    }
    let order: Vec<usize> = (0..4).filter_map(|_| m.fetch().map(|t| t.getpid())).collect();
    assert_eq!(order, vec![2, 3, 1, 4]);
}

#[test]
fn equal_strides_run_by_pid() {
    let mut m = TaskManager::new();
    for pid in [9, 4, 7] {
        m.add(thread(pid, 3));
    }
    m.add(thread(12, 2));
    let order: Vec<usize> = (0..4).filter_map(|_| m.fetch().map(|t| t.getpid())).collect();
    assert_eq!(order, vec![12, 4, 7, 9]);
}

#[test]
fn equal_threads_run_in_turn() {
    let mut m = TaskManager::new();
    for tid in [2, 0, 1] {
        m.add(TaskControlBlock { tid, ..thread(5, 8) });
    }
    let order: Vec<usize> = (0..3).filter_map(|_| m.fetch().map(|t| t.tid)).collect();
    assert_eq!(order, vec![2, 0, 1]);
}

#[test]
fn fetches_come_in_order_and_lose_nothing() {
    let mut m = TaskManager::new();
    let mut seed: u32 = 3;
    let mut added: Vec<(usize, usize)> = Vec::new();
    for _ in 0..50 {
        seed = seed.wrapping_mul(1_664_525).wrapping_add(1_013_904_223);
        let key = ((seed >> 16) as usize % 5, (seed >> 24) as usize % 7);
        added.push(key);
        m.add(thread(key.1, key.0));
    }
    let mut fetched: Vec<(usize, usize)> = Vec::new();
    while let Some(t) = m.fetch() {
        fetched.push((t.stride_value(), t.getpid()));
    }
    added.sort();
    assert_eq!(fetched, added);
}

#[test]
fn identifiers_are_reused() {
    let mut a = RecycleAllocator::new();
    assert_eq!(a.alloc_id(), 0);
    assert_eq!(a.alloc_id(), 1);
    assert_eq!(a.alloc_id(), 2);
    a.dealloc_id(0);
    a.dealloc_id(1);
    assert_eq!(a.alloc_id(), 1);
    assert_eq!(a.alloc_id(), 0);
    assert_eq!(a.alloc_id(), 3);
}

#[test]
fn new_process_has_one_thread() {
    let mut p = process(6);
    assert_eq!(p.getpid(), 6);
    assert_eq!(p.pid, PidHandle(6));
    let inner = p.inner_exclusive_access();
    assert_eq!(inner.thread_count(), 1);
    assert_eq!(inner.get_user_token(), 17);
    assert!(!inner.is_zombie);
    assert_eq!(inner.parent, None);
    assert!(inner.children.is_empty());
    assert_eq!(inner.exit_code, 0);
    assert_eq!(inner.signals, SignalFlags::empty());
    assert_eq!(
        inner.fd_table,
        vec![Some(FileHandle::Stdin), Some(FileHandle::Stdout), Some(FileHandle::Stdout)]
    );
    let task = inner.get_task(0);
    assert_eq!(task.tid, 0);
    assert_eq!(
        task.trap_cx,
        TrapContext {
            entry_point: 0x400,
            user_sp: 0x3000,
            a0: 0,
            a1: 0,
            kernel_token: 0x80000,
            kernel_sp: 0x9000,
            trap_handler: 0x8020_0000,
        }
    );
    assert_eq!(inner.alloc_tid(), 1);
}

#[test]
fn loaded_process_has_no_thread() {
    let mut p = ProcessControlBlock::load(PidHandle(2), MemorySet::new(5));
    assert_eq!(p.inner_exclusive_access().thread_count(), 0);
    p.start_main_thread(thread(2, 0), 0x77, KERNEL);
    assert_eq!(p.inner_exclusive_access().get_task(0).trap_cx.entry_point, 0x77);
}

#[test]
fn lowest_descriptor_is_allocated() {
    let mut p = process(1);
    let inner = p.inner_exclusive_access();
    assert_eq!(inner.alloc_fd(), 3);
    // It stays free until a file is opened on it.
    assert_eq!(inner.alloc_fd(), 3);
    inner.fd_table[3] = Some(FileHandle::Other(9));
    assert_eq!(inner.alloc_fd(), 4);
    inner.fd_table[1] = None;
    assert_eq!(inner.alloc_fd(), 1);
    assert_eq!(inner.fd_table.len(), 5);
}

#[test]
fn thread_identifiers_are_reused() {
    let mut p = process(1);
    let inner = p.inner_exclusive_access();
    assert_eq!(inner.alloc_tid(), 1);
    assert_eq!(inner.alloc_tid(), 2);
    inner.dealloc_tid(1);
    assert_eq!(inner.alloc_tid(), 1);
    assert_eq!(inner.alloc_tid(), 3);
}

#[test]
fn child_has_the_files_of_its_parent() {
    let mut parent = process(1);
    {
        let inner = parent.inner_exclusive_access();
        inner.fd_table[1] = None;
        inner.fd_table.push(Some(FileHandle::Other(4)));
        inner.deadlock.set_enabled(true);
        inner.mutex_list.push(Some(0));
        inner.exit_code = 3;
        if let Some(task) = inner.tasks[0].as_mut() {
            task.trap_cx.a0 = 99;
        }
    }
    let parent_task = parent.inner_exclusive_access().get_task(0);
    let mut child = parent.fork(MemorySet::new(18), PidHandle(8), |mut p, ustack_base, fresh| {
        assert!(!fresh);
        assert_eq!(p.getpid(), 8);
        let tid = p.inner_exclusive_access().alloc_tid();
        let task = TaskControlBlock { pid: 8, tid, ustack_base, kstack_top: 0xa000, ..parent_task };
        (p, task)
    });
    assert_eq!(child.getpid(), 8);
    let inner = child.inner_exclusive_access();
    assert_eq!(
        inner.fd_table,
        vec![
            Some(FileHandle::Stdin),
            None,
            Some(FileHandle::Stdout),
            Some(FileHandle::Other(4))
        ]
    );
    assert_eq!(inner.parent, Some(1));
    assert_eq!(inner.get_user_token(), 18);
    assert_eq!(inner.exit_code, 0);
    assert!(inner.mutex_list.is_empty());
    assert_eq!(inner.thread_count(), 1);
    let task = inner.get_task(0);
    assert_eq!(task.ustack_base, 0x1000);
    assert_eq!(task.trap_cx, TrapContext { kernel_sp: 0xa000, ..parent_task.trap_cx });
    let inner = parent.inner_exclusive_access();
    assert_eq!(inner.children, vec![8]);
    assert_eq!(inner.get_task(0), parent_task);
    assert_eq!(inner.get_user_token(), 17);
}

#[test]
fn exec_replaces_the_program() {
    let mut p = process(1);
    p.inner_exclusive_access().fd_table[2] = None;
    p.inner_exclusive_access().children.push(5);
    let word = std::mem::size_of::<usize>();
    let program =
        ElfImage { memory_set: MemorySet::new(30), ustack_base: 0x5000, entry_point: 0x600 };
    let stack = p.exec(program, words(&["cat", "a"]), KERNEL, |task| {
        assert_eq!(task.ustack_base, 0x5000);
        TaskControlBlock { ustack_top: 0x7000, ..task }
    });
    assert_eq!(stack.argv_base, 0x7000 - 3 * word);
    assert_eq!(stack.argv, vec![stack.argv_base - 4, stack.argv_base - 6, 0]);
    assert_eq!(stack.strings_base, stack.argv_base - 6);
    assert_eq!(stack.strings, b"a\0cat\0".to_vec());
    assert_eq!(stack.user_sp, stack.argv_base - word);
    assert_eq!(p.getpid(), 1);
    let inner = p.inner_exclusive_access();
    assert_eq!(inner.get_user_token(), 30);
    assert_eq!(inner.fd_table[2], None);
    assert_eq!(inner.children, vec![5]);
    let task = inner.get_task(0);
    assert_eq!(task.ustack_base, 0x5000);
    assert_eq!(
        task.trap_cx,
        TrapContext {
            entry_point: 0x600,
            user_sp: stack.user_sp,
            a0: 2,
            a1: stack.argv_base,
            kernel_token: 0x80000,
            kernel_sp: 0x9000,
            trap_handler: 0x8020_0000,
        }
    );
}

#[test]
fn program_without_arguments() {
    let word = std::mem::size_of::<usize>();
    let stack = ArgStack::lay_out(0x1000, &Vec::new());
    assert_eq!(stack.argv, vec![0]);
    assert_eq!(stack.argv_base, 0x1000 - word);
    assert_eq!(stack.strings, Vec::new());
    assert_eq!(stack.user_sp, 0x1000 - word);
}

#[test]
fn arguments_are_found_on_the_stack() {
    let word = std::mem::size_of::<usize>();
    let args = words(&["", "h\u{e9}llo", "x", "a longer argument"]);
    let stack = ArgStack::lay_out(0x2000, &args);
    assert_eq!(stack.argv.len(), 5);
    let mut end = stack.argv_base;
    for (i, arg) in args.iter().enumerate() {
        let at = stack.argv[i] - stack.strings_base;
        assert_eq!(&stack.strings[at..at + arg.len()], arg.as_bytes());
        assert_eq!(stack.strings[at + arg.len()], 0);
        assert_eq!(stack.argv[i] + arg.len() + 1, end);
        end = stack.argv[i];
    }
    assert_eq!(end, stack.strings_base);
    assert_eq!(stack.argv_base + 5 * word, 0x2000);
    assert_eq!(stack.user_sp % word, 0);
    assert!(stack.user_sp <= stack.strings_base && stack.strings_base - stack.user_sp < word);
}

#[test]
fn arguments_need_room() {
    let word = std::mem::size_of::<usize>();
    let args = words(&["ab"]);
    assert!(arguments_fit(2 * word + 3, &args));
    assert!(!arguments_fit(2 * word + 2, &args));
    assert!(!arguments_fit(2 * word - 1, &args));
    let stack = ArgStack::lay_out(2 * word + 3, &args);
    assert_eq!(stack.strings_base, 0);
    assert_eq!(stack.user_sp, 0);
    assert!(arguments_fit(word, &Vec::new()));
    assert!(!arguments_fit(0, &Vec::new()));
}
