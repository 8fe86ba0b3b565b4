# os_kernel

Process bookkeeping of a small kernel, written in Rust and verified with Verus.

- `src/sync/` keeps count of resources and detects deadlock by working out which processes can
  still finish. `DeadlockController` refuses a request that would close a deadlock.
- `src/task/` holds processes, their threads, the stride scheduler, and deadlock detection that
  follows who waits for whom.
- `src/syscall/` holds the process syscalls. What they need of the rest of the kernel is handed to
  them as closures or as plain values.
- `src/mm.rs`, `src/signed.rs` and `src/config.rs` hold what the others share.

Each executable function states in `requires` and `ensures` what it does. The contracts speak of
models (`ResourceModel`, `TrackerModel`, `MutexModel`, `SemaphoreModel`, `ProcessModel`): plain
sequences and maps that the types are seen as. What holds across several calls is stated in the
public proof functions whose names begin with `law_`.

`app/` is ordinary Rust around the library: the ready queue that the kernel shares, and the glue
between the syscalls and the hardware. `tests/` runs the library on concrete values.
