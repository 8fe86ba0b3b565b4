//! Deadlock detection for the mutexes and semaphores of one process, by the waits of its threads.

use crate::task::mutex_deadlock::{MutexDeadlockState, MutexModel};
use crate::task::semaphore_deadlock::{SemaphoreDeadlockState, SemaphoreModel};
use vstd::prelude::*;

verus! {

/// What a [`DeadlockState`] records: whether detection is on, who owns and waits for mutexes, and
/// who holds and waits for units of semaphores.
#[verifier::ext_equal]
pub struct DeadlockModel {
    pub enabled: bool,
    pub mutex: MutexModel,
    pub semaphore: SemaphoreModel,
}

impl DeadlockModel {
    /// Detection is off and nothing is known.
    pub open spec fn empty() -> DeadlockModel {
        DeadlockModel {
            enabled: false,
            mutex: MutexModel::empty(),
            semaphore: SemaphoreModel::empty(),
        }
    }
}

/// Deadlock detection state of a process.
pub struct DeadlockState {
    enabled: bool,
    mutex: MutexDeadlockState,
    semaphore: SemaphoreDeadlockState,
}

impl View for DeadlockState {
    type V = DeadlockModel;

    closed spec fn view(&self) -> DeadlockModel {
        DeadlockModel { enabled: self.enabled, mutex: self.mutex@, semaphore: self.semaphore@ }
    }
}

impl Default for DeadlockState {
    fn default() -> (d: Self)
        ensures
            d.wf(),
            d@ == DeadlockModel::empty(),
    {
        DeadlockState {
            enabled: false,
            mutex: MutexDeadlockState::new(),
            semaphore: SemaphoreDeadlockState::new(),
        }
    }
}

impl DeadlockState {
    /// Every thread that holds something has an entry for each semaphore.
    pub open spec fn wf(&self) -> bool {
        self@.semaphore.wf()
    }

    /// A state with detection off, in which nothing is known.
    pub fn new() -> (d: Self)
        ensures
            d.wf(),
            d@ == DeadlockModel::empty(),
    {
        DeadlockState::default()
    }

    /// Turn detection on or off.
    pub fn set_enabled(&mut self, enabled: bool)
        ensures
            final(self)@ == (DeadlockModel { enabled, ..old(self)@ }),
    {
        self.enabled = enabled;
    }

    /// Register (or reset) a mutex: nobody owns it or waits for it.
    pub fn register_mutex(&mut self, mutex_id: usize)
        requires
            mutex_id < usize::MAX,
        ensures
            final(self)@ == (DeadlockModel {
                mutex: old(self)@.mutex.registered(mutex_id),
                ..old(self)@
            }),
    {
        self.mutex.register(mutex_id);
    }

    /// Register (or reset) a semaphore with `initial` units, which nobody holds or waits for.
    pub fn register_semaphore(&mut self, sem_id: usize, initial: usize)
        requires
            old(self).wf(),
            sem_id < usize::MAX,
        ensures
            final(self).wf(),
            final(self)@ == (DeadlockModel {
                semaphore: old(self)@.semaphore.registered(sem_id, initial),
                ..old(self)@
            }),
    {
        self.semaphore.register(sem_id, initial);
    }

    /// Prepare to lock a mutex. Where it has an owner the thread waits, unless detection is on
    /// and that would close a circle of waits.
    pub fn before_mutex_lock(&mut self, tid: usize, mutex_id: usize) -> (answer: Result<(), ()>)
        requires
            mutex_id < usize::MAX,
        ensures
            answer == if old(self)@.mutex.refuses(old(self)@.enabled, tid, mutex_id) {
                Err::<(), ()>(())
            } else {
                Ok(())
            },
            final(self)@ == (DeadlockModel {
                mutex: old(self)@.mutex.requested(old(self)@.enabled, tid, mutex_id),
                ..old(self)@
            }),
    {
        self.mutex.before_lock(self.enabled, tid, mutex_id)
    }

    /// Record that the thread owns the mutex.
    pub fn after_mutex_lock(&mut self, tid: usize, mutex_id: usize)
        requires
            mutex_id < usize::MAX,
        ensures
            final(self)@ == (DeadlockModel {
                mutex: old(self)@.mutex.locked(tid, mutex_id),
                ..old(self)@
            }),
    {
        self.mutex.after_lock(tid, mutex_id);
    }

    /// Record that the thread unlocked the mutex.
    pub fn mutex_unlock(&mut self, tid: usize, mutex_id: usize)
        ensures
            final(self)@ == (DeadlockModel {
                mutex: old(self)@.mutex.unlocked(tid, mutex_id),
                ..old(self)@
            }),
    {
        self.mutex.unlock(tid, mutex_id);
    }

    /// Prepare to take a unit of a semaphore. Returns whether one is free; where none is the
    /// thread waits, unless detection is on and that would deadlock some thread.
    pub fn before_semaphore_down(&mut self, tid: usize, sem_id: usize) -> (answer: Result<
        bool,
        (),
    >)
        requires
            old(self).wf(),
            sem_id < usize::MAX,
            old(self)@.semaphore.request_fits(old(self)@.enabled, tid, sem_id),
        ensures
            final(self).wf(),
            answer == old(self)@.semaphore.down_answer(old(self)@.enabled, tid, sem_id),
            final(self)@ == (DeadlockModel {
                semaphore: old(self)@.semaphore.after_request(old(self)@.enabled, tid, sem_id),
                ..old(self)@
            }),
    {
        self.semaphore.before_down(self.enabled, tid, sem_id)
    }

    /// Record that the thread took a unit of the semaphore.
    pub fn after_semaphore_down(&mut self, tid: usize, sem_id: usize, immediate: bool)
        requires
            old(self).wf(),
            sem_id < usize::MAX,
            old(self)@.semaphore.covering(sem_id).available[sem_id as int] > isize::MIN,
            old(self)@.semaphore.covering(sem_id).holding(tid, sem_id as int) < usize::MAX,
        ensures
            final(self).wf(),
            final(self)@ == (DeadlockModel {
                semaphore: old(self)@.semaphore.taken(tid, sem_id),
                ..old(self)@
            }),
    {
        self.semaphore.after_down(tid, sem_id, immediate);
    }

    /// Record that the thread gave a unit to the semaphore.
    pub fn semaphore_up(&mut self, tid: usize, sem_id: usize)
        requires
            old(self).wf(),
            sem_id < usize::MAX,
            old(self)@.semaphore.covering(sem_id).available[sem_id as int] < isize::MAX,
        ensures
            final(self).wf(),
            final(self)@ == (DeadlockModel {
                semaphore: old(self)@.semaphore.given(tid, sem_id),
                ..old(self)@
            }),
    {
        self.semaphore.up(tid, sem_id);
    }

    /// Forget a thread that exits; what it owned and held is free again.
    pub fn cleanup_thread(&mut self, tid: usize)
        requires
            old(self).wf(),
            forall|s: int|
                0 <= s < old(self)@.semaphore.available.len() ==> isize::MIN <= #[trigger] old(
                    self,
                )@.semaphore.returned(tid, s) <= isize::MAX,
        ensures
            final(self).wf(),
            final(self)@ == (DeadlockModel {
                enabled: old(self)@.enabled,
                mutex: old(self)@.mutex.without_thread(tid),
                semaphore: old(self)@.semaphore.without_thread(tid),
            }),
    {
        self.mutex.cleanup_thread(tid);
        self.semaphore.cleanup_thread(tid);
    }
}

} // verus!
