//! Deadlock detection for the mutexes and semaphores of one process.

use crate::sync::resource_model;
use crate::sync::resource_tracker::{ResourceTracker, TrackerModel, INVALID_ID};
use vstd::prelude::*;

verus! {

/// What a [`DeadlockController`] records: whether detection is on, and the holdings and needs
/// of each thread, for mutexes and for semaphores.
#[verifier::ext_equal]
pub struct ControllerModel {
    pub enabled: bool,
    pub mutexes: TrackerModel,
    pub semaphores: TrackerModel,
}

/// There is one unit of each mutex, and no thread holds more than that.
pub open spec fn single_units(t: TrackerModel) -> bool {
    &&& forall|r: int|
        0 <= r < t.resources.totals.len() ==> #[trigger] t.resources.totals[r] == 1
    &&& forall|p: int, r: int|
        0 <= p < t.resources.allocation.len() && 0 <= r < t.resources.totals.len()
            ==> #[trigger] t.resources.allocation[p][r] <= 1
}

impl ControllerModel {
    /// Both records are sound and mutexes have single units.
    pub open spec fn wf(self) -> bool {
        &&& self.mutexes.wf()
        &&& self.semaphores.wf()
        &&& single_units(self.mutexes)
    }

    /// The record with rows for thread `tid`.
    pub open spec fn with_thread(self, tid: usize) -> ControllerModel {
        ControllerModel {
            mutexes: self.mutexes.with_process(tid),
            semaphores: self.semaphores.with_process(tid),
            ..self
        }
    }

    /// The record with another record of the mutexes.
    pub open spec fn with_mutexes(self, mutexes: TrackerModel) -> ControllerModel {
        ControllerModel { mutexes, ..self }
    }

    /// The record with another record of the semaphores.
    pub open spec fn with_semaphores(self, semaphores: TrackerModel) -> ControllerModel {
        ControllerModel { semaphores, ..self }
    }
}

/// The answer to an operation on a resource that need only be registered.
pub open spec fn known(t: TrackerModel, external_id: usize) -> Result<(), isize> {
    match t.resource_id(external_id) {
        Some(_) => Ok(()),
        None => Err(INVALID_ID),
    }
}

/// The record in which `tid`, which has a row, needs nothing more of `external_id` and holds
/// `value` units of it, where that is registered.
pub open spec fn settled(t: TrackerModel, tid: usize, external_id: usize, value: usize) -> TrackerModel {
    match t.resource_id(external_id) {
        Some(r) => t.with_need(tid, r, 0).with_allocation(tid, r, value),
        None => t,
    }
}

/// The units of `external_id` that `tid`, which has a row, holds.
pub open spec fn held_by(t: TrackerModel, tid: usize, external_id: usize) -> usize {
    match t.resource_id(external_id) {
        Some(r) => t.holding(tid, r),
        None => 0,
    }
}

/// The record after `tid`, which has a row, gave back a unit of `external_id`.
pub open spec fn given_back(t: TrackerModel, tid: usize, external_id: usize) -> TrackerModel {
    match t.resource_id(external_id) {
        Some(r) => t.with_allocation(
            tid,
            r,
            resource_model::saturating_difference(t.holding(tid, r), 1),
        ),
        None => t,
    }
}

/// Where every thread holds at most one unit, the units held can be counted.
proof fn lemma_single_units_fit(t: TrackerModel)
    requires
        t.wf(),
        single_units(t),
    ensures
        t.resources.allocations_fit(),
{
    let m = t.resources;
    assert forall|r: int| 0 <= r < m.totals.len() implies #[trigger] m.allocated(r)
        <= usize::MAX by {
        resource_model::lemma_unit_column_sum(m.allocation, r);
    }
}

/// A new row changes no count of units.
proof fn lemma_row_keeps_counts(t: TrackerModel, tid: usize)
    requires
        t.wf(),
    ensures
        forall|r: int|
            0 <= r < t.resources.totals.len() ==> #[trigger] t.with_process(
                tid,
            ).resources.allocated(r) == t.resources.allocated(r),
{
    let m = t.resources;
    assert forall|r: int| 0 <= r < m.totals.len() implies #[trigger] t.with_process(
        tid,
    ).resources.allocated(r) == m.allocated(r) by {
        resource_model::lemma_padded_sum(m.allocation, tid, m.totals.len(), r);
    }
}

/// Per-process controller to toggle deadlock detection and bookkeep resources.
#[derive(Clone, Debug)]
pub struct DeadlockController {
    enabled: bool,
    mutex_tracker: ResourceTracker,
    semaphore_tracker: ResourceTracker,
}

impl View for DeadlockController {
    type V = ControllerModel;

    closed spec fn view(&self) -> ControllerModel {
        ControllerModel {
            enabled: self.enabled,
            mutexes: self.mutex_tracker@,
            semaphores: self.semaphore_tracker@,
        }
    }
}

impl Default for DeadlockController {
    fn default() -> (c: Self)
        ensures
            c.wf(),
            c@ == (ControllerModel {
                enabled: false,
                mutexes: TrackerModel::empty(),
                semaphores: TrackerModel::empty(),
            }),
    {
        DeadlockController::new()
    }
}

impl DeadlockController {
    /// Both trackers are sound and mutexes have single units.
    pub open spec fn wf(&self) -> bool {
        self@.wf()
    }

    /// Create a new controller with detection disabled.
    pub fn new() -> (c: Self)
        ensures
            c.wf(),
            c@ == (ControllerModel {
                enabled: false,
                mutexes: TrackerModel::empty(),
                semaphores: TrackerModel::empty(),
            }),
    {
        DeadlockController {
            enabled: false,
            mutex_tracker: ResourceTracker::new(),
            semaphore_tracker: ResourceTracker::new(),
        }
    }

    /// Query whether detection is enabled.
    pub fn enabled(&self) -> (b: bool)
        ensures
            b == self@.enabled,
    {
        self.enabled
    }

    /// Enable or disable detection. When disabling, outstanding needs are cleared.
    pub fn set_enabled(&mut self, enabled: bool)
        requires
            old(self).wf(),
        ensures
            final(self).wf(),
            enabled ==> final(self)@ == (ControllerModel { enabled: true, ..old(self)@ }),
            !enabled ==> final(self)@ == (ControllerModel {
                enabled: false,
                mutexes: old(self)@.mutexes.without_needs(),
                semaphores: old(self)@.semaphores.without_needs(),
            }),
    {
        self.enabled = enabled;
        if !enabled {
            self.mutex_tracker.clear_all_needs();
            self.semaphore_tracker.clear_all_needs();
        }
    }

    /// Ensure per-thread rows exist for tid.
    pub fn ensure_thread(&mut self, tid: usize)
        requires
            old(self).wf(),
            tid < usize::MAX,
        ensures
            final(self).wf(),
            final(self)@ == old(self)@.with_thread(tid),
    {
        self.mutex_tracker.ensure_process(tid);
        self.semaphore_tracker.ensure_process(tid);
    }

    /// Register (or reset) a mutex resource. Returns internal resource id.
    pub fn register_mutex(&mut self, mutex_id: usize) -> (res_id: usize)
        requires
            old(self).wf(),
            mutex_id < usize::MAX,
        ensures
            final(self).wf(),
            final(self)@ == old(self)@.with_mutexes(
                old(self)@.mutexes.with_registered(mutex_id, 1),
            ),
            res_id == old(self)@.mutexes.registered_id(mutex_id),
            old(self)@.mutexes.resource_id(mutex_id) is None ==> res_id
                == old(self)@.mutexes.resources.totals.len(),
    {
        self.mutex_tracker.register(mutex_id, 1)
    }

    /// Register (or reset) a semaphore resource. Returns internal resource id.
    pub fn register_semaphore(&mut self, sem_id: usize, total: usize) -> (res_id: usize)
        requires
            old(self).wf(),
            sem_id < usize::MAX,
        ensures
            final(self).wf(),
            final(self)@ == old(self)@.with_semaphores(
                old(self)@.semaphores.with_registered(sem_id, total),
            ),
            res_id == old(self)@.semaphores.registered_id(sem_id),
            old(self)@.semaphores.resource_id(sem_id) is None ==> res_id
                == old(self)@.semaphores.resources.totals.len(),
    {
        self.semaphore_tracker.register(sem_id, total)
    }

    /// Prepare to lock a mutex. Returns Err if invalid id or deadlock detected.
    pub fn before_mutex_lock(&mut self, tid: usize, mutex_id: usize) -> (answer: Result<(), isize>)
        requires
            old(self).wf(),
            tid < usize::MAX,
        ensures
            final(self).wf(),
            answer == old(self)@.with_thread(tid).mutexes.request_answer(
                old(self)@.enabled,
                tid,
                mutex_id,
            ),
            final(self)@ == old(self)@.with_thread(tid).with_mutexes(
                old(self)@.with_thread(tid).mutexes.after_request(
                    old(self)@.enabled,
                    tid,
                    mutex_id,
                ),
            ),
    {
        self.ensure_thread(tid);
        proof {
            lemma_single_units_fit(self@.mutexes);
        }
        self.mutex_tracker.request(self.enabled, tid, mutex_id)
    }

    /// Record that the mutex lock has been acquired.
    pub fn after_mutex_lock(&mut self, tid: usize, mutex_id: usize) -> (answer: Result<(), isize>)
        requires
            old(self).wf(),
            tid < usize::MAX,
        ensures
            final(self).wf(),
            answer == known(old(self)@.mutexes, mutex_id),
            final(self)@ == old(self)@.with_thread(tid).with_mutexes(
                settled(old(self)@.with_thread(tid).mutexes, tid, mutex_id, 1),
            ),
    {
        self.ensure_thread(tid);
        self.settle_mutex(tid, mutex_id, 1)
    }

    /// Record that the mutex has been unlocked.
    pub fn after_mutex_unlock(&mut self, tid: usize, mutex_id: usize) -> (answer: Result<(), isize>)
        requires
            old(self).wf(),
            tid < usize::MAX,
        ensures
            final(self).wf(),
            answer == known(old(self)@.mutexes, mutex_id),
            final(self)@ == old(self)@.with_thread(tid).with_mutexes(
                settled(old(self)@.with_thread(tid).mutexes, tid, mutex_id, 0),
            ),
    {
        self.ensure_thread(tid);
        self.settle_mutex(tid, mutex_id, 0)
    }

    /// Record that `tid`, which has rows, waits no more for a mutex and holds `value` of it.
    fn settle_mutex(&mut self, tid: usize, mutex_id: usize, value: usize) -> (answer: Result<
        (),
        isize,
    >)
        requires
            old(self).wf(),
            tid < usize::MAX,
            tid < old(self)@.mutexes.resources.allocation.len(),
            value <= 1,
        ensures
            final(self).wf(),
            answer == known(old(self)@.mutexes, mutex_id),
            final(self)@ == old(self)@.with_mutexes(
                settled(old(self)@.mutexes, tid, mutex_id, value),
            ),
    {
        let ghost start = self@.mutexes;
        let res_id = match self.mutex_tracker.resource_id(mutex_id) {
            Some(res_id) => res_id,
            None => {
                return Err(INVALID_ID);
            },
        };
        self.mutex_tracker.set_need(tid, res_id, 0);
        assert(start.with_process(tid) =~= start);
        let ghost idle = self@.mutexes;
        self.mutex_tracker.set_allocation(tid, res_id, value);
        assert(idle.with_process(tid) =~= idle);
        Ok(())
    }

    /// Prepare to perform semaphore down. Returns Err if invalid id or deadlock detected.
    pub fn before_semaphore_down(&mut self, tid: usize, sem_id: usize) -> (answer: Result<
        (),
        isize,
    >)
        requires
            old(self).wf(),
            tid < usize::MAX,
            old(self)@.semaphores.request_fits(old(self)@.enabled, sem_id),
        ensures
            final(self).wf(),
            answer == old(self)@.with_thread(tid).semaphores.request_answer(
                old(self)@.enabled,
                tid,
                sem_id,
            ),
            final(self)@ == old(self)@.with_thread(tid).with_semaphores(
                old(self)@.with_thread(tid).semaphores.after_request(
                    old(self)@.enabled,
                    tid,
                    sem_id,
                ),
            ),
    {
        let ghost start = self@.semaphores;
        self.ensure_thread(tid);
        proof {
            lemma_row_keeps_counts(start, tid);
        }
        self.semaphore_tracker.request(self.enabled, tid, sem_id)
    }

    /// Record completion of semaphore down.
    pub fn after_semaphore_down(&mut self, tid: usize, sem_id: usize) -> (answer: Result<
        (),
        isize,
    >)
        requires
            old(self).wf(),
            tid < usize::MAX,
        ensures
            final(self).wf(),
            answer == known(old(self)@.semaphores, sem_id),
            final(self)@ == old(self)@.with_thread(tid).with_semaphores(
                settled(
                    old(self)@.with_thread(tid).semaphores,
                    tid,
                    sem_id,
                    resource_model::saturating_sum(
                        held_by(old(self)@.with_thread(tid).semaphores, tid, sem_id),
                        1,
                    ),
                ),
            ),
    {
        self.ensure_thread(tid);
        let ghost start = self@.semaphores;
        let res_id = match self.semaphore_tracker.resource_id(sem_id) {
            Some(res_id) => res_id,
            None => {
                return Err(INVALID_ID);
            },
        };
        self.semaphore_tracker.set_need(tid, res_id, 0);
        assert(start.with_process(tid) =~= start);
        let ghost idle = self@.semaphores;
        self.semaphore_tracker.add_allocation(tid, res_id, 1);
        assert(idle.with_process(tid) =~= idle);
        Ok(())
    }

    /// Record completion of semaphore up (release one unit).
    pub fn after_semaphore_up(&mut self, tid: usize, sem_id: usize) -> (answer: Result<(), isize>)
        requires
            old(self).wf(),
            tid < usize::MAX,
        ensures
            final(self).wf(),
            answer == known(old(self)@.semaphores, sem_id),
            final(self)@ == old(self)@.with_thread(tid).with_semaphores(
                given_back(old(self)@.with_thread(tid).semaphores, tid, sem_id),
            ),
    {
        self.ensure_thread(tid);
        let ghost start = self@.semaphores;
        let res_id = match self.semaphore_tracker.resource_id(sem_id) {
            Some(res_id) => res_id,
            None => {
                return Err(INVALID_ID);
            },
        };
        self.semaphore_tracker.sub_allocation(tid, res_id, 1);
        assert(start.with_process(tid) =~= start);
        Ok(())
    }

    /// Remove bookkeeping entries related to a thread that is exiting.
    pub fn cleanup_thread(&mut self, tid: usize)
        requires
            old(self).wf(),
        ensures
            final(self).wf(),
            final(self)@ == (ControllerModel {
                enabled: old(self)@.enabled,
                mutexes: old(self)@.mutexes.without_process(tid),
                semaphores: old(self)@.semaphores.without_process(tid),
            }),
    {
        self.mutex_tracker.clear_process(tid);
        self.semaphore_tracker.clear_process(tid);
    }
}

} // verus!
