//! Resources by the ids under which user space knows them.

use crate::sync::resource_manager::{DeadlockState, ResourceManager};
use crate::sync::resource_model;
use crate::sync::resource_model::ResourceModel;
use vstd::prelude::*;

verus! {

/// `mapping` with entries up to and including `id`; new entries are unset.
pub open spec fn padded_mapping(mapping: Seq<Option<usize>>, id: usize) -> Seq<Option<usize>> {
    if mapping.len() <= id {
        mapping + Seq::new((id + 1 - mapping.len()) as nat, |i: int| None::<usize>)
    } else {
        mapping
    }
}

/// What a [`ResourceTracker`] records: the internal resource of each user-visible id, and the
/// record of the internal resources.
#[verifier::ext_equal]
pub struct TrackerModel {
    pub mapping: Seq<Option<usize>>,
    pub resources: ResourceModel,
}

impl TrackerModel {
    /// Every registered id stands for an internal resource of its own, and every internal
    /// resource is registered.
    pub open spec fn wf(self) -> bool {
        &&& self.resources.wf()
        &&& forall|e: int|
            0 <= e < self.mapping.len() && (#[trigger] self.mapping[e]) is Some
                ==> self.mapping[e]->0 < self.resources.totals.len()
        &&& forall|e: int, f: int|
            0 <= e < self.mapping.len() && 0 <= f < self.mapping.len() && e != f && (
            #[trigger] self.mapping[e]) is Some ==> self.mapping[e] != #[trigger] self.mapping[f]
        &&& forall|r: usize|
            r < self.resources.totals.len() ==> #[trigger] self.mapping.contains(Some(r))
    }

    /// Nothing is registered.
    pub open spec fn empty() -> TrackerModel {
        TrackerModel { mapping: Seq::empty(), resources: ResourceModel::empty() }
    }

    /// The internal resource of a user-visible id.
    pub open spec fn resource_id(self, external_id: usize) -> Option<usize> {
        if external_id < self.mapping.len() {
            self.mapping[external_id as int]
        } else {
            None
        }
    }

    /// The internal resource that `external_id` stands for once it is registered.
    pub open spec fn registered_id(self, external_id: usize) -> usize {
        match self.resource_id(external_id) {
            Some(r) => r,
            None => self.resources.totals.len() as usize,
        }
    }

    /// The record after registering `external_id` with `total` units: a known resource starts
    /// over, an unknown one gets a new internal resource.
    pub open spec fn with_registered(self, external_id: usize, total: usize) -> TrackerModel {
        TrackerModel {
            mapping: padded_mapping(self.mapping, external_id).update(
                external_id as int,
                Some(self.registered_id(external_id)),
            ),
            resources: match self.resource_id(external_id) {
                Some(r) => self.resources.with_reset(r, total),
                None => self.resources.with_resource(total),
            },
        }
    }

    /// The record with a row for `pid`.
    pub open spec fn with_process(self, pid: usize) -> TrackerModel {
        TrackerModel { resources: self.resources.with_process(pid), ..self }
    }

    /// The record in which `pid` needs `value` units of `r`.
    pub open spec fn with_need(self, pid: usize, r: usize, value: usize) -> TrackerModel {
        TrackerModel { resources: self.resources.with_need(pid, r, value), ..self }
    }

    /// The record in which `pid` holds `value` units of `r`.
    pub open spec fn with_allocation(self, pid: usize, r: usize, value: usize) -> TrackerModel {
        TrackerModel { resources: self.resources.with_allocation(pid, r, value), ..self }
    }

    /// The record in which nobody needs anything.
    pub open spec fn without_needs(self) -> TrackerModel {
        TrackerModel { resources: self.resources.without_needs(), ..self }
    }

    /// The record in which `pid` holds and needs nothing.
    pub open spec fn without_process(self, pid: usize) -> TrackerModel {
        TrackerModel { resources: self.resources.without_process(pid), ..self }
    }

    /// The units of `r` that `pid` holds.
    pub open spec fn holding(self, pid: usize, r: usize) -> usize {
        self.resources.allocation[pid as int][r as int]
    }

    /// Whether a request for one unit of `r` must wait: detection is on and no unit is free.
    pub open spec fn must_wait(self, enabled: bool, r: usize) -> bool {
        enabled && self.resources.available(r as int) == 0
    }

    /// Whether some process is deadlocked once `pid` needs one unit of `r`.
    pub open spec fn would_deadlock(self, pid: usize, r: usize) -> bool {
        self.with_need(pid, r, 1).resources.claims().has_deadlock()
    }

    /// The answer to a request of `pid`, which has a row, for one unit of `external_id`.
    pub open spec fn request_answer(
        self,
        enabled: bool,
        pid: usize,
        external_id: usize,
    ) -> Result<(), isize> {
        match self.resource_id(external_id) {
            None => Err(INVALID_ID),
            Some(r) => if self.must_wait(enabled, r) && self.would_deadlock(pid, r) {
                Err(DEADLOCK)
            } else {
                Ok(())
            },
        }
    }

    /// The record after that request: `pid` needs the unit only while it waits for it.
    pub open spec fn after_request(
        self,
        enabled: bool,
        pid: usize,
        external_id: usize,
    ) -> TrackerModel {
        match self.resource_id(external_id) {
            None => self,
            Some(r) => if self.must_wait(enabled, r) && !self.would_deadlock(pid, r) {
                self.with_need(pid, r, 1)
            } else {
                self.with_need(pid, r, 0)
            },
        }
    }

    /// The counts that such a request takes fit in a `usize`.
    pub open spec fn request_fits(self, enabled: bool, external_id: usize) -> bool {
        match self.resource_id(external_id) {
            None => true,
            Some(r) => enabled ==> {
                &&& self.resources.allocated(r as int) <= usize::MAX
                &&& self.resources.available(r as int) == 0 ==> self.resources.allocations_fit()
            },
        }
    }
}

/// The error of a request that names no registered resource.
pub const INVALID_ID: isize = -1;

/// The error of a request that would end in a deadlock.
pub const DEADLOCK: isize = -0xDEAD;

/// Tracks resources that are identified by indices in user space (mutex id, semaphore id).
#[derive(Clone, Debug)]
pub struct ResourceTracker {
    manager: ResourceManager,
    mapping: Vec<Option<usize>>,  // user-visible id -> internal resource id
}

impl View for ResourceTracker {
    type V = TrackerModel;

    closed spec fn view(&self) -> TrackerModel {
        TrackerModel { mapping: self.mapping@, resources: self.manager@ }
    }
}

impl Default for ResourceTracker {
    fn default() -> (t: Self)
        ensures
            t.wf(),
            t@ == TrackerModel::empty(),
    {
        ResourceTracker::new()
    }
}

impl ResourceTracker {
    /// Every registered id stands for an internal resource of its own.
    pub open spec fn wf(&self) -> bool {
        self@.wf()
    }

    /// Create an empty tracker.
    pub fn new() -> (t: Self)
        ensures
            t.wf(),
            t@ == TrackerModel::empty(),
    {
        let t = ResourceTracker { manager: ResourceManager::new(), mapping: Vec::new() };
        assert(t@ =~= TrackerModel::empty());
        t
    }

    /// Ensure a mapping entry exists.
    fn ensure_entry(&mut self, external_id: usize)
        requires
            external_id < usize::MAX,
        ensures
            final(self)@.resources == old(self)@.resources,
            final(self)@.mapping == padded_mapping(old(self)@.mapping, external_id),
    {
        let ghost start = self.mapping@;
        if self.mapping.len() <= external_id {
            self.mapping.resize(external_id + 1, None);
            assert(self.mapping@ =~= padded_mapping(start, external_id)) by {
                assert(self.mapping@.subrange(0, start.len() as int) =~= start);
                assert forall|i: int| 0 <= i < start.len() implies self.mapping@[i] == start[i] by {
                    assert(self.mapping@.subrange(0, start.len() as int)[i] == start[i]);
                }
            }
        }
    }

    /// Register (or reset) a resource and return its internal id.
    pub fn register(&mut self, external_id: usize, total: usize) -> (res_id: usize)
        requires
            old(self).wf(),
            external_id < usize::MAX,
        ensures
            final(self).wf(),
            final(self)@ == old(self)@.with_registered(external_id, total),
            res_id == old(self)@.registered_id(external_id),
            old(self)@.resource_id(external_id) is None ==> res_id
                == old(self)@.resources.totals.len(),
    {
        let ghost start = self@;
        self.ensure_entry(external_id);
        let ghost wide = self.mapping@;
        let entry = self.mapping[external_id];
        if let Some(res_id) = entry {
            self.manager.reset_resource(res_id, total);
            assert(wide =~= start.mapping);
            assert(self@.mapping =~= start.with_registered(external_id, total).mapping);
            res_id
        } else {
            let res_id = self.manager.add_resource(total);
            self.mapping[external_id] = Some(res_id);
            proof {
                let end = self@;
                assert(end.mapping =~= start.with_registered(external_id, total).mapping);
                assert forall|r: usize| r < end.resources.totals.len() implies
                    #[trigger] end.mapping.contains(Some(r)) by {
                    if r == res_id {
                        assert(end.mapping[external_id as int] == Some(r));
                    } else {
                        assert(start.mapping.contains(Some(r)));
                        let e = choose|e: int|
                            0 <= e < start.mapping.len() && start.mapping[e] == Some(r);
                        assert(end.mapping[e] == Some(r));
                    }
                }
            }
            res_id
        }
    }

    /// Look up the internal resource id.
    pub fn resource_id(&self, external_id: usize) -> (id: Option<usize>)
        ensures
            id == self@.resource_id(external_id),
    {
        if external_id < self.mapping.len() {
            self.mapping[external_id]
        } else {
            None
        }
    }

    /// Ensure process row exists.
    pub fn ensure_process(&mut self, pid: usize)
        requires
            old(self).wf(),
            pid < usize::MAX,
        ensures
            final(self).wf(),
            final(self)@ == old(self)@.with_process(pid),
    {
        self.manager.ensure_process(pid);
    }

    /// Available units for resource. The resource must exist.
    pub fn available_units(&self, res_id: usize) -> (n: usize)
        requires
            self.wf(),
            res_id < self@.resources.totals.len(),
            self@.resources.allocated(res_id as int) <= usize::MAX,
        ensures
            n == self@.resources.available(res_id as int),
    {
        self.manager.available_units(res_id)
    }

    /// Set outstanding need.
    pub fn set_need(&mut self, pid: usize, res_id: usize, value: usize)
        requires
            old(self).wf(),
            pid < usize::MAX,
            res_id < old(self)@.resources.totals.len(),
        ensures
            final(self).wf(),
            final(self)@ == old(self)@.with_process(pid).with_need(pid, res_id, value),
    {
        self.manager.set_need(pid, res_id, value);
    }

    /// Clear all needs across resources.
    pub fn clear_all_needs(&mut self)
        requires
            old(self).wf(),
        ensures
            final(self).wf(),
            final(self)@ == old(self)@.without_needs(),
    {
        self.manager.clear_all_needs();
    }

    /// Increase allocation for a process/resource pair.
    pub fn add_allocation(&mut self, pid: usize, res_id: usize, delta: usize)
        requires
            old(self).wf(),
            pid < usize::MAX,
            res_id < old(self)@.resources.totals.len(),
        ensures
            final(self).wf(),
            final(self)@ == old(self)@.with_process(pid).with_allocation(
                pid,
                res_id,
                resource_model::saturating_sum(
                    old(self)@.with_process(pid).holding(pid, res_id),
                    delta,
                ),
            ),
    {
        self.manager.add_allocation(pid, res_id, delta);
    }

    /// Set allocation explicitly (used by mutex logic).
    pub fn set_allocation(&mut self, pid: usize, res_id: usize, value: usize)
        requires
            old(self).wf(),
            pid < usize::MAX,
            res_id < old(self)@.resources.totals.len(),
        ensures
            final(self).wf(),
            final(self)@ == old(self)@.with_process(pid).with_allocation(pid, res_id, value),
    {
        self.manager.set_allocation(pid, res_id, value);
    }

    /// Decrease allocation when releasing a resource.
    pub fn sub_allocation(&mut self, pid: usize, res_id: usize, delta: usize)
        requires
            old(self).wf(),
            pid < usize::MAX,
            res_id < old(self)@.resources.totals.len(),
        ensures
            final(self).wf(),
            final(self)@ == old(self)@.with_process(pid).with_allocation(
                pid,
                res_id,
                resource_model::saturating_difference(
                    old(self)@.with_process(pid).holding(pid, res_id),
                    delta,
                ),
            ),
    {
        self.manager.sub_allocation(pid, res_id, delta);
    }

    /// Access underlying manager for detection.
    pub fn detect_deadlock(&self) -> (state: DeadlockState)
        requires
            self.wf(),
            self@.resources.allocations_fit(),
        ensures
            match state {
                DeadlockState::Safe => !self@.resources.claims().has_deadlock(),
                DeadlockState::Deadlocked(pids) => {
                    &&& pids.len() > 0
                    &&& forall|i: int, j: int| 0 <= i < j < pids.len() ==> pids[i] < pids[j]
                    &&& forall|p: usize| #[trigger]
                        pids@.contains(p) <==> self@.resources.claims().deadlocked(p)
                },
            },
    {
        self.manager.detect_deadlock()
    }

    /// Clear what process `pid`, where it has a row, holds and needs.
    pub(crate) fn clear_process(&mut self, pid: usize)
        requires
            old(self).wf(),
        ensures
            final(self).wf(),
            final(self)@ == old(self)@.without_process(pid),
    {
        self.manager.clear_process(pid);
    }

    /// Decide a request of `pid`, which has a row, for one unit of `external_id`.
    pub(crate) fn request(&mut self, enabled: bool, pid: usize, external_id: usize) -> (answer: Result<
        (),
        isize,
    >)
        requires
            old(self).wf(),
            pid < old(self)@.resources.allocation.len(),
            pid < usize::MAX,
            old(self)@.request_fits(enabled, external_id),
        ensures
            final(self).wf(),
            final(self)@ == old(self)@.after_request(enabled, pid, external_id),
            answer == old(self)@.request_answer(enabled, pid, external_id),
    {
        let ghost start = self@;
        let res_id = match self.resource_id(external_id) {
            Some(res_id) => res_id,
            None => {
                return Err(INVALID_ID);
            },
        };
        assert(start.with_process(pid) =~= start);
        self.set_need(pid, res_id, 0);
        let ghost idle = self@;
        assert(idle.with_process(pid) =~= idle);
        assert(idle == start.with_need(pid, res_id, 0));
        proof {
            assert(start.resources.need[pid as int].len() == start.resources.totals.len());
            resource_model::lemma_with_cell_twice(start.resources.need, pid, res_id, 0, 1);
            resource_model::lemma_with_cell_twice(start.resources.need, pid, res_id, 1, 0);
        }
        if !enabled {
            return Ok(());
        }
        if self.available_units(res_id) > 0 {
            return Ok(());
        }
        self.set_need(pid, res_id, 1);
        assert forall|r: int| 0 <= r < self@.resources.totals.len() implies
            #[trigger] self@.resources.allocated(r) <= usize::MAX by {
            assert(start.resources.allocated(r) <= usize::MAX);
        }
        if let DeadlockState::Deadlocked(pids) = self.detect_deadlock() {
            assert(pids@.contains(pids@[0]));
            assert(self@.resources.claims().deadlocked(pids@[0]));
            assert(self@.with_process(pid) =~= self@);
            self.set_need(pid, res_id, 0);
            assert(self@ =~= idle);
            return Err(DEADLOCK);
        }
        Ok(())
    }
}

} // verus!
