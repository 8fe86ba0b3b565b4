//! Resource allocation bookkeeping and deadlock detection helpers.

use crate::sync::claims;
use crate::sync::resource_model;
use crate::sync::resource_model::ResourceModel;
use vstd::prelude::*;

verus! {

/// Summarises the result of a deadlock detection pass.
#[derive(Clone, Debug, PartialEq, Eq)]
pub enum DeadlockState {
    /// All processes can eventually proceed.
    Safe,
    /// Processes listed in the vector are deadlocked.
    Deadlocked(Vec<usize>),
}

/// Stores per-resource totals together with allocation/need matrices.
#[derive(Clone, Debug)]
pub struct ResourceManager {
    totals: Vec<usize>,
    allocation: Vec<Vec<usize>>,
    need: Vec<Vec<usize>>,
}

/// The rows of a table.
pub open spec fn row_views(rows: Seq<Vec<usize>>) -> Seq<Seq<usize>> {
    rows.map_values(|row: Vec<usize>| row@)
}

impl View for ResourceManager {
    type V = ResourceModel;

    closed spec fn view(&self) -> ResourceModel {
        ResourceModel {
            totals: self.totals@,
            allocation: row_views(self.allocation@),
            need: row_views(self.need@),
        }
    }
}

impl Default for ResourceManager {
    fn default() -> (m: Self)
        ensures
            m.wf(),
            m@ == ResourceModel::empty(),
    {
        ResourceManager::new()
    }
}

/// A row of `n` zeros.
fn zero_row(n: usize) -> (row: Vec<usize>)
    ensures
        row@ == resource_model::zeros(n as nat),
{
    let row: Vec<usize> = vec![0; n];
    assert(row@ =~= resource_model::zeros(n as nat));
    row
}

impl ResourceManager {
    /// Both tables have a row for each process and a column for each resource kind.
    pub open spec fn wf(&self) -> bool {
        self@.wf()
    }

    /// Create an empty manager.
    pub fn new() -> (m: Self)
        ensures
            m.wf(),
            m@ == ResourceModel::empty(),
    {
        let m = ResourceManager { totals: Vec::new(), allocation: Vec::new(), need: Vec::new() };
        assert(m@ =~= ResourceModel::empty());
        m
    }

    /// Return number of tracked resource kinds.
    pub fn resource_count(&self) -> (n: usize)
        ensures
            n == self@.totals.len(),
    {
        self.totals.len()
    }

    /// Return number of tracked processes (rows).
    pub fn process_count(&self) -> (n: usize)
        ensures
            n == self@.allocation.len(),
    {
        self.allocation.len()
    }

    /// Ensure we have rows up to and including `pid`.
    pub fn ensure_process(&mut self, pid: usize)
        requires
            old(self).wf(),
            pid < usize::MAX,
        ensures
            final(self).wf(),
            final(self)@ == old(self)@.with_process(pid),
    {
        let ghost start = self@;
        proof {
            if start.allocation.len() > 0 {
                assert(resource_model::padded(start.allocation, (start.allocation.len() - 1) as usize, start.totals.len()) =~= start.allocation);
                assert(resource_model::padded(start.need, (start.need.len() - 1) as usize, start.totals.len()) =~= start.need);
            }
        }
        while self.allocation.len() <= pid
            invariant
                pid < usize::MAX,
                self.wf(),
                start.wf(),
                self@.totals == start.totals,
                start.allocation.len() <= self@.allocation.len(),
                self@.allocation.len() <= pid + 1 || self@.allocation.len() == start.allocation.len(),
                self@.allocation.len() == start.allocation.len() ==> self@ == start,
                self@.allocation.len() > start.allocation.len() ==> self@ == start.with_process((self@.allocation.len() - 1) as usize),
            decreases pid + 1 - self.allocation.len(),
        {
            let ghost before = self@;
            let kinds = self.resource_count();
            self.allocation.push(zero_row(kinds));
            self.need.push(zero_row(kinds));
            proof {
                assert(self@.allocation =~= before.allocation.push(resource_model::zeros(kinds as nat)));
                assert(self@.need =~= before.need.push(resource_model::zeros(kinds as nat)));
                let n = (self@.allocation.len() - 1) as usize;
                assert(self@.allocation =~= start.with_process(n).allocation);
                assert(self@.need =~= start.with_process(n).need);
            }
        }
        assert(self@ =~= start.with_process(pid));
    }

    /// Add a new resource kind with given total units. Returns its index.
    pub fn add_resource(&mut self, total: usize) -> (res_id: usize)
        requires
            old(self).wf(),
        ensures
            final(self).wf(),
            final(self)@ == old(self)@.with_resource(total),
            res_id == old(self)@.totals.len(),
    {
        let ghost start = self@;
        self.totals.push(total);
        let mut i: usize = 0;
        while i < self.allocation.len()
            invariant
                start.wf(),
                i <= self.allocation.len() == start.allocation.len(),
                self.totals@ == start.totals.push(total),
                row_views(self.need@) == start.need,
                forall|p: int|
                    0 <= p < start.allocation.len() ==> (#[trigger] self.allocation@[p])@ == if p
                        < i {
                        start.allocation[p].push(0)
                    } else {
                        start.allocation[p]
                    },
            decreases self.allocation.len() - i,
        {
            self.allocation[i].push(0);
            i = i + 1;
        }
        let mut j: usize = 0;
        assert forall|p: int| 0 <= p < start.need.len() implies (#[trigger] self.need@[p])@
            == start.need[p] by {
            assert(row_views(self.need@)[p] == start.need[p]);
        }
        while j < self.need.len()
            invariant
                start.wf(),
                j <= self.need.len() == start.need.len(),
                self.totals@ == start.totals.push(total),
                self.allocation.len() == start.allocation.len(),
                forall|p: int|
                    0 <= p < start.allocation.len() ==> (#[trigger] self.allocation@[p])@
                        == start.allocation[p].push(0),
                forall|p: int|
                    0 <= p < start.need.len() ==> (#[trigger] self.need@[p])@ == if p < j {
                        start.need[p].push(0)
                    } else {
                        start.need[p]
                    },
            decreases self.need.len() - j,
        {
            self.need[j].push(0);
            j = j + 1;
        }
        assert(self@.allocation =~= start.with_resource(total).allocation);
        assert(self@.need =~= start.with_resource(total).need);
        self.totals.len() - 1
    }

    /// Reset allocation/need for the resource and update its total units.
    pub fn reset_resource(&mut self, res_id: usize, total: usize)
        requires
            old(self).wf(),
            res_id < old(self)@.totals.len(),
        ensures
            final(self).wf(),
            final(self)@ == old(self)@.with_reset(res_id, total),
    {
        let ghost start = self@;
        self.totals[res_id] = total;
        let mut i: usize = 0;
        while i < self.allocation.len()
            invariant
                start.wf(),
                res_id < start.totals.len(),
                i <= self.allocation.len() == start.allocation.len(),
                self.totals@ == start.totals.update(res_id as int, total),
                row_views(self.need@) == start.need,
                forall|p: int|
                    0 <= p < start.allocation.len() ==> (#[trigger] self.allocation@[p])@ == if p
                        < i {
                        start.allocation[p].update(res_id as int, 0)
                    } else {
                        start.allocation[p]
                    },
            decreases self.allocation.len() - i,
        {
            assert(self.allocation@[i as int]@.len() == start.totals.len());
            self.allocation[i][res_id] = 0;
            i = i + 1;
        }
        let mut j: usize = 0;
        assert forall|p: int| 0 <= p < start.need.len() implies (#[trigger] self.need@[p])@
            == start.need[p] by {
            assert(row_views(self.need@)[p] == start.need[p]);
        }
        while j < self.need.len()
            invariant
                start.wf(),
                res_id < start.totals.len(),
                j <= self.need.len() == start.need.len(),
                self.totals@ == start.totals.update(res_id as int, total),
                self.allocation.len() == start.allocation.len(),
                forall|p: int|
                    0 <= p < start.allocation.len() ==> (#[trigger] self.allocation@[p])@
                        == start.allocation[p].update(res_id as int, 0),
                forall|p: int|
                    0 <= p < start.need.len() ==> (#[trigger] self.need@[p])@ == if p < j {
                        start.need[p].update(res_id as int, 0)
                    } else {
                        start.need[p]
                    },
            decreases self.need.len() - j,
        {
            assert(self.need@[j as int]@.len() == start.totals.len());
            self.need[j][res_id] = 0;
            j = j + 1;
        }
        assert(self@.allocation =~= start.with_reset(res_id, total).allocation);
        assert(self@.need =~= start.with_reset(res_id, total).need);
    }

    /// Set allocation for a process/resource pair.
    pub fn set_allocation(&mut self, pid: usize, res_id: usize, value: usize)
        requires
            old(self).wf(),
            pid < usize::MAX,
            res_id < old(self)@.totals.len(),
        ensures
            final(self).wf(),
            final(self)@ == old(self)@.with_process(pid).with_allocation(pid, res_id, value),
    {
        self.ensure_process(pid);
        let ghost mid = self@;
        assert(mid.allocation[pid as int].len() == mid.totals.len());
        self.allocation[pid][res_id] = value;
        assert(self@.allocation =~= mid.with_allocation(pid, res_id, value).allocation);
        assert(self@.need =~= mid.need);
    }

    /// Add to allocation count (used when acquiring semaphore units).
    pub fn add_allocation(&mut self, pid: usize, res_id: usize, delta: usize)
        requires
            old(self).wf(),
            pid < usize::MAX,
            res_id < old(self)@.totals.len(),
        ensures
            final(self).wf(),
            final(self)@ == old(self)@.with_process(pid).with_allocation(
                pid,
                res_id,
                resource_model::saturating_sum(
                    old(self)@.with_process(pid).allocation[pid as int][res_id as int],
                    delta,
                ),
            ),
    {
        self.ensure_process(pid);
        assert(self@.allocation[pid as int].len() == self@.totals.len());
        let cell = self.allocation[pid][res_id];
        self.set_allocation(pid, res_id, cell.saturating_add(delta));
    }

    /// Subtract from allocation count when releasing semaphore units.
    pub fn sub_allocation(&mut self, pid: usize, res_id: usize, delta: usize)
        requires
            old(self).wf(),
            pid < usize::MAX,
            res_id < old(self)@.totals.len(),
        ensures
            final(self).wf(),
            final(self)@ == old(self)@.with_process(pid).with_allocation(
                pid,
                res_id,
                resource_model::saturating_difference(
                    old(self)@.with_process(pid).allocation[pid as int][res_id as int],
                    delta,
                ),
            ),
    {
        self.ensure_process(pid);
        assert(self@.allocation[pid as int].len() == self@.totals.len());
        let cell = self.allocation[pid][res_id];
        self.set_allocation(pid, res_id, cell.saturating_sub(delta));
    }

    /// Sum allocations across all processes for the resource.
    pub fn total_allocation(&self, res_id: usize) -> (sum: usize)
        requires
            self.wf(),
            res_id < self@.totals.len() ==> self@.allocated(res_id as int) <= usize::MAX,
        ensures
            sum == if res_id < self@.totals.len() {
                self@.allocated(res_id as int)
            } else {
                0
            },
    {
        let mut sum: usize = 0;
        let mut i: usize = 0;
        if res_id >= self.totals.len() {
            return 0;
        }
        while i < self.allocation.len()
            invariant
                self.wf(),
                res_id < self@.totals.len(),
                self@.allocated(res_id as int) <= usize::MAX,
                i <= self.allocation.len(),
                sum == resource_model::column_sum(self@.allocation.take(i as int), res_id as int),
            decreases self.allocation.len() - i,
        {
            proof {
                assert(self@.allocation[i as int].len() == self@.totals.len());
                resource_model::lemma_column_sum_prefix(self@.allocation, i + 1, res_id as int);
                assert(self@.allocation.take(i + 1).drop_last() =~= self@.allocation.take(
                    i as int,
                ));
            }
            sum = sum + self.allocation[i][res_id];
            i = i + 1;
        }
        assert(self@.allocation.take(i as int) =~= self@.allocation);
        sum
    }

    /// Set outstanding need for process/resource.
    pub fn set_need(&mut self, pid: usize, res_id: usize, value: usize)
        requires
            old(self).wf(),
            pid < usize::MAX,
            res_id < old(self)@.totals.len(),
        ensures
            final(self).wf(),
            final(self)@ == old(self)@.with_process(pid).with_need(pid, res_id, value),
    {
        self.ensure_process(pid);
        let ghost mid = self@;
        assert(mid.need[pid as int].len() == mid.totals.len());
        self.need[pid][res_id] = value;
        assert(self@.need =~= mid.with_need(pid, res_id, value).need);
        assert(self@.allocation =~= mid.allocation);
    }

    /// Clear all outstanding needs.
    pub fn clear_all_needs(&mut self)
        requires
            old(self).wf(),
        ensures
            final(self).wf(),
            final(self)@ == old(self)@.without_needs(),
    {
        let ghost start = self@;
        let kinds = self.totals.len();
        let mut i: usize = 0;
        while i < self.need.len()
            invariant
                start.wf(),
                kinds == start.totals.len(),
                i <= self.need.len() == start.need.len(),
                self.totals@ == start.totals,
                row_views(self.allocation@) == start.allocation,
                forall|p: int| 0 <= p < i ==> (#[trigger] self.need@[p])@ == resource_model::zeros(kinds as nat),
            decreases self.need.len() - i,
        {
            self.need[i] = zero_row(kinds);
            i = i + 1;
        }
        assert(self@.need =~= start.without_needs().need);
    }

    /// Clear what process `pid`, where it has a row, holds and needs.
    pub(crate) fn clear_process(&mut self, pid: usize)
        requires
            old(self).wf(),
        ensures
            final(self).wf(),
            final(self)@ == old(self)@.without_process(pid),
    {
        let ghost start = self@;
        if pid < self.process_count() {
            let kinds = self.totals.len();
            self.allocation[pid] = zero_row(kinds);
            self.need[pid] = zero_row(kinds);
            assert(self@.allocation =~= start.without_process(pid).allocation);
            assert(self@.need =~= start.without_process(pid).need);
        }
    }

    /// Return the available units for a resource.
    pub fn available_units(&self, res_id: usize) -> (n: usize)
        requires
            self.wf(),
            res_id < self@.totals.len(),
            self@.allocated(res_id as int) <= usize::MAX,
        ensures
            n == self@.available(res_id as int),
    {
        self.totals[res_id].saturating_sub(self.total_allocation(res_id))
    }

    /// Compute the availability vector for all resources.
    fn available(&self) -> (units: Vec<usize>)
        requires
            self.wf(),
            self@.allocations_fit(),
        ensures
            units.len() == self@.totals.len(),
            forall|r: int| 0 <= r < units.len() ==> #[trigger] units[r] == self@.available(r),
    {
        let mut units: Vec<usize> = Vec::new();
        let mut r: usize = 0;
        while r < self.totals.len()
            invariant
                self.wf(),
                self@.allocations_fit(),
                r <= self@.totals.len(),
                units.len() == r,
                forall|q: int| 0 <= q < r ==> #[trigger] units[q] == self@.available(q),
            decreases self.totals.len() - r,
        {
            assert(self@.allocated(r as int) <= usize::MAX);
            units.push(self.available_units(r));
            r = r + 1;
        }
        units
    }

    /// Run a deadlock detection cycle and return the result.
    pub fn detect_deadlock(&self) -> (state: DeadlockState)
        requires
            self.wf(),
            self@.allocations_fit(),
        ensures
            match state {
                DeadlockState::Safe => !self@.claims().has_deadlock(),
                DeadlockState::Deadlocked(pids) => {
                    &&& pids.len() > 0
                    &&& forall|i: int, j: int| 0 <= i < j < pids.len() ==> pids[i] < pids[j]
                    &&& forall|p: usize| #[trigger]
                        pids@.contains(p) <==> self@.claims().deadlocked(p)
                },
            },
    {
        let ghost c = self@.claims();
        let mut work = self.available();
        let kinds = self.resource_count();
        let processes = self.process_count();
        let mut finish: Vec<bool> = vec![false; processes];
        let ghost mut done: Set<usize> = Set::empty();
        proof {
            resource_model::lemma_claims_wf(self@);
            assert(c.can_finish().subset_of(c.claimants()));
            assert(done.finite());
        }
        loop
            invariant
                self.wf(),
                self@.allocations_fit(),
                c == self@.claims(),
                c.wf(),
                kinds == self@.totals.len(),
                processes == self@.allocation.len(),
                finish.len() == processes,
                work.len() == kinds,
                finished_set(finish@, done),
                done.finite(),
                done.subset_of(c.can_finish()),
                forall|r: int| 0 <= r < kinds ==> #[trigger] work[r] == c.at_hand(done, r),
            ensures
                forall|p: usize|
                    #![trigger c.claimants().contains(p)]
                    c.claimants().contains(p) && !done.contains(p) ==> !c.served(p, done),
            decreases processes - done.len(),
        {
            let mut progress = false;
            let ghost start = done;
            proof {
                resource_model::lemma_done_bounded(self@, done);
            }
            let mut pid: usize = 0;
            while pid < processes
                invariant
                    self.wf(),
                    self@.allocations_fit(),
                    c == self@.claims(),
                    c.wf(),
                    kinds == self@.totals.len(),
                    processes == self@.allocation.len(),
                    pid <= processes,
                    finish.len() == processes,
                    work.len() == kinds,
                    finished_set(finish@, done),
                    done.finite(),
                    done.subset_of(c.can_finish()),
                    forall|r: int| 0 <= r < kinds ==> #[trigger] work[r] == c.at_hand(done, r),
                    progress ==> done.len() > start.len(),
                    !progress ==> done == start && forall|p: usize|
                        p < pid && !#[trigger] done.contains(p) ==> !c.served(p, done),
                decreases processes - pid,
            {
                if !finish[pid] {
                    assert(self@.need[pid as int].len() == kinds);
                    let met = need_is_met(&self.need[pid], &work);
                    assert(met == c.served(pid, done)) by {
                        assert forall|r: int| 0 <= r < kinds implies #[trigger] c.kind_served(
                            pid,
                            done,
                            r,
                        ) == (self@.need[pid as int][r] <= work[r]) by {}
                        if met {
                            assert(c.served(pid, done));
                        } else {
                            let r = choose|r: int|
                                0 <= r < kinds && #[trigger] self@.need[pid as int][r] > work[r];
                            assert(!c.kind_served(pid, done, r));
                        }
                    }
                    if met {
                        proof {
                            claims::lemma_served_can_finish(c, pid, done);
                        }
                        self.release_into(pid, &mut work, Ghost(done));
                        finish[pid] = true;
                        progress = true;
                        proof {
                            done = done.insert(pid);
                        }
                    }
                }
                pid = pid + 1;
            }
            if !progress {
                break;
            }
            proof {
                resource_model::lemma_done_bounded(self@, done);
            }
        }
        proof {
            claims::lemma_exhausted(c, done);
        }
        let mut deadlocked: Vec<usize> = Vec::new();
        let mut pid: usize = 0;
        while pid < processes
            invariant
                processes == finish.len(),
                pid <= processes,
                finished_set(finish@, done),
                forall|i: int| 0 <= i < deadlocked.len() ==> #[trigger] deadlocked[i] < pid,
                forall|i: int, j: int|
                    0 <= i < j < deadlocked.len() ==> deadlocked[i] < deadlocked[j],
                forall|p: usize| #[trigger]
                    deadlocked@.contains(p) <==> p < pid && !done.contains(p),
            decreases processes - pid,
        {
            if !finish[pid] {
                let ghost before = deadlocked@;
                deadlocked.push(pid);
                assert forall|p: usize| #[trigger]
                    deadlocked@.contains(p) <==> p < pid + 1 && !done.contains(p) by {
                    if before.contains(p) {
                        let i = choose|i: int| 0 <= i < before.len() && before[i] == p;
                        assert(deadlocked@[i] == p);
                    }
                    if p == pid {
                        assert(deadlocked@[before.len() as int] == p);
                    }
                }
            }
            pid = pid + 1;
        }
        if deadlocked.is_empty() {
            proof {
                if c.has_deadlock() {
                    let p = choose|p: usize| #[trigger] c.deadlocked(p);
                    assert(deadlocked@.contains(p));
                }
            }
            DeadlockState::Safe
        } else {
            DeadlockState::Deadlocked(deadlocked)
        }
    }

    /// Give back to `work` what process `pid` holds.
    fn release_into(&self, pid: usize, work: &mut Vec<usize>, done: Ghost<Set<usize>>)
        requires
            self.wf(),
            self@.allocations_fit(),
            pid < self@.allocation.len(),
            !done@.contains(pid),
            done@.subset_of(self@.claims().claimants()),
            old(work).len() == self@.totals.len(),
            forall|r: int|
                0 <= r < self@.totals.len() ==> #[trigger] old(work)[r] == self@.claims().at_hand(
                    done@,
                    r,
                ),
        ensures
            final(work).len() == self@.totals.len(),
            forall|r: int|
                0 <= r < self@.totals.len() ==> #[trigger] final(work)[r] == self@.claims().at_hand(
                    done@.insert(pid),
                    r,
                ),
    {
        let ghost c = self@.claims();
        proof {
            resource_model::lemma_claims_wf(self@);
            vstd::set_lib::lemma_set_subset_finite(c.claimants(), done@);
        }
        let mut r: usize = 0;
        while r < self.totals.len()
            invariant
                self.wf(),
                self@.allocations_fit(),
                c == self@.claims(),
                c.wf(),
                pid < self@.allocation.len(),
                !done@.contains(pid),
                done@.finite(),
                done@.subset_of(c.claimants()),
                r <= self@.totals.len(),
                work.len() == self@.totals.len(),
                forall|q: int|
                    0 <= q < self@.totals.len() ==> #[trigger] work[q] == if q < r {
                        c.at_hand(done@.insert(pid), q)
                    } else {
                        c.at_hand(done@, q)
                    },
            decreases self.totals.len() - r,
        {
            proof {
                assert(self@.allocation[pid as int].len() == self@.totals.len());
                assert(self@.allocated(r as int) <= usize::MAX);
                claims::lemma_total_insert(c.held, done@, pid, r as int);
                resource_model::lemma_at_hand_bounded(self@, done@.insert(pid), r as int);
            }
            work[r] = work[r] + self.allocation[pid][r];
            r = r + 1;
        }
    }
}

/// Whether each need is at most the units at hand.
fn need_is_met(need_row: &Vec<usize>, work: &Vec<usize>) -> (met: bool)
    requires
        need_row.len() == work.len(),
    ensures
        met <==> forall|r: int| 0 <= r < need_row.len() ==> #[trigger] need_row[r] <= work[r],
{
    let mut r: usize = 0;
    while r < need_row.len()
        invariant
            need_row.len() == work.len(),
            r <= need_row.len(),
            forall|q: int| 0 <= q < r ==> #[trigger] need_row[q] <= work[q],
        decreases need_row.len() - r,
    {
        if need_row[r] > work[r] {
            return false;
        }
        r = r + 1;
    }
    true
}

/// `done` holds the processes that `finish` marks.
spec fn finished_set(finish: Seq<bool>, done: Set<usize>) -> bool {
    forall|p: usize| #[trigger] done.contains(p) <==> p < finish.len() && finish[p as int]
}

} // verus!
