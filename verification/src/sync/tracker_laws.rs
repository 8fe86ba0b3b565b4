//! With detection on, the threads of a process never come to wait for units that cannot come
//! back.

use crate::sync::claims;
use crate::sync::deadlock_controller;
use crate::sync::resource_model;
use crate::sync::resource_model::ResourceModel;
use crate::sync::resource_tracker::{TrackerModel, DEADLOCK, INVALID_ID};
use vstd::prelude::*;

verus! {

/// Whether process `p` needs something.
pub open spec fn needs_something(m: ResourceModel, p: int) -> bool {
    exists|r: int| 0 <= r < m.totals.len() && #[trigger] m.need[p][r] > 0
}

/// Whether some process needs units of kind `r`.
pub open spec fn is_needed(m: ResourceModel, r: int) -> bool {
    exists|p: int| 0 <= p < m.need.len() && #[trigger] m.need[p][r] > 0
}

/// Whether there are no fewer units of kind `r` in `e`, and those who need something need and
/// hold no more of it than in `m`.
pub open spec fn no_tighter(m: ResourceModel, e: ResourceModel, r: int) -> bool {
    &&& r < m.totals.len()
    &&& m.available(r) + m.allocated(r) <= e.available(r) + e.allocated(r)
    &&& forall|p: int|
        0 <= p < e.need.len() && #[trigger] needs_something(e, p) ==> p < m.need.len()
            && e.need[p][r] <= m.need[p][r] && e.allocation[p][r] <= m.allocation[p][r]
}

/// A change after which no needed kind is tighter causes no deadlock.
proof fn lemma_no_new_deadlock(m: ResourceModel, e: ResourceModel)
    requires
        m.wf(),
        e.wf(),
        !m.claims().has_deadlock(),
        forall|r: int|
            0 <= r < e.totals.len() ==> !#[trigger] is_needed(e, r) || no_tighter(m, e, r),
    ensures
        !e.claims().has_deadlock(),
{
    let c = m.claims();
    let d = e.claims();
    resource_model::lemma_claims_wf(m);
    resource_model::lemma_claims_wf(e);
    assert forall|r: int| 0 <= r < d.available.len() implies #[trigger] claims::no_scarcer(
        c,
        d,
        r,
    ) by {
        if is_needed(e, r) {
            assert(no_tighter(m, e, r));
            resource_model::lemma_all_units(m, r);
            resource_model::lemma_all_units(e, r);
            assert forall|p: usize| #[trigger]
                d.claimants().contains(p) && !claims::asks_nothing(
                    d,
                    p,
                ) implies c.claimants().contains(p) && d.wanted[p][r] <= c.wanted[p][r]
                && d.held[p][r] <= c.held[p][r] by {
                let q = choose|q: int| 0 <= q < d.available.len() && #[trigger] d.wanted[p][q] > 0;
                assert(e.need[p as int][q] > 0);
                assert(needs_something(e, p as int));
            }
        } else {
            assert forall|p: usize| #[trigger] d.claimants().contains(p) implies d.wanted[p][r]
                <= 0 by {
                assert(d.wanted[p][r] == e.need[p as int][r]);
            }
        }
    }
    claims::law_no_scarcer_no_deadlock(c, d);
}

/// A request of a thread that has a row: it is refused as a deadlock exactly where it must wait
/// and its waiting would leave some thread deadlocked, and a refused thread needs nothing.
pub proof fn law_refused_iff_deadlock(t: TrackerModel, tid: usize, id: usize, r: usize)
    requires
        t.wf(),
        tid < t.resources.allocation.len(),
        t.resource_id(id) == Some(r),
    ensures
        t.request_answer(true, tid, id) == Err::<(), isize>(DEADLOCK) <==> t.resources.available(
            r as int,
        ) == 0 && t.with_need(tid, r, 1).resources.claims().has_deadlock(),
        t.request_answer(true, tid, id) is Err ==> t.after_request(
            true,
            tid,
            id,
        ).resources.need[tid as int][r as int] == 0,
{
    assert(t.resources.need[tid as int].len() == t.resources.totals.len());
}

/// An operation on a resource that is not registered is answered with an error and changes
/// nothing.
pub proof fn law_unknown_resource_is_refused(t: TrackerModel, enabled: bool, tid: usize, id: usize)
    requires
        t.resource_id(id) is None,
    ensures
        t.request_answer(enabled, tid, id) == Err::<(), isize>(INVALID_ID),
        t.after_request(enabled, tid, id) == t,
        deadlock_controller::known(t, id) == Err::<(), isize>(INVALID_ID),
        forall|v: usize| deadlock_controller::settled(t, tid, id, v) == t,
        deadlock_controller::given_back(t, tid, id) == t,
{
}

/// With detection off every request for a registered resource is granted.
pub proof fn law_disabled_grants(t: TrackerModel, tid: usize, id: usize)
    requires
        t.resource_id(id) is Some,
    ensures
        t.request_answer(false, tid, id) is Ok,
{
}

/// A thread that holds the only unit and asks for it again is refused while detection is on.
pub proof fn law_relocking_is_refused(t: TrackerModel, tid: usize, id: usize, r: usize)
    requires
        t.wf(),
        tid < t.resources.allocation.len(),
        t.resource_id(id) == Some(r),
        t.resources.totals[r as int] == 1,
        t.resources.allocated(r as int) == 1,
        t.holding(tid, r) == 1,
    ensures
        t.request_answer(true, tid, id) == Err::<(), isize>(DEADLOCK),
{
    let q = r as int;
    let e = t.with_need(tid, r, 1).resources;
    let c = e.claims();
    assert(t.resources.need[tid as int].len() == t.resources.totals.len());
    assert(e.wf());
    resource_model::lemma_claims_wf(e);
    resource_model::lemma_all_units(e, q);
    let d = Set::<usize>::empty().insert(tid);
    let rest = c.claimants().difference(d);
    assert(c.claimants().contains(tid));
    claims::lemma_total_split(c.held, c.claimants(), d, q);
    claims::lemma_total_insert(c.held, Set::empty(), tid, q);
    assert(!c.kind_served(tid, rest, q));
    assert(c.stuck(d));
    assert(c.deadlocked(tid));
}

/// A thread that needs nothing of a resource and gets a unit of it has as many and needs as much
/// as before once it gives the unit back.
pub proof fn law_release_undoes_acquire(t: TrackerModel, tid: usize, id: usize, r: usize)
    requires
        t.wf(),
        tid < t.resources.allocation.len(),
        t.resource_id(id) == Some(r),
        t.resources.need[tid as int][r as int] == 0,
        t.holding(tid, r) < usize::MAX,
    ensures
        deadlock_controller::given_back(
            deadlock_controller::settled(t, tid, id, (t.holding(tid, r) + 1) as usize),
            tid,
            id,
        ) == t,
{
    let m = t.resources;
    let p = tid as int;
    let q = r as int;
    let value = (t.holding(tid, r) + 1) as usize;
    assert(m.need[p].len() == m.totals.len());
    assert(m.allocation[p].len() == m.totals.len());
    let mid = deadlock_controller::settled(t, tid, id, value);
    let end = deadlock_controller::given_back(mid, tid, id);
    resource_model::lemma_with_cell_twice(m.allocation, tid, r, value, t.holding(tid, r));
    assert(m.allocation[p].update(q, t.holding(tid, r)) =~= m.allocation[p]);
    assert(m.need[p].update(q, 0) =~= m.need[p]);
    assert(end.resources.allocation =~= m.allocation);
    assert(end.resources.need =~= m.need);
    assert(end =~= t);
}

/// A thread that neither holds nor needs a mutex is where it was once it has locked and unlocked
/// it.
pub proof fn law_unlock_undoes_lock(t: TrackerModel, tid: usize, id: usize, r: usize)
    requires
        t.wf(),
        tid < t.resources.allocation.len(),
        t.resource_id(id) == Some(r),
        t.resources.need[tid as int][r as int] == 0,
        t.holding(tid, r) == 0,
    ensures
        deadlock_controller::settled(
            deadlock_controller::settled(t, tid, id, 1),
            tid,
            id,
            0,
        ) == t,
{
    let m = t.resources;
    let p = tid as int;
    let q = r as int;
    assert(m.need[p].len() == m.totals.len());
    assert(m.allocation[p].len() == m.totals.len());
    let mid = deadlock_controller::settled(t, tid, id, 1);
    let end = deadlock_controller::settled(mid, tid, id, 0);
    resource_model::lemma_with_cell_twice(m.allocation, tid, r, 1, 0);
    resource_model::lemma_with_cell_twice(m.need, tid, r, 0, 0);
    assert(m.allocation[p].update(q, 0) =~= m.allocation[p]);
    assert(m.need[p].update(q, 0) =~= m.need[p]);
    assert(end.resources.allocation =~= m.allocation);
    assert(end.resources.need =~= m.need);
    assert(end =~= t);
}

/// What happens to the tracked resources while detection is on.
pub enum TrackerEvent {
    /// A resource is registered.
    Register { id: usize, total: usize },
    /// A thread asks for a unit.
    Request { tid: usize, id: usize },
    /// A thread gets a unit.
    Acquire { tid: usize, id: usize },
    /// A thread gives back a unit.
    Release { tid: usize, id: usize },
    /// A thread gives back all it has of a resource and waits for it no more.
    Unlock { tid: usize, id: usize },
    /// A thread exits.
    Exit { tid: usize },
}

impl TrackerModel {
    /// Whether an event is in order: a thread acquires only a free unit, and while it waits for
    /// nothing else.
    pub open spec fn allows(self, event: TrackerEvent) -> bool {
        match event {
            TrackerEvent::Register { id, total } => id < usize::MAX && self.resources.totals.len()
                < usize::MAX,
            TrackerEvent::Request { tid, id } => tid < usize::MAX,
            TrackerEvent::Acquire { tid, id } => tid < usize::MAX && match self.resource_id(id) {
                None => true,
                Some(r) => {
                    let m = self.with_process(tid).resources;
                    &&& m.available(r as int) > 0
                    &&& forall|q: int|
                        0 <= q < m.totals.len() && q != r ==> #[trigger] m.need[tid as int][q] == 0
                },
            },
            TrackerEvent::Release { tid, id } => tid < usize::MAX,
            TrackerEvent::Unlock { tid, id } => tid < usize::MAX,
            TrackerEvent::Exit { tid } => true,
        }
    }

    /// The record after one event.
    pub open spec fn after(self, event: TrackerEvent) -> TrackerModel {
        match event {
            TrackerEvent::Register { id, total } => self.with_registered(id, total),
            TrackerEvent::Request { tid, id } => self.with_process(tid).after_request(
                true,
                tid,
                id,
            ),
            TrackerEvent::Acquire { tid, id } => deadlock_controller::settled(
                self.with_process(tid),
                tid,
                id,
                resource_model::saturating_sum(
                    deadlock_controller::held_by(self.with_process(tid), tid, id),
                    1,
                ),
            ),
            TrackerEvent::Release { tid, id } => deadlock_controller::given_back(
                self.with_process(tid),
                tid,
                id,
            ),
            TrackerEvent::Unlock { tid, id } => deadlock_controller::settled(
                self.with_process(tid),
                tid,
                id,
                0,
            ),
            TrackerEvent::Exit { tid } => self.without_process(tid),
        }
    }

    /// The record after a series of events.
    pub open spec fn after_all(self, events: Seq<TrackerEvent>) -> TrackerModel
        decreases events.len(),
    {
        if events.len() == 0 {
            self
        } else {
            self.after_all(events.drop_last()).after(events.last())
        }
    }

    /// Whether a series of events is in order.
    pub open spec fn allows_all(self, events: Seq<TrackerEvent>) -> bool
        decreases events.len(),
    {
        events.len() == 0 || {
            &&& self.allows_all(events.drop_last())
            &&& self.after_all(events.drop_last()).allows(events.last())
        }
    }

    /// The record is sound, no more units are held than exist, and nobody is deadlocked.
    pub open spec fn healthy(self) -> bool {
        &&& self.wf()
        &&& forall|r: int|
            0 <= r < self.resources.totals.len() ==> #[trigger] self.resources.allocated(r)
                <= self.resources.totals[r]
        &&& !self.resources.claims().has_deadlock()
    }
}

/// A new row changes nothing for anybody.
proof fn lemma_row_stays_healthy(t: TrackerModel, tid: usize)
    requires
        t.healthy(),
        tid < usize::MAX,
    ensures
        t.with_process(tid).healthy(),
{
    let m = t.resources;
    let e = t.with_process(tid).resources;
    assert forall|r: int| 0 <= r < e.totals.len() implies #[trigger] e.allocated(r)
        == m.allocated(r) by {
        resource_model::lemma_padded_sum(m.allocation, tid, m.totals.len(), r);
    }
    assert forall|r: int| 0 <= r < e.totals.len() implies !#[trigger] is_needed(e, r)
        || no_tighter(m, e, r) by {
        assert(e.allocated(r) == m.allocated(r));
    }
    assert forall|r: int| 0 <= r < e.totals.len() implies #[trigger] e.allocated(r)
        <= e.totals[r] by {
        assert(m.allocated(r) <= m.totals[r]);
    }
    lemma_no_new_deadlock(m, e);
}

/// A change of one entry of each table stays healthy where the thread then needs nothing else
/// or holds no more than before, and a unit is free for what it gains.
proof fn lemma_settling_stays_healthy(t: TrackerModel, tid: usize, r: usize, value: usize)
    requires
        t.healthy(),
        tid < t.resources.allocation.len(),
        r < t.resources.totals.len(),
        value <= t.holding(tid, r) + t.resources.available(r as int),
        value <= t.holding(tid, r) || forall|q: int|
            0 <= q < t.resources.totals.len() && q != r
                ==> #[trigger] t.resources.need[tid as int][q] == 0,
    ensures
        t.with_need(tid, r, 0).with_allocation(tid, r, value).healthy(),
{
    let m = t.resources;
    let e = t.with_need(tid, r, 0).with_allocation(tid, r, value).resources;
    let p = tid as int;
    assert(m.need[p].len() == m.totals.len());
    assert(m.allocation[p].len() == m.totals.len());
    assert(e.wf());
    assert forall|q: int| 0 <= q < e.totals.len() implies #[trigger] e.allocated(q)
        == m.allocated(q) + if q == r {
        value - m.allocation[p][q]
    } else {
        0
    } by {
        resource_model::lemma_column_sum_update(
            m.allocation,
            p,
            m.allocation[p].update(r as int, value),
            q,
        );
    }
    assert forall|q: int| 0 <= q < e.totals.len() implies #[trigger] e.allocated(q)
        <= e.totals[q] by {
        assert(m.allocated(q) <= m.totals[q]);
    }
    assert forall|q: int| 0 <= q < e.totals.len() implies !#[trigger] is_needed(e, q)
        || no_tighter(m, e, q) by {
        assert(m.allocated(q) <= m.totals[q]);
        assert(e.allocated(q) <= e.totals[q]);
        assert forall|x: int|
            0 <= x < e.need.len() && #[trigger] needs_something(e, x) implies x < m.need.len()
            && e.need[x][q] <= m.need[x][q] && e.allocation[x][q] <= m.allocation[x][q] by {
            let k = choose|k: int| 0 <= k < e.totals.len() && #[trigger] e.need[x][k] > 0;
            if x == p {
                assert(k != r);
                assert(m.need[p][k] > 0);
            }
        }
    }
    lemma_no_new_deadlock(m, e);
}

/// Giving back a unit, whether or not one waits, stays healthy.
proof fn lemma_release_stays_healthy(t: TrackerModel, tid: usize, r: usize, value: usize)
    requires
        t.healthy(),
        tid < t.resources.allocation.len(),
        r < t.resources.totals.len(),
        value <= t.holding(tid, r),
    ensures
        t.with_allocation(tid, r, value).healthy(),
{
    let m = t.resources;
    let e = t.with_allocation(tid, r, value).resources;
    let p = tid as int;
    assert(m.allocation[p].len() == m.totals.len());
    assert(e.wf());
    assert forall|q: int| 0 <= q < e.totals.len() implies #[trigger] e.allocated(q)
        == m.allocated(q) + if q == r {
        value - m.allocation[p][q]
    } else {
        0
    } by {
        resource_model::lemma_column_sum_update(
            m.allocation,
            p,
            m.allocation[p].update(r as int, value),
            q,
        );
    }
    assert forall|q: int| 0 <= q < e.totals.len() implies #[trigger] e.allocated(q)
        <= e.totals[q] by {
        assert(m.allocated(q) <= m.totals[q]);
    }
    assert forall|q: int| 0 <= q < e.totals.len() implies !#[trigger] is_needed(e, q)
        || no_tighter(m, e, q) by {
        assert(m.allocated(q) <= m.totals[q]);
        assert(e.allocated(q) <= e.totals[q]);
    }
    lemma_no_new_deadlock(m, e);
}

/// A thread that exits leaves a healthy record.
proof fn lemma_exit_stays_healthy(t: TrackerModel, tid: usize)
    requires
        t.healthy(),
    ensures
        t.without_process(tid).healthy(),
{
    let m = t.resources;
    let e = t.without_process(tid).resources;
    let p = tid as int;
    if tid < m.allocation.len() {
        assert(e.wf());
        assert forall|q: int| 0 <= q < e.totals.len() implies #[trigger] e.allocated(q)
            == m.allocated(q) - m.allocation[p][q] by {
            resource_model::lemma_column_sum_update(
                m.allocation,
                p,
                resource_model::zeros(m.totals.len()),
                q,
            );
        }
        assert forall|q: int| 0 <= q < e.totals.len() implies #[trigger] e.allocated(q)
            <= e.totals[q] by {
            assert(m.allocated(q) <= m.totals[q]);
        }
        assert forall|q: int| 0 <= q < e.totals.len() implies !#[trigger] is_needed(e, q)
            || no_tighter(m, e, q) by {
            assert(m.allocated(q) <= m.totals[q]);
            assert(e.allocated(q) <= e.totals[q]);
        }
        lemma_no_new_deadlock(m, e);
    }
}

/// Registering a resource leaves a healthy record.
proof fn lemma_register_stays_healthy(t: TrackerModel, id: usize, total: usize)
    requires
        t.healthy(),
        t.with_registered(id, total).wf(),
    ensures
        t.with_registered(id, total).healthy(),
{
    let m = t.resources;
    let e = t.with_registered(id, total).resources;
    let fresh = match t.resource_id(id) {
        Some(r) => r as int,
        None => m.totals.len() as int,
    };
    assert forall|p: int| 0 <= p < e.allocation.len() implies (#[trigger] e.allocation[p]).len()
        == e.totals.len() && e.allocation[p][fresh] == 0 by {
        assert(m.allocation[p].len() == m.totals.len());
    }
    assert forall|p: int| 0 <= p < e.need.len() implies (#[trigger] e.need[p])[fresh] == 0 by {
        assert(m.need[p].len() == m.totals.len());
    }
    assert(!is_needed(e, fresh));
    assert forall|q: int| 0 <= q < e.totals.len() implies #[trigger] e.allocated(q) == if q
        == fresh {
        0
    } else {
        m.allocated(q)
    } by {
        if q == fresh {
            resource_model::lemma_zero_column_sum(e.allocation, q);
        } else {
            assert forall|p: int| 0 <= p < m.allocation.len() implies (#[trigger] m.allocation[p])[q]
                == e.allocation[p][q] by {
                assert(m.allocation[p].len() == m.totals.len());
            }
            resource_model::lemma_column_sum_same(m.allocation, e.allocation, q);
        }
    }
    assert forall|q: int| 0 <= q < e.totals.len() implies #[trigger] e.allocated(q)
        <= e.totals[q] by {
        if q != fresh {
            assert(m.allocated(q) <= m.totals[q]);
        }
    }
    assert forall|q: int| 0 <= q < e.totals.len() implies !#[trigger] is_needed(e, q)
        || no_tighter(m, e, q) by {
        if q != fresh {
            assert(m.allocated(q) == e.allocated(q));
            assert forall|p: int| 0 <= p < e.need.len() implies e.need[p][q] == m.need[p][q]
                && e.allocation[p][q] == m.allocation[p][q] by {
                assert(m.allocation[p].len() == m.totals.len());
                assert(m.need[p].len() == m.totals.len());
            }
        }
    }
    lemma_no_new_deadlock(m, e);
}

/// No operation in order leads into a deadlock while detection is on.
pub proof fn law_event_stays_healthy(t: TrackerModel, event: TrackerEvent)
    requires
        t.healthy(),
        t.allows(event),
    ensures
        t.after(event).healthy(),
{
    match event {
        TrackerEvent::Register { id, total } => {
            lemma_registered_wf(t, id, total);
            lemma_register_stays_healthy(t, id, total);
        },
        TrackerEvent::Request { tid, id } => {
            lemma_row_stays_healthy(t, tid);
            let u = t.with_process(tid);
            if let Some(r) = u.resource_id(id) {
                let p = tid as int;
                assert(u.resources.need[p].len() == u.resources.totals.len());
                let e = u.after_request(true, tid, id);
                assert forall|q: int| 0 <= q < e.resources.totals.len() implies
                    #[trigger] e.resources.allocated(q) <= e.resources.totals[q] by {
                    assert(u.resources.allocated(q) <= u.resources.totals[q]);
                }
                if e == u.with_need(tid, r, 0) {
                    let m = u.resources;
                    let n = e.resources;
                    assert forall|q: int| 0 <= q < n.totals.len() implies !#[trigger] is_needed(
                        n,
                        q,
                    ) || no_tighter(m, n, q) by {
                        assert(n.allocated(q) == m.allocated(q));
                    }
                    lemma_no_new_deadlock(m, n);
                }
            }
        },
        TrackerEvent::Acquire { tid, id } => {
            lemma_row_stays_healthy(t, tid);
            let u = t.with_process(tid);
            if let Some(r) = u.resource_id(id) {
                lemma_settling_stays_healthy(
                    u,
                    tid,
                    r,
                    resource_model::saturating_sum(u.holding(tid, r), 1),
                );
            }
        },
        TrackerEvent::Release { tid, id } => {
            lemma_row_stays_healthy(t, tid);
            let u = t.with_process(tid);
            if let Some(r) = u.resource_id(id) {
                lemma_release_stays_healthy(
                    u,
                    tid,
                    r,
                    resource_model::saturating_difference(u.holding(tid, r), 1),
                );
            }
        },
        TrackerEvent::Unlock { tid, id } => {
            lemma_row_stays_healthy(t, tid);
            let u = t.with_process(tid);
            if let Some(r) = u.resource_id(id) {
                lemma_settling_stays_healthy(u, tid, r, 0);
            }
        },
        TrackerEvent::Exit { tid } => {
            lemma_exit_stays_healthy(t, tid);
        },
    }
}

/// Locking a free mutex is an event in order: the thread gets its one unit.
pub proof fn law_locking_is_acquiring(t: TrackerModel, tid: usize, id: usize, r: usize)
    requires
        t.wf(),
        deadlock_controller::single_units(t),
        tid < usize::MAX,
        t.resource_id(id) == Some(r),
        t.with_process(tid).resources.available(r as int) > 0,
    ensures
        t.after(TrackerEvent::Acquire { tid, id }) == deadlock_controller::settled(
            t.with_process(tid),
            tid,
            id,
            1,
        ),
{
    let m = t.with_process(tid).resources;
    let q = r as int;
    let zero = resource_model::zeros(m.totals.len());
    assert(m.totals[q] == 1);
    resource_model::lemma_column_sum_update(m.allocation, tid as int, zero, q);
    resource_model::lemma_column_sum_prefix(m.allocation.update(tid as int, zero), 0, q);
    assert(m.allocation[tid as int][q] == 0);
}

/// Registering keeps each registered id apart.
proof fn lemma_registered_wf(t: TrackerModel, id: usize, total: usize)
    requires
        t.wf(),
        t.resources.totals.len() <= usize::MAX,
        id < usize::MAX,
    ensures
        t.with_registered(id, total).wf(),
{
    let e = t.with_registered(id, total);
    assert forall|r: usize| r < e.resources.totals.len() implies #[trigger] e.mapping.contains(
        Some(r),
    ) by {
        if r == t.registered_id(id) {
            assert(e.mapping[id as int] == Some(r));
        } else {
            assert(t.mapping.contains(Some(r)));
            let x = choose|x: int| 0 <= x < t.mapping.len() && t.mapping[x] == Some(r);
            assert(e.mapping[x] == Some(r));
        }
    }
}

/// Whatever happens in order from the start with detection on, no deadlock arises.
pub proof fn law_no_deadlock_is_reachable(events: Seq<TrackerEvent>)
    requires
        TrackerModel::empty().allows_all(events),
    ensures
        TrackerModel::empty().after_all(events).healthy(),
    decreases events.len(),
{
    let none = TrackerModel::empty();
    if events.len() == 0 {
        let c = none.resources.claims();
        if c.has_deadlock() {
            let p = choose|p: usize| #[trigger] c.deadlocked(p);
            let d = choose|d: Set<usize>| #[trigger] c.stuck(d) && d.contains(p);
            assert(c.claimants().contains(p));
        }
    } else {
        law_no_deadlock_is_reachable(events.drop_last());
        law_event_stays_healthy(none.after_all(events.drop_last()), events.last());
    }
}

} // verus!
