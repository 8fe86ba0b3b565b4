//! What each operation of a [`ResourceTracker`] and of a [`DeadlockController`] answers, and what
//! it does to the single entries of the tables.

use crate::sync::deadlock_controller::DeadlockController;
use crate::sync::resource_laws;
use crate::sync::resource_manager::DeadlockState;
use crate::sync::resource_model;
use crate::sync::resource_tracker::{ResourceTracker, TrackerModel};
use vstd::prelude::*;

verus! {

/// The internal resource under a user-visible id.
pub open spec fn lookup(mapping: Seq<Option<usize>>, id: usize) -> Option<usize> {
    if id < mapping.len() {
        mapping[id as int]
    } else {
        None
    }
}

/// Nothing changed but for rows that hold and need nothing.
pub open spec fn same_record(a: TrackerModel, b: TrackerModel) -> bool {
    &&& b.mapping == a.mapping
    &&& b.resources.totals == a.resources.totals
    &&& resource_laws::same_cells(a.resources.allocation, b.resources.allocation)
    &&& resource_laws::same_cells(a.resources.need, b.resources.need)
}

/// Nothing changed but for rows that hold and need nothing, and that `tid` now holds `held` and
/// needs `need` of resource `r`.
pub open spec fn same_record_but(
    a: TrackerModel,
    b: TrackerModel,
    tid: usize,
    r: usize,
    held: int,
    need: int,
) -> bool {
    &&& b.mapping == a.mapping
    &&& b.resources.totals == a.resources.totals
    &&& resource_laws::same_cells_but(
        a.resources.allocation,
        b.resources.allocation,
        tid,
        r,
        held,
    )
    &&& resource_laws::same_cells_but(a.resources.need, b.resources.need, tid, r, need)
}

/// What `tid` holds of resource `r`.
pub open spec fn holds(t: TrackerModel, tid: usize, r: usize) -> int {
    resource_laws::cell(t.resources.allocation, tid as int, r as int)
}

/// What `tid` needs of resource `r`.
pub open spec fn needs(t: TrackerModel, tid: usize, r: usize) -> int {
    resource_laws::cell(t.resources.need, tid as int, r as int)
}

/// `held` and `need` are the tables of `t` with rows for all threads up to `tid`, in which `tid`
/// needs one unit of resource `r` more than nothing.
pub open spec fn tables_with_request(
    t: TrackerModel,
    tid: usize,
    r: usize,
    held: Seq<Seq<usize>>,
    need: Seq<Seq<usize>>,
) -> bool {
    let rows = if t.resources.allocation.len() > tid {
        t.resources.allocation.len()
    } else {
        (tid + 1) as nat
    };
    &&& held.len() == rows
    &&& need.len() == rows
    &&& forall|p: int|
        0 <= p < rows ==> (#[trigger] held[p]).len() == t.resources.totals.len()
    &&& forall|p: int|
        0 <= p < rows ==> (#[trigger] need[p]).len() == t.resources.totals.len()
    &&& resource_laws::same_cells(t.resources.allocation, held)
    &&& resource_laws::same_cells_but(t.resources.need, need, tid, r, 1)
}

/// Tables with the same dimensions and entries are the same.
proof fn lemma_same_table(a: Seq<Seq<usize>>, b: Seq<Seq<usize>>, width: nat)
    requires
        a.len() == b.len(),
        forall|p: int| 0 <= p < a.len() ==> (#[trigger] a[p]).len() == width,
        forall|p: int| 0 <= p < b.len() ==> (#[trigger] b[p]).len() == width,
        resource_laws::same_cells(a, b),
    ensures
        a == b,
{
    assert forall|p: int| 0 <= p < a.len() implies a[p] == b[p] by {
        assert(a[p].len() == width);
        assert(b[p].len() == width);
        assert forall|r: int| 0 <= r < width implies a[p][r] == b[p][r] by {
            assert(resource_laws::cell(a, p, r) == resource_laws::cell(b, p, r));
        }
        assert(a[p] =~= b[p]);
    }
    assert(a =~= b);
}

/// The tables under which a request is decided.
proof fn lemma_request_tables(
    t: TrackerModel,
    tid: usize,
    r: usize,
    held: Seq<Seq<usize>>,
    need: Seq<Seq<usize>>,
)
    requires
        t.wf(),
        tid < usize::MAX,
        r < t.resources.totals.len(),
        tables_with_request(t, tid, r, held, need),
    ensures
        ({
            let asked = t.with_process(tid).with_need(tid, r, 1).resources;
            &&& asked.wf()
            &&& asked.totals == t.resources.totals
            &&& asked.allocation == held
            &&& asked.need == need
        }),
{
    let wide = t.with_process(tid).resources;
    let asked = t.with_process(tid).with_need(tid, r, 1).resources;
    assert(wide.wf());
    assert(wide.need[tid as int].len() == wide.totals.len());
    assert(asked.wf());
    lemma_same_table(asked.allocation, held, t.resources.totals.len());
    assert(resource_laws::same_cells(asked.need, need));
    lemma_same_table(asked.need, need, t.resources.totals.len());
}

/// Rows that hold nothing do not change what is left of a resource.
proof fn lemma_rows_keep_unheld(t: TrackerModel, tid: usize, r: int)
    requires
        t.wf(),
        tid < usize::MAX,
        0 <= r < t.resources.totals.len(),
    ensures
        t.with_process(tid).resources.available(r) == resource_laws::unheld(
            t.resources.totals,
            t.resources.allocation,
            r,
        ),
{
    let m = t.resources;
    resource_model::lemma_padded_sum(m.allocation, tid, m.totals.len(), r);
    resource_laws::lemma_held_by_all(m.allocation, m.totals.len(), r);
}

/// A new tracker knows nothing.
pub proof fn law_new_tracker(
    t: ResourceTracker,
)
    requires
        call_ensures(ResourceTracker::new, (), t),
    ensures
        t@.mapping.len() == 0,
        t@.resources.totals.len() == 0,
        t@.resources.allocation.len() == 0,
        t@.resources.need.len() == 0,
{
}

/// Looking an id up gives its internal resource.
pub proof fn law_resource_id(
    t: &ResourceTracker,
    id: usize,
    found: Option<usize>,
)
    requires
        call_ensures(ResourceTracker::resource_id, (t, id), found),
    ensures
        found == lookup(t@.mapping, id),
{
}

/// A registered id stands for the internal resource that is returned: the one it had, which starts
/// over, or else a new one of its own. It has `total` units, nobody holds or needs any of it, and
/// every other id and resource stays as it was.
pub proof fn law_register(
    t: &mut ResourceTracker,
    id: usize,
    total: usize,
    r: usize,
)
    requires
        old(t).wf(),
        id < usize::MAX,
        call_ensures(ResourceTracker::register, (t, id, total), r),
    ensures
        lookup(old(t)@.mapping, id) matches Some(known) ==> r == known,
        lookup(old(t)@.mapping, id) is None ==> r == old(t)@.resources.totals.len(),
        lookup(final(t)@.mapping, id) == Some(r),
        forall|e: usize|
            e != id ==> #[trigger] lookup(final(t)@.mapping, e) == lookup(old(t)@.mapping, e),
        forall|e: usize|
            e != id ==> #[trigger] lookup(final(t)@.mapping, e) != Some(r),
        final(t)@.resources.totals == if r < old(t)@.resources.totals.len() {
            old(t)@.resources.totals.update(r as int, total)
        } else {
            old(t)@.resources.totals.push(total)
        },
        forall|p: usize, q: usize| #[trigger]
            holds(final(t)@, p, q) == if q == r {
                0
            } else {
                holds(old(t)@, p, q)
            },
        forall|p: usize, q: usize| #[trigger]
            needs(final(t)@, p, q) == if q == r {
                0
            } else {
                needs(old(t)@, p, q)
            },
{
    let start = old(t)@;
    assert forall|e: usize| e != id implies #[trigger] lookup(final(t)@.mapping, e) == lookup(
        start.mapping,
        e,
    ) && lookup(start.mapping, e) != Some(r) by {
        if e < start.mapping.len() && start.mapping[e as int] is Some {
            assert(start.mapping[e as int]->0 < start.resources.totals.len());
            if id < start.mapping.len() && start.mapping[id as int] is Some {
                assert(start.mapping[e as int] != start.mapping[id as int]);
            }
        }
    }
}

/// A new row holds and needs nothing, and nothing else changes.
pub proof fn law_tracker_ensure_process(
    t: &mut ResourceTracker,
    pid: usize,
)
    requires
        old(t).wf(),
        pid < usize::MAX,
        call_ensures(ResourceTracker::ensure_process, (t, pid), ()),
    ensures
        same_record(old(t)@, final(t)@),
        final(t)@.resources.allocation.len() > pid,
{
}

/// The units left of a resource are those that nobody holds.
pub proof fn law_tracker_available_units(
    t: &ResourceTracker,
    r: usize,
    left: usize,
)
    requires
        t.wf(),
        r < t@.resources.totals.len(),
        call_ensures(ResourceTracker::available_units, (t, r), left),
    ensures
        left == resource_laws::unheld(t@.resources.totals, t@.resources.allocation, r as int),
{
    resource_laws::lemma_held_by_all(t@.resources.allocation, t@.resources.totals.len(), r as int);
}

/// Setting what a process needs changes that and nothing else.
pub proof fn law_tracker_set_need(
    t: &mut ResourceTracker,
    pid: usize,
    r: usize,
    value: usize,
)
    requires
        old(t).wf(),
        pid < usize::MAX,
        r < old(t)@.resources.totals.len(),
        call_ensures(ResourceTracker::set_need, (t, pid, r, value), ()),
    ensures
        same_record_but(
            old(t)@,
            final(t)@,
            pid,
            r,
            holds(old(t)@, pid, r),
            value as int,
        ),
{
    let wide = old(t)@.with_process(pid).resources;
    assert(wide.allocation[pid as int].len() == wide.totals.len());
    assert(wide.need[pid as int].len() == wide.totals.len());
}

/// Setting what a process holds changes that and nothing else.
pub proof fn law_tracker_set_allocation(
    t: &mut ResourceTracker,
    pid: usize,
    r: usize,
    value: usize,
)
    requires
        old(t).wf(),
        pid < usize::MAX,
        r < old(t)@.resources.totals.len(),
        call_ensures(ResourceTracker::set_allocation, (t, pid, r, value), ()),
    ensures
        same_record_but(
            old(t)@,
            final(t)@,
            pid,
            r,
            value as int,
            needs(old(t)@, pid, r),
        ),
{
    let wide = old(t)@.with_process(pid).resources;
    assert(wide.allocation[pid as int].len() == wide.totals.len());
    assert(wide.need[pid as int].len() == wide.totals.len());
}

/// Adding to what a process holds changes that and nothing else.
pub proof fn law_tracker_add_allocation(
    t: &mut ResourceTracker,
    pid: usize,
    r: usize,
    delta: usize,
)
    requires
        old(t).wf(),
        pid < usize::MAX,
        r < old(t)@.resources.totals.len(),
        call_ensures(ResourceTracker::add_allocation, (t, pid, r, delta), ()),
    ensures
        same_record_but(
            old(t)@,
            final(t)@,
            pid,
            r,
            vstd::math::min(holds(old(t)@, pid, r) + delta, usize::MAX as int),
            needs(old(t)@, pid, r),
        ),
{
    let wide = old(t)@.with_process(pid).resources;
    assert(wide.allocation[pid as int].len() == wide.totals.len());
    assert(wide.need[pid as int].len() == wide.totals.len());
}

/// Subtracting from what a process holds changes that and nothing else.
pub proof fn law_tracker_sub_allocation(
    t: &mut ResourceTracker,
    pid: usize,
    r: usize,
    delta: usize,
)
    requires
        old(t).wf(),
        pid < usize::MAX,
        r < old(t)@.resources.totals.len(),
        call_ensures(ResourceTracker::sub_allocation, (t, pid, r, delta), ()),
    ensures
        same_record_but(
            old(t)@,
            final(t)@,
            pid,
            r,
            vstd::math::max(holds(old(t)@, pid, r) - delta, 0),
            needs(old(t)@, pid, r),
        ),
{
    let wide = old(t)@.with_process(pid).resources;
    assert(wide.allocation[pid as int].len() == wide.totals.len());
    assert(wide.need[pid as int].len() == wide.totals.len());
}

/// Clearing the needs leaves what is held as it was.
pub proof fn law_tracker_clear_all_needs(
    t: &mut ResourceTracker,
)
    requires
        old(t).wf(),
        call_ensures(ResourceTracker::clear_all_needs, (t,), ()),
    ensures
        final(t)@.mapping == old(t)@.mapping,
        final(t)@.resources.totals == old(t)@.resources.totals,
        final(t)@.resources.allocation == old(t)@.resources.allocation,
        forall|p: usize, r: usize| #[trigger] needs(final(t)@, p, r) == 0,
{
}

/// A tracker reports exactly the processes that can never run.
pub proof fn law_tracker_reports(
    t: &ResourceTracker,
    state: DeadlockState,
)
    requires
        t.wf(),
        call_ensures(ResourceTracker::detect_deadlock, (t,), state),
    ensures
        state is Safe <==> !resource_laws::some_never_runs(
            t@.resources.totals,
            t@.resources.allocation,
            t@.resources.need,
        ),
        state matches DeadlockState::Deadlocked(pids) ==> forall|p: usize| #[trigger]
            pids@.contains(p) <==> resource_laws::never_runs(
                t@.resources.totals,
                t@.resources.allocation,
                t@.resources.need,
                p,
            ),
{
    resource_laws::lemma_never_runs(t@.resources);
    if let DeadlockState::Deadlocked(pids) = state {
        assert(pids@.contains(pids[0]));
        assert(t@.resources.claims().deadlocked(pids[0]));
    }
}

/// A new controller detects nothing and knows nothing.
pub proof fn law_new_controller(
    c: DeadlockController,
)
    requires
        call_ensures(DeadlockController::new, (), c),
    ensures
        !c@.enabled,
        c@.mutexes.mapping.len() == 0,
        c@.mutexes.resources.totals.len() == 0,
        c@.mutexes.resources.allocation.len() == 0,
        c@.mutexes.resources.need.len() == 0,
        c@.semaphores.mapping.len() == 0,
        c@.semaphores.resources.totals.len() == 0,
        c@.semaphores.resources.allocation.len() == 0,
        c@.semaphores.resources.need.len() == 0,
{
}

/// Turning detection on changes nothing else; turning it off also ends all waits, and leaves what is
/// held as it was.
pub proof fn law_set_enabled(
    c: &mut DeadlockController,
    enabled: bool,
    now: bool,
)
    requires
        old(c).wf(),
        call_ensures(DeadlockController::set_enabled, (c, enabled), ()),
        call_ensures(DeadlockController::enabled, (&*final(c),), now),
    ensures
        now == enabled,
        final(c)@.enabled == enabled,
        enabled ==> final(c)@.mutexes == old(c)@.mutexes && final(c)@.semaphores == old(c)@.semaphores,
        final(c)@.mutexes.mapping == old(c)@.mutexes.mapping,
        final(c)@.mutexes.resources.totals == old(c)@.mutexes.resources.totals,
        final(c)@.mutexes.resources.allocation == old(c)@.mutexes.resources.allocation,
        forall|p: usize, r: usize|
            !enabled ==> #[trigger] needs(final(c)@.mutexes, p, r) == 0,
        final(c)@.semaphores.mapping == old(c)@.semaphores.mapping,
        final(c)@.semaphores.resources.totals == old(c)@.semaphores.resources.totals,
        final(c)@.semaphores.resources.allocation == old(c)@.semaphores.resources.allocation,
        forall|p: usize, r: usize|
            !enabled ==> #[trigger] needs(final(c)@.semaphores, p, r) == 0,
{
}

/// New rows hold and need nothing, and nothing else changes.
pub proof fn law_ensure_thread(
    c: &mut DeadlockController,
    tid: usize,
)
    requires
        old(c).wf(),
        tid < usize::MAX,
        call_ensures(DeadlockController::ensure_thread, (c, tid), ()),
    ensures
        final(c)@.enabled == old(c)@.enabled,
        same_record(old(c)@.mutexes, final(c)@.mutexes),
        final(c)@.mutexes.resources.allocation.len() > tid,
        same_record(old(c)@.semaphores, final(c)@.semaphores),
        final(c)@.semaphores.resources.allocation.len() > tid,
{
}

/// Registering gives the id its units, which nobody holds or needs, and leaves every other id and
/// resource as it was.
pub proof fn law_register_mutex(
    c: &mut DeadlockController,
    id: usize,
    r: usize,
)
    requires
        old(c).wf(),
        id < usize::MAX,
        call_ensures(DeadlockController::register_mutex, (c, id), r),
    ensures
        final(c)@.enabled == old(c)@.enabled,
        final(c)@.semaphores == old(c)@.semaphores,
        lookup(old(c)@.mutexes.mapping, id) matches Some(known) ==> r == known,
        lookup(old(c)@.mutexes.mapping, id) is None ==> r == old(c)@.mutexes.resources.totals.len(),
        lookup(final(c)@.mutexes.mapping, id) == Some(r),
        final(c)@.mutexes.resources.totals[r as int] == 1usize,
        forall|q: int|
            0 <= q < old(c)@.mutexes.resources.totals.len() && q != r
                ==> #[trigger] final(c)@.mutexes.resources.totals[q] == old(c)@.mutexes.resources.totals[q],
        forall|e: usize|
            e != id ==> #[trigger] lookup(final(c)@.mutexes.mapping, e) == lookup(
                old(c)@.mutexes.mapping,
                e,
            ),
        forall|p: usize, q: usize| #[trigger]
            holds(final(c)@.mutexes, p, q) == if q == r {
                0
            } else {
                holds(old(c)@.mutexes, p, q)
            },
        forall|p: usize, q: usize| #[trigger]
            needs(final(c)@.mutexes, p, q) == if q == r {
                0
            } else {
                needs(old(c)@.mutexes, p, q)
            },
{
}

/// Registering gives the id its units, which nobody holds or needs, and leaves every other id and
/// resource as it was.
pub proof fn law_register_semaphore(
    c: &mut DeadlockController,
    id: usize,
    total: usize,
    r: usize,
)
    requires
        old(c).wf(),
        id < usize::MAX,
        call_ensures(DeadlockController::register_semaphore, (c, id, total), r),
    ensures
        final(c)@.enabled == old(c)@.enabled,
        final(c)@.mutexes == old(c)@.mutexes,
        lookup(old(c)@.semaphores.mapping, id) matches Some(known) ==> r == known,
        lookup(old(c)@.semaphores.mapping, id) is None ==> r == old(c)@.semaphores.resources.totals.len(),
        lookup(final(c)@.semaphores.mapping, id) == Some(r),
        final(c)@.semaphores.resources.totals[r as int] == total,
        forall|q: int|
            0 <= q < old(c)@.semaphores.resources.totals.len() && q != r
                ==> #[trigger] final(c)@.semaphores.resources.totals[q] == old(c)@.semaphores.resources.totals[q],
        forall|e: usize|
            e != id ==> #[trigger] lookup(final(c)@.semaphores.mapping, e) == lookup(
                old(c)@.semaphores.mapping,
                e,
            ),
        forall|p: usize, q: usize| #[trigger]
            holds(final(c)@.semaphores, p, q) == if q == r {
                0
            } else {
                holds(old(c)@.semaphores, p, q)
            },
        forall|p: usize, q: usize| #[trigger]
            needs(final(c)@.semaphores, p, q) == if q == r {
                0
            } else {
                needs(old(c)@.semaphores, p, q)
            },
{
}

/// A request for an unknown id is answered with -1 and changes nothing. One for a known resource is
/// refused with -0xDEAD exactly where detection is on, no unit is left, and some thread could never
/// run once this one needs a unit. Otherwise it is granted. The thread needs the unit afterwards
/// exactly where detection is on, none was left, and it was granted. Nothing else changes.
pub proof fn law_before_mutex_lock(
    c: &mut DeadlockController,
    tid: usize,
    id: usize,
    answer: Result<(), isize>,
    held: Seq<Seq<usize>>,
    need: Seq<Seq<usize>>,
)
    requires
        old(c).wf(),
        tid < usize::MAX,
        call_ensures(DeadlockController::before_mutex_lock, (c, tid, id), answer),
        lookup(old(c)@.mutexes.mapping, id) matches Some(r) ==> tables_with_request(
            old(c)@.mutexes,
            tid,
            r,
            held,
            need,
        ),
    ensures
        final(c)@.enabled == old(c)@.enabled,
        same_record(old(c)@.semaphores, final(c)@.semaphores),
        lookup(old(c)@.mutexes.mapping, id) is None ==> (answer matches Err(code) && code
            == -1) && same_record(
            old(c)@.mutexes,
            final(c)@.mutexes,
        ),
        lookup(old(c)@.mutexes.mapping, id) matches Some(r) ==> {
            let t = old(c)@.mutexes;
            let none_left = resource_laws::unheld(
                t.resources.totals,
                t.resources.allocation,
                r as int,
            ) == 0;
            let fatal = resource_laws::some_never_runs(t.resources.totals, held, need);
            &&& answer is Err <==> old(c)@.enabled && none_left && fatal
            &&& answer matches Err(code) ==> code == -0xDEAD
            &&& same_record_but(
                t,
                final(c)@.mutexes,
                tid,
                r,
                holds(t, tid, r),
                if old(c)@.enabled && none_left && !fatal {
                    1
                } else {
                    0
                },
            )
        },
{
    let t = old(c)@.mutexes;
    if let Some(r) = lookup(t.mapping, id) {
        assert(t.mapping[id as int] is Some);
        lemma_request_tables(t, tid, r, held, need);
        lemma_rows_keep_unheld(t, tid, r as int);
        let wide = t.with_process(tid);
        assert(wide.resources.need[tid as int].len() == wide.resources.totals.len());
        resource_laws::lemma_never_runs(wide.with_need(tid, r, 1).resources);
    }
}

/// A request for an unknown id is answered with -1 and changes nothing. One for a known resource is
/// refused with -0xDEAD exactly where detection is on, no unit is left, and some thread could never
/// run once this one needs a unit. Otherwise it is granted. The thread needs the unit afterwards
/// exactly where detection is on, none was left, and it was granted. Nothing else changes.
pub proof fn law_before_semaphore_down(
    c: &mut DeadlockController,
    tid: usize,
    id: usize,
    answer: Result<(), isize>,
    held: Seq<Seq<usize>>,
    need: Seq<Seq<usize>>,
)
    requires
        old(c).wf(),
        tid < usize::MAX,
        call_ensures(DeadlockController::before_semaphore_down, (c, tid, id), answer),
        lookup(old(c)@.semaphores.mapping, id) matches Some(r) ==> tables_with_request(
            old(c)@.semaphores,
            tid,
            r,
            held,
            need,
        ),
    ensures
        final(c)@.enabled == old(c)@.enabled,
        same_record(old(c)@.mutexes, final(c)@.mutexes),
        lookup(old(c)@.semaphores.mapping, id) is None ==> (answer matches Err(code) && code
            == -1) && same_record(
            old(c)@.semaphores,
            final(c)@.semaphores,
        ),
        lookup(old(c)@.semaphores.mapping, id) matches Some(r) ==> {
            let t = old(c)@.semaphores;
            let none_left = resource_laws::unheld(
                t.resources.totals,
                t.resources.allocation,
                r as int,
            ) == 0;
            let fatal = resource_laws::some_never_runs(t.resources.totals, held, need);
            &&& answer is Err <==> old(c)@.enabled && none_left && fatal
            &&& answer matches Err(code) ==> code == -0xDEAD
            &&& same_record_but(
                t,
                final(c)@.semaphores,
                tid,
                r,
                holds(t, tid, r),
                if old(c)@.enabled && none_left && !fatal {
                    1
                } else {
                    0
                },
            )
        },
{
    let t = old(c)@.semaphores;
    if let Some(r) = lookup(t.mapping, id) {
        assert(t.mapping[id as int] is Some);
        lemma_request_tables(t, tid, r, held, need);
        lemma_rows_keep_unheld(t, tid, r as int);
        let wide = t.with_process(tid);
        assert(wide.resources.need[tid as int].len() == wide.resources.totals.len());
        resource_laws::lemma_never_runs(wide.with_need(tid, r, 1).resources);
    }
}

/// A thread that locked a known mutex holds its unit and waits for it no more. Nothing else
/// changes. An unknown one is answered with -1.
pub proof fn law_after_mutex_lock(
    c: &mut DeadlockController,
    tid: usize,
    id: usize,
    answer: Result<(), isize>,
)
    requires
        old(c).wf(),
        tid < usize::MAX,
        call_ensures(DeadlockController::after_mutex_lock, (c, tid, id), answer),
    ensures
        final(c)@.enabled == old(c)@.enabled,
        same_record(old(c)@.semaphores, final(c)@.semaphores),
        lookup(old(c)@.mutexes.mapping, id) is None ==> (answer matches Err(code) && code
            == -1) && same_record(
            old(c)@.mutexes,
            final(c)@.mutexes,
        ),
        lookup(old(c)@.mutexes.mapping, id) matches Some(r) ==> answer == Ok::<(), isize>(())
            && same_record_but(old(c)@.mutexes, final(c)@.mutexes, tid, r, 1, 0),
{
    let t = old(c)@.mutexes;
    if let Some(r) = lookup(t.mapping, id) {
        assert(t.mapping[id as int] is Some);
        let wide = t.with_process(tid);
        assert(wide.resources.need[tid as int].len() == wide.resources.totals.len());
        assert(wide.resources.allocation[tid as int].len() == wide.resources.totals.len());
    }
}

/// A thread that unlocked a known mutex neither holds nor needs it. Nothing else changes. An unknown
/// one is answered with -1.
pub proof fn law_after_mutex_unlock(
    c: &mut DeadlockController,
    tid: usize,
    id: usize,
    answer: Result<(), isize>,
)
    requires
        old(c).wf(),
        tid < usize::MAX,
        call_ensures(DeadlockController::after_mutex_unlock, (c, tid, id), answer),
    ensures
        final(c)@.enabled == old(c)@.enabled,
        same_record(old(c)@.semaphores, final(c)@.semaphores),
        lookup(old(c)@.mutexes.mapping, id) is None ==> (answer matches Err(code) && code
            == -1) && same_record(
            old(c)@.mutexes,
            final(c)@.mutexes,
        ),
        lookup(old(c)@.mutexes.mapping, id) matches Some(r) ==> answer == Ok::<(), isize>(())
            && same_record_but(old(c)@.mutexes, final(c)@.mutexes, tid, r, 0, 0),
{
    let t = old(c)@.mutexes;
    if let Some(r) = lookup(t.mapping, id) {
        assert(t.mapping[id as int] is Some);
        let wide = t.with_process(tid);
        assert(wide.resources.need[tid as int].len() == wide.resources.totals.len());
        assert(wide.resources.allocation[tid as int].len() == wide.resources.totals.len());
    }
}

/// A thread that took a unit of a known semaphore holds one more and waits for none of it. Nothing
/// else changes. An unknown one is answered with -1.
pub proof fn law_after_semaphore_down(
    c: &mut DeadlockController,
    tid: usize,
    id: usize,
    answer: Result<(), isize>,
)
    requires
        old(c).wf(),
        tid < usize::MAX,
        call_ensures(DeadlockController::after_semaphore_down, (c, tid, id), answer),
    ensures
        final(c)@.enabled == old(c)@.enabled,
        same_record(old(c)@.mutexes, final(c)@.mutexes),
        lookup(old(c)@.semaphores.mapping, id) is None ==> (answer matches Err(code) && code
            == -1) && same_record(
            old(c)@.semaphores,
            final(c)@.semaphores,
        ),
        lookup(old(c)@.semaphores.mapping, id) matches Some(r) ==> answer == Ok::<(), isize>(())
            && same_record_but(old(c)@.semaphores, final(c)@.semaphores, tid, r, vstd::math::min(holds(old(c)@.semaphores, tid, r) + 1, usize::MAX as int), 0),
{
    let t = old(c)@.semaphores;
    if let Some(r) = lookup(t.mapping, id) {
        assert(t.mapping[id as int] is Some);
        let wide = t.with_process(tid);
        assert(wide.resources.need[tid as int].len() == wide.resources.totals.len());
        assert(wide.resources.allocation[tid as int].len() == wide.resources.totals.len());
    }
}

/// A thread that gave a unit of a known semaphore holds one less, where it held any. Nothing else
/// changes. An unknown one is answered with -1.
pub proof fn law_after_semaphore_up(
    c: &mut DeadlockController,
    tid: usize,
    id: usize,
    answer: Result<(), isize>,
)
    requires
        old(c).wf(),
        tid < usize::MAX,
        call_ensures(DeadlockController::after_semaphore_up, (c, tid, id), answer),
    ensures
        final(c)@.enabled == old(c)@.enabled,
        same_record(old(c)@.mutexes, final(c)@.mutexes),
        lookup(old(c)@.semaphores.mapping, id) is None ==> (answer matches Err(code) && code
            == -1) && same_record(
            old(c)@.semaphores,
            final(c)@.semaphores,
        ),
        lookup(old(c)@.semaphores.mapping, id) matches Some(r) ==> answer == Ok::<(), isize>(())
            && same_record_but(old(c)@.semaphores, final(c)@.semaphores, tid, r, vstd::math::max(holds(old(c)@.semaphores, tid, r) - 1, 0), needs(old(c)@.semaphores, tid, r)),
{
    let t = old(c)@.semaphores;
    if let Some(r) = lookup(t.mapping, id) {
        assert(t.mapping[id as int] is Some);
        let wide = t.with_process(tid);
        assert(wide.resources.need[tid as int].len() == wide.resources.totals.len());
        assert(wide.resources.allocation[tid as int].len() == wide.resources.totals.len());
    }
}

/// A thread that exits holds and needs nothing. What every other thread holds and needs, and what
/// exists, stays as it was.
pub proof fn law_cleanup_thread(
    c: &mut DeadlockController,
    tid: usize,
)
    requires
        old(c).wf(),
        call_ensures(DeadlockController::cleanup_thread, (c, tid), ()),
    ensures
        final(c)@.enabled == old(c)@.enabled,
        final(c)@.mutexes.mapping == old(c)@.mutexes.mapping,
        final(c)@.mutexes.resources.totals == old(c)@.mutexes.resources.totals,
        final(c)@.mutexes.resources.allocation.len() == old(c)@.mutexes.resources.allocation.len(),
        forall|p: usize, r: usize| #[trigger]
            holds(final(c)@.mutexes, p, r) == if p == tid {
                0
            } else {
                holds(old(c)@.mutexes, p, r)
            },
        forall|p: usize, r: usize| #[trigger]
            needs(final(c)@.mutexes, p, r) == if p == tid {
                0
            } else {
                needs(old(c)@.mutexes, p, r)
            },
        final(c)@.semaphores.mapping == old(c)@.semaphores.mapping,
        final(c)@.semaphores.resources.totals == old(c)@.semaphores.resources.totals,
        final(c)@.semaphores.resources.allocation.len() == old(c)@.semaphores.resources.allocation.len(),
        forall|p: usize, r: usize| #[trigger]
            holds(final(c)@.semaphores, p, r) == if p == tid {
                0
            } else {
                holds(old(c)@.semaphores, p, r)
            },
        forall|p: usize, r: usize| #[trigger]
            needs(final(c)@.semaphores, p, r) == if p == tid {
                0
            } else {
                needs(old(c)@.semaphores, p, r)
            },
{
}

} // verus!
