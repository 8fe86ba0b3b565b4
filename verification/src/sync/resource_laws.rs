//! What each operation of a [`ResourceManager`] does to the single entries of its tables, and
//! whom it reports as deadlocked.

use crate::sync::resource_manager::{DeadlockState, ResourceManager};
use crate::sync::resource_model;
use crate::sync::resource_model::ResourceModel;
use crate::sync::turns;
use vstd::prelude::*;

verus! {

/// The entry of row `p` and column `r`; zero where the table has none.
pub open spec fn cell(rows: Seq<Seq<usize>>, p: int, r: int) -> int {
    if 0 <= p < rows.len() && 0 <= r < rows[p].len() {
        rows[p][r] as int
    } else {
        0
    }
}

/// The two tables have the same entries.
pub open spec fn same_cells(a: Seq<Seq<usize>>, b: Seq<Seq<usize>>) -> bool {
    forall|p: int, r: int|
        #![trigger cell(a, p, r)]
        #![trigger cell(b, p, r)]
        cell(a, p, r) == cell(b, p, r)
}

/// The two tables have the same entries but for row `p` and column `r`, where `b` has `value`.
pub open spec fn same_cells_but(
    a: Seq<Seq<usize>>,
    b: Seq<Seq<usize>>,
    p: usize,
    r: usize,
    value: int,
) -> bool {
    forall|q: int, s: int|
        #![trigger cell(a, q, s)]
        #![trigger cell(b, q, s)]
        cell(b, q, s) == if q == p && s == r {
            value
        } else {
            cell(a, q, s)
        }
}

/// The sum of the entries of column `r`.
pub open spec fn held_by_all(rows: Seq<Seq<usize>>, r: int) -> int
    decreases rows.len(),
{
    if rows.len() == 0 {
        0
    } else {
        cell(rows, 0, r) + held_by_all(rows.drop_first(), r)
    }
}

/// The units of kind `r` that exist and nobody holds.
pub open spec fn unheld(totals: Seq<usize>, rows: Seq<Seq<usize>>, r: int) -> int {
    if held_by_all(rows, r) < totals[r] {
        totals[r] - held_by_all(rows, r)
    } else {
        0
    }
}

/// The units of kind `r` that the processes of `order` hold together.
pub open spec fn held_in(rows: Seq<Seq<usize>>, order: Seq<usize>, r: int) -> int
    decreases order.len(),
{
    if order.len() == 0 {
        0
    } else {
        held_in(rows, order.drop_last(), r) + cell(rows, order.last() as int, r)
    }
}

/// Whether the processes of `order`, each named once, can run one after the other: each gets all
/// it needs out of the units that nobody holds and those that the processes before it held.
pub open spec fn can_run(
    totals: Seq<usize>,
    held: Seq<Seq<usize>>,
    need: Seq<Seq<usize>>,
    order: Seq<usize>,
) -> bool {
    &&& order.no_duplicates()
    &&& forall|i: int| 0 <= i < order.len() ==> #[trigger] order[i] < held.len()
    &&& forall|i: int, r: int|
        0 <= i < order.len() && 0 <= r < totals.len() ==> #[trigger] cell(
            need,
            order[i] as int,
            r,
        ) <= unheld(totals, held, r) + held_in(held, order.take(i), r)
}

/// Whether process `p` is part of no order in which processes can run one after the other.
pub open spec fn never_runs(
    totals: Seq<usize>,
    held: Seq<Seq<usize>>,
    need: Seq<Seq<usize>>,
    p: usize,
) -> bool {
    &&& p < held.len()
    &&& forall|order: Seq<usize>| #[trigger]
        can_run(totals, held, need, order) ==> !order.contains(p)
}

/// Whether some process can never run.
pub open spec fn some_never_runs(
    totals: Seq<usize>,
    held: Seq<Seq<usize>>,
    need: Seq<Seq<usize>>,
) -> bool {
    exists|p: usize| #[trigger] never_runs(totals, held, need, p)
}

/// The sums of a column agree.
pub proof fn lemma_held_by_all(rows: Seq<Seq<usize>>, width: nat, r: int)
    requires
        0 <= r < width,
        forall|p: int| 0 <= p < rows.len() ==> (#[trigger] rows[p]).len() == width,
    ensures
        held_by_all(rows, r) == resource_model::column_sum(rows, r),
        held_by_all(rows, r) >= 0,
    decreases rows.len(),
{
    if rows.len() > 0 {
        let rest = rows.drop_first();
        assert forall|p: int| 0 <= p < rest.len() implies (#[trigger] rest[p]).len() == width by {
            assert(rest[p] == rows[p + 1]);
        }
        lemma_held_by_all(rest, width, r);
        lemma_sum_from_front(rows, r);
        assert(rows[0].len() == width);
    }
}

/// A column adds up to its first entry and the rest.
proof fn lemma_sum_from_front(rows: Seq<Seq<usize>>, r: int)
    requires
        rows.len() > 0,
    ensures
        resource_model::column_sum(rows, r) == rows[0][r] + resource_model::column_sum(
            rows.drop_first(),
            r,
        ),
    decreases rows.len(),
{
    if rows.len() > 1 {
        lemma_sum_from_front(rows.drop_last(), r);
        assert(rows.drop_last().drop_first() =~= rows.drop_first().drop_last());
        assert(rows.drop_first().last() == rows.last());
    } else {
        assert(rows.drop_first() =~= Seq::empty());
        assert(rows.drop_last() =~= Seq::empty());
        assert(resource_model::column_sum(rows.drop_last(), r) == 0);
    }
}

/// Processes run in turn exactly where their claims do.
proof fn lemma_can_run(m: ResourceModel, order: Seq<usize>)
    requires
        m.wf(),
    ensures
        can_run(m.totals, m.allocation, m.need, order) <==> turns::run_in_turn(m.claims(), order),
{
    let c = m.claims();
    assert(forall|p: usize| #[trigger] c.held.contains_key(p) <==> p < m.allocation.len());
    if can_run(m.totals, m.allocation, m.need, order) || turns::run_in_turn(c, order) {
        assert forall|i: int| 0 <= i < order.len() implies #[trigger] order[i]
            < m.allocation.len() by {
            if turns::run_in_turn(c, order) {
                assert(c.held.contains_key(order[i]));
            }
        }
        if turns::run_in_turn(c, order) {
            assert forall|i: int, r: int|
                0 <= i < order.len() && 0 <= r < m.totals.len() implies #[trigger] cell(
                m.need,
                order[i] as int,
                r,
            ) <= unheld(m.totals, m.allocation, r) + held_in(m.allocation, order.take(i), r) by {
                lemma_turn(m, order, i, r);
                assert(c.wanted[order[i]][r] <= 0 || c.wanted[order[i]][r] <= c.available[r]
                    + turns::given_back(c.held, order.take(i), r));
            }
        } else {
            assert forall|i: int, r: int|
                0 <= i < order.len() && 0 <= r < c.available.len() implies ({
                ||| #[trigger] c.wanted[order[i]][r] <= 0
                ||| c.wanted[order[i]][r] <= c.available[r] + turns::given_back(
                    c.held,
                    order.take(i),
                    r,
                )
            }) by {
                lemma_turn(m, order, i, r);
                assert(cell(m.need, order[i] as int, r) <= unheld(m.totals, m.allocation, r)
                    + held_in(m.allocation, order.take(i), r));
            }
        }
    }
}

/// What one process needs and gets of one kind in its turn.
proof fn lemma_turn(m: ResourceModel, order: Seq<usize>, i: int, r: int)
    requires
        m.wf(),
        forall|k: int| 0 <= k < order.len() ==> #[trigger] order[k] < m.allocation.len(),
        0 <= i < order.len(),
        0 <= r < m.totals.len(),
    ensures
        cell(m.need, order[i] as int, r) == m.claims().wanted[order[i]][r],
        unheld(m.totals, m.allocation, r) == m.claims().available[r],
        held_in(m.allocation, order.take(i), r) == turns::given_back(
            m.claims().held,
            order.take(i),
            r,
        ),
        unheld(m.totals, m.allocation, r) >= 0,
        held_in(m.allocation, order.take(i), r) >= 0,
{
    lemma_held_by_all(m.allocation, m.totals.len(), r);
    assert forall|k: int| 0 <= k < order.take(i).len() implies #[trigger] order.take(i)[k]
        < m.allocation.len() by {
        assert(order.take(i)[k] == order[k]);
    }
    lemma_held_in(m, order.take(i), r);
    assert(order[i] < m.allocation.len());
    assert(m.need[order[i] as int].len() == m.totals.len());
    assert(m.claims().wanted.contains_key(order[i]));
}

/// What processes give back in turn.
proof fn lemma_held_in(m: ResourceModel, order: Seq<usize>, r: int)
    requires
        m.wf(),
        0 <= r < m.totals.len(),
        forall|i: int| 0 <= i < order.len() ==> #[trigger] order[i] < m.allocation.len(),
    ensures
        held_in(m.allocation, order, r) == turns::given_back(m.claims().held, order, r),
        held_in(m.allocation, order, r) >= 0,
    decreases order.len(),
{
    if order.len() > 0 {
        let before = order.drop_last();
        assert forall|i: int| 0 <= i < before.len() implies #[trigger] before[i]
            < m.allocation.len() by {
            assert(before[i] == order[i]);
        }
        lemma_held_in(m, before, r);
        assert(order[order.len() - 1] < m.allocation.len());
        assert(m.allocation[order.last() as int].len() == m.totals.len());
        assert(m.claims().held.contains_key(order.last()));
    }
}

/// The deadlocked processes are those that can never run.
pub proof fn lemma_never_runs(m: ResourceModel)
    requires
        m.wf(),
    ensures
        forall|p: usize| #[trigger]
            never_runs(m.totals, m.allocation, m.need, p) <==> m.claims().deadlocked(p),
        some_never_runs(m.totals, m.allocation, m.need) <==> m.claims().has_deadlock(),
{
    let c = m.claims();
    resource_model::lemma_claims_wf(m);
    assert forall|p: usize| #[trigger]
        never_runs(m.totals, m.allocation, m.need, p) <==> c.deadlocked(p) by {
        turns::law_deadlocked_iff_never_runs(c, p);
        assert(c.held.contains_key(p) <==> p < m.allocation.len());
        if never_runs(m.totals, m.allocation, m.need, p) {
            assert forall|order: Seq<usize>| #[trigger]
                turns::run_in_turn(c, order) implies !order.contains(p) by {
                lemma_can_run(m, order);
                assert(can_run(m.totals, m.allocation, m.need, order));
            }
        }
        if c.deadlocked(p) {
            assert forall|order: Seq<usize>| #[trigger]
                can_run(m.totals, m.allocation, m.need, order) implies !order.contains(p) by {
                lemma_can_run(m, order);
                assert(turns::run_in_turn(c, order));
            }
        }
    }
    if c.has_deadlock() {
        let p = choose|p: usize| #[trigger] c.deadlocked(p);
        assert(never_runs(m.totals, m.allocation, m.need, p));
    }
}

/// A deadlock is reported exactly where some process can never run, and then every such process
/// is reported and no other, in ascending order.
pub proof fn law_reported_iff_never_runs(m: &ResourceManager, state: DeadlockState)
    requires
        m.wf(),
        call_ensures(ResourceManager::detect_deadlock, (m,), state),
    ensures
        state is Safe <==> !some_never_runs(m@.totals, m@.allocation, m@.need),
        state matches DeadlockState::Deadlocked(pids) ==> {
            &&& forall|p: usize| #[trigger]
                pids@.contains(p) <==> never_runs(m@.totals, m@.allocation, m@.need, p)
            &&& forall|i: int, j: int| 0 <= i < j < pids.len() ==> pids[i] < pids[j]
        },
{
    lemma_never_runs(m@);
    if let DeadlockState::Deadlocked(pids) = state {
        assert(pids@.contains(pids[0]));
        assert(m@.claims().deadlocked(pids[0]));
    }
}

/// The counts of units held by all and of units left agree with the tables.
pub proof fn law_units_are_counted(
    m: &ResourceManager,
    res_id: usize,
    held: usize,
    left: usize,
)
    requires
        m.wf(),
        res_id < m@.totals.len(),
        call_ensures(ResourceManager::total_allocation, (m, res_id), held),
        call_ensures(ResourceManager::available_units, (m, res_id), left),
    ensures
        held == held_by_all(m@.allocation, res_id as int),
        left == if m@.totals[res_id as int] > held {
            m@.totals[res_id as int] - held
        } else {
            0
        },
{
    lemma_held_by_all(m@.allocation, m@.totals.len(), res_id as int);
}

/// A new manager records nothing, and counts follow the tables.
pub proof fn law_counts(m: &ResourceManager, kinds: usize, processes: usize, fresh: ResourceManager)
    requires
        call_ensures(ResourceManager::resource_count, (m,), kinds),
        call_ensures(ResourceManager::process_count, (m,), processes),
        call_ensures(ResourceManager::new, (), fresh),
    ensures
        kinds == m@.totals.len(),
        processes == m@.allocation.len(),
        fresh@.totals.len() == 0,
        fresh@.allocation.len() == 0,
        fresh@.need.len() == 0,
{
}

/// New rows hold and need nothing, and no entry changes.
pub proof fn law_ensure_process(m: &mut ResourceManager, pid: usize)
    requires
        old(m).wf(),
        pid < usize::MAX,
        call_ensures(ResourceManager::ensure_process, (m, pid), ()),
    ensures
        final(m)@.totals == old(m)@.totals,
        final(m)@.allocation.len() == if old(m)@.allocation.len() > pid {
            old(m)@.allocation.len()
        } else {
            (pid + 1) as nat
        },
        final(m)@.need.len() == final(m)@.allocation.len(),
        same_cells(old(m)@.allocation, final(m)@.allocation),
        same_cells(old(m)@.need, final(m)@.need),
{
}

/// A new kind is the last, nobody holds or needs any of it, and no entry changes.
pub proof fn law_add_resource(m: &mut ResourceManager, total: usize, res_id: usize)
    requires
        old(m).wf(),
        call_ensures(ResourceManager::add_resource, (m, total), res_id),
    ensures
        res_id == old(m)@.totals.len(),
        final(m)@.totals == old(m)@.totals.push(total),
        final(m)@.allocation.len() == old(m)@.allocation.len(),
        same_cells(old(m)@.allocation, final(m)@.allocation),
        same_cells(old(m)@.need, final(m)@.need),
{
}

/// A kind that starts over has `total` units, nobody holds or needs any of it, and the other
/// kinds stay as they were.
pub proof fn law_reset_resource(m: &mut ResourceManager, res_id: usize, total: usize)
    requires
        old(m).wf(),
        res_id < old(m)@.totals.len(),
        call_ensures(ResourceManager::reset_resource, (m, res_id, total), ()),
    ensures
        final(m)@.totals == old(m)@.totals.update(res_id as int, total),
        final(m)@.allocation.len() == old(m)@.allocation.len(),
        forall|p: int, r: int| #[trigger]
            cell(final(m)@.allocation, p, r) == if r == res_id {
                0
            } else {
                cell(old(m)@.allocation, p, r)
            },
        forall|p: int, r: int| #[trigger]
            cell(final(m)@.need, p, r) == if r == res_id {
                0
            } else {
                cell(old(m)@.need, p, r)
            },
{
}

/// Setting what a process holds changes that entry and no other.
pub proof fn law_set_allocation(m: &mut ResourceManager, pid: usize, res_id: usize, value: usize)
    requires
        old(m).wf(),
        pid < usize::MAX,
        res_id < old(m)@.totals.len(),
        call_ensures(ResourceManager::set_allocation, (m, pid, res_id, value), ()),
    ensures
        final(m)@.totals == old(m)@.totals,
        same_cells_but(
            old(m)@.allocation,
            final(m)@.allocation,
            pid,
            res_id,
            value as int,
        ),
        same_cells(old(m)@.need, final(m)@.need),
{
    let mid = old(m)@.with_process(pid);
    assert(mid.allocation[pid as int].len() == mid.totals.len());
}

/// Adding to what a process holds changes that entry and no other, up to the largest count.
pub proof fn law_add_allocation(m: &mut ResourceManager, pid: usize, res_id: usize, delta: usize)
    requires
        old(m).wf(),
        pid < usize::MAX,
        res_id < old(m)@.totals.len(),
        call_ensures(ResourceManager::add_allocation, (m, pid, res_id, delta), ()),
    ensures
        final(m)@.totals == old(m)@.totals,
        same_cells_but(
            old(m)@.allocation,
            final(m)@.allocation,
            pid,
            res_id,
            vstd::math::min(
                cell(old(m)@.allocation, pid as int, res_id as int) + delta,
                usize::MAX as int,
            ),
        ),
        same_cells(old(m)@.need, final(m)@.need),
{
    let mid = old(m)@.with_process(pid);
    assert(mid.allocation[pid as int].len() == mid.totals.len());
}

/// Subtracting from what a process holds changes that entry and no other, down to zero.
pub proof fn law_sub_allocation(m: &mut ResourceManager, pid: usize, res_id: usize, delta: usize)
    requires
        old(m).wf(),
        pid < usize::MAX,
        res_id < old(m)@.totals.len(),
        call_ensures(ResourceManager::sub_allocation, (m, pid, res_id, delta), ()),
    ensures
        final(m)@.totals == old(m)@.totals,
        same_cells_but(
            old(m)@.allocation,
            final(m)@.allocation,
            pid,
            res_id,
            vstd::math::max(
                cell(old(m)@.allocation, pid as int, res_id as int) - delta,
                0,
            ),
        ),
        same_cells(old(m)@.need, final(m)@.need),
{
    let mid = old(m)@.with_process(pid);
    assert(mid.allocation[pid as int].len() == mid.totals.len());
}

/// Setting what a process needs changes that entry and no other.
pub proof fn law_set_need(m: &mut ResourceManager, pid: usize, res_id: usize, value: usize)
    requires
        old(m).wf(),
        pid < usize::MAX,
        res_id < old(m)@.totals.len(),
        call_ensures(ResourceManager::set_need, (m, pid, res_id, value), ()),
    ensures
        final(m)@.totals == old(m)@.totals,
        same_cells(old(m)@.allocation, final(m)@.allocation),
        same_cells_but(old(m)@.need, final(m)@.need, pid, res_id, value as int),
{
    let mid = old(m)@.with_process(pid);
    assert(mid.need[pid as int].len() == mid.totals.len());
}

/// Clearing the needs leaves what is held as it was.
pub proof fn law_clear_all_needs(m: &mut ResourceManager)
    requires
        old(m).wf(),
        call_ensures(ResourceManager::clear_all_needs, (m,), ()),
    ensures
        final(m)@.totals == old(m)@.totals,
        final(m)@.allocation == old(m)@.allocation,
        final(m)@.need.len() == old(m)@.need.len(),
        forall|p: int, r: int| #[trigger] cell(final(m)@.need, p, r) == 0,
{
}

} // verus!
