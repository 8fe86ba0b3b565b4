//! What each operation of a [`DeadlockState`] answers, and what it does to every owner, wait, and
//! count of units.

use crate::sync::turns;
use crate::task::deadlock::DeadlockState;
use crate::task::mutex_deadlock::MutexModel;
use crate::task::semaphore_deadlock;
use crate::task::semaphore_deadlock::SemaphoreModel;
use vstd::prelude::*;

verus! {

/// The owner of a mutex.
pub open spec fn owner_of(owners: Seq<Option<usize>>, id: usize) -> Option<usize> {
    if id < owners.len() {
        owners[id as int]
    } else {
        None
    }
}

/// What a thread waits for.
pub open spec fn wait_of(waiting: Map<usize, usize>, t: usize) -> Option<usize> {
    if waiting.contains_key(t) {
        Some(waiting[t])
    } else {
        None
    }
}

/// The free units of a semaphore.
pub open spec fn free_of(m: SemaphoreModel, s: usize) -> int {
    if s < m.available.len() {
        m.available[s as int] as int
    } else {
        0
    }
}

/// The units of a semaphore that a thread holds.
pub open spec fn held_of(m: SemaphoreModel, t: usize, s: usize) -> int {
    if m.allocation.contains_key(t) && s < m.allocation[t].len() {
        m.allocation[t][s as int] as int
    } else {
        0
    }
}

/// Every mutex has the owner that it had.
pub open spec fn same_owners(a: MutexModel, b: MutexModel) -> bool {
    forall|e: usize| #[trigger] owner_of(b.owners, e) == owner_of(a.owners, e)
}

/// Every mutex but `id` has the owner that it had, and `id` has `owner`.
pub open spec fn same_owners_but(a: MutexModel, b: MutexModel, id: usize, owner: Option<usize>) -> bool {
    forall|e: usize| #[trigger]
        owner_of(b.owners, e) == if e == id {
            owner
        } else {
            owner_of(a.owners, e)
        }
}

/// Every thread but `tid` waits for what it waited for, and `tid` for `target`.
pub open spec fn same_waits_but(
    a: Map<usize, usize>,
    b: Map<usize, usize>,
    tid: usize,
    target: Option<usize>,
) -> bool {
    forall|t: usize| #[trigger]
        wait_of(b, t) == if t == tid {
            target
        } else {
            wait_of(a, t)
        }
}

/// Nobody waits for `id`, and who waited for something else still does.
pub open spec fn waits_without(a: Map<usize, usize>, b: Map<usize, usize>, id: usize) -> bool {
    forall|t: usize| #[trigger]
        wait_of(b, t) == if wait_of(a, t) == Some(id) {
            None
        } else {
            wait_of(a, t)
        }
}

/// Every semaphore has the free units that it had, but for `id`, which has `units`.
pub open spec fn same_free_but(a: SemaphoreModel, b: SemaphoreModel, id: usize, units: int) -> bool {
    forall|s: usize| #[trigger]
        free_of(b, s) == if s == id {
            units
        } else {
            free_of(a, s)
        }
}

/// Every thread holds what it held, but for `tid`, which holds `units` of `id`.
pub open spec fn same_held_but(
    a: SemaphoreModel,
    b: SemaphoreModel,
    tid: usize,
    id: usize,
    units: int,
) -> bool {
    forall|t: usize, s: usize| #[trigger]
        held_of(b, t, s) == if t == tid && s == id {
            units
        } else {
            held_of(a, t, s)
        }
}

/// Each thread of `path` waits for a mutex that the next one owns.
pub open spec fn wait_in_line(m: MutexModel, path: Seq<usize>) -> bool {
    forall|i: int|
        0 <= i < path.len() - 1 ==> {
            &&& m.waiting.contains_key(#[trigger] path[i])
            &&& owner_of(m.owners, m.waiting[path[i]]) == Some(path[i + 1])
        }
}

/// Whether the owner of `id` is `tid`, or waits for it through a line of threads.
pub open spec fn owner_waits_for(m: MutexModel, tid: usize, id: usize) -> bool {
    exists|path: Seq<usize>| #[trigger]
        wait_in_line(m, path) && path.len() > 0 && owner_of(m.owners, id) == Some(path[0])
            && path.last() == tid
}

/// A new state has detection off, and nothing is owned, held or waited for.
pub proof fn law_new(d: DeadlockState)
    requires
        call_ensures(DeadlockState::new, (), d),
    ensures
        !d@.enabled,
        d@.mutex.owners.len() == 0,
        forall|t: usize| #[trigger] wait_of(d@.mutex.waiting, t) is None,
        d@.semaphore.available.len() == 0,
        forall|t: usize| !#[trigger] d@.semaphore.allocation.contains_key(t),
        forall|t: usize| #[trigger] wait_of(d@.semaphore.waiting, t) is None,
{
}

/// Turning detection on or off changes nothing else.
pub proof fn law_set_enabled(d: &mut DeadlockState, enabled: bool)
    requires
        call_ensures(DeadlockState::set_enabled, (d, enabled), ()),
    ensures
        final(d)@.enabled == enabled,
        final(d)@.mutex == old(d)@.mutex,
        final(d)@.semaphore == old(d)@.semaphore,
{
}

/// A registered mutex has no owner and nobody waits for it. Every other owner and wait stays.
pub proof fn law_register_mutex(d: &mut DeadlockState, id: usize)
    requires
        id < usize::MAX,
        call_ensures(DeadlockState::register_mutex, (d, id), ()),
    ensures
        final(d)@.enabled == old(d)@.enabled,
        final(d)@.semaphore == old(d)@.semaphore,
        same_owners_but(old(d)@.mutex, final(d)@.mutex, id, None),
        waits_without(old(d)@.mutex.waiting, final(d)@.mutex.waiting, id),
{
}

/// A thread that asks for a mutex and is not refused waits afterwards for exactly that mutex where
/// it has an owner, and for nothing where it has none; a refused one waits for nothing. No other
/// wait and no owner changes, whether detection is on or off. A free mutex is never refused, and
/// with detection off none is.
pub proof fn law_before_mutex_lock(d: &mut DeadlockState, tid: usize, id: usize, answer: Result<(), ()>)
    requires
        id < usize::MAX,
        call_ensures(DeadlockState::before_mutex_lock, (d, tid, id), answer),
    ensures
        final(d)@.enabled == old(d)@.enabled,
        final(d)@.semaphore == old(d)@.semaphore,
        same_owners(old(d)@.mutex, final(d)@.mutex),
        same_waits_but(
            old(d)@.mutex.waiting,
            final(d)@.mutex.waiting,
            tid,
            if owner_of(old(d)@.mutex.owners, id) is Some && answer is Ok {
                Some(id)
            } else {
                None
            },
        ),
        answer is Err ==> old(d)@.enabled && owner_of(old(d)@.mutex.owners, id) is Some,
{
}

/// With detection on, a thread is refused a mutex exactly where the owner is that thread or waits
/// for it through a line of threads of any length, each waiting for a mutex that the next owns.
pub proof fn law_circle_is_refused(d: &mut DeadlockState, tid: usize, id: usize, answer: Result<(), ()>)
    requires
        id < usize::MAX,
        call_ensures(DeadlockState::before_mutex_lock, (d, tid, id), answer),
    ensures
        answer is Err <==> old(d)@.enabled && owner_waits_for(old(d)@.mutex, tid, id),
{
    let m = old(d)@.mutex;
    let idle = m.idle(tid, id);
    if owner_waits_for(m, tid, id) {
        let path = choose|path: Seq<usize>| #[trigger]
            wait_in_line(m, path) && path.len() > 0 && owner_of(m.owners, id) == Some(path[0])
                && path.last() == tid;
        lemma_line_is_chain(m, tid, id, path, path.len() - 1);
        assert(idle.reaches(path[0], tid));
    }
    if m.owner(id) is Some && idle.reaches(m.owner(id)->0, tid) {
        let owner = m.owner(id)->0;
        let n = choose|n: nat| #[trigger] idle.chain(owner, n) == Some(tid);
        let path = Seq::new(n + 1, |i: int| idle.chain(owner, i as nat)->0);
        assert forall|i: int| 0 <= i < path.len() - 1 implies {
            &&& m.waiting.contains_key(#[trigger] path[i])
            &&& owner_of(m.owners, m.waiting[path[i]]) == Some(path[i + 1])
        } by {
            lemma_chain_goes_on(idle, owner, i as nat, n);
            lemma_chain_goes_on(idle, owner, (i + 1) as nat, n);
            assert(idle.chain(owner, (i + 1) as nat) == idle.blocker(path[i]));
        }
        assert(wait_in_line(m, path));
        assert(idle.chain(owner, 0) == Some(owner));
        assert(path[0] == owner);
        assert(path.last() == tid);
    }
}

/// A line of threads is a chain of waits, as far as the first time it meets `tid`.
proof fn lemma_line_is_chain(m: MutexModel, tid: usize, id: usize, path: Seq<usize>, n: int)
    requires
        wait_in_line(m, path),
        0 <= n < path.len(),
    ensures
        m.idle(tid, id).reaches(path[0], tid) || m.idle(tid, id).chain(path[0], n as nat) == Some(
            path[n],
        ),
    decreases n,
{
    let idle = m.idle(tid, id);
    if n > 0 {
        lemma_line_is_chain(m, tid, id, path, n - 1);
        if idle.chain(path[0], (n - 1) as nat) == Some(path[n - 1]) && path[n - 1] != tid {
            assert(m.waiting.contains_key(path[n - 1]));
            assert(idle.blocker(path[n - 1]) == Some(path[n - 1 + 1]));
        }
    }
}

/// A chain that is as long as `n` is as long as anything up to `n`.
proof fn lemma_chain_goes_on(m: MutexModel, t: usize, a: nat, n: nat)
    requires
        a <= n,
        m.chain(t, n) is Some,
    ensures
        m.chain(t, a) is Some,
    decreases n,
{
    if a < n {
        lemma_chain_goes_on(m, t, a, (n - 1) as nat);
    }
}

/// A thread that locked a mutex owns it and waits for nothing. Every other owner and wait stays.
pub proof fn law_after_mutex_lock(d: &mut DeadlockState, tid: usize, id: usize)
    requires
        id < usize::MAX,
        call_ensures(DeadlockState::after_mutex_lock, (d, tid, id), ()),
    ensures
        final(d)@.enabled == old(d)@.enabled,
        final(d)@.semaphore == old(d)@.semaphore,
        same_owners_but(old(d)@.mutex, final(d)@.mutex, id, Some(tid)),
        same_waits_but(old(d)@.mutex.waiting, final(d)@.mutex.waiting, tid, None),
{
}

/// A mutex that its owner unlocks has no owner; one that somebody else unlocks keeps its owner. The
/// thread waits for nothing. Every other owner and wait stays.
pub proof fn law_mutex_unlock(d: &mut DeadlockState, tid: usize, id: usize)
    requires
        call_ensures(DeadlockState::mutex_unlock, (d, tid, id), ()),
    ensures
        final(d)@.enabled == old(d)@.enabled,
        final(d)@.semaphore == old(d)@.semaphore,
        same_owners_but(
            old(d)@.mutex,
            final(d)@.mutex,
            id,
            if owner_of(old(d)@.mutex.owners, id) == Some(tid) {
                None
            } else {
                owner_of(old(d)@.mutex.owners, id)
            },
        ),
        same_waits_but(old(d)@.mutex.waiting, final(d)@.mutex.waiting, tid, None),
{
}

/// A thread that exits owns and holds nothing and waits for nothing. The units that it held are
/// free. Every other owner, wait and holding stays.
pub proof fn law_cleanup_thread(d: &mut DeadlockState, tid: usize)
    requires
        old(d).wf(),
        forall|s: usize|
            s < old(d)@.semaphore.available.len() ==> #[trigger] held_of(
                old(d)@.semaphore,
                tid,
                s,
            ) <= isize::MAX && free_of(old(d)@.semaphore, s) + held_of(old(d)@.semaphore, tid, s)
                <= isize::MAX,
        call_ensures(DeadlockState::cleanup_thread, (d, tid), ()),
    ensures
        final(d)@.enabled == old(d)@.enabled,
        forall|e: usize| #[trigger]
            owner_of(final(d)@.mutex.owners, e) == if owner_of(old(d)@.mutex.owners, e) == Some(
                tid,
            ) {
                None
            } else {
                owner_of(old(d)@.mutex.owners, e)
            },
        same_waits_but(old(d)@.mutex.waiting, final(d)@.mutex.waiting, tid, None),
        forall|s: usize| #[trigger]
            free_of(final(d)@.semaphore, s) == free_of(old(d)@.semaphore, s) + held_of(
                old(d)@.semaphore,
                tid,
                s,
            ),
        forall|t: usize, s: usize| #[trigger]
            held_of(final(d)@.semaphore, t, s) == if t == tid {
                0
            } else {
                held_of(old(d)@.semaphore, t, s)
            },
        same_waits_but(old(d)@.semaphore.waiting, final(d)@.semaphore.waiting, tid, None),
{
    let m = old(d)@.semaphore;
    assert forall|s: usize| #[trigger] free_of(final(d)@.semaphore, s) == free_of(m, s) + held_of(
        m,
        tid,
        s,
    ) by {
        if s < m.available.len() {
            assert(held_of(m, tid, s) == m.row(tid)[s as int]);
        } else if m.allocation.contains_key(tid) {
            assert(m.allocation[tid].len() == m.available.len());
        }
    }
}

/// A registered semaphore has `initial` units, as a signed number. Nobody holds or waits for any of
/// it. Every other count, holding and wait stays.
pub proof fn law_register_semaphore(d: &mut DeadlockState, id: usize, initial: usize)
    requires
        old(d).wf(),
        id < usize::MAX,
        call_ensures(DeadlockState::register_semaphore, (d, id, initial), ()),
    ensures
        final(d)@.enabled == old(d)@.enabled,
        final(d)@.mutex == old(d)@.mutex,
        same_free_but(
            old(d)@.semaphore,
            final(d)@.semaphore,
            id,
            if initial <= isize::MAX {
                initial as int
            } else {
                initial - usize::MAX - 1
            },
        ),
        forall|t: usize, s: usize| #[trigger]
            held_of(final(d)@.semaphore, t, s) == if s == id {
                0
            } else {
                held_of(old(d)@.semaphore, t, s)
            },
        waits_without(old(d)@.semaphore.waiting, final(d)@.semaphore.waiting, id),
{
    lemma_covering_entries(old(d)@.semaphore, id);
    let wide = old(d)@.semaphore.covering(id);
    assert forall|t: usize, s: usize| #[trigger]
        held_of(final(d)@.semaphore, t, s) == if s == id {
            0
        } else {
            held_of(old(d)@.semaphore, t, s)
        } by {
        assert(held_of(wide, t, s) == held_of(old(d)@.semaphore, t, s));
    }
    assert forall|s: usize| s != id implies #[trigger] free_of(final(d)@.semaphore, s) == free_of(
        old(d)@.semaphore,
        s,
    ) by {
        assert(free_of(wide, s) == free_of(old(d)@.semaphore, s));
    }
}

/// Entries for new semaphores change no count, holding or wait.
proof fn lemma_covering_entries(m: SemaphoreModel, id: usize)
    requires
        m.wf(),
    ensures
        m.covering(id).available.len() > id,
        m.covering(id).available.len() >= m.available.len(),
        m.covering(id).allocation.dom() == m.allocation.dom(),
        m.covering(id).waiting == m.waiting,
        forall|t: usize| #[trigger]
            m.allocation.contains_key(t) ==> m.covering(id).allocation[t].len() == m.covering(
                id,
            ).available.len(),
        forall|s: usize| #[trigger] free_of(m.covering(id), s) == free_of(m, s),
        forall|t: usize, s: usize| #[trigger] held_of(m.covering(id), t, s) == held_of(m, t, s),
{
    assert(m.covering(id).allocation.dom() =~= m.allocation.dom());
    assert forall|t: usize, s: usize| #[trigger] held_of(m.covering(id), t, s) == held_of(
        m,
        t,
        s,
    ) by {
        if m.allocation.contains_key(t) {
            assert(m.allocation[t].len() == m.available.len());
        }
    }
}

/// A thread that asks for a unit is told that one is free exactly where one is. Where it is told to
/// wait it waits afterwards for exactly that semaphore, whatever it holds, and else for nothing. No
/// other wait, no count and no holding changes. With detection off nobody is refused.
pub proof fn law_before_semaphore_down(
    d: &mut DeadlockState,
    tid: usize,
    id: usize,
    answer: Result<bool, ()>,
)
    requires
        old(d).wf(),
        id < usize::MAX,
        call_ensures(DeadlockState::before_semaphore_down, (d, tid, id), answer),
    ensures
        final(d)@.enabled == old(d)@.enabled,
        final(d)@.mutex == old(d)@.mutex,
        forall|s: usize| #[trigger]
            free_of(final(d)@.semaphore, s) == free_of(old(d)@.semaphore, s),
        forall|t: usize, s: usize| #[trigger]
            held_of(final(d)@.semaphore, t, s) == held_of(old(d)@.semaphore, t, s),
        answer == Ok::<bool, ()>(true) <==> free_of(old(d)@.semaphore, id) > 0,
        same_waits_but(
            old(d)@.semaphore.waiting,
            final(d)@.semaphore.waiting,
            tid,
            if answer == Ok::<bool, ()>(false) {
                Some(id)
            } else {
                None
            },
        ),
        answer is Err ==> old(d)@.enabled,
{
    let m = old(d)@.semaphore;
    lemma_covering_entries(m, id);
    assert(free_of(m.covering(id), id) == free_of(m, id));
    assert forall|s: usize| #[trigger] free_of(final(d)@.semaphore, s) == free_of(m, s) by {
        assert(free_of(m.covering(id), s) == free_of(m, s));
    }
    assert forall|t: usize, s: usize| #[trigger]
        held_of(final(d)@.semaphore, t, s) == held_of(m, t, s) by {
        assert(held_of(m.covering(id), t, s) == held_of(m, t, s));
    }
}

/// The units of semaphore `s` that the threads of `order` hold together.
pub open spec fn held_in(m: SemaphoreModel, order: Seq<usize>, s: usize) -> int
    decreases order.len(),
{
    if order.len() == 0 {
        0
    } else {
        held_in(m, order.drop_last(), s) + held_of(m, order.last(), s)
    }
}

/// What a thread waits for once `tid` waits for `id`.
pub open spec fn target_of(m: SemaphoreModel, t: usize, tid: usize, id: usize) -> Option<usize> {
    if t == tid {
        Some(id)
    } else {
        wait_of(m.waiting, t)
    }
}

/// Whether the threads of `order`, each named once, can run one after the other once `tid` waits
/// for `id`: for each that waits, a unit is free or held by one before it.
pub open spec fn can_run(m: SemaphoreModel, tid: usize, id: usize, order: Seq<usize>) -> bool {
    &&& order.no_duplicates()
    &&& forall|i: int|
        0 <= i < order.len() ==> ((#[trigger] target_of(m, order[i], tid, id)) matches Some(s)
            ==> free_of(m, s) + held_in(m, order.take(i), s) >= 1)
}

/// Whether all threads that hold something or wait can run one after the other once `tid` waits
/// for `id`.
pub open spec fn all_can_run(m: SemaphoreModel, tid: usize, id: usize) -> bool {
    exists|order: Seq<usize>| #[trigger]
        can_run(m, tid, id, order) && forall|t: usize| #[trigger]
            order.contains(t) <==> m.allocation.contains_key(t) || m.waiting.contains_key(t) || t
                == tid
}

/// With detection on, a thread is refused exactly where no unit is free and, once it waits, the
/// threads could no longer all run one after the other.
pub proof fn law_deadlock_is_refused(
    d: &mut DeadlockState,
    tid: usize,
    id: usize,
    answer: Result<bool, ()>,
)
    requires
        old(d).wf(),
        id < usize::MAX,
        call_ensures(DeadlockState::before_semaphore_down, (d, tid, id), answer),
    ensures
        answer is Err <==> old(d)@.enabled && free_of(old(d)@.semaphore, id) <= 0 && !all_can_run(
            old(d)@.semaphore,
            tid,
            id,
        ),
{
    let m = old(d)@.semaphore;
    lemma_covering_entries(m, id);
    assert(free_of(m.covering(id), id) == free_of(m, id));
    let idle = m.idle(tid, id);
    assert(idle.wf());
    let c = idle.claims(tid, id);
    semaphore_deadlock::lemma_claims_wf(idle, tid, id);
    turns::law_deadlock_free_iff_all_run(c);
    if !c.has_deadlock() {
        let order = choose|order: Seq<usize>| #[trigger]
            turns::run_in_turn(c, order) && forall|p: usize|
                c.held.contains_key(p) ==> #[trigger] order.contains(p);
        lemma_same_order(m, tid, id, order);
        assert(can_run(m, tid, id, order));
        assert forall|t: usize| #[trigger]
            order.contains(t) <==> m.allocation.contains_key(t) || m.waiting.contains_key(t) || t
                == tid by {
            if order.contains(t) {
                let i = choose|i: int| 0 <= i < order.len() && order[i] == t;
                assert(c.held.contains_key(order[i]));
            }
            if m.allocation.contains_key(t) || m.waiting.contains_key(t) || t == tid {
                assert(c.held.contains_key(t));
            }
        }
    }
    if all_can_run(m, tid, id) {
        let order = choose|order: Seq<usize>| #[trigger]
            can_run(m, tid, id, order) && forall|t: usize| #[trigger]
                order.contains(t) <==> m.allocation.contains_key(t) || m.waiting.contains_key(t)
                    || t == tid;
        assert forall|i: int| 0 <= i < order.len() implies c.held.contains_key(
            #[trigger] order[i],
        ) by {
            assert(order.contains(order[i]));
        }
        lemma_same_order(m, tid, id, order);
        assert forall|p: usize| c.held.contains_key(p) implies #[trigger] order.contains(p) by {}
        assert(turns::run_in_turn(c, order));
    }
}

/// Threads run in turn exactly where their claims do.
proof fn lemma_same_order(m: SemaphoreModel, tid: usize, id: usize, order: Seq<usize>)
    requires
        m.wf(),
        id < usize::MAX,
        forall|i: int|
            0 <= i < order.len() ==> m.idle(tid, id).claims(tid, id).held.contains_key(
                #[trigger] order[i],
            ),
    ensures
        can_run(m, tid, id, order) <==> turns::run_in_turn(m.idle(tid, id).claims(tid, id), order),
{
    let idle = m.idle(tid, id);
    let c = idle.claims(tid, id);
    lemma_covering_entries(m, id);
    if can_run(m, tid, id, order) {
        assert forall|i: int, r: int| 0 <= i < order.len() && 0 <= r < c.available.len() implies {
            ||| #[trigger] c.wanted[order[i]][r] <= 0
            ||| c.wanted[order[i]][r] <= c.available[r] + turns::given_back(
                c.held,
                order.take(i),
                r,
            )
        } by {
            lemma_same_turn(m, tid, id, order, i, r as usize);
        }
    }
    if turns::run_in_turn(c, order) {
        assert forall|i: int| 0 <= i < order.len() implies ((#[trigger] target_of(
            m,
            order[i],
            tid,
            id,
        )) matches Some(s) ==> free_of(m, s) + held_in(m, order.take(i), s) >= 1) by {
            if let Some(s) = target_of(m, order[i], tid, id) {
                assert(s < c.available.len());
                lemma_same_turn(m, tid, id, order, i, s);
                assert(c.wanted[order[i]][s as int] > 0);
            }
        }
    }
}

/// What one thread asks for and gets of one semaphore in its turn.
proof fn lemma_same_turn(
    m: SemaphoreModel,
    tid: usize,
    id: usize,
    order: Seq<usize>,
    i: int,
    s: usize,
)
    requires
        m.wf(),
        id < usize::MAX,
        forall|k: int|
            0 <= k < order.len() ==> m.idle(tid, id).claims(tid, id).held.contains_key(
                #[trigger] order[k],
            ),
        0 <= i < order.len(),
        s < m.idle(tid, id).available.len(),
    ensures
        ({
            let c = m.idle(tid, id).claims(tid, id);
            &&& c.wanted[order[i]][s as int] == if target_of(m, order[i], tid, id) == Some(s) {
                1int
            } else {
                0
            }
            &&& c.available[s as int] == free_of(m, s)
            &&& turns::given_back(c.held, order.take(i), s as int) == held_in(m, order.take(i), s)
        }),
{
    let idle = m.idle(tid, id);
    let c = idle.claims(tid, id);
    lemma_covering_entries(m, id);
    assert(free_of(m.covering(id), s) == free_of(m, s));
    assert(c.held.contains_key(order[i]));
    assert(c.wanted.contains_key(order[i]));
    assert forall|k: int| 0 <= k < order.take(i).len() implies c.held.contains_key(
        #[trigger] order.take(i)[k],
    ) by {
        assert(order.take(i)[k] == order[k]);
    }
    lemma_same_given(m, tid, id, order.take(i), s);
}

/// What threads give back in turn.
proof fn lemma_same_given(m: SemaphoreModel, tid: usize, id: usize, order: Seq<usize>, s: usize)
    requires
        m.wf(),
        id < usize::MAX,
        forall|k: int|
            0 <= k < order.len() ==> m.idle(tid, id).claims(tid, id).held.contains_key(
                #[trigger] order[k],
            ),
        s < m.idle(tid, id).available.len(),
    ensures
        turns::given_back(m.idle(tid, id).claims(tid, id).held, order, s as int) == held_in(
            m,
            order,
            s,
        ),
    decreases order.len(),
{
    if order.len() > 0 {
        let idle = m.idle(tid, id);
        let c = idle.claims(tid, id);
        let before = order.drop_last();
        assert forall|k: int| 0 <= k < before.len() implies c.held.contains_key(
            #[trigger] before[k],
        ) by {
            assert(before[k] == order[k]);
        }
        lemma_same_given(m, tid, id, before, s);
        let t = order[order.len() - 1];
        assert(c.held.contains_key(t));
        lemma_covering_entries(m, id);
        assert(held_of(m.covering(id), t, s) == held_of(m, t, s));
        assert(c.held[t][s as int] == idle.holding(t, s as int));
        if m.allocation.contains_key(t) {
            assert(m.covering(id).allocation[t].len() == m.covering(id).available.len());
        }
    }
}

/// A thread that took a unit holds one more, one fewer is free, and it waits for nothing. Every other
/// count, holding and wait stays.
pub proof fn law_after_semaphore_down(d: &mut DeadlockState, tid: usize, id: usize, immediate: bool)
    requires
        old(d).wf(),
        id < usize::MAX,
        free_of(old(d)@.semaphore, id) > isize::MIN,
        held_of(old(d)@.semaphore, tid, id) < usize::MAX,
        call_ensures(DeadlockState::after_semaphore_down, (d, tid, id, immediate), ()),
    ensures
        final(d)@.enabled == old(d)@.enabled,
        final(d)@.mutex == old(d)@.mutex,
        same_free_but(
            old(d)@.semaphore,
            final(d)@.semaphore,
            id,
            free_of(old(d)@.semaphore, id) - 1,
        ),
        same_held_but(
            old(d)@.semaphore,
            final(d)@.semaphore,
            tid,
            id,
            held_of(old(d)@.semaphore, tid, id) + 1,
        ),
        same_waits_but(old(d)@.semaphore.waiting, final(d)@.semaphore.waiting, tid, None),
{
    let m = old(d)@.semaphore;
    let wide = m.covering(id);
    let e = final(d)@.semaphore;
    lemma_covering_entries(m, id);
    assert forall|s: usize| #[trigger]
        free_of(e, s) == if s == id {
            free_of(m, id) - 1
        } else {
            free_of(m, s)
        } by {
        assert(free_of(wide, s) == free_of(m, s));
    }
    assert forall|t: usize, s: usize| #[trigger]
        held_of(e, t, s) == if t == tid && s == id {
            held_of(m, tid, id) + 1
        } else {
            held_of(m, t, s)
        } by {
        assert(held_of(wide, t, s) == held_of(m, t, s));
        if m.allocation.contains_key(t) {
            assert(wide.allocation[t].len() == wide.available.len());
        }
    }
}

/// A thread that gave a unit holds one fewer of those it held, or still none, and one more is free.
/// Every other count and holding stays, and so does every wait.
pub proof fn law_semaphore_up(d: &mut DeadlockState, tid: usize, id: usize)
    requires
        old(d).wf(),
        id < usize::MAX,
        free_of(old(d)@.semaphore, id) < isize::MAX,
        call_ensures(DeadlockState::semaphore_up, (d, tid, id), ()),
    ensures
        final(d)@.enabled == old(d)@.enabled,
        final(d)@.mutex == old(d)@.mutex,
        same_free_but(
            old(d)@.semaphore,
            final(d)@.semaphore,
            id,
            free_of(old(d)@.semaphore, id) + 1,
        ),
        same_held_but(
            old(d)@.semaphore,
            final(d)@.semaphore,
            tid,
            id,
            vstd::math::max(held_of(old(d)@.semaphore, tid, id) - 1, 0),
        ),
        forall|t: usize| #[trigger]
            wait_of(final(d)@.semaphore.waiting, t) == wait_of(old(d)@.semaphore.waiting, t),
{
    let m = old(d)@.semaphore;
    let wide = m.covering(id);
    let e = final(d)@.semaphore;
    lemma_covering_entries(m, id);
    assert forall|s: usize| #[trigger]
        free_of(e, s) == if s == id {
            free_of(m, id) + 1
        } else {
            free_of(m, s)
        } by {
        assert(free_of(wide, s) == free_of(m, s));
    }
    assert forall|t: usize, s: usize| #[trigger]
        held_of(e, t, s) == if t == tid && s == id {
            vstd::math::max(held_of(m, tid, id) - 1, 0)
        } else {
            held_of(m, t, s)
        } by {
        assert(held_of(wide, t, s) == held_of(m, t, s));
        if m.allocation.contains_key(t) {
            assert(wide.allocation[t].len() == wide.available.len());
            let left = semaphore_deadlock::one_less(wide.allocation[tid], id as int);
            assert(t == tid && s < left.len() && semaphore_deadlock::all_zero(left)
                ==> left[s as int] == 0);
        }
    }
}

} // verus!
