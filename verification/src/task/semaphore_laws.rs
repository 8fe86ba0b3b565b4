//! Units of semaphores are neither lost nor made up, and with detection on threads never come
//! to wait for units that cannot come back.

use crate::sync::claims;
use crate::sync::claims::Claims;
use crate::task::semaphore_deadlock;
use crate::task::semaphore_deadlock::SemaphoreModel;
use vstd::prelude::*;

verus! {

impl SemaphoreModel {
    /// What every thread holds, zero for those that hold nothing.
    pub open spec fn holdings(self) -> Map<usize, Seq<int>> {
        Map::new(
            |t: usize| true,
            |t: usize| Seq::new(self.available.len(), |s: int| self.holding(t, s)),
        )
    }

    /// The units of a semaphore, free and held together.
    pub open spec fn units(self, s: int) -> int {
        self.available[s] + claims::total_held(self.holdings(), self.allocation.dom(), s)
    }

    /// The threads that hold something or wait, as claimants of the units that they wait for.
    pub open spec fn standing(self) -> Claims {
        Claims {
            available: Seq::new(self.available.len(), |s: int| self.available[s] as int),
            held: Map::new(
                |t: usize| self.allocation.contains_key(t) || self.waiting.contains_key(t),
                |t: usize| Seq::new(self.available.len(), |s: int| self.holding(t, s)),
            ),
            wanted: Map::new(
                |t: usize| self.allocation.contains_key(t) || self.waiting.contains_key(t),
                |t: usize| Seq::new(self.available.len(), |s: int| self.waits_for(t, s)),
            ),
        }
    }

    /// One where `t` waits for semaphore `s`, else zero.
    pub open spec fn waits_for(self, t: usize, s: int) -> int {
        if self.waiting.contains_key(t) && self.waiting[t] == s {
            1
        } else {
            0
        }
    }
}

/// A change of what one thread holds changes the units held by as much.
proof fn lemma_one_holder_changes(m: SemaphoreModel, e: SemaphoreModel, tid: usize, s: int)
    requires
        m.allocation.dom().finite(),
        e.allocation.dom().finite(),
        0 <= s < m.available.len(),
        s < e.available.len(),
        forall|t: usize|
            t != tid ==> e.allocation.contains_key(t) == #[trigger] m.allocation.contains_key(t),
        forall|t: usize|
            t != tid && #[trigger] m.allocation.contains_key(t) ==> e.allocation[t][s]
                == m.allocation[t][s],
    ensures
        claims::total_held(e.holdings(), e.allocation.dom(), s) - claims::total_held(
            m.holdings(),
            m.allocation.dom(),
            s,
        ) == e.holding(tid, s) - m.holding(tid, s),
{
    let all = m.allocation.dom().union(e.allocation.dom()).insert(tid);
    let hm = m.holdings();
    let he = e.holdings();
    claims::lemma_total_extend(hm, m.allocation.dom(), all, s);
    claims::lemma_total_extend(he, e.allocation.dom(), all, s);
    claims::lemma_total_remove(hm, all, tid, s);
    claims::lemma_total_remove(he, all, tid, s);
    assert forall|t: usize| #[trigger] all.remove(tid).contains(t) implies hm[t][s]
        == he[t][s] by {
        assert(e.allocation.contains_key(t) == m.allocation.contains_key(t));
    }
    claims::lemma_total_same(hm, he, all.remove(tid), s);
}

/// Entries for new semaphores change no units of the others.
pub proof fn law_covering_keeps_units(m: SemaphoreModel, sem_id: usize, s: int)
    requires
        m.wf(),
        sem_id < usize::MAX,
        0 <= s < m.covering(sem_id).available.len(),
    ensures
        m.covering(sem_id).wf(),
        m.covering(sem_id).units(s) == if s < m.available.len() {
            m.units(s)
        } else {
            0
        },
{
    let e = m.covering(sem_id);
    assert(e.allocation.dom() =~= m.allocation.dom());
    if s < m.available.len() {
        lemma_one_holder_changes(m, e, 0, s);
    } else {
        let none: Set<usize> = Set::empty();
        claims::lemma_total_extend(e.holdings(), none, e.allocation.dom(), s);
    }
}

/// Taking a unit moves it from the free ones to the held ones.
pub proof fn law_down_keeps_units(m: SemaphoreModel, tid: usize, sem_id: usize, s: int)
    requires
        m.wf(),
        sem_id < usize::MAX,
        m.covering(sem_id).available[sem_id as int] > isize::MIN,
        m.covering(sem_id).holding(tid, sem_id as int) < usize::MAX,
        0 <= s < m.covering(sem_id).available.len(),
    ensures
        m.taken(tid, sem_id).wf(),
        m.taken(tid, sem_id).units(s) == m.covering(sem_id).units(s),
{
    let wide = m.covering(sem_id);
    let e = m.taken(tid, sem_id);
    law_covering_keeps_units(m, sem_id, s);
    lemma_one_holder_changes(wide, e, tid, s);
    assert(m.idle(tid, sem_id).row(tid) =~= wide.row(tid));
    assert(e.holding(tid, s) == wide.row(tid)[s] + if s == sem_id {
        1int
    } else {
        0
    });
}

/// Giving back a held unit frees it; giving one without holding any adds a new unit.
pub proof fn law_up_keeps_or_adds_units(m: SemaphoreModel, tid: usize, sem_id: usize, s: int)
    requires
        m.wf(),
        sem_id < usize::MAX,
        m.covering(sem_id).available[sem_id as int] < isize::MAX,
        0 <= s < m.covering(sem_id).available.len(),
    ensures
        m.given(tid, sem_id).wf(),
        m.given(tid, sem_id).units(s) == m.covering(sem_id).units(s) + if s == sem_id
            && m.covering(sem_id).holding(tid, s) == 0 {
            1int
        } else {
            0
        },
{
    let wide = m.covering(sem_id);
    let e = m.given(tid, sem_id);
    law_covering_keeps_units(m, sem_id, s);
    lemma_one_holder_changes(wide, e, tid, s);
    if wide.allocation.contains_key(tid) {
        let left = semaphore_deadlock::one_less(wide.allocation[tid], sem_id as int);
        assert(e.holding(tid, s) == left[s]);
    }
}

/// The units of a thread that exits are free again.
pub proof fn law_exit_keeps_units(m: SemaphoreModel, tid: usize, s: int)
    requires
        m.wf(),
        0 <= s < m.available.len(),
        m.holding(tid, s) <= isize::MAX,
        m.returned(tid, s) <= isize::MAX,
    ensures
        m.without_thread(tid).wf(),
        m.without_thread(tid).units(s) == m.units(s),
{
    let e = m.without_thread(tid);
    lemma_one_holder_changes(m, e, tid, s);
    assert(m.row(tid)[s] == m.holding(tid, s));
}

/// A unit that was taken and given back by one thread is free again, and everybody holds what
/// they held.
pub proof fn law_up_undoes_down(m: SemaphoreModel, tid: usize, sem_id: usize)
    requires
        m.wf(),
        sem_id < usize::MAX,
        m.covering(sem_id).available[sem_id as int] > isize::MIN,
        m.covering(sem_id).holding(tid, sem_id as int) < usize::MAX,
    ensures
        m.taken(tid, sem_id).given(tid, sem_id).available == m.covering(sem_id).available,
        m.taken(tid, sem_id).given(tid, sem_id).waiting == m.waiting.remove(tid),
        forall|t: usize, s: int|
            0 <= s < m.covering(sem_id).available.len() ==> #[trigger] m.taken(tid, sem_id).given(
                tid,
                sem_id,
            ).holding(t, s) == m.covering(sem_id).holding(t, s),
{
    let wide = m.covering(sem_id);
    let mid = m.taken(tid, sem_id);
    let e = mid.given(tid, sem_id);
    law_covering_keeps_units(m, sem_id, sem_id as int);
    law_down_keeps_units(m, tid, sem_id, sem_id as int);
    assert(m.idle(tid, sem_id).row(tid) =~= wide.row(tid));
    assert(mid.covering(sem_id) == mid);
    assert(e.available =~= wide.available);
    assert(semaphore_deadlock::one_less(mid.allocation[tid], sem_id as int)
        =~= wide.row(tid));
}

/// The tables of the standing claims, and their units.
proof fn lemma_standing(m: SemaphoreModel)
    requires
        m.wf(),
    ensures
        m.standing().wf(),
        forall|s: int|
            0 <= s < m.available.len() ==> #[trigger] m.standing().at_hand(
                m.standing().claimants(),
                s,
            ) == m.units(s),
{
    let c = m.standing();
    assert(c.held.dom() =~= m.allocation.dom().union(m.waiting.dom()));
    assert(c.wanted.dom() =~= c.held.dom());
    assert forall|s: int| 0 <= s < m.available.len() implies #[trigger] c.at_hand(
        c.claimants(),
        s,
    ) == m.units(s) by {
        claims::lemma_total_same(c.held, m.holdings(), c.claimants(), s);
        claims::lemma_total_extend(m.holdings(), m.allocation.dom(), c.claimants(), s);
    }
}

/// The claims under which a request is decided are the standing claims once the thread waits.
proof fn lemma_request_is_standing(idle: SemaphoreModel, tid: usize, sem_id: usize)
    requires
        idle.wf(),
        !idle.waiting.contains_key(tid),
    ensures
        idle.with_wait(tid, sem_id).standing() == idle.claims(tid, sem_id),
{
    let a = idle.with_wait(tid, sem_id).standing();
    let b = idle.claims(tid, sem_id);
    assert(a.available =~= b.available);
    assert(a.held.dom() =~= b.held.dom());
    assert forall|t: usize| a.held.contains_key(t) implies a.held[t] == b.held[t] by {
        assert(a.held[t] =~= b.held[t]);
    }
    assert(a.held =~= b.held);
    assert(a.wanted.dom() =~= b.wanted.dom());
    assert forall|t: usize| a.wanted.contains_key(t) implies a.wanted[t] == b.wanted[t] by {
        assert(a.wanted[t] =~= b.wanted[t]);
    }
    assert(a.wanted =~= b.wanted);
}

/// Where all units of each semaphore, free and held, can be counted, every request can be
/// decided.
pub proof fn law_countable_units_suffice(
    m: SemaphoreModel,
    enabled: bool,
    tid: usize,
    sem_id: usize,
)
    requires
        m.wf(),
        sem_id < usize::MAX,
        forall|s: int|
            0 <= s < m.available.len() ==> #[trigger] m.units(s) <= isize::MAX,
        forall|t: usize, s: int|
            0 <= s < m.available.len() ==> #[trigger] m.holding(t, s) <= isize::MAX,
    ensures
        m.request_fits(enabled, tid, sem_id),
{
    let idle = m.idle(tid, sem_id);
    let c = idle.claims(tid, sem_id);
    let waits = idle.with_wait(tid, sem_id);
    law_covering_keeps_units(m, sem_id, sem_id as int);
    lemma_request_is_standing(idle, tid, sem_id);
    lemma_standing(waits);
    assert forall|s: int| 0 <= s < idle.available.len() implies {
        &&& #[trigger] c.at_hand(c.can_finish(), s) <= isize::MAX
        &&& forall|t: usize|
            c.can_finish().contains(t) ==> #[trigger] idle.holding(t, s) <= isize::MAX
    } by {
        law_covering_keeps_units(m, sem_id, s);
        lemma_one_holder_changes(m.covering(sem_id), waits, tid, s);
        claims::lemma_total_monotone(c, c.can_finish(), c.claimants(), s);
        assert(c.at_hand(c.claimants(), s) == waits.units(s));
        if s < m.available.len() {
            assert(m.units(s) <= isize::MAX);
        }
        assert forall|t: usize| #[trigger] idle.holding(t, s) <= isize::MAX by {
            if s < m.available.len() {
                assert(m.holding(t, s) <= isize::MAX);
            }
        }
    }
}

/// A refused thread does not wait.
pub proof fn law_refused_request_does_not_wait(m: SemaphoreModel, tid: usize, sem_id: usize)
    requires
        m.down_answer(true, tid, sem_id) is Err,
    ensures
        !m.after_request(true, tid, sem_id).waiting.contains_key(tid),
{
}

/// A request is refused exactly where no unit is free and letting the thread wait would leave
/// some thread deadlocked.
pub proof fn law_refused_iff_deadlock(m: SemaphoreModel, tid: usize, sem_id: usize)
    requires
        m.wf(),
        sem_id < usize::MAX,
    ensures
        m.down_answer(true, tid, sem_id) is Err <==> m.covering(sem_id).available[sem_id as int]
            <= 0 && m.idle(tid, sem_id).with_wait(tid, sem_id).standing().has_deadlock(),
{
    law_covering_keeps_units(m, sem_id, sem_id as int);
    lemma_request_is_standing(m.idle(tid, sem_id), tid, sem_id);
}

/// What happens to semaphores while detection is on.
pub enum SemaphoreEvent {
    /// A semaphore is registered.
    Register { sem_id: usize, initial: usize },
    /// A thread asks for a unit.
    Request { tid: usize, sem_id: usize },
    /// A thread takes a unit.
    Down { tid: usize, sem_id: usize },
    /// A thread gives a unit.
    Up { tid: usize, sem_id: usize },
    /// A thread exits.
    Exit { tid: usize },
}

impl SemaphoreModel {
    /// Whether the counts that an event changes stay countable.
    pub open spec fn allows(self, event: SemaphoreEvent) -> bool {
        match event {
            SemaphoreEvent::Register { sem_id, initial } => sem_id < usize::MAX,
            SemaphoreEvent::Request { tid, sem_id } => sem_id < usize::MAX,
            SemaphoreEvent::Down { tid, sem_id } => {
                &&& sem_id < usize::MAX
                &&& self.covering(sem_id).available[sem_id as int] > isize::MIN
                &&& self.covering(sem_id).holding(tid, sem_id as int) < usize::MAX
            },
            SemaphoreEvent::Up { tid, sem_id } => {
                &&& sem_id < usize::MAX
                &&& self.covering(sem_id).available[sem_id as int] < isize::MAX
            },
            SemaphoreEvent::Exit { tid } => forall|s: int|
                0 <= s < self.available.len() ==> #[trigger] self.holding(tid, s) <= isize::MAX
                    && self.returned(tid, s) <= isize::MAX,
        }
    }

    /// The record after one event.
    pub open spec fn after(self, event: SemaphoreEvent) -> SemaphoreModel {
        match event {
            SemaphoreEvent::Register { sem_id, initial } => self.registered(sem_id, initial),
            SemaphoreEvent::Request { tid, sem_id } => self.after_request(true, tid, sem_id),
            SemaphoreEvent::Down { tid, sem_id } => self.taken(tid, sem_id),
            SemaphoreEvent::Up { tid, sem_id } => self.given(tid, sem_id),
            SemaphoreEvent::Exit { tid } => self.without_thread(tid),
        }
    }

    /// The record after a series of events.
    pub open spec fn after_all(self, events: Seq<SemaphoreEvent>) -> SemaphoreModel
        decreases events.len(),
    {
        if events.len() == 0 {
            self
        } else {
            self.after_all(events.drop_last()).after(events.last())
        }
    }

    /// Whether the counts stay countable throughout a series of events.
    pub open spec fn allows_all(self, events: Seq<SemaphoreEvent>) -> bool
        decreases events.len(),
    {
        events.len() == 0 || {
            &&& self.allows_all(events.drop_last())
            &&& self.after_all(events.drop_last()).allows(events.last())
        }
    }
}

/// A change that adds no waits and after which, of each semaphore that somebody waits for, there
/// are no fewer units and those who wait hold no more, causes no deadlock.
proof fn lemma_no_new_deadlock(m: SemaphoreModel, e: SemaphoreModel)
    requires
        m.wf(),
        e.wf(),
        !m.standing().has_deadlock(),
        m.available.len() <= e.available.len(),
        forall|t: usize| #[trigger]
            e.waiting.contains_key(t) ==> m.waiting.contains_key(t) && e.waiting[t]
                == m.waiting[t],
        forall|s: int|
            0 <= s < m.available.len() ==> {
                ||| forall|t: usize| #[trigger]
                    e.waiting.contains_key(t) ==> e.waiting[t] != s
                ||| {
                    &&& m.units(s) <= #[trigger] e.units(s)
                    &&& forall|t: usize|
                        e.waiting.contains_key(t) ==> #[trigger] e.holding(t, s) <= m.holding(t, s)
                }
            },
    ensures
        !e.standing().has_deadlock(),
{
    let c = m.standing();
    let d = e.standing();
    lemma_standing(m);
    lemma_standing(e);
    assert forall|s: int| 0 <= s < d.available.len() implies #[trigger] claims::no_scarcer(
        c,
        d,
        s,
    ) by {
        if forall|t: usize| #[trigger] e.waiting.contains_key(t) ==> e.waiting[t] != s {
            assert forall|p: usize| #[trigger] d.claimants().contains(p) implies d.wanted[p][s]
                <= 0 by {}
        } else {
            let t = choose|t: usize| #[trigger] e.waiting.contains_key(t) && e.waiting[t] == s;
            assert(m.waiting.contains_key(t));
            assert(m.units(s) <= e.units(s));
            assert(c.at_hand(c.claimants(), s) == m.units(s));
            assert(d.at_hand(d.claimants(), s) == e.units(s));
            assert forall|p: usize| #[trigger]
                d.claimants().contains(p) && !claims::asks_nothing(
                    d,
                    p,
                ) implies c.claimants().contains(p) && d.wanted[p][s] <= c.wanted[p][s]
                && d.held[p][s] <= c.held[p][s] by {
                let r = choose|r: int| 0 <= r < d.available.len() && #[trigger] d.wanted[p][r] > 0;
                assert(e.waiting.contains_key(p));
                assert(e.holding(p, s) <= m.holding(p, s));
            }
        }
    }
    claims::law_no_scarcer_no_deadlock(c, d);
}

/// Registering a semaphore causes no deadlock: nobody waits for it, and the others are as before.
proof fn lemma_register_no_deadlock(m: SemaphoreModel, sem_id: usize, initial: usize)
    requires
        m.wf(),
        !m.standing().has_deadlock(),
        sem_id < usize::MAX,
    ensures
        m.registered(sem_id, initial).wf(),
        !m.registered(sem_id, initial).standing().has_deadlock(),
{
    let wide = m.covering(sem_id);
    let e = m.registered(sem_id, initial);
    law_covering_keeps_units(m, sem_id, sem_id as int);
    assert(e.allocation.dom() =~= wide.allocation.dom());
    assert(e.waiting.dom().subset_of(m.waiting.dom()));
    vstd::set_lib::lemma_set_subset_finite(m.waiting.dom(), e.waiting.dom());
    assert(e.wf());
    assert forall|s: int| 0 <= s < m.available.len() implies {
        ||| forall|t: usize| #[trigger] e.waiting.contains_key(t) ==> e.waiting[t] != s
        ||| {
            &&& m.units(s) <= #[trigger] e.units(s)
            &&& forall|t: usize|
                e.waiting.contains_key(t) ==> #[trigger] e.holding(t, s) <= m.holding(t, s)
        }
    } by {
        if s != sem_id {
            law_covering_keeps_units(m, sem_id, s);
            lemma_one_holder_changes(wide, e, 0, s);
        }
    }
    lemma_no_new_deadlock(m, e);
}

/// No operation leads into a deadlock while detection is on.
pub proof fn law_event_keeps_deadlock_free(m: SemaphoreModel, event: SemaphoreEvent)
    requires
        m.wf(),
        !m.standing().has_deadlock(),
        m.allows(event),
    ensures
        m.after(event).wf(),
        !m.after(event).standing().has_deadlock(),
{
    let e = m.after(event);
    match event {
        SemaphoreEvent::Register { sem_id, initial } => {
            lemma_register_no_deadlock(m, sem_id, initial);
        },
        SemaphoreEvent::Request { tid, sem_id } => {
            let idle = m.idle(tid, sem_id);
            law_covering_keeps_units(m, sem_id, sem_id as int);
            lemma_request_is_standing(idle, tid, sem_id);
            if e == idle {
                assert forall|s: int| 0 <= s < m.available.len() implies m.units(s)
                    <= #[trigger] e.units(s) by {
                    law_covering_keeps_units(m, sem_id, s);
                    lemma_one_holder_changes(m, e, tid, s);
                }
                lemma_no_new_deadlock(m, e);
            }
        },
        SemaphoreEvent::Down { tid, sem_id } => {
            law_down_keeps_units(m, tid, sem_id, sem_id as int);
            assert forall|s: int| 0 <= s < m.available.len() implies m.units(s)
                <= #[trigger] e.units(s) by {
                law_covering_keeps_units(m, sem_id, s);
                law_down_keeps_units(m, tid, sem_id, s);
            }
            lemma_no_new_deadlock(m, e);
        },
        SemaphoreEvent::Up { tid, sem_id } => {
            law_up_keeps_or_adds_units(m, tid, sem_id, sem_id as int);
            assert forall|s: int| 0 <= s < m.available.len() implies m.units(s)
                <= #[trigger] e.units(s) by {
                law_covering_keeps_units(m, sem_id, s);
                law_up_keeps_or_adds_units(m, tid, sem_id, s);
            }
            lemma_no_new_deadlock(m, e);
        },
        SemaphoreEvent::Exit { tid } => {
            assert forall|s: int| 0 <= s < m.available.len() implies m.units(s)
                <= #[trigger] e.units(s) by {
                assert(m.holding(tid, s) <= isize::MAX);
                law_exit_keeps_units(m, tid, s);
            }
            lemma_no_new_deadlock(m, e);
        },
    }
}

/// Whatever happens from the start with detection on, no deadlock arises.
pub proof fn law_no_deadlock_is_reachable(events: Seq<SemaphoreEvent>)
    requires
        SemaphoreModel::empty().allows_all(events),
    ensures
        SemaphoreModel::empty().after_all(events).wf(),
        !SemaphoreModel::empty().after_all(events).standing().has_deadlock(),
    decreases events.len(),
{
    let none = SemaphoreModel::empty();
    if events.len() == 0 {
        let c = none.standing();
        if c.has_deadlock() {
            let p = choose|p: usize| #[trigger] c.deadlocked(p);
            let d = choose|d: Set<usize>| #[trigger] c.stuck(d) && d.contains(p);
            assert(c.claimants().contains(p));
        }
    } else {
        law_no_deadlock_is_reachable(events.drop_last());
        law_event_keeps_deadlock_free(none.after_all(events.drop_last()), events.last());
    }
}

} // verus!
