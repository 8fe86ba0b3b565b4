//! With detection on, threads never come to wait for each other in a circle.

use crate::task::mutex_deadlock::MutexModel;
use vstd::prelude::*;

verus! {

/// Going on from where a chain of waits leads continues the chain.
proof fn lemma_chain_step(m: MutexModel, t: usize, a: nat, b: nat)
    requires
        m.chain(t, a) is Some,
    ensures
        m.chain(t, a + b) == m.chain(m.chain(t, a)->0, b),
    decreases b,
{
    if b > 0 {
        lemma_chain_step(m, t, a, (b - 1) as nat);
    }
}

/// A chain that has ended stays ended.
proof fn lemma_chain_prefix(m: MutexModel, t: usize, a: nat, b: nat)
    requires
        a <= b,
        m.chain(t, b) is Some,
    ensures
        m.chain(t, a) is Some,
    decreases b,
{
    if a < b {
        lemma_chain_prefix(m, t, a, (b - 1) as nat);
    }
}

/// Where every wait of `e` is one of `m`, so is every chain of waits.
proof fn lemma_fewer_waits_chain(m: MutexModel, e: MutexModel, t: usize, n: nat)
    requires
        forall|x: usize| (#[trigger] e.blocker(x)) is Some ==> m.blocker(x) == e.blocker(x),
        e.chain(t, n) is Some,
    ensures
        m.chain(t, n) == e.chain(t, n),
    decreases n,
{
    if n > 0 {
        lemma_chain_prefix(e, t, (n - 1) as nat, n);
        lemma_fewer_waits_chain(m, e, t, (n - 1) as nat);
        assert(e.blocker(e.chain(t, (n - 1) as nat)->0) is Some);
    }
}

/// Fewer waits close no circle.
proof fn lemma_fewer_waits_acyclic(m: MutexModel, e: MutexModel)
    requires
        m.acyclic(),
        forall|x: usize| (#[trigger] e.blocker(x)) is Some ==> m.blocker(x) == e.blocker(x),
    ensures
        e.acyclic(),
{
    assert forall|t: usize, n: nat| n > 0 implies #[trigger] e.chain(t, n) != Some(t) by {
        if e.chain(t, n) == Some(t) {
            lemma_fewer_waits_chain(m, e, t, n);
            assert(m.chain(t, n) != Some(t));
        }
    }
}

/// A chain of `e`, which has the waits of `m` and one of `tid`, stays within `m` or meets `tid`
/// over waits of `m`.
proof fn lemma_chain_meets(m: MutexModel, e: MutexModel, tid: usize, t: usize, n: nat)
    requires
        forall|x: usize| x != tid ==> #[trigger] e.blocker(x) == m.blocker(x),
    ensures
        m.chain(t, n) == e.chain(t, n) || exists|k: nat|
            k < n && #[trigger] m.chain(t, k) == Some(tid),
    decreases n,
{
    if n > 0 {
        let p = (n - 1) as nat;
        lemma_chain_meets(m, e, tid, t, p);
        if m.chain(t, p) == e.chain(t, p) {
            if m.chain(t, p) is Some && m.chain(t, p)->0 != tid {
                assert(e.blocker(m.chain(t, p)->0) == m.blocker(m.chain(t, p)->0));
            }
        }
    }
}

/// A request that is granted closes no circle, and one is refused exactly where waiting would.
pub proof fn law_refused_iff_circle(m: MutexModel, tid: usize, mutex_id: usize)
    requires
        m.acyclic(),
    ensures
        m.idle(tid, mutex_id).acyclic(),
        m.requested(true, tid, mutex_id).acyclic(),
        m.owner(mutex_id) is Some ==> (m.refuses(true, tid, mutex_id) <==> !m.idle(
            tid,
            mutex_id,
        ).with_wait(tid, mutex_id).acyclic()),
{
    let idle = m.idle(tid, mutex_id);
    assert forall|x: usize| (#[trigger] idle.blocker(x)) is Some implies m.blocker(x)
        == idle.blocker(x) by {}
    lemma_fewer_waits_acyclic(m, idle);
    if m.owner(mutex_id) is Some {
        let owner = m.owner(mutex_id)->0;
        let after = idle.with_wait(tid, mutex_id);
        assert(after.blocker(tid) == Some(owner));
        assert(idle.blocker(tid) is None);
        assert forall|x: usize| x != tid implies #[trigger] after.blocker(x) == idle.blocker(
            x,
        ) by {}
        if idle.reaches(owner, tid) {
            let n = choose|n: nat| #[trigger] idle.chain(owner, n) == Some(tid);
            assert forall|x: usize| (#[trigger] idle.blocker(x)) is Some implies after.blocker(x)
                == idle.blocker(x) by {}
            lemma_fewer_waits_chain(after, idle, owner, n);
            assert(after.chain(tid, 0) == Some(tid));
            assert(after.chain(tid, 1) == after.blocker(tid)) by {
                reveal_with_fuel(MutexModel::chain, 2);
            }
            lemma_chain_step(after, tid, 1, n);
            assert(after.chain(tid, 1 + n) == Some(tid));
        } else {
            assert forall|t: usize, n: nat| n > 0 implies #[trigger] after.chain(t, n) != Some(
                t,
            ) by {
                if after.chain(t, n) == Some(t) {
                    lemma_circle_through(idle, after, tid, owner, t, n);
                }
            }
        }
    }
}

/// A circle in `e`, which has the waits of `m` and one of `tid` for `owner`, needs a way from
/// `owner` to `tid` in `m`.
proof fn lemma_circle_through(
    m: MutexModel,
    e: MutexModel,
    tid: usize,
    owner: usize,
    t: usize,
    n: nat,
)
    requires
        m.acyclic(),
        forall|x: usize| x != tid ==> #[trigger] e.blocker(x) == m.blocker(x),
        e.blocker(tid) == Some(owner),
        m.blocker(tid) is None,
        n > 0,
        e.chain(t, n) == Some(t),
    ensures
        m.reaches(owner, tid),
{
    lemma_chain_meets(m, e, tid, t, n);
    if m.chain(t, n) == e.chain(t, n) {
        assert(m.chain(t, n) != Some(t));
    } else {
        let k = choose|k: nat| k < n && #[trigger] m.chain(t, k) == Some(tid);
        assert forall|x: usize| (#[trigger] m.blocker(x)) is Some implies e.blocker(x)
            == m.blocker(x) by {}
        lemma_fewer_waits_chain(e, m, t, k);
        // Once round the circle from `tid`: on to `t`, then as far as `tid` again.
        lemma_chain_step(e, t, k, (n - k) as nat);
        assert(e.chain(tid, (n - k) as nat) == Some(t));
        lemma_chain_step(e, tid, (n - k) as nat, k);
        assert(e.chain(tid, n) == Some(tid));
        reveal_with_fuel(MutexModel::chain, 2);
        assert(e.chain(tid, 1) == Some(owner));
        lemma_chain_step(e, tid, 1, (n - 1) as nat);
        assert(e.chain(owner, (n - 1) as nat) == Some(tid));
        lemma_chain_meets(m, e, tid, owner, (n - 1) as nat);
    }
}

/// A thread that gets a mutex waits for nothing, so those who now wait for it close no circle.
pub proof fn law_lock_keeps_acyclic(m: MutexModel, tid: usize, mutex_id: usize)
    requires
        m.acyclic(),
    ensures
        m.locked(tid, mutex_id).acyclic(),
{
    let e = m.locked(tid, mutex_id);
    assert(e.blocker(tid) is None);
    assert forall|x: usize| (#[trigger] e.blocker(x)) is Some && e.blocker(x)->0
        != tid implies m.blocker(x) == e.blocker(x) by {}
    assert forall|t: usize, n: nat| n > 0 implies #[trigger] e.chain(t, n) != Some(t) by {
        if e.chain(t, n) == Some(t) {
            lemma_chain_avoids_sink(m, e, tid, t, n, n);
            assert(m.chain(t, n) != Some(t));
        }
    }
}

/// A circle of `e` avoids `tid`, which waits for nobody, and so consists of waits of `m`.
proof fn lemma_chain_avoids_sink(
    m: MutexModel,
    e: MutexModel,
    tid: usize,
    t: usize,
    n: nat,
    i: nat,
)
    requires
        e.blocker(tid) is None,
        forall|x: usize|
            (#[trigger] e.blocker(x)) is Some && e.blocker(x)->0 != tid ==> m.blocker(x)
                == e.blocker(x),
        n > 0,
        e.chain(t, n) == Some(t),
        i <= n,
    ensures
        m.chain(t, i) == e.chain(t, i),
    decreases i,
{
    if i > 0 {
        let p = (i - 1) as nat;
        lemma_chain_avoids_sink(m, e, tid, t, n, p);
        lemma_chain_prefix(e, t, p, n);
        lemma_chain_prefix(e, t, i, n);
        let x = e.chain(t, p)->0;
        assert(e.blocker(x) == e.chain(t, i));
        if e.chain(t, i) == Some(tid) {
            if i < n {
                lemma_chain_prefix(e, t, i + 1, n);
                assert(e.chain(t, i + 1) == e.blocker(tid));
            } else {
                lemma_chain_prefix(e, t, 1, n);
                reveal_with_fuel(MutexModel::chain, 2);
                assert(e.chain(t, 1) == e.blocker(t));
            }
        }
    }
}

/// What happens to mutexes while detection is on.
pub enum MutexEvent {
    /// A mutex is registered.
    Register { mutex_id: usize },
    /// A thread asks for a mutex.
    Request { tid: usize, mutex_id: usize },
    /// A thread gets a mutex.
    Lock { tid: usize, mutex_id: usize },
    /// A thread releases a mutex.
    Unlock { tid: usize, mutex_id: usize },
    /// A thread exits.
    Exit { tid: usize },
}

impl MutexModel {
    /// The record after one event.
    pub open spec fn after(self, event: MutexEvent) -> MutexModel {
        match event {
            MutexEvent::Register { mutex_id } => self.registered(mutex_id),
            MutexEvent::Request { tid, mutex_id } => self.requested(true, tid, mutex_id),
            MutexEvent::Lock { tid, mutex_id } => self.locked(tid, mutex_id),
            MutexEvent::Unlock { tid, mutex_id } => self.unlocked(tid, mutex_id),
            MutexEvent::Exit { tid } => self.without_thread(tid),
        }
    }

    /// The record after a series of events.
    pub open spec fn after_all(self, events: Seq<MutexEvent>) -> MutexModel
        decreases events.len(),
    {
        if events.len() == 0 {
            self
        } else {
            self.after_all(events.drop_last()).after(events.last())
        }
    }
}

/// No operation closes a circle of waits while detection is on.
pub proof fn law_event_keeps_acyclic(m: MutexModel, event: MutexEvent)
    requires
        m.acyclic(),
    ensures
        m.after(event).acyclic(),
{
    match event {
        MutexEvent::Register { mutex_id } => {
            let e = m.registered(mutex_id);
            assert forall|x: usize| (#[trigger] e.blocker(x)) is Some implies m.blocker(x)
                == e.blocker(x) by {}
            lemma_fewer_waits_acyclic(m, e);
        },
        MutexEvent::Request { tid, mutex_id } => {
            law_refused_iff_circle(m, tid, mutex_id);
        },
        MutexEvent::Lock { tid, mutex_id } => {
            law_lock_keeps_acyclic(m, tid, mutex_id);
        },
        MutexEvent::Unlock { tid, mutex_id } => {
            let e = m.unlocked(tid, mutex_id);
            assert forall|x: usize| (#[trigger] e.blocker(x)) is Some implies m.blocker(x)
                == e.blocker(x) by {}
            lemma_fewer_waits_acyclic(m, e);
        },
        MutexEvent::Exit { tid } => {
            let e = m.without_thread(tid);
            assert forall|x: usize| (#[trigger] e.blocker(x)) is Some implies m.blocker(x)
                == e.blocker(x) by {}
            lemma_fewer_waits_acyclic(m, e);
        },
    }
}

/// Whatever happens from the start with detection on, no circle of waits arises.
pub proof fn law_no_circle_is_reachable(events: Seq<MutexEvent>)
    ensures
        MutexModel::empty().after_all(events).acyclic(),
    decreases events.len(),
{
    let none = MutexModel::empty();
    if events.len() == 0 {
        assert forall|t: usize, n: nat| n > 0 implies #[trigger] none.chain(t, n) != Some(t) by {
            if none.chain(t, n) is Some {
                lemma_chain_prefix(none, t, 1, n);
                reveal_with_fuel(MutexModel::chain, 2);
                assert(none.chain(t, 1) == none.blocker(t));
            }
        }
    } else {
        law_no_circle_is_reachable(events.drop_last());
        law_event_keeps_acyclic(none.after_all(events.drop_last()), events.last());
    }
}

/// A mutex that was locked and released by one thread is free again, and that thread waits for
/// nothing.
pub proof fn law_unlock_undoes_lock(m: MutexModel, tid: usize, mutex_id: usize)
    ensures
        m.locked(tid, mutex_id).owner(mutex_id) == Some(tid),
        m.locked(tid, mutex_id).unlocked(tid, mutex_id) == m.idle(tid, mutex_id).with_owner(
            mutex_id,
            None,
        ),
{
    assert(m.locked(tid, mutex_id).unlocked(tid, mutex_id) =~= m.idle(tid, mutex_id).with_owner(
        mutex_id,
        None,
    ));
}

} // verus!
