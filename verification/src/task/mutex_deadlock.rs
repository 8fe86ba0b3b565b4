//! Deadlock detection for mutexes, by the threads that wait for each other's mutexes.

use crate::task::waiting;
use std::collections::{BTreeMap, BTreeSet, VecDeque};
use vstd::prelude::*;

verus! {

/// Who owns each mutex, and which mutex each waiting thread waits for.
#[verifier::ext_equal]
pub struct MutexModel {
    pub owners: Seq<Option<usize>>,
    pub waiting: Map<usize, usize>,
}

impl MutexModel {
    /// The owner of a mutex.
    pub open spec fn owner(self, mutex_id: usize) -> Option<usize> {
        if mutex_id < self.owners.len() {
            self.owners[mutex_id as int]
        } else {
            None
        }
    }

    /// The thread that `tid` waits for: the owner of the mutex that it waits for.
    pub open spec fn blocker(self, tid: usize) -> Option<usize> {
        if self.waiting.contains_key(tid) {
            self.owner(self.waiting[tid])
        } else {
            None
        }
    }

    /// The thread reached from `tid` over `n` waits.
    pub open spec fn chain(self, tid: usize, n: nat) -> Option<usize>
        decreases n,
    {
        if n == 0 {
            Some(tid)
        } else {
            match self.chain(tid, (n - 1) as nat) {
                Some(t) => self.blocker(t),
                None => None,
            }
        }
    }

    /// Whether a chain of waits leads from `from` to `to`.
    pub open spec fn reaches(self, from: usize, to: usize) -> bool {
        exists|n: nat| #[trigger] self.chain(from, n) == Some(to)
    }

    /// No thread waits for itself, neither directly nor through others.
    pub open spec fn acyclic(self) -> bool {
        forall|t: usize, n: nat| n > 0 ==> #[trigger] self.chain(t, n) != Some(t)
    }
}

/// `owners` with entries up to and including `mutex_id`; new mutexes have no owner.
pub open spec fn covering(owners: Seq<Option<usize>>, mutex_id: usize) -> Seq<Option<usize>> {
    if owners.len() <= mutex_id {
        owners + Seq::new((mutex_id + 1 - owners.len()) as nat, |i: int| None::<usize>)
    } else {
        owners
    }
}

impl MutexModel {
    /// No mutex is known and nobody waits.
    pub open spec fn empty() -> MutexModel {
        MutexModel { owners: Seq::empty(), waiting: Map::empty() }
    }

    /// The record with `owner` as the owner of a mutex.
    pub open spec fn with_owner(self, mutex_id: usize, owner: Option<usize>) -> MutexModel {
        MutexModel {
            owners: covering(self.owners, mutex_id).update(mutex_id as int, owner),
            ..self
        }
    }

    /// The record after a mutex was registered: it has no owner and nobody waits for it.
    pub open spec fn registered(self, mutex_id: usize) -> MutexModel {
        MutexModel {
            waiting: waiting::waits_except(self.waiting, mutex_id),
            ..self.with_owner(mutex_id, None)
        }
    }

    /// The record with an entry for a mutex, in which `tid` waits for nothing.
    pub open spec fn idle(self, tid: usize, mutex_id: usize) -> MutexModel {
        MutexModel {
            owners: covering(self.owners, mutex_id),
            waiting: self.waiting.remove(tid),
        }
    }

    /// The record in which `tid` waits for a mutex.
    pub open spec fn with_wait(self, tid: usize, mutex_id: usize) -> MutexModel {
        MutexModel { waiting: self.waiting.insert(tid, mutex_id), ..self }
    }

    /// Whether `tid` must not wait for a mutex: detection is on, and its owner is `tid` or waits,
    /// directly or through others, for `tid`.
    pub open spec fn refuses(self, enabled: bool, tid: usize, mutex_id: usize) -> bool {
        &&& enabled
        &&& self.owner(mutex_id) is Some
        &&& self.idle(tid, mutex_id).reaches(self.owner(mutex_id)->0, tid)
    }

    /// The record after `tid` asked for a mutex: it waits where there is an owner and the
    /// request is not refused.
    pub open spec fn requested(self, enabled: bool, tid: usize, mutex_id: usize) -> MutexModel {
        if self.owner(mutex_id) is Some && !self.refuses(enabled, tid, mutex_id) {
            self.idle(tid, mutex_id).with_wait(tid, mutex_id)
        } else {
            self.idle(tid, mutex_id)
        }
    }

    /// The record after `tid` got a mutex.
    pub open spec fn locked(self, tid: usize, mutex_id: usize) -> MutexModel {
        self.idle(tid, mutex_id).with_owner(mutex_id, Some(tid))
    }

    /// The record after `tid` released a mutex; only an owner gives it up.
    pub open spec fn unlocked(self, tid: usize, mutex_id: usize) -> MutexModel {
        MutexModel {
            owners: if self.owner(mutex_id) == Some(tid) {
                self.owners.update(mutex_id as int, None)
            } else {
                self.owners
            },
            waiting: self.waiting.remove(tid),
        }
    }

    /// The record after `tid` exited: it owns nothing and waits for nothing.
    pub open spec fn without_thread(self, tid: usize) -> MutexModel {
        MutexModel {
            owners: self.owners.map_values(
                |o: Option<usize>| if o == Some(tid) {
                    None
                } else {
                    o
                },
            ),
            waiting: self.waiting.remove(tid),
        }
    }
}

/// A set closed under waiting holds everything reached from its members.
proof fn lemma_closed_set(m: MutexModel, s: Set<usize>, from: usize, n: nat)
    requires
        s.contains(from),
        forall|t: usize|
            #![trigger s.contains(t)]
            s.contains(t) && m.blocker(t) is Some ==> s.contains(m.blocker(t)->0),
    ensures
        m.chain(from, n) is Some ==> s.contains(m.chain(from, n)->0),
    decreases n,
{
    if n > 0 {
        lemma_closed_set(m, s, from, (n - 1) as nat);
    }
}

/// Owners of mutexes and waits for them, as one process has them.
pub(crate) struct MutexDeadlockState {
    owners: Vec<Option<usize>>,
    waiting: BTreeMap<usize, usize>,
}

impl View for MutexDeadlockState {
    type V = MutexModel;

    closed spec fn view(&self) -> MutexModel {
        MutexModel { owners: self.owners@, waiting: self.waiting@ }
    }
}

impl MutexDeadlockState {
    /// Nothing is known.
    pub(crate) fn new() -> (m: Self)
        ensures
            m@ == MutexModel::empty(),
    {
        MutexDeadlockState { owners: Vec::new(), waiting: BTreeMap::new() }
    }

    /// Make entries up to and including `mutex_id`.
    fn ensure(&mut self, mutex_id: usize)
        requires
            mutex_id < usize::MAX,
        ensures
            final(self)@ == (MutexModel {
                owners: covering(old(self)@.owners, mutex_id),
                ..old(self)@
            }),
    {
        let ghost start = self.owners@;
        while self.owners.len() <= mutex_id
            invariant
                mutex_id < usize::MAX,
                self.waiting@ == old(self).waiting@,
                start.len() <= self.owners.len(),
                self.owners.len() > start.len() ==> self.owners.len() <= mutex_id + 1,
                forall|i: int| 0 <= i < start.len() ==> self.owners[i] == start[i],
                forall|i: int| start.len() <= i < self.owners.len() ==> self.owners[i] is None,
            decreases mutex_id + 1 - self.owners.len(),
        {
            self.owners.push(None);
        }
        assert(self.owners@ =~= covering(start, mutex_id));
    }

    /// Register (or reset) a mutex: nobody owns it or waits for it.
    pub(crate) fn register(&mut self, mutex_id: usize)
        requires
            mutex_id < usize::MAX,
        ensures
            final(self)@ == old(self)@.registered(mutex_id),
    {
        self.ensure(mutex_id);
        self.owners[mutex_id] = None;
        self.waiting = waiting::drop_waits_for(&self.waiting, mutex_id);
    }

    /// Decide a request for a mutex: the thread may lock it or wait for it, or an error.
    pub(crate) fn before_lock(&mut self, enabled: bool, tid: usize, mutex_id: usize) -> (answer:
        Result<(), ()>)
        requires
            mutex_id < usize::MAX,
        ensures
            answer == if old(self)@.refuses(enabled, tid, mutex_id) {
                Err::<(), ()>(())
            } else {
                Ok(())
            },
            final(self)@ == old(self)@.requested(enabled, tid, mutex_id),
    {
        let ghost start = self@;
        self.ensure(mutex_id);
        self.waiting.remove(&tid);
        assert(self@ == start.idle(tid, mutex_id));
        match self.owners[mutex_id] {
            None => Ok(()),
            Some(owner_tid) => {
                assert(self@.chain(tid, 0) == Some(tid));
                if enabled && (owner_tid == tid || self.detect_cycle(tid, owner_tid)) {
                    Err(())
                } else {
                    self.waiting.insert(tid, mutex_id);
                    Ok(())
                }
            },
        }
    }

    /// Whether a chain of waits leads from `owner_tid` to `start_tid`.
    fn detect_cycle(&self, start_tid: usize, owner_tid: usize) -> (found: bool)
        ensures
            found == self@.reaches(owner_tid, start_tid),
    {
        let mut visited: BTreeSet<usize> = BTreeSet::new();
        let mut stack: VecDeque<usize> = VecDeque::new();
        stack.push_back(owner_tid);
        proof {
            assert(self@.chain(owner_tid, 0) == Some(owner_tid));
            assert(stack@.contains(stack@[0]));
        }
        loop
            invariant
                !visited@.contains(start_tid),
                visited@.finite(),
                self.waiting@.dom().finite(),
                visited@.contains(owner_tid) || stack@.contains(owner_tid),
                forall|i: int|
                    0 <= i < stack.len() ==> self@.reaches(owner_tid, #[trigger] stack@[i]),
                forall|t: usize|
                    #![trigger visited@.contains(t)]
                    visited@.contains(t) && self@.blocker(t) is Some ==> visited@.contains(
                        self@.blocker(t)->0,
                    ) || stack@.contains(self@.blocker(t)->0),
            ensures
                stack.len() == 0,
            decreases self.waiting@.dom().difference(visited@).len(), stack.len(),
        {
            let ghost waits = self.waiting@.dom();
            let ghost seen = visited@;
            let ghost pending = stack@;
            let tid = match stack.pop_back() {
                Some(tid) => tid,
                None => {
                    break;
                },
            };
            assert(pending == stack@.push(tid));
            assert(self@.reaches(owner_tid, tid)) by {
                assert(pending[pending.len() - 1] == tid);
            }
            assert forall|t: usize| pending.contains(t) && t != tid implies stack@.contains(t) by {
                let i = choose|i: int| 0 <= i < pending.len() && pending[i] == t;
                assert(stack@[i] == t);
            }
            if tid == start_tid {
                return true;
            }
            if visited.insert(tid) {
                let ghost rest = stack@;
                assert(waits.difference(seen).finite());
                assert(waits.difference(visited@) =~= waits.difference(seen).remove(tid));
                if let Some(wait_mutex) = self.waiting.get(&tid) {
                    if *wait_mutex < self.owners.len() {
                        if let Some(next_owner) = self.owners[*wait_mutex] {
                            stack.push_back(next_owner);
                            proof {
                                let n = choose|n: nat| #[trigger]
                                    self@.chain(owner_tid, n) == Some(tid);
                                assert(self@.chain(owner_tid, n + 1) == Some(next_owner));
                                assert(stack@[rest.len() as int] == next_owner);
                                assert forall|t: usize| rest.contains(t) implies stack@.contains(
                                    t,
                                ) by {
                                    let i = choose|i: int| 0 <= i < rest.len() && rest[i] == t;
                                    assert(stack@[i] == t);
                                }
                            }
                        }
                    }
                }
            } else {
                assert(visited@ =~= seen);
            }
        }
        proof {
            assert forall|n: nat| #[trigger] self@.chain(owner_tid, n) != Some(start_tid) by {
                lemma_closed_set(self@, visited@, owner_tid, n);
            }
        }
        false
    }

    /// Record that a thread owns a mutex.
    pub(crate) fn after_lock(&mut self, tid: usize, mutex_id: usize)
        requires
            mutex_id < usize::MAX,
        ensures
            final(self)@ == old(self)@.locked(tid, mutex_id),
    {
        self.ensure(mutex_id);
        self.waiting.remove(&tid);
        self.owners[mutex_id] = Some(tid);
    }

    /// Record that a thread gave a mutex back, where it owned it, and waits for nothing.
    pub(crate) fn unlock(&mut self, tid: usize, mutex_id: usize)
        ensures
            final(self)@ == old(self)@.unlocked(tid, mutex_id),
    {
        if mutex_id < self.owners.len() && self.owners[mutex_id] == Some(tid) {
            self.owners[mutex_id] = None;
        }
        self.waiting.remove(&tid);
    }

    /// Record that a thread exited: it owns nothing and waits for nothing.
    pub(crate) fn cleanup_thread(&mut self, tid: usize)
        ensures
            final(self)@ == old(self)@.without_thread(tid),
    {
        let ghost start = self@;
        self.waiting.remove(&tid);
        let mut i: usize = 0;
        while i < self.owners.len()
            invariant
                i <= self.owners.len() == start.owners.len(),
                self.waiting@ == start.waiting.remove(tid),
                forall|j: int|
                    0 <= j < start.owners.len() ==> #[trigger] self.owners[j] == if j < i
                        && start.owners[j] == Some(tid) {
                        None
                    } else {
                        start.owners[j]
                    },
            decreases self.owners.len() - i,
        {
            if self.owners[i] == Some(tid) {
                self.owners[i] = None;
            }
            i = i + 1;
        }
        assert(self@.owners =~= start.without_thread(tid).owners);
    }
}

} // verus!
