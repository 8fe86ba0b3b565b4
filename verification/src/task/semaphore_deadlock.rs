//! Deadlock detection for semaphores, by the units that threads hold and wait for.

use crate::signed;
use crate::sync::claims;
use crate::sync::claims::Claims;
use crate::task::waiting;
use std::collections::{BTreeMap, BTreeSet};
use vstd::prelude::*;

verus! {

/// Free units of each semaphore, units of each semaphore that a thread holds, and the semaphore
/// that each waiting thread waits for.
#[verifier::ext_equal]
pub struct SemaphoreModel {
    pub available: Seq<isize>,
    pub allocation: Map<usize, Seq<usize>>,
    pub waiting: Map<usize, usize>,
}

/// `row`, followed by zeros up to `len` entries.
pub open spec fn widened(row: Seq<usize>, len: nat) -> Seq<usize> {
    Seq::new(
        len,
        |s: int|
            if s < row.len() {
                row[s]
            } else {
                0
            },
    )
}

impl SemaphoreModel {
    /// Every thread that holds something has an entry for each semaphore, and threads wait for
    /// known semaphores only.
    pub open spec fn wf(self) -> bool {
        &&& self.available.len() <= usize::MAX
        &&& forall|t: usize| #[trigger]
            self.waiting.contains_key(t) ==> self.waiting[t] < self.available.len()
        &&& self.allocation.dom().finite()
        &&& self.waiting.dom().finite()
        &&& forall|t: usize| #[trigger]
            self.allocation.contains_key(t) ==> self.allocation[t].len() == self.available.len()
    }

    /// No semaphore is known.
    pub open spec fn empty() -> SemaphoreModel {
        SemaphoreModel { available: Seq::empty(), allocation: Map::empty(), waiting: Map::empty() }
    }

    /// The units of a semaphore that a thread holds.
    pub open spec fn holding(self, tid: usize, sem_id: int) -> int {
        if self.allocation.contains_key(tid) {
            self.allocation[tid][sem_id] as int
        } else {
            0
        }
    }

    /// The record with entries for the semaphores up to and including `sem_id`; new semaphores
    /// have no units.
    pub open spec fn covering(self, sem_id: usize) -> SemaphoreModel {
        if self.available.len() <= sem_id {
            SemaphoreModel {
                available: Seq::new(
                    (sem_id + 1) as nat,
                    |s: int|
                        if s < self.available.len() {
                            self.available[s]
                        } else {
                            0
                        },
                ),
                allocation: self.allocation.map_values(
                    |row: Seq<usize>| widened(row, (sem_id + 1) as nat),
                ),
                ..self
            }
        } else {
            self
        }
    }

    /// The record after a semaphore was registered: `initial` units, which nobody holds or waits
    /// for.
    pub open spec fn registered(self, sem_id: usize, initial: usize) -> SemaphoreModel {
        let wide = self.covering(sem_id);
        SemaphoreModel {
            available: wide.available.update(sem_id as int, signed::as_signed(initial) as isize),
            allocation: wide.allocation.map_values(
                |row: Seq<usize>| row.update(sem_id as int, 0),
            ),
            waiting: waiting::waits_except(self.waiting, sem_id),
        }
    }

    /// The record with an entry for a semaphore, in which `tid` waits for nothing.
    pub open spec fn idle(self, tid: usize, sem_id: usize) -> SemaphoreModel {
        SemaphoreModel { waiting: self.waiting.remove(tid), ..self.covering(sem_id) }
    }

    /// The record in which `tid` waits for a semaphore.
    pub open spec fn with_wait(self, tid: usize, sem_id: usize) -> SemaphoreModel {
        SemaphoreModel { waiting: self.waiting.insert(tid, sem_id), ..self }
    }

    /// The threads that hold something or wait, and `tid`.
    pub open spec fn threads(self, tid: usize) -> Set<usize> {
        self.allocation.dom().union(self.waiting.dom()).insert(tid)
    }

    /// The units of `sem_id` that `t` asks for: one where it waits, and one more where it is
    /// `tid`, which asks for `asked`.
    pub open spec fn asking(self, t: usize, sem_id: int, tid: usize, asked: usize) -> int {
        (if self.waiting.contains_key(t) && self.waiting[t] == sem_id {
            1int
        } else {
            0
        }) + (if t == tid && asked == sem_id {
            1int
        } else {
            0
        })
    }

    /// The threads as claimants of the semaphores' units, once `tid` asks for a unit of `asked`.
    pub open spec fn claims(self, tid: usize, asked: usize) -> Claims {
        Claims {
            available: Seq::new(self.available.len(), |s: int| self.available[s] as int),
            held: Map::new(
                |t: usize| self.threads(tid).contains(t),
                |t: usize| Seq::new(self.available.len(), |s: int| self.holding(t, s)),
            ),
            wanted: Map::new(
                |t: usize| self.threads(tid).contains(t),
                |t: usize|
                    Seq::new(self.available.len(), |s: int| self.asking(t, s, tid, asked)),
            ),
        }
    }

    /// Whether some thread is deadlocked once `tid` asks for a unit of `sem_id`.
    pub open spec fn deadlocks(self, tid: usize, sem_id: usize) -> bool {
        sem_id < self.available.len() && self.claims(tid, sem_id).has_deadlock()
    }

    /// The units that come back while threads finish can be counted in an `isize`.
    pub open spec fn returns_fit(self, tid: usize, sem_id: usize) -> bool {
        let c = self.claims(tid, sem_id);
        sem_id < self.available.len() ==> forall|s: int|
            0 <= s < self.available.len() ==> {
                &&& #[trigger] c.at_hand(c.can_finish(), s) <= isize::MAX
                &&& forall|t: usize|
                    c.can_finish().contains(t) ==> #[trigger] self.holding(t, s) <= isize::MAX
            }
    }
}

impl SemaphoreModel {
    /// The answer to a thread that asks for a unit: whether one is free, or a refusal where
    /// detection is on and waiting would deadlock.
    pub open spec fn down_answer(self, enabled: bool, tid: usize, sem_id: usize) -> Result<
        bool,
        (),
    > {
        let idle = self.idle(tid, sem_id);
        if idle.available[sem_id as int] > 0 {
            Ok(true)
        } else if enabled && idle.deadlocks(tid, sem_id) {
            Err(())
        } else {
            Ok(false)
        }
    }

    /// The record after that: the thread waits where no unit is free and it was not refused.
    pub open spec fn after_request(
        self,
        enabled: bool,
        tid: usize,
        sem_id: usize,
    ) -> SemaphoreModel {
        if self.down_answer(enabled, tid, sem_id) == Ok::<bool, ()>(false) {
            self.idle(tid, sem_id).with_wait(tid, sem_id)
        } else {
            self.idle(tid, sem_id)
        }
    }

    /// The counts that such a request takes can be made.
    pub open spec fn request_fits(self, enabled: bool, tid: usize, sem_id: usize) -> bool {
        let idle = self.idle(tid, sem_id);
        enabled && idle.available[sem_id as int] <= 0 ==> idle.returns_fit(tid, sem_id)
    }

    /// What a thread holds of each semaphore.
    pub open spec fn row(self, tid: usize) -> Seq<usize> {
        if self.allocation.contains_key(tid) {
            self.allocation[tid]
        } else {
            Seq::new(self.available.len(), |s: int| 0usize)
        }
    }

    /// The record after `tid` took a unit; the count of free units may go below zero.
    pub open spec fn taken(self, tid: usize, sem_id: usize) -> SemaphoreModel {
        let idle = self.idle(tid, sem_id);
        let s = sem_id as int;
        SemaphoreModel {
            available: idle.available.update(s, (idle.available[s] - 1) as isize),
            allocation: idle.allocation.insert(
                tid,
                idle.row(tid).update(s, (idle.row(tid)[s] + 1) as usize),
            ),
            waiting: idle.waiting,
        }
    }

    /// The record after `tid` gave a unit to a semaphore: one of those it holds, or a new one
    /// where it holds none.
    pub open spec fn given(self, tid: usize, sem_id: usize) -> SemaphoreModel {
        let wide = self.covering(sem_id);
        let s = sem_id as int;
        SemaphoreModel {
            available: wide.available.update(s, (wide.available[s] + 1) as isize),
            allocation: if wide.allocation.contains_key(tid) {
                let left = one_less(wide.allocation[tid], s);
                if all_zero(left) {
                    wide.allocation.remove(tid)
                } else {
                    wide.allocation.insert(tid, left)
                }
            } else {
                wide.allocation
            },
            waiting: wide.waiting,
        }
    }

    /// What semaphore `s` has free once `tid` gave back all that it holds.
    pub open spec fn returned(self, tid: usize, s: int) -> int {
        self.available[s] + signed::as_signed(self.row(tid)[s])
    }

    /// The record after `tid` exited: its units are free again and it waits for nothing.
    pub open spec fn without_thread(self, tid: usize) -> SemaphoreModel {
        SemaphoreModel {
            available: Seq::new(self.available.len(), |s: int| self.returned(tid, s) as isize),
            allocation: self.allocation.remove(tid),
            waiting: self.waiting.remove(tid),
        }
    }
}

/// `row` with entry `s` lowered by one, where it is not zero.
pub open spec fn one_less(row: Seq<usize>, s: int) -> Seq<usize> {
    if row[s] > 0 {
        row.update(s, (row[s] - 1) as usize)
    } else {
        row
    }
}

/// Every entry is zero.
pub open spec fn all_zero(row: Seq<usize>) -> bool {
    forall|s: int| 0 <= s < row.len() ==> #[trigger] row[s] == 0
}

/// The contents of a table of rows.
pub open spec fn row_contents(rows: Map<usize, Vec<usize>>) -> Map<usize, Seq<usize>> {
    rows.map_values(|row: Vec<usize>| row@)
}

/// Copies a table, widening each row to `len` entries.
fn widen_rows(rows: &BTreeMap<usize, Vec<usize>>, len: usize) -> (wide: BTreeMap<usize, Vec<usize>>)
    requires
        forall|t: usize| #[trigger] rows@.contains_key(t) ==> rows@[t].len() <= len,
    ensures
        row_contents(wide@) == row_contents(rows@).map_values(
            |row: Seq<usize>| widened(row, len as nat),
        ),
{
    let mut wide: BTreeMap<usize, Vec<usize>> = BTreeMap::new();
    for entry in it: rows.iter()
        invariant
            forall|t: usize| #[trigger] rows@.contains_key(t) ==> rows@[t].len() <= len,
            forall|t: usize| #[trigger]
                wide@.contains_key(t) <==> exists|i: int|
                    0 <= i < it.index() && *(#[trigger] it.seq()[i]).0 == t,
            forall|t: usize| #[trigger]
                wide@.contains_key(t) ==> wide@[t]@ == widened(rows@[t]@, len as nat),
    {
        let (tid, row) = entry;
        assert(rows@.contains_key(*tid) && rows@[*tid] == *row);
        let mut copy = row.clone();
        assert(copy@ =~= row@);
        copy.resize(len, 0);
        assert(copy@ =~= widened(row@, len as nat)) by {
            assert forall|i: int| 0 <= i < row@.len() implies copy@[i] == row@[i] by {
                assert(copy@.subrange(0, row@.len() as int)[i] == row@[i]);
            }
        }
        wide.insert(*tid, copy);
    }
    assert(row_contents(wide@) =~= row_contents(rows@).map_values(
        |row: Seq<usize>| widened(row, len as nat),
    ));
    wide
}

/// Copies a table, with zero in column `s` of each row.
fn clear_column(rows: &BTreeMap<usize, Vec<usize>>, s: usize) -> (cleared: BTreeMap<
    usize,
    Vec<usize>,
>)
    requires
        forall|t: usize| #[trigger] rows@.contains_key(t) ==> s < rows@[t].len(),
    ensures
        row_contents(cleared@) == row_contents(rows@).map_values(
            |row: Seq<usize>| row.update(s as int, 0),
        ),
{
    let mut cleared: BTreeMap<usize, Vec<usize>> = BTreeMap::new();
    for entry in it: rows.iter()
        invariant
            forall|t: usize| #[trigger] rows@.contains_key(t) ==> s < rows@[t].len(),
            forall|t: usize| #[trigger]
                cleared@.contains_key(t) <==> exists|i: int|
                    0 <= i < it.index() && *(#[trigger] it.seq()[i]).0 == t,
            forall|t: usize| #[trigger]
                cleared@.contains_key(t) ==> cleared@[t]@ == rows@[t]@.update(s as int, 0),
    {
        let (tid, row) = entry;
        assert(rows@.contains_key(*tid) && rows@[*tid] == *row);
        let mut copy = row.clone();
        assert(copy@ =~= row@);
        copy[s] = 0;
        cleared.insert(*tid, copy);
    }
    assert(row_contents(cleared@) =~= row_contents(rows@).map_values(
        |row: Seq<usize>| row.update(s as int, 0),
    ));
    cleared
}

/// Adds `id` to `tids`, whose members are those of `seen`, where it is missing.
fn add_once(tids: &mut Vec<usize>, seen: &mut BTreeSet<usize>, id: usize)
    requires
        old(tids)@.no_duplicates(),
        old(tids)@.to_set() == old(seen)@,
    ensures
        final(tids)@.no_duplicates(),
        final(tids)@.to_set() == final(seen)@,
        final(seen)@ == old(seen)@.insert(id),
{
    let ghost before = tids@;
    let ghost known = seen@;
    if seen.insert(id) {
        tids.push(id);
        proof {
            assert(before.to_set().contains(id) == before.contains(id));
            assert(tids@.to_set() =~= known.insert(id)) by {
                assert forall|t: usize| known.insert(id).contains(t) implies tids@.to_set().contains(
                    t,
                ) by {
                    if t == id {
                        assert(tids@[before.len() as int] == t);
                    } else {
                        assert(before.to_set().contains(t));
                        let i = choose|i: int| 0 <= i < before.len() && before[i] == t;
                        assert(tids@[i] == t);
                    }
                }
                assert forall|t: usize| tids@.to_set().contains(t) implies known.insert(
                    id,
                ).contains(t) by {
                    let i = choose|i: int| 0 <= i < tids@.len() && tids@[i] == t;
                    if i < before.len() {
                        assert(before[i] == t);
                        assert(before.to_set().contains(t));
                    }
                }
            }
        }
    } else {
        assert(known.insert(id) =~= known);
    }
}

/// Units of semaphores and waits for them, as one process has them.
pub(crate) struct SemaphoreDeadlockState {
    available: Vec<isize>,
    allocation: BTreeMap<usize, Vec<usize>>,
    waiting: BTreeMap<usize, usize>,
}

impl View for SemaphoreDeadlockState {
    type V = SemaphoreModel;

    closed spec fn view(&self) -> SemaphoreModel {
        SemaphoreModel {
            available: self.available@,
            allocation: row_contents(self.allocation@),
            waiting: self.waiting@,
        }
    }
}

impl SemaphoreDeadlockState {
    /// Every thread that holds something has an entry for each semaphore.
    pub open spec fn wf(&self) -> bool {
        self@.wf()
    }

    /// Nothing is known.
    pub(crate) fn new() -> (m: Self)
        ensures
            m.wf(),
            m@ == SemaphoreModel::empty(),
    {
        let m = SemaphoreDeadlockState {
            available: Vec::new(),
            allocation: BTreeMap::new(),
            waiting: BTreeMap::new(),
        };
        assert(m@ =~= SemaphoreModel::empty());
        m
    }

    /// Make entries up to and including `sem_id`.
    fn ensure(&mut self, sem_id: usize)
        requires
            old(self).wf(),
            sem_id < usize::MAX,
        ensures
            final(self).wf(),
            final(self)@ == old(self)@.covering(sem_id),
            final(self)@.available.len() > sem_id,
    {
        let ghost start = self@;
        let target_len = sem_id + 1;
        if self.available.len() < target_len {
            self.available.resize(target_len, 0);
            assert(self.available@ =~= start.covering(sem_id).available) by {
                assert forall|i: int|
                    0 <= i < start.available.len() implies self.available@[i] == start.available[i] by {
                    assert(self.available@.subrange(0, start.available.len() as int)[i]
                        == start.available[i]);
                }
            }
            assert forall|t: usize| #[trigger] self.allocation@.contains_key(
                t,
            ) implies self.allocation@[t].len() <= target_len by {
                assert(start.allocation.contains_key(t));
            }
            self.allocation = widen_rows(&self.allocation, target_len);
            assert(self@.allocation.dom() =~= self.allocation@.dom());
        }
    }

    /// Register (or reset) a semaphore with `initial` units.
    pub(crate) fn register(&mut self, sem_id: usize, initial: usize)
        requires
            old(self).wf(),
            sem_id < usize::MAX,
        ensures
            final(self).wf(),
            final(self)@ == old(self)@.registered(sem_id, initial),
    {
        self.ensure(sem_id);
        let ghost wide = self@;
        assert(initial as isize == signed::as_signed(initial)) by {
            signed::lemma_signed_cast(initial);
        }
        self.available[sem_id] = initial as isize;
        assert forall|t: usize| #[trigger] self.allocation@.contains_key(t) implies sem_id
            < self.allocation@[t].len() by {
            assert(wide.allocation.contains_key(t));
        }
        self.allocation = clear_column(&self.allocation, sem_id);
        self.waiting = waiting::drop_waits_for(&self.waiting, sem_id);
        assert(self@.allocation.dom() =~= self.allocation@.dom());
    }

    /// The threads that hold something or wait, and `tid`, each once.
    fn threads(&self, tid: usize) -> (tids: Vec<usize>)
        requires
            self.wf(),
        ensures
            tids@.no_duplicates(),
            tids@.to_set() == self@.threads(tid),
    {
        let mut seen: BTreeSet<usize> = BTreeSet::new();
        let mut tids: Vec<usize> = Vec::new();
        assert(tids@.to_set() =~= seen@);
        for entry in it: self.allocation.iter()
            invariant
                tids@.no_duplicates(),
                tids@.to_set() == seen@,
                forall|t: usize| #[trigger]
                    seen@.contains(t) <==> exists|i: int|
                        0 <= i < it.index() && *(#[trigger] it.seq()[i]).0 == t,
        {
            let (id, _row) = entry;
            add_once(&mut tids, &mut seen, *id);
        }
        assert(seen@ =~= self@.allocation.dom());
        for entry in it: self.waiting.iter()
            invariant
                tids@.no_duplicates(),
                tids@.to_set() == seen@,
                forall|t: usize| #[trigger]
                    seen@.contains(t) <==> self@.allocation.contains_key(t) || exists|i: int|
                        0 <= i < it.index() && *(#[trigger] it.seq()[i]).0 == t,
        {
            let (id, _sem) = entry;
            add_once(&mut tids, &mut seen, *id);
        }
        add_once(&mut tids, &mut seen, tid);
        assert(seen@ =~= self@.threads(tid));
        tids
    }

    /// The units of each semaphore that thread `id` holds.
    fn held_row(&self, id: usize) -> (row: Vec<usize>)
        requires
            self.wf(),
        ensures
            row.len() == self@.available.len(),
            forall|s: int| 0 <= s < row.len() ==> #[trigger] row[s] == self@.holding(id, s),
    {
        match self.allocation.get(&id) {
            Some(held) => {
                assert(self@.allocation.contains_key(id));
                let row = held.clone();
                assert(row@ =~= held@);
                row
            },
            None => {
                let row: Vec<usize> = vec![0; self.available.len()];
                row
            },
        }
    }

    /// The units of each semaphore that thread `id` asks for, once `tid` asks for one of
    /// `sem_id`.
    fn wanted_row(&self, id: usize, tid: usize, sem_id: usize) -> (row: Vec<usize>)
        requires
            self.wf(),
            sem_id < self@.available.len(),
        ensures
            row.len() == self@.available.len(),
            forall|s: int|
                0 <= s < row.len() ==> #[trigger] row[s] == self@.asking(id, s, tid, sem_id),
    {
        let mut row: Vec<usize> = vec![0; self.available.len()];
        if let Some(wait_sem) = self.waiting.get(&id) {
            if *wait_sem < self.available.len() {
                row[*wait_sem] = row[*wait_sem] + 1;
            }
        }
        if id == tid {
            row[sem_id] = row[sem_id] + 1;
        }
        row
    }

    /// Whether some thread is deadlocked once `tid` asks for a unit of `sem_id`.
    fn would_deadlock(&self, tid: usize, sem_id: usize) -> (found: bool)
        requires
            self.wf(),
            self@.returns_fit(tid, sem_id),
        ensures
            found == self@.deadlocks(tid, sem_id),
    {
        let kinds = self.available.len();
        if sem_id >= kinds {
            return false;
        }
        let ghost c = self@.claims(tid, sem_id);
        let tids = self.threads(tid);
        let mut held: Vec<Vec<usize>> = Vec::new();
        let mut wanted: Vec<Vec<usize>> = Vec::new();
        let mut k: usize = 0;
        while k < tids.len()
            invariant
                self.wf(),
                kinds == self@.available.len(),
                sem_id < kinds,
                k <= tids.len(),
                held.len() == k,
                wanted.len() == k,
                forall|i: int| 0 <= i < k ==> (#[trigger] held[i]).len() == kinds,
                forall|i: int| 0 <= i < k ==> (#[trigger] wanted[i]).len() == kinds,
                forall|i: int, s: int|
                    0 <= i < k && 0 <= s < kinds ==> #[trigger] held[i][s] == self@.holding(
                        tids[i],
                        s,
                    ),
                forall|i: int, s: int|
                    0 <= i < k && 0 <= s < kinds ==> #[trigger] wanted[i][s] == self@.asking(
                        tids[i],
                        s,
                        tid,
                        sem_id,
                    ),
            decreases tids.len() - k,
        {
            held.push(self.held_row(tids[k]));
            wanted.push(self.wanted_row(tids[k], tid, sem_id));
            k = k + 1;
        }
        let mut work = self.available.clone();
        let mut finish: Vec<bool> = vec![false; tids.len()];
        let ghost mut done: Set<usize> = Set::empty();
        proof {
            assert(work@ =~= self.available@);
            lemma_claims_wf(self@, tid, sem_id);
            assert forall|s: int| 0 <= s < kinds implies #[trigger] work[s] == c.at_hand(
                done,
                s,
            ) by {
                assert(claims::total_held(c.held, done, s) == 0);
            }
        }
        loop
            invariant
                self.wf(),
                self@.returns_fit(tid, sem_id),
                c == self@.claims(tid, sem_id),
                c.wf(),
                kinds == self@.available.len(),
                sem_id < kinds,
                tids@.no_duplicates(),
                tids@.to_set() == c.claimants(),
                held.len() == tids.len(),
                wanted.len() == tids.len(),
                finish.len() == tids.len(),
                work.len() == kinds,
                forall|i: int| 0 <= i < tids.len() ==> (#[trigger] held[i]).len() == kinds,
                forall|i: int| 0 <= i < tids.len() ==> (#[trigger] wanted[i]).len() == kinds,
                forall|i: int, s: int|
                    0 <= i < tids.len() && 0 <= s < kinds ==> #[trigger] held[i][s]
                        == self@.holding(tids[i], s),
                forall|i: int, s: int|
                    0 <= i < tids.len() && 0 <= s < kinds ==> #[trigger] wanted[i][s]
                        == self@.asking(tids[i], s, tid, sem_id),
                forall|i: int|
                    0 <= i < tids.len() ==> #[trigger] finish[i] == done.contains(tids[i]),
                done.subset_of(c.can_finish()),
                forall|s: int| 0 <= s < kinds ==> #[trigger] work[s] == c.at_hand(done, s),
            ensures
                forall|t: usize|
                    #![trigger c.claimants().contains(t)]
                    c.claimants().contains(t) && !done.contains(t) ==> !c.served(t, done),
            decreases tids.len() - done.len(),
        {
            let mut progressed = false;
            let ghost start = done;
            proof {
                lemma_done_bounded(c, tids@, done);
            }
            let mut i: usize = 0;
            while i < tids.len()
                invariant
                    self.wf(),
                    self@.returns_fit(tid, sem_id),
                    c == self@.claims(tid, sem_id),
                    c.wf(),
                    kinds == self@.available.len(),
                    sem_id < kinds,
                    tids@.no_duplicates(),
                    tids@.to_set() == c.claimants(),
                    i <= tids.len(),
                    held.len() == tids.len(),
                    wanted.len() == tids.len(),
                    finish.len() == tids.len(),
                    work.len() == kinds,
                    forall|i: int| 0 <= i < tids.len() ==> (#[trigger] held[i]).len() == kinds,
                    forall|i: int| 0 <= i < tids.len() ==> (#[trigger] wanted[i]).len() == kinds,
                    forall|i: int, s: int|
                        0 <= i < tids.len() && 0 <= s < kinds ==> #[trigger] held[i][s]
                            == self@.holding(tids[i], s),
                    forall|i: int, s: int|
                        0 <= i < tids.len() && 0 <= s < kinds ==> #[trigger] wanted[i][s]
                            == self@.asking(tids[i], s, tid, sem_id),
                    forall|i: int|
                        0 <= i < tids.len() ==> #[trigger] finish[i] == done.contains(tids[i]),
                    done.finite(),
                    done.subset_of(c.can_finish()),
                    forall|s: int| 0 <= s < kinds ==> #[trigger] work[s] == c.at_hand(done, s),
                    progressed ==> done.len() > start.len(),
                    !progressed ==> done == start && forall|j: int|
                        0 <= j < i && !done.contains(#[trigger] tids[j]) ==> !c.served(
                            tids[j],
                            done,
                        ),
                decreases tids.len() - i,
            {
                if !finish[i] {
                    let id = tids[i];
                    assert(tids@.contains(tids@[i as int]));
                    assert(c.claimants().contains(id));
                    let met = request_is_met(&wanted[i], &work);
                    assert(met == c.served(id, done)) by {
                        assert forall|s: int| 0 <= s < kinds implies #[trigger] c.kind_served(
                            id,
                            done,
                            s,
                        ) == (wanted[i as int][s] == 0 || wanted[i as int][s] <= work[s]) by {}
                        if met {
                            assert(c.served(id, done));
                        } else {
                            let s = choose|s: int|
                                0 <= s < kinds && !(#[trigger] wanted[i as int][s] == 0
                                    || wanted[i as int][s] <= work[s]);
                            assert(!c.kind_served(id, done, s));
                        }
                    }
                    if met {
                        proof {
                            claims::lemma_served_can_finish(c, id, done);
                            assert forall|s: int| 0 <= s < kinds implies {
                                &&& #[trigger] held[i as int][s] <= isize::MAX
                                &&& work[s] + held[i as int][s] <= isize::MAX
                                &&& c.at_hand(done.insert(id), s) == c.at_hand(done, s)
                                    + held[i as int][s]
                            } by {
                                lemma_return_fits(self@, tid, sem_id, done, id, s);
                                assert(work[s] == c.at_hand(done, s));
                            }
                        }
                        add_row(&mut work, &held[i]);
                        finish[i] = true;
                        progressed = true;
                        proof {
                            done = done.insert(id);
                        }
                    }
                }
                i = i + 1;
            }
            if !progressed {
                assert forall|t: usize|
                    #![trigger c.claimants().contains(t)]
                    c.claimants().contains(t) && !done.contains(t) implies !c.served(t, done) by {
                    assert(tids@.to_set().contains(t));
                    let j = choose|j: int| 0 <= j < tids.len() && tids[j] == t;
                    assert(!done.contains(tids[j]));
                }
                break;
            }
            proof {
                lemma_done_bounded(c, tids@, done);
            }
        }
        proof {
            claims::lemma_exhausted(c, done);
        }
        let mut j: usize = 0;
        while j < tids.len()
            invariant
                finish.len() == tids.len(),
                j <= tids.len(),
                tids@.to_set() == c.claimants(),
                sem_id < self@.available.len(),
                c == self@.claims(tid, sem_id),
                forall|i: int|
                    0 <= i < tids.len() ==> #[trigger] finish[i] == done.contains(tids[i]),
                forall|t: usize|
                    #![trigger c.deadlocked(t)]
                    c.deadlocked(t) <==> c.claimants().contains(t) && !done.contains(t),
                forall|i: int| 0 <= i < j ==> #[trigger] finish[i],
            decreases tids.len() - j,
        {
            if !finish[j] {
                assert(tids@.contains(tids@[j as int]));
                assert(c.deadlocked(tids[j as int]));
                return true;
            }
            j = j + 1;
        }
        proof {
            if c.has_deadlock() {
                let t = choose|t: usize| #[trigger] c.deadlocked(t);
                assert(tids@.to_set().contains(t));
                let i = choose|i: int| 0 <= i < tids.len() && tids[i] == t;
                assert(finish[i]);
            }
        }
        false
    }

    /// Decide a request for one unit: whether one is free, or an error.
    pub(crate) fn before_down(&mut self, enabled: bool, tid: usize, sem_id: usize) -> (answer:
        Result<bool, ()>)
        requires
            old(self).wf(),
            sem_id < usize::MAX,
            old(self)@.request_fits(enabled, tid, sem_id),
        ensures
            final(self).wf(),
            answer == old(self)@.down_answer(enabled, tid, sem_id),
            final(self)@ == old(self)@.after_request(enabled, tid, sem_id),
    {
        self.ensure(sem_id);
        self.waiting.remove(&tid);
        assert(self@ == old(self)@.idle(tid, sem_id));
        if self.available[sem_id] > 0 {
            return Ok(true);
        }
        if enabled && self.would_deadlock(tid, sem_id) {
            return Err(());
        }
        self.waiting.insert(tid, sem_id);
        Ok(false)
    }

    /// Gives thread `tid` a row where it has none.
    fn ensure_alloc_entry(&mut self, tid: usize)
        requires
            old(self).wf(),
        ensures
            final(self).wf(),
            final(self)@ == (SemaphoreModel {
                allocation: old(self)@.allocation.insert(tid, old(self)@.row(tid)),
                ..old(self)@
            }),
    {
        let ghost start = self@;
        if !self.allocation.contains_key(&tid) {
            let row: Vec<usize> = vec![0; self.available.len()];
            assert(row@ =~= start.row(tid));
            self.allocation.insert(tid, row);
        }
        assert(self@.allocation =~= start.allocation.insert(tid, start.row(tid)));
    }

    /// Record that a thread took a unit.
    pub(crate) fn after_down(&mut self, tid: usize, sem_id: usize, _immediate: bool)
        requires
            old(self).wf(),
            sem_id < usize::MAX,
            old(self)@.covering(sem_id).available[sem_id as int] > isize::MIN,
            old(self)@.covering(sem_id).holding(tid, sem_id as int) < usize::MAX,
        ensures
            final(self).wf(),
            final(self)@ == old(self)@.taken(tid, sem_id),
    {
        self.ensure(sem_id);
        self.waiting.remove(&tid);
        let ghost idle = self@;
        assert(idle == old(self)@.idle(tid, sem_id));
        self.available[sem_id] = self.available[sem_id] - 1;
        self.ensure_alloc_entry(tid);
        assert(self@.allocation.contains_key(tid));
        assert(self.allocation@.contains_key(tid));
        let mut row = self.allocation.remove(&tid).unwrap();
        assert(row@ == idle.row(tid));
        row[sem_id] = row[sem_id] + 1;
        self.allocation.insert(tid, row);
        assert(self@.allocation =~= old(self)@.taken(tid, sem_id).allocation);
    }

    /// Record that a thread gave a unit.
    pub(crate) fn up(&mut self, tid: usize, sem_id: usize)
        requires
            old(self).wf(),
            sem_id < usize::MAX,
            old(self)@.covering(sem_id).available[sem_id as int] < isize::MAX,
        ensures
            final(self).wf(),
            final(self)@ == old(self)@.given(tid, sem_id),
    {
        self.ensure(sem_id);
        let ghost wide = self@;
        self.available[sem_id] = self.available[sem_id] + 1;
        if let Some(mut row) = self.allocation.remove(&tid) {
            assert(wide.allocation.contains_key(tid));
            assert(row@ == wide.allocation[tid]);
            if row[sem_id] > 0 {
                row[sem_id] = row[sem_id] - 1;
            }
            assert(row@ =~= one_less(wide.allocation[tid], sem_id as int));
            if !is_all_zero(&row) {
                self.allocation.insert(tid, row);
            }
        }
        assert(self@.allocation =~= old(self)@.given(tid, sem_id).allocation);
    }

    /// Record that a thread exited: its units are free and it waits for nothing.
    pub(crate) fn cleanup_thread(&mut self, tid: usize)
        requires
            old(self).wf(),
            forall|s: int|
                0 <= s < old(self)@.available.len() ==> isize::MIN <= #[trigger] old(
                    self,
                )@.returned(tid, s) <= isize::MAX,
        ensures
            final(self).wf(),
            final(self)@ == old(self)@.without_thread(tid),
    {
        let ghost start = self@;
        if let Some(row) = self.allocation.remove(&tid) {
            assert(start.allocation.contains_key(tid));
            let mut s: usize = 0;
            while s < row.len()
                invariant
                    row@ == start.row(tid),
                    self.available.len() == row.len() == start.available.len(),
                    s <= row.len(),
                    self@.allocation == start.allocation.remove(tid),
                    self.waiting@ == start.waiting,
                    forall|q: int|
                        0 <= q < start.available.len() ==> isize::MIN <= #[trigger] start.returned(
                            tid,
                            q,
                        ) <= isize::MAX,
                    forall|q: int|
                        0 <= q < start.available.len() ==> #[trigger] self.available[q] == if q
                            < s {
                            start.returned(tid, q)
                        } else {
                            start.available[q] as int
                        },
                decreases row.len() - s,
            {
                let count = row[s];
                proof {
                    signed::lemma_signed_cast(count);
                    assert(isize::MIN <= start.returned(tid, s as int) <= isize::MAX);
                }
                if count > 0 {
                    self.available[s] = self.available[s] + count as isize;
                }
                s = s + 1;
            }
        }
        self.waiting.remove(&tid);
        assert(self@.available =~= start.without_thread(tid).available);
        assert(self@.allocation =~= start.without_thread(tid).allocation);
    }
}

/// Whether every entry is zero.
fn is_all_zero(row: &Vec<usize>) -> (b: bool)
    ensures
        b == all_zero(row@),
{
    let mut s: usize = 0;
    while s < row.len()
        invariant
            s <= row.len(),
            forall|q: int| 0 <= q < s ==> #[trigger] row[q] == 0,
        decreases row.len() - s,
    {
        if row[s] != 0 {
            return false;
        }
        s = s + 1;
    }
    true
}

/// Whether each request is for nothing or for at most the units at hand.
fn request_is_met(request: &Vec<usize>, work: &Vec<isize>) -> (met: bool)
    requires
        request.len() == work.len(),
        forall|s: int| 0 <= s < request.len() ==> #[trigger] request[s] <= 2,
    ensures
        met <==> forall|s: int|
            0 <= s < request.len() ==> #[trigger] request[s] == 0 || request[s] <= work[s],
{
    let mut s: usize = 0;
    while s < request.len()
        invariant
            request.len() == work.len(),
            forall|s: int| 0 <= s < request.len() ==> #[trigger] request[s] <= 2,
            s <= request.len(),
            forall|q: int| 0 <= q < s ==> #[trigger] request[q] == 0 || request[q] <= work[q],
        decreases request.len() - s,
    {
        if request[s] != 0 && (request[s] as isize) > work[s] {
            return false;
        }
        s = s + 1;
    }
    true
}

/// Adds `row` to `work`, entry by entry.
fn add_row(work: &mut Vec<isize>, row: &Vec<usize>)
    requires
        old(work).len() == row.len(),
        forall|s: int|
            0 <= s < row.len() ==> #[trigger] row[s] <= isize::MAX && old(work)[s] + row[s]
                <= isize::MAX,
    ensures
        final(work).len() == old(work).len(),
        forall|s: int|
            0 <= s < row.len() ==> #[trigger] final(work)[s] == old(work)[s] + row[s],
{
    let mut s: usize = 0;
    while s < row.len()
        invariant
            s <= row.len(),
            work.len() == old(work).len() == row.len(),
            forall|s: int|
                0 <= s < row.len() ==> #[trigger] row[s] <= isize::MAX && old(work)[s] + row[s]
                    <= isize::MAX,
            forall|q: int|
                0 <= q < row.len() ==> #[trigger] work[q] == if q < s {
                    old(work)[q] + row[q]
                } else {
                    old(work)[q] as int
                },
        decreases row.len() - s,
    {
        assert(row[s as int] <= isize::MAX);
        work[s] = work[s] + row[s] as isize;
        s = s + 1;
    }
}

/// The threads and semaphores make up tables of claims.
pub proof fn lemma_claims_wf(m: SemaphoreModel, tid: usize, sem_id: usize)
    requires
        m.wf(),
    ensures
        m.claims(tid, sem_id).wf(),
        m.claims(tid, sem_id).claimants() == m.threads(tid),
{
    let c = m.claims(tid, sem_id);
    assert(c.held.dom() =~= m.threads(tid));
    assert(c.wanted.dom() =~= m.threads(tid));
}

/// No more threads finish than there are.
proof fn lemma_done_bounded(c: Claims, tids: Seq<usize>, done: Set<usize>)
    requires
        tids.no_duplicates(),
        tids.to_set() == c.claimants(),
        done.subset_of(c.can_finish()),
    ensures
        done.finite(),
        done.len() <= tids.len(),
{
    tids.unique_seq_to_set();
    assert(done.subset_of(c.claimants()));
    vstd::set_lib::lemma_len_subset(done, c.claimants());
}

/// What a thread that can finish gives back can be counted.
proof fn lemma_return_fits(
    m: SemaphoreModel,
    tid: usize,
    sem_id: usize,
    done: Set<usize>,
    id: usize,
    s: int,
)
    requires
        m.wf(),
        m.returns_fit(tid, sem_id),
        sem_id < m.available.len(),
        done.finite(),
        done.subset_of(m.claims(tid, sem_id).can_finish()),
        m.claims(tid, sem_id).can_finish().contains(id),
        !done.contains(id),
        0 <= s < m.available.len(),
    ensures
        0 <= m.holding(id, s) <= isize::MAX,
        m.claims(tid, sem_id).at_hand(done.insert(id), s) == m.claims(tid, sem_id).at_hand(done, s)
            + m.holding(id, s),
        isize::MIN <= m.claims(tid, sem_id).at_hand(done.insert(id), s) <= isize::MAX,
{
    let c = m.claims(tid, sem_id);
    lemma_claims_wf(m, tid, sem_id);
    claims::lemma_total_insert(c.held, done, id, s);
    claims::lemma_total_monotone(c, done.insert(id), c.can_finish(), s);
    assert(c.at_hand(c.can_finish(), s) <= isize::MAX);
    assert(m.holding(id, s) <= isize::MAX);
}

} // verus!
