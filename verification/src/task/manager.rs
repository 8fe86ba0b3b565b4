//! Implementation of [`TaskManager`].

use crate::task::control::TaskControlBlock;
use vstd::prelude::*;

verus! {

/// `a` is to run before `b`: it has run less far, or as far and its process has the lower pid.
pub open spec fn precedes(a: TaskControlBlock, b: TaskControlBlock) -> bool {
    a.stride < b.stride || (a.stride == b.stride && a.pid < b.pid)
}

/// The thread at `k` is the one to run next: none is to run before it, and of those that nothing
/// precedes it has waited longest.
pub open spec fn is_next(queue: Seq<TaskControlBlock>, k: int) -> bool {
    &&& 0 <= k < queue.len()
    &&& forall|j: int| 0 <= j < queue.len() ==> !precedes(#[trigger] queue[j], queue[k])
    &&& forall|j: int| 0 <= j < k ==> precedes(queue[k], #[trigger] queue[j])
}

/// The threads that are ready to run, in the order in which they became so.
#[derive(Debug)]
pub struct TaskManager {
    ready_queue: Vec<TaskControlBlock>,
}

impl View for TaskManager {
    type V = Seq<TaskControlBlock>;

    closed spec fn view(&self) -> Seq<TaskControlBlock> {
        self.ready_queue@
    }
}

/// Stride-based scheduler.
impl TaskManager {
    /// A manager with no ready thread.
    pub fn new() -> (m: Self)
        ensures
            m@ == Seq::<TaskControlBlock>::empty(),
    {
        TaskManager { ready_queue: Vec::new() }
    }

    /// Add a thread to the ready queue.
    pub fn add(&mut self, task: TaskControlBlock)
        ensures
            final(self)@ == old(self)@.push(task),
    {
        self.ready_queue.push(task);
    }

    /// Take the thread that is to run next out of the ready queue.
    pub fn fetch(&mut self) -> (task: Option<TaskControlBlock>)
        ensures
            task is None <==> old(self)@.len() == 0,
            task is None ==> final(self)@ == old(self)@,
            task is Some ==> exists|k: int|
                #![trigger old(self)@[k]]
                is_next(old(self)@, k) && task == Some(old(self)@[k]) && final(self)@ == old(
                    self,
                )@.remove(k),
    {
        if self.ready_queue.is_empty() {
            return None;
        }
        let mut best_idx: usize = 0;
        let mut best_stride: usize = self.ready_queue[0].stride_value();
        let mut idx: usize = 1;
        while idx < self.ready_queue.len()
            invariant
                1 <= idx <= self.ready_queue.len(),
                best_idx < idx,
                best_stride == self.ready_queue[best_idx as int].stride,
                is_next(self.ready_queue@.take(idx as int), best_idx as int),
            decreases self.ready_queue.len() - idx,
        {
            let ghost seen = self.ready_queue@.take(idx as int);
            let ghost more = self.ready_queue@.take(idx + 1);
            assert forall|j: int| 0 <= j < idx implies seen[j] == more[j] by {}
            let task = &self.ready_queue[idx];
            let stride = task.stride_value();
            if stride < best_stride || (stride == best_stride && task.getpid()
                < self.ready_queue[best_idx].getpid()) {
                best_idx = idx;
                best_stride = stride;
            }
            idx = idx + 1;
        }
        assert(self.ready_queue@.take(idx as int) =~= self.ready_queue@);
        let task = self.ready_queue.remove(best_idx);
        assert(old(self)@[best_idx as int] == task);
        Some(task)
    }
}

/// Only one thread is to run next.
pub proof fn law_next_is_unique(queue: Seq<TaskControlBlock>, k: int, l: int)
    requires
        is_next(queue, k),
        is_next(queue, l),
    ensures
        k == l,
{
    if k < l {
        assert(precedes(queue[l], queue[k]));
    }
    if l < k {
        assert(precedes(queue[k], queue[l]));
    }
}

/// A thread that is taken out is the only one to leave: with it the queue holds what it held.
pub proof fn law_fetch_loses_nothing(queue: Seq<TaskControlBlock>, k: int)
    requires
        is_next(queue, k),
    ensures
        queue.remove(k).to_multiset().insert(queue[k]) =~= queue.to_multiset(),
{
    vstd::seq_lib::to_multiset_remove(queue, k);
    broadcast use vstd::seq_lib::group_to_multiset_ensures;

    assert(queue.contains(queue[k]));
}

/// Threads leave the queue in the order in which they are to run: one that is taken out does not
/// precede the one that was taken out before it.
pub proof fn law_fetches_in_order(queue: Seq<TaskControlBlock>, k: int, l: int)
    requires
        is_next(queue, k),
        is_next(queue.remove(k), l),
    ensures
        !precedes(queue.remove(k)[l], queue[k]),
{
    let j = if l < k {
        l
    } else {
        l + 1
    };
    assert(queue.remove(k)[l] == queue[j]);
}

/// Of two threads of one process that have run equally far, the one that became ready first
/// leaves first.
pub proof fn law_equals_leave_in_turn(queue: Seq<TaskControlBlock>, i: int, j: int)
    requires
        0 <= i < j < queue.len(),
        queue[i].stride == queue[j].stride,
        queue[i].pid == queue[j].pid,
    ensures
        !is_next(queue, j),
{
    assert(!precedes(queue[j], queue[i]));
}

/// A thread that is added comes last, and the others keep their places. A new queue is empty.
pub proof fn law_add(m: &mut TaskManager, task: TaskControlBlock, fresh: TaskManager)
    requires
        call_ensures(TaskManager::add, (m, task), ()),
        call_ensures(TaskManager::new, (), fresh),
    ensures
        final(m)@.len() == old(m)@.len() + 1,
        final(m)@[old(m)@.len() as int] == task,
        forall|i: int| 0 <= i < old(m)@.len() ==> #[trigger] final(m)@[i] == old(m)@[i],
        fresh@.len() == 0,
{
}

/// A thread is taken out exactly where there is one. It has the least stride, and among those with
/// that stride the least pid of its process, and among those with both it came first. The others
/// keep their order.
pub proof fn law_fetch(m: &mut TaskManager, task: Option<TaskControlBlock>)
    requires
        call_ensures(TaskManager::fetch, (m,), task),
    ensures
        task is None <==> old(m)@.len() == 0,
        task is None ==> final(m)@ == old(m)@,
        task matches Some(t) ==> exists|k: int|
            0 <= k < old(m)@.len() && t == #[trigger] old(m)@[k] && final(m)@ == old(m)@.take(k)
                + old(m)@.skip(k + 1) && forall|j: int|
                0 <= j < old(m)@.len() ==> {
                    let other = #[trigger] old(m)@[j];
                    &&& t.stride <= other.stride
                    &&& t.stride == other.stride ==> t.pid <= other.pid
                    &&& t.stride == other.stride && t.pid == other.pid ==> k <= j
                },
{
    if let Some(t) = task {
        let queue = old(m)@;
        let k = choose|k: int|
            #![trigger queue[k]]
            is_next(queue, k) && task == Some(queue[k]) && final(m)@ == queue.remove(k);
        assert(queue.remove(k) =~= queue.take(k) + queue.skip(k + 1));
        assert forall|j: int| 0 <= j < queue.len() implies {
            let other = #[trigger] queue[j];
            &&& t.stride <= other.stride
            &&& t.stride == other.stride ==> t.pid <= other.pid
            &&& t.stride == other.stride && t.pid == other.pid ==> k <= j
        } by {
            assert(!precedes(queue[j], queue[k]));
        }
        assert(t == queue[k]);
    }
}

} // verus!
