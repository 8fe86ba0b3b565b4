//! Identifiers of processes and threads.

use vstd::prelude::*;

verus! {

/// The identifier of a process.
#[derive(Clone, Copy, Debug, PartialEq, Eq, Structural)]
pub struct PidHandle(pub usize);

/// What a [`RecycleAllocator`] records: every identifier from `next` on was never handed out, and
/// those in `free` were handed out and came back, the latest last.
#[verifier::ext_equal]
pub struct IdModel {
    pub next: nat,
    pub free: Seq<usize>,
}

impl IdModel {
    /// No identifier was handed out.
    pub open spec fn empty() -> IdModel {
        IdModel { next: 0, free: Seq::empty() }
    }

    /// Only identifiers that were handed out came back, each once.
    pub open spec fn wf(self) -> bool {
        &&& self.next <= usize::MAX
        &&& self.free.no_duplicates()
        &&& forall|i: int| 0 <= i < self.free.len() ==> #[trigger] self.free[i] < self.next
    }

    /// The identifier is in use.
    pub open spec fn live(self, id: usize) -> bool {
        id < self.next && !self.free.contains(id)
    }

    /// There is an identifier to hand out.
    pub open spec fn has_room(self) -> bool {
        self.free.len() > 0 || self.next < usize::MAX
    }

    /// The identifier that is handed out next: the one that came back last, or else a new one.
    pub open spec fn allocated_id(self) -> usize {
        if self.free.len() > 0 {
            self.free.last()
        } else {
            self.next as usize
        }
    }

    /// The record once [`IdModel::allocated_id`] is handed out.
    pub open spec fn allocated(self) -> IdModel {
        if self.free.len() > 0 {
            IdModel { free: self.free.drop_last(), ..self }
        } else {
            IdModel { next: self.next + 1, ..self }
        }
    }

    /// The record once `id` came back.
    pub open spec fn freed(self, id: usize) -> IdModel {
        IdModel { free: self.free.push(id), ..self }
    }
}

/// Hands out identifiers, and hands those that came back out again.
#[derive(Debug)]
pub struct RecycleAllocator {
    current: usize,
    recycled: Vec<usize>,
}

impl View for RecycleAllocator {
    type V = IdModel;

    closed spec fn view(&self) -> IdModel {
        IdModel { next: self.current as nat, free: self.recycled@ }
    }
}

impl RecycleAllocator {
    /// An allocator that has handed out nothing.
    pub fn new() -> (a: Self)
        ensures
            a@ == IdModel::empty(),
            a@.wf(),
    {
        RecycleAllocator { current: 0, recycled: Vec::new() }
    }

    /// Hand out an identifier.
    pub fn alloc_id(&mut self) -> (id: usize)
        requires
            old(self)@.wf(),
            old(self)@.has_room(),
        ensures
            id == old(self)@.allocated_id(),
            final(self)@ == old(self)@.allocated(),
            final(self)@.wf(),
    {
        match self.recycled.pop() {
            Some(id) => id,
            None => {
                self.current = self.current + 1;
                self.current - 1
            },
        }
    }

    /// Take an identifier back.
    pub fn dealloc_id(&mut self, id: usize)
        requires
            old(self)@.wf(),
            old(self)@.live(id),
        ensures
            final(self)@ == old(self)@.freed(id),
            final(self)@.wf(),
    {
        self.recycled.push(id);
    }
}

/// An identifier that is handed out was not in use, and is from then on; the others stay as they
/// were.
pub proof fn law_alloc_gives_unused(m: IdModel)
    requires
        m.wf(),
        m.has_room(),
    ensures
        !m.live(m.allocated_id()),
        m.allocated().live(m.allocated_id()),
        forall|id: usize|
            id != m.allocated_id() ==> #[trigger] m.allocated().live(id) == m.live(id),
{
    if m.free.len() > 0 {
        let rest = m.free.drop_last();
        assert(m.free.contains(m.free.last())) by {
            assert(m.free[m.free.len() - 1] == m.free.last());
        }
        assert forall|id: usize| id != m.free.last() implies rest.contains(id) == m.free.contains(
            id,
        ) by {
            if m.free.contains(id) {
                let k = choose|k: int| 0 <= k < m.free.len() && m.free[k] == id;
                assert(rest[k] == id);
            }
            if rest.contains(id) {
                let k = choose|k: int| 0 <= k < rest.len() && rest[k] == id;
                assert(m.free[k] == id);
            }
        }
    }
}

/// An identifier that comes back is no longer in use; the others stay as they were.
pub proof fn law_dealloc_ends_use(m: IdModel, id: usize)
    requires
        m.wf(),
        m.live(id),
    ensures
        !m.freed(id).live(id),
        forall|other: usize| other != id ==> #[trigger] m.freed(id).live(other) == m.live(other),
{
    let free = m.free.push(id);
    assert(free[m.free.len() as int] == id);
    assert forall|other: usize| other != id implies free.contains(other) == m.free.contains(
        other,
    ) by {
        if m.free.contains(other) {
            let k = choose|k: int| 0 <= k < m.free.len() && m.free[k] == other;
            assert(free[k] == other);
        }
    }
}

/// The identifier that came back last is handed out next, and handing it out undoes its return.
pub proof fn law_alloc_undoes_dealloc(m: IdModel, id: usize)
    requires
        m.wf(),
        m.live(id),
    ensures
        m.freed(id).has_room(),
        m.freed(id).allocated_id() == id,
        m.freed(id).allocated() == m,
{
    assert(m.free.push(id).drop_last() =~= m.free);
}

/// An identifier that is handed out is the one that came back last, or else the first that was
/// never handed out. After that it is gone from those that can be handed out.
pub proof fn law_alloc_id(a: &mut RecycleAllocator, id: usize)
    requires
        old(a)@.wf(),
        old(a)@.free.len() > 0 || old(a)@.next < usize::MAX,
        call_ensures(RecycleAllocator::alloc_id, (a,), id),
    ensures
        old(a)@.free.len() > 0 ==> {
            &&& id == old(a)@.free[old(a)@.free.len() - 1]
            &&& final(a)@.free.push(id) == old(a)@.free
            &&& final(a)@.next == old(a)@.next
        },
        old(a)@.free.len() == 0 ==> {
            &&& id == old(a)@.next
            &&& final(a)@.next == old(a)@.next + 1
            &&& final(a)@.free.len() == 0
        },
        !final(a)@.free.contains(id),
        id < final(a)@.next,
{
    if old(a)@.free.len() > 0 {
        let free = old(a)@.free;
        assert(free.drop_last().push(free.last()) =~= free);
        if free.drop_last().contains(id) {
            let i = choose|i: int| 0 <= i < free.drop_last().len() && free.drop_last()[i] == id;
            assert(free[i] == free[free.len() - 1]);
        }
    }
}

/// An identifier that comes back is the next to be handed out, and nothing else changes.
pub proof fn law_dealloc_id(
    a: &mut RecycleAllocator,
    b: &mut RecycleAllocator,
    id: usize,
    again: usize,
)
    requires
        old(a)@.wf(),
        id < old(a)@.next,
        !old(a)@.free.contains(id),
        call_ensures(RecycleAllocator::dealloc_id, (a, id), ()),
        *old(b) == *final(a),
        call_ensures(RecycleAllocator::alloc_id, (b,), again),
    ensures
        final(a)@.free == old(a)@.free.push(id),
        final(a)@.next == old(a)@.next,
        again == id,
        final(b)@ == old(a)@,
{
    assert(old(a)@.free.push(id).drop_last() =~= old(a)@.free);
}

/// Two identifiers that are handed out one after the other differ.
pub proof fn law_two_ids_differ(
    a: &mut RecycleAllocator,
    b: &mut RecycleAllocator,
    first: usize,
    second: usize,
)
    requires
        old(a)@.wf(),
        old(a)@.next < usize::MAX,
        call_ensures(RecycleAllocator::alloc_id, (a,), first),
        *old(b) == *final(a),
        call_ensures(RecycleAllocator::alloc_id, (b,), second),
    ensures
        first != second,
{
    law_alloc_id(a, first);
    let free = final(a)@.free;
    if free.len() > 0 {
        assert(free[free.len() - 1] == second);
        assert(free.contains(second));
    }
}

/// A new allocator has handed nothing out.
pub proof fn law_new_allocator(a: RecycleAllocator)
    requires
        call_ensures(RecycleAllocator::new, (), a),
    ensures
        a@.next == 0,
        a@.free.len() == 0,
{
}

} // verus!
