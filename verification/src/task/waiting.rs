//! Who waits for what.

use std::collections::BTreeMap;
use vstd::prelude::*;

verus! {

/// The waits of `waiting` for anything but `id`.
pub open spec fn waits_except(waiting: Map<usize, usize>, id: usize) -> Map<usize, usize> {
    Map::new(|t: usize| waiting.contains_key(t) && waiting[t] != id, |t: usize| waiting[t])
}

/// Copies the waits for anything but `id`.
pub fn drop_waits_for(waiting: &BTreeMap<usize, usize>, id: usize) -> (kept: BTreeMap<usize, usize>)
    ensures
        kept@ == waits_except(waiting@, id),
{
    let mut kept: BTreeMap<usize, usize> = BTreeMap::new();
    for entry in it: waiting.iter()
        invariant
            forall|t: usize| #[trigger]
                kept@.contains_key(t) <==> waiting@[t] != id && exists|i: int|
                    0 <= i < it.index() && *(#[trigger] it.seq()[i]).0 == t,
            forall|t: usize| #[trigger] kept@.contains_key(t) ==> kept@[t] == waiting@[t],
    {
        let (tid, target) = entry;
        if *target != id {
            kept.insert(*tid, *target);
        }
    }
    assert(kept@ =~= waits_except(waiting@, id));
    kept
}

} // verus!
