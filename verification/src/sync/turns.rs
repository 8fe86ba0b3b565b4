//! Claimants that run one after the other.
//!
//! The first of them runs on the free units, and each later one also on what those before it
//! have given back. Who is deadlocked is whoever is part of no such order.

use crate::sync::claims;
use crate::sync::claims::Claims;
use vstd::prelude::*;

verus! {

/// The units of kind `r` that the claimants of `order` give back together.
pub open spec fn given_back(held: Map<usize, Seq<int>>, order: Seq<usize>, r: int) -> int
    decreases order.len(),
{
    if order.len() == 0 {
        0
    } else {
        given_back(held, order.drop_last(), r) + held[order.last()][r]
    }
}

/// Whether the claimants of `order`, each named once, can run in this order: each gets what it
/// asks for out of the free units and what those before it gave back.
pub open spec fn run_in_turn(c: Claims, order: Seq<usize>) -> bool {
    &&& order.no_duplicates()
    &&& forall|i: int| 0 <= i < order.len() ==> c.held.contains_key(#[trigger] order[i])
    &&& forall|i: int, r: int|
        0 <= i < order.len() && 0 <= r < c.available.len() ==> {
            ||| #[trigger] c.wanted[order[i]][r] <= 0
            ||| c.wanted[order[i]][r] <= c.available[r] + given_back(c.held, order.take(i), r)
        }
}

/// What is given back in turn is what the claimants hold together.
proof fn lemma_given_back(held: Map<usize, Seq<int>>, order: Seq<usize>, r: int)
    requires
        order.no_duplicates(),
    ensures
        given_back(held, order, r) == claims::total_held(held, order.to_set(), r),
    decreases order.len(),
{
    if order.len() == 0 {
        assert(order.to_set() =~= Set::empty());
    } else {
        let before = order.drop_last();
        let x = order.last();
        lemma_given_back(held, before, r);
        before.unique_seq_to_set();
        assert(!before.contains(x));
        assert(order.to_set() =~= before.to_set().insert(x)) by {
            assert(order =~= before.push(x));
            assert forall|y: usize| before.to_set().insert(x).contains(y) implies order.contains(
                y,
            ) by {
                if y == x {
                    assert(order[order.len() - 1] == y);
                } else {
                    let i = choose|i: int| 0 <= i < before.len() && before[i] == y;
                    assert(order[i] == y);
                }
            }
            assert forall|y: usize| order.contains(y) implies before.to_set().insert(x).contains(
                y,
            ) by {
                let i = choose|i: int| 0 <= i < order.len() && order[i] == y;
                if i < before.len() {
                    assert(before[i] == y);
                }
            }
        }
        claims::lemma_total_insert(held, before.to_set(), x, r);
    }
}

/// The start of an order without repetitions has none either.
proof fn lemma_take_unique(order: Seq<usize>, n: int)
    requires
        order.no_duplicates(),
        0 <= n <= order.len(),
    ensures
        order.take(n).no_duplicates(),
{
}

/// Those who run in turn can finish.
proof fn lemma_runs_can_finish(c: Claims, order: Seq<usize>, n: int)
    requires
        c.wf(),
        run_in_turn(c, order),
        0 <= n <= order.len(),
    ensures
        order.take(n).to_set().subset_of(c.can_finish()),
    decreases n,
{
    if n > 0 {
        let i = n - 1;
        lemma_runs_can_finish(c, order, i);
        lemma_take_unique(order, i);
        let done = order.take(i).to_set();
        let p = order[i];
        assert(c.held.contains_key(p));
        assert forall|r: int| 0 <= r < c.available.len() implies #[trigger] c.kind_served(
            p,
            done,
            r,
        ) by {
            lemma_given_back(c.held, order.take(i), r);
            assert(c.wanted[order[i]][r] == c.wanted[p][r]);
        }
        claims::lemma_served_can_finish(c, p, done);
        assert forall|q: usize| order.take(n).to_set().contains(q) implies c.can_finish().contains(
            q,
        ) by {
            let k = choose|k: int| 0 <= k < n && order.take(n)[k] == q;
            if k < i {
                assert(order.take(i)[k] == q);
                assert(done.contains(q));
            }
        }
    }
}

/// A claimant that is served after those of an order can run after them.
proof fn lemma_one_more(c: Claims, order: Seq<usize>, q: usize) -> (next: Seq<usize>)
    requires
        c.wf(),
        run_in_turn(c, order),
        c.claimants().contains(q),
        !order.to_set().contains(q),
        c.served(q, order.to_set()),
    ensures
        run_in_turn(c, next),
        next.len() == order.len() + 1,
        next.len() <= c.claimants().len(),
{
    let next = order.push(q);
    assert(next.no_duplicates()) by {
        assert(!order.contains(q));
    }
    assert forall|i: int, r: int| 0 <= i < next.len() && 0 <= r < c.available.len() implies {
        ||| #[trigger] c.wanted[next[i]][r] <= 0
        ||| c.wanted[next[i]][r] <= c.available[r] + given_back(c.held, next.take(i), r)
    } by {
        if i < order.len() {
            assert(next.take(i) =~= order.take(i));
            assert(c.wanted[order[i]][r] == c.wanted[next[i]][r]);
        } else {
            assert(next.take(i) =~= order);
            lemma_given_back(c.held, order, r);
            assert(c.kind_served(q, order.to_set(), r));
        }
    }
    next.unique_seq_to_set();
    assert(next.to_set().subset_of(c.claimants())) by {
        assert forall|x: usize| next.to_set().contains(x) implies c.claimants().contains(x) by {
            let i = choose|i: int| 0 <= i < next.len() && next[i] == x;
            if i < order.len() {
                assert(c.held.contains_key(order[i]));
            }
        }
    }
    vstd::set_lib::lemma_len_subset(next.to_set(), c.claimants());
    next
}

/// Extends an order of claimants that run in turn until `p`, which can finish, is among them.
proof fn lemma_reach(c: Claims, order: Seq<usize>, p: usize) -> (longer: Seq<usize>)
    requires
        c.wf(),
        run_in_turn(c, order),
        c.can_finish().contains(p),
    ensures
        run_in_turn(c, longer),
        longer.contains(p),
    decreases c.claimants().len() - order.len(),
{
    let done = order.to_set();
    if order.contains(p) {
        order
    } else {
        lemma_runs_can_finish(c, order, order.len() as int);
        assert(order.take(order.len() as int) =~= order);
        if forall|q: usize|
            #![trigger c.claimants().contains(q)]
            c.claimants().contains(q) && !done.contains(q) ==> !c.served(q, done) {
            claims::lemma_exhausted(c, done);
            assert(done.contains(p));
            order
        } else {
            let q = choose|q: usize|
                #![trigger c.claimants().contains(q)]
                c.claimants().contains(q) && !done.contains(q) && c.served(q, done);
            let next = lemma_one_more(c, order, q);
            lemma_reach(c, next, p)
        }
    }
}

/// Extends an order to all claimants, where none is deadlocked.
proof fn lemma_reach_all(c: Claims, order: Seq<usize>) -> (longer: Seq<usize>)
    requires
        c.wf(),
        run_in_turn(c, order),
        !c.has_deadlock(),
    ensures
        run_in_turn(c, longer),
        forall|p: usize| c.held.contains_key(p) ==> #[trigger] longer.contains(p),
    decreases c.claimants().len() - order.len(),
{
    if forall|p: usize| c.held.contains_key(p) ==> #[trigger] order.contains(p) {
        order
    } else {
        let p = choose|p: usize| c.held.contains_key(p) && !#[trigger] order.contains(p);
        assert(!c.deadlocked(p));
        let done = order.to_set();
        lemma_runs_can_finish(c, order, order.len() as int);
        assert(order.take(order.len() as int) =~= order);
        assert(exists|q: usize|
            #![trigger c.claimants().contains(q)]
            c.claimants().contains(q) && !done.contains(q) && c.served(q, done)) by {
            if forall|q: usize|
                #![trigger c.claimants().contains(q)]
                c.claimants().contains(q) && !done.contains(q) ==> !c.served(q, done) {
                claims::lemma_exhausted(c, done);
                assert(c.can_finish().contains(p));
                assert(done.contains(p));
            }
        }
        let q = choose|q: usize|
            #![trigger c.claimants().contains(q)]
            c.claimants().contains(q) && !done.contains(q) && c.served(q, done);
        let next = lemma_one_more(c, order, q);
        lemma_reach_all(c, next)
    }
}

/// A claimant is deadlocked exactly where it is part of no order in which claimants can run in
/// turn.
pub proof fn law_deadlocked_iff_never_runs(c: Claims, p: usize)
    requires
        c.wf(),
    ensures
        c.deadlocked(p) <==> c.held.contains_key(p) && forall|order: Seq<usize>| #[trigger]
            run_in_turn(c, order) ==> !order.contains(p),
{
    if c.deadlocked(p) {
        let d = choose|d: Set<usize>| #[trigger] c.stuck(d) && d.contains(p);
        assert(c.claimants().contains(p));
        assert forall|order: Seq<usize>| #[trigger] run_in_turn(c, order) implies !order.contains(
            p,
        ) by {
            lemma_runs_can_finish(c, order, order.len() as int);
            assert(order.take(order.len() as int) =~= order);
            if order.contains(p) {
                assert(order.to_set().contains(p));
                assert(c.can_finish().contains(p));
            }
        }
    } else if c.held.contains_key(p) {
        assert(c.can_finish().contains(p));
        let none: Seq<usize> = Seq::empty();
        assert(run_in_turn(c, none));
        let order = lemma_reach(c, none, p);
        assert(run_in_turn(c, order));
    }
}

/// Nobody is deadlocked exactly where all claimants can run in turn.
pub proof fn law_deadlock_free_iff_all_run(c: Claims)
    requires
        c.wf(),
    ensures
        !c.has_deadlock() <==> exists|order: Seq<usize>| #[trigger]
            run_in_turn(c, order) && forall|p: usize|
                c.held.contains_key(p) ==> #[trigger] order.contains(p),
{
    if !c.has_deadlock() {
        let none: Seq<usize> = Seq::empty();
        assert(run_in_turn(c, none));
        let order = lemma_reach_all(c, none);
        assert(run_in_turn(c, order));
    } else {
        let p = choose|p: usize| #[trigger] c.deadlocked(p);
        law_deadlocked_iff_never_runs(c, p);
    }
}

} // verus!
