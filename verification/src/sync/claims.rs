//! When a set of claimants can no longer all finish.
//!
//! A claimant holds units of several kinds of resources and asks for more. A claimant whose
//! whole request can be served runs to its end and gives back what it holds. The claimants
//! that no order of service can ever satisfy are the deadlocked ones.

use vstd::prelude::*;

verus! {

/// Units that are free, held and asked for. Every row of `held` and of `wanted` has one entry
/// for each kind of resource in `available`.
#[verifier::ext_equal]
pub struct Claims {
    /// Free units of each kind.
    pub available: Seq<int>,
    /// Units of each kind that a claimant holds.
    pub held: Map<usize, Seq<int>>,
    /// Units of each kind that a claimant still asks for.
    pub wanted: Map<usize, Seq<int>>,
}

/// The units of kind `r` that the members of `s` hold together.
pub open spec fn total_held(held: Map<usize, Seq<int>>, s: Set<usize>, r: int) -> int
    decreases s.len(),
{
    if s.finite() && s.len() > 0 {
        let x = s.choose();
        held[x][r] + total_held(held, s.remove(x), r)
    } else {
        0
    }
}

impl Claims {
    /// The claimants.
    pub open spec fn claimants(self) -> Set<usize> {
        self.held.dom()
    }

    /// The shape of the tables: finitely many claimants, one entry per kind, nothing negative
    /// held.
    pub open spec fn wf(self) -> bool {
        &&& self.held.dom().finite()
        &&& self.wanted.dom() == self.held.dom()
        &&& forall|p: usize, r: int|
            #![trigger self.held[p][r]]
            self.held.contains_key(p) && 0 <= r < self.available.len() ==> self.held[p][r] >= 0
    }

    /// The units of kind `r` at hand once every member of `done` has given back what it holds.
    pub open spec fn at_hand(self, done: Set<usize>, r: int) -> int {
        self.available[r] + total_held(self.held, done, r)
    }

    /// Whether the request of `p` for kind `r` can be served once `done` has finished. Asking
    /// for nothing is always served, even where the count of free units is negative.
    pub open spec fn kind_served(self, p: usize, done: Set<usize>, r: int) -> bool {
        self.wanted[p][r] <= 0 || self.wanted[p][r] <= self.at_hand(done, r)
    }

    /// Whether the whole request of `p` can be served once `done` has finished.
    pub open spec fn served(self, p: usize, done: Set<usize>) -> bool {
        forall|r: int|
            0 <= r < self.available.len() ==> #[trigger] self.kind_served(p, done, r)
    }

    /// The members of `d` wait for each other: none of them is served even after every claimant
    /// outside `d` has finished.
    pub open spec fn stuck(self, d: Set<usize>) -> bool {
        &&& d.subset_of(self.claimants())
        &&& forall|p: usize| #[trigger]
            d.contains(p) ==> !self.served(p, self.claimants().difference(d))
    }

    /// Whether `p` is one of a group of claimants that wait for each other.
    pub open spec fn deadlocked(self, p: usize) -> bool {
        exists|d: Set<usize>| #[trigger] self.stuck(d) && d.contains(p)
    }

    /// The claimants that are not deadlocked.
    pub open spec fn can_finish(self) -> Set<usize> {
        Set::new(|p: usize| self.claimants().contains(p) && !self.deadlocked(p))
    }

    /// Whether some claimant is deadlocked.
    pub open spec fn has_deadlock(self) -> bool {
        exists|p: usize| #[trigger] self.deadlocked(p)
    }

    /// Whether `order` names every claimant once, and each one is served after those before it
    /// have finished.
    pub open spec fn completion_order(self, order: Seq<usize>) -> bool {
        &&& order.no_duplicates()
        &&& order.to_set() == self.claimants()
        &&& forall|i: int|
            0 <= i < order.len() ==> #[trigger] self.served(order[i], order.take(i).to_set())
    }
}

/// The holdings of `s` are those of `x` and of the rest.
pub proof fn lemma_total_remove(held: Map<usize, Seq<int>>, s: Set<usize>, x: usize, r: int)
    requires
        s.finite(),
        s.contains(x),
    ensures
        total_held(held, s, r) == held[x][r] + total_held(held, s.remove(x), r),
    decreases s.len(),
{
    let y = s.choose();
    assert(s.contains(y));
    if x != y {
        lemma_total_remove(held, s.remove(y), x, r);
        lemma_total_remove(held, s.remove(x), y, r);
        assert(s.remove(x).remove(y) =~= s.remove(y).remove(x));
    }
}

/// A new member adds what it holds.
pub proof fn lemma_total_insert(held: Map<usize, Seq<int>>, s: Set<usize>, x: usize, r: int)
    requires
        s.finite(),
        !s.contains(x),
    ensures
        total_held(held, s.insert(x), r) == held[x][r] + total_held(held, s, r),
{
    lemma_total_remove(held, s.insert(x), x, r);
    assert(s.insert(x).remove(x) =~= s);
}

/// More members hold no less.
pub proof fn lemma_total_monotone(c: Claims, s: Set<usize>, t: Set<usize>, r: int)
    requires
        c.wf(),
        s.subset_of(t),
        t.subset_of(c.claimants()),
        0 <= r < c.available.len(),
    ensures
        0 <= total_held(c.held, s, r) <= total_held(c.held, t, r),
    decreases t.len(),
{
    vstd::set_lib::lemma_set_subset_finite(c.claimants(), t);
    vstd::set_lib::lemma_set_subset_finite(t, s);
    if t.len() > 0 {
        let y = t.choose();
        assert(t.contains(y));
        assert(c.held.contains_key(y));
        assert(c.held[y][r] >= 0);
        lemma_total_remove(c.held, t, y, r);
        if s.contains(y) {
            lemma_total_remove(c.held, s, y, r);
            lemma_total_monotone(c, s.remove(y), t.remove(y), r);
        } else {
            assert(s.subset_of(t.remove(y)));
            lemma_total_monotone(c, s, t.remove(y), r);
        }
    } else {
        assert(t =~= Set::empty());
        assert(s =~= Set::empty());
    }
}

/// Rows with smaller entries add up to less.
proof fn lemma_total_smaller(
    held: Map<usize, Seq<int>>,
    other: Map<usize, Seq<int>>,
    s: Set<usize>,
    r: int,
)
    requires
        forall|x: usize| #[trigger] s.contains(x) ==> held[x][r] <= other[x][r],
    ensures
        total_held(held, s, r) <= total_held(other, s, r),
    decreases s.len(),
{
    if s.finite() && s.len() > 0 {
        let x = s.choose();
        assert(s.contains(x));
        lemma_total_smaller(held, other, s.remove(x), r);
    }
}

/// Rows that agree add up alike.
pub proof fn lemma_total_same(
    held: Map<usize, Seq<int>>,
    other: Map<usize, Seq<int>>,
    s: Set<usize>,
    r: int,
)
    requires
        forall|x: usize| #[trigger] s.contains(x) ==> held[x][r] == other[x][r],
    ensures
        total_held(held, s, r) == total_held(other, s, r),
{
    lemma_total_smaller(held, other, s, r);
    lemma_total_smaller(other, held, s, r);
}

/// Members that hold nothing add nothing.
pub proof fn lemma_total_extend(held: Map<usize, Seq<int>>, s: Set<usize>, t: Set<usize>, r: int)
    requires
        t.finite(),
        s.subset_of(t),
        forall|x: usize| #[trigger] t.contains(x) && !s.contains(x) ==> held[x][r] == 0,
    ensures
        total_held(held, t, r) == total_held(held, s, r),
    decreases t.len(),
{
    if exists|x: usize| #[trigger] t.contains(x) && !s.contains(x) {
        let x = choose|x: usize| #[trigger] t.contains(x) && !s.contains(x);
        lemma_total_remove(held, t, x, r);
        lemma_total_extend(held, s, t.remove(x), r);
    } else {
        assert(s =~= t);
    }
}

/// Disjoint groups add up.
pub proof fn lemma_total_split(held: Map<usize, Seq<int>>, s: Set<usize>, d: Set<usize>, r: int)
    requires
        s.finite(),
        d.subset_of(s),
    ensures
        total_held(held, s, r) == total_held(held, d, r) + total_held(held, s.difference(d), r),
    decreases d.len(),
{
    vstd::set_lib::lemma_set_subset_finite(s, d);
    if d.len() > 0 {
        let x = d.choose();
        assert(d.contains(x));
        lemma_total_remove(held, s, x, r);
        lemma_total_remove(held, d, x, r);
        lemma_total_split(held, s.remove(x), d.remove(x), r);
        assert(s.remove(x).difference(d.remove(x)) =~= s.difference(d));
    } else {
        assert(d =~= Set::empty());
        assert(s.difference(d) =~= s);
    }
}

/// Who is served after `s` is served after any larger set.
pub proof fn lemma_served_monotone(c: Claims, p: usize, s: Set<usize>, t: Set<usize>)
    requires
        c.wf(),
        c.served(p, s),
        s.subset_of(t),
        t.subset_of(c.claimants()),
    ensures
        c.served(p, t),
{
    assert forall|r: int| 0 <= r < c.available.len() implies #[trigger] c.kind_served(
        p,
        t,
        r,
    ) by {
        assert(c.kind_served(p, s, r));
        lemma_total_monotone(c, s, t, r);
    }
}

/// A claimant that is served after claimants that can finish can finish too.
pub proof fn lemma_served_can_finish(c: Claims, p: usize, done: Set<usize>)
    requires
        c.wf(),
        c.claimants().contains(p),
        done.subset_of(c.can_finish()),
        c.served(p, done),
    ensures
        c.can_finish().contains(p),
{
    if c.deadlocked(p) {
        let d = choose|d: Set<usize>| #[trigger] c.stuck(d) && d.contains(p);
        let rest = c.claimants().difference(d);
        assert forall|q: usize| done.contains(q) implies rest.contains(q) by {
            assert(c.can_finish().contains(q));
            if d.contains(q) {
                assert(c.deadlocked(q));
            }
        }
        lemma_served_monotone(c, p, done, rest);
        assert(!c.served(p, rest));
    }
}

/// Where no claimant outside `done` is served after `done`, the claimants outside `done` are
/// the deadlocked ones.
pub proof fn lemma_exhausted(c: Claims, done: Set<usize>)
    requires
        c.wf(),
        done.subset_of(c.can_finish()),
        forall|p: usize|
            #![trigger c.claimants().contains(p)]
            c.claimants().contains(p) && !done.contains(p) ==> !c.served(p, done),
    ensures
        done == c.can_finish(),
        forall|p: usize|
            #![trigger c.deadlocked(p)]
            c.deadlocked(p) <==> c.claimants().contains(p) && !done.contains(p),
{
    let d = c.claimants().difference(done);
    assert(c.claimants().difference(d) =~= done);
    assert(c.stuck(d));
    assert forall|p: usize| c.claimants().contains(p) && !done.contains(p) implies c.deadlocked(
        p,
    ) by {
        assert(d.contains(p));
    }
    assert forall|p: usize| c.deadlocked(p) implies c.claimants().contains(p) && !done.contains(
        p,
    ) by {
        let e = choose|e: Set<usize>| #[trigger] c.stuck(e) && e.contains(p);
        assert(c.claimants().contains(p));
        if done.contains(p) {
            assert(c.can_finish().contains(p));
        }
    }
    assert(done =~= c.can_finish());
}

/// Extends an order in which all of `prefix` finish to one in which everybody does.
proof fn lemma_extend_order(c: Claims, prefix: Seq<usize>) -> (order: Seq<usize>)
    requires
        c.wf(),
        !c.has_deadlock(),
        prefix.no_duplicates(),
        prefix.to_set().subset_of(c.claimants()),
        forall|i: int|
            0 <= i < prefix.len() ==> #[trigger] c.served(prefix[i], prefix.take(i).to_set()),
    ensures
        c.completion_order(order),
    decreases c.claimants().len() - prefix.len(),
{
    let done = prefix.to_set();
    prefix.unique_seq_to_set();
    vstd::set_lib::lemma_len_subset(done, c.claimants());
    if done == c.claimants() {
        prefix
    } else {
        let d = c.claimants().difference(done);
        assert(c.claimants().difference(d) =~= done);
        assert(exists|p: usize| c.claimants().contains(p) && !done.contains(p)) by {
            if forall|p: usize| c.claimants().contains(p) ==> done.contains(p) {
                assert(done =~= c.claimants());
            }
        }
        assert(exists|p: usize| #[trigger] d.contains(p) && c.served(p, done)) by {
            let p = choose|p: usize| c.claimants().contains(p) && !done.contains(p);
            assert(d.contains(p));
            assert(!c.deadlocked(p));
            assert(!c.stuck(d));
        }
        let p = choose|p: usize| #[trigger] d.contains(p) && c.served(p, done);
        let next = prefix.push(p);
        assert(next.take(prefix.len() as int) =~= prefix);
        assert forall|i: int| 0 <= i < next.len() implies #[trigger] c.served(
            next[i],
            next.take(i).to_set(),
        ) by {
            if i < prefix.len() {
                assert(next.take(i) =~= prefix.take(i));
                assert(c.served(prefix[i], prefix.take(i).to_set()));
            }
        }
        assert forall|q: usize| next.to_set().contains(q) implies c.claimants().contains(q) by {
            if q != p {
                let i = choose|i: int| 0 <= i < next.len() && next[i] == q;
                assert(prefix[i] == q);
                assert(prefix.to_set().contains(q));
            }
        }
        assert(next.no_duplicates()) by {
            assert(!prefix.contains(p));
        }
        next.unique_seq_to_set();
        vstd::set_lib::lemma_len_subset(next.to_set(), c.claimants());
        lemma_extend_order(c, next)
    }
}

/// In the order of a completion nobody is part of a stuck group.
proof fn lemma_order_avoids_stuck(c: Claims, order: Seq<usize>, d: Set<usize>, n: int)
    requires
        c.wf(),
        c.completion_order(order),
        c.stuck(d),
        0 <= n <= order.len(),
    ensures
        forall|i: int| 0 <= i < n ==> !d.contains(#[trigger] order[i]),
    decreases n,
{
    if n > 0 {
        let i = n - 1;
        lemma_order_avoids_stuck(c, order, d, i);
        let rest = c.claimants().difference(d);
        let before = order.take(i).to_set();
        assert forall|q: usize| before.contains(q) implies rest.contains(q) by {
            let j = choose|j: int| 0 <= j < i && order.take(i)[j] == q;
            assert(order[j] == q);
            assert(order.to_set().contains(q));
        }
        assert(c.served(order[i], before));
        lemma_served_monotone(c, order[i], before, rest);
    }
}

/// There is a deadlock exactly where no order of service lets every claimant finish.
pub proof fn law_deadlock_free_iff_completion_order(c: Claims)
    requires
        c.wf(),
    ensures
        !c.has_deadlock() <==> exists|order: Seq<usize>| c.completion_order(order),
{
    if !c.has_deadlock() {
        let none: Seq<usize> = Seq::empty();
        assert(none.to_set() =~= Set::empty());
        let order = lemma_extend_order(c, none);
        assert(c.completion_order(order));
    }
    if exists|order: Seq<usize>| c.completion_order(order) {
        let order = choose|order: Seq<usize>| c.completion_order(order);
        if c.has_deadlock() {
            let p = choose|p: usize| #[trigger] c.deadlocked(p);
            let d = choose|d: Set<usize>| #[trigger] c.stuck(d) && d.contains(p);
            lemma_order_avoids_stuck(c, order, d, order.len() as int);
            assert(order.to_set().contains(p));
            let i = choose|i: int| 0 <= i < order.len() && order[i] == p;
            assert(!d.contains(order[i]));
        }
    }
}

/// A deadlocked claimant asks for more units of some kind than are free.
pub proof fn law_deadlocked_lacks_units(c: Claims, p: usize)
    requires
        c.wf(),
        c.deadlocked(p),
    ensures
        c.claimants().contains(p),
        exists|r: int|
            0 <= r < c.available.len() && c.wanted[p][r] > 0 && c.wanted[p][r]
                > #[trigger] c.available[r],
{
    let d = choose|d: Set<usize>| #[trigger] c.stuck(d) && d.contains(p);
    let rest = c.claimants().difference(d);
    assert(!c.served(p, rest));
    let r = choose|r: int| 0 <= r < c.available.len() && !#[trigger] c.kind_served(p, rest, r);
    lemma_total_monotone(c, rest, rest, r);
    assert(c.wanted[p][r] > c.available[r]);
}

/// More free units never cause a deadlock.
pub proof fn law_more_units_deadlock_no_more(c: Claims, e: Claims, p: usize)
    requires
        c.wf(),
        e.wf(),
        e.held == c.held,
        e.wanted == c.wanted,
        e.available.len() == c.available.len(),
        forall|r: int| 0 <= r < c.available.len() ==> c.available[r] <= #[trigger] e.available[r],
        e.deadlocked(p),
    ensures
        c.deadlocked(p),
{
    let d = choose|d: Set<usize>| #[trigger] e.stuck(d) && d.contains(p);
    let rest = c.claimants().difference(d);
    assert forall|q: usize| #[trigger] d.contains(q) implies !c.served(q, rest) by {
        assert(!e.served(q, rest));
        let r = choose|r: int| 0 <= r < e.available.len() && !#[trigger] e.kind_served(q, rest, r);
        assert(!c.kind_served(q, rest, r));
    }
    assert(c.stuck(d));
}

/// Whether `p` asks for nothing.
pub open spec fn asks_nothing(c: Claims, p: usize) -> bool {
    forall|r: int| 0 <= r < c.available.len() ==> #[trigger] c.wanted[p][r] <= 0
}

/// Whether, for kind `r`, everyone who asks in `e` asks for and holds no more than in `c`,
/// and there are no fewer units, free and held together; or nobody asks for it.
pub open spec fn no_scarcer(c: Claims, e: Claims, r: int) -> bool {
    ||| forall|p: usize| #[trigger] e.claimants().contains(p) ==> e.wanted[p][r] <= 0
    ||| {
        &&& r < c.available.len()
        &&& c.at_hand(c.claimants(), r) <= e.at_hand(e.claimants(), r)
        &&& forall|p: usize| #[trigger]
            e.claimants().contains(p) && !asks_nothing(e, p) ==> c.claimants().contains(p)
                && e.wanted[p][r] <= c.wanted[p][r] && e.held[p][r] <= c.held[p][r]
    }
}

/// A change after which no kind is scarcer for those who ask causes no deadlock. Those who ask
/// for nothing may gain and lose units, come and go.
pub proof fn law_no_scarcer_no_deadlock(c: Claims, e: Claims)
    requires
        c.wf(),
        e.wf(),
        !c.has_deadlock(),
        forall|r: int| 0 <= r < e.available.len() ==> #[trigger] no_scarcer(c, e, r),
    ensures
        !e.has_deadlock(),
{
    if e.has_deadlock() {
        let q = choose|q: usize| #[trigger] e.deadlocked(q);
        let d = choose|d: Set<usize>| #[trigger] e.stuck(d) && d.contains(q);
        let rest_e = e.claimants().difference(d);
        let rest_c = c.claimants().difference(d);
        assert forall|p: usize| #[trigger] d.contains(p) implies c.claimants().contains(p)
            && !c.served(p, rest_c) by {
            assert(!e.served(p, rest_e));
            let r = choose|r: int|
                0 <= r < e.available.len() && !#[trigger] e.kind_served(p, rest_e, r);
            assert(e.claimants().contains(p));
            assert(e.wanted[p][r] > 0);
            assert(!asks_nothing(e, p));
            assert(no_scarcer(c, e, r));
            assert(d.subset_of(c.claimants())) by {
                assert forall|x: usize| d.contains(x) implies c.claimants().contains(x) by {
                    lemma_stuck_asks(e, d, x);
                    assert(e.claimants().contains(x));
                }
            }
            assert forall|x: usize| #[trigger] d.contains(x) implies e.held[x][r]
                <= c.held[x][r] by {
                lemma_stuck_asks(e, d, x);
                assert(e.claimants().contains(x));
            }
            lemma_total_split(c.held, c.claimants(), d, r);
            lemma_total_split(e.held, e.claimants(), d, r);
            lemma_total_smaller(e.held, c.held, d, r);
            assert(!c.kind_served(p, rest_c, r));
        }
        assert(c.stuck(d));
        assert(c.deadlocked(q));
    }
}

/// Everybody in a stuck group asks for something.
proof fn lemma_stuck_asks(c: Claims, d: Set<usize>, p: usize)
    requires
        c.stuck(d),
        d.contains(p),
    ensures
        !asks_nothing(c, p),
{
    let rest = c.claimants().difference(d);
    assert(!c.served(p, rest));
    let r = choose|r: int| 0 <= r < c.available.len() && !#[trigger] c.kind_served(p, rest, r);
    assert(c.wanted[p][r] > 0);
}

} // verus!
