//! The mathematical record behind the resource bookkeeping, and facts about it.

use crate::sync::claims;
use crate::sync::claims::Claims;
use vstd::prelude::*;

verus! {

/// A row of `n` zeros.
pub open spec fn zeros(n: nat) -> Seq<usize> {
    Seq::new(n, |r: int| 0usize)
}

/// `rows`, followed by rows of zeros up to and including row `pid`.
pub open spec fn padded(rows: Seq<Seq<usize>>, pid: usize, width: nat) -> Seq<Seq<usize>> {
    if rows.len() <= pid {
        rows + Seq::new((pid + 1 - rows.len()) as nat, |i: int| zeros(width))
    } else {
        rows
    }
}

/// The sum of column `r`.
pub open spec fn column_sum(rows: Seq<Seq<usize>>, r: int) -> int
    decreases rows.len(),
{
    if rows.len() == 0 {
        0
    } else {
        column_sum(rows.drop_last(), r) + rows.last()[r]
    }
}

/// `rows` with the entry of row `pid` and column `r` replaced.
pub open spec fn with_cell(rows: Seq<Seq<usize>>, pid: usize, r: usize, value: usize) -> Seq<
    Seq<usize>,
> {
    rows.update(pid as int, rows[pid as int].update(r as int, value))
}

/// What a [`ResourceManager`] records: the units that exist of each kind of resource, and for
/// each process (row) and kind (column) the units held and the units still needed.
#[verifier::ext_equal]
pub struct ResourceModel {
    pub totals: Seq<usize>,
    pub allocation: Seq<Seq<usize>>,
    pub need: Seq<Seq<usize>>,
}

impl ResourceModel {
    /// Both tables have a row for each process and a column for each kind, and processes are
    /// numbered within `usize`.
    pub open spec fn wf(self) -> bool {
        &&& self.allocation.len() == self.need.len()
        &&& self.allocation.len() <= usize::MAX
        &&& forall|p: int|
            0 <= p < self.allocation.len() ==> (#[trigger] self.allocation[p]).len()
                == self.totals.len()
        &&& forall|p: int|
            0 <= p < self.need.len() ==> (#[trigger] self.need[p]).len() == self.totals.len()
    }

    /// Nothing is recorded.
    pub open spec fn empty() -> ResourceModel {
        ResourceModel { totals: Seq::empty(), allocation: Seq::empty(), need: Seq::empty() }
    }

    /// The record with rows up to and including `pid`; new rows hold and need nothing.
    pub open spec fn with_process(self, pid: usize) -> ResourceModel {
        ResourceModel {
            allocation: padded(self.allocation, pid, self.totals.len()),
            need: padded(self.need, pid, self.totals.len()),
            ..self
        }
    }

    /// The record with one more kind of resource, of which nobody holds or needs anything.
    pub open spec fn with_resource(self, total: usize) -> ResourceModel {
        ResourceModel {
            totals: self.totals.push(total),
            allocation: self.allocation.map_values(|row: Seq<usize>| row.push(0)),
            need: self.need.map_values(|row: Seq<usize>| row.push(0)),
        }
    }

    /// The record with `total` units of kind `r`, of which nobody holds or needs anything.
    pub open spec fn with_reset(self, r: usize, total: usize) -> ResourceModel {
        ResourceModel {
            totals: self.totals.update(r as int, total),
            allocation: self.allocation.map_values(|row: Seq<usize>| row.update(r as int, 0)),
            need: self.need.map_values(|row: Seq<usize>| row.update(r as int, 0)),
        }
    }

    /// The record in which process `pid` holds `value` units of kind `r`.
    pub open spec fn with_allocation(self, pid: usize, r: usize, value: usize) -> ResourceModel {
        ResourceModel { allocation: with_cell(self.allocation, pid, r, value), ..self }
    }

    /// The record in which process `pid` needs `value` units of kind `r`.
    pub open spec fn with_need(self, pid: usize, r: usize, value: usize) -> ResourceModel {
        ResourceModel { need: with_cell(self.need, pid, r, value), ..self }
    }

    /// The record in which nobody needs anything.
    pub open spec fn without_needs(self) -> ResourceModel {
        ResourceModel {
            need: Seq::new(self.need.len(), |p: int| zeros(self.totals.len())),
            ..self
        }
    }

    /// The record in which process `pid`, where it has a row, holds and needs nothing.
    pub open spec fn without_process(self, pid: usize) -> ResourceModel {
        if pid < self.allocation.len() {
            ResourceModel {
                allocation: self.allocation.update(pid as int, zeros(self.totals.len())),
                need: self.need.update(pid as int, zeros(self.totals.len())),
                ..self
            }
        } else {
            self
        }
    }

    /// The units of kind `r` that all processes hold together.
    pub open spec fn allocated(self, r: int) -> int {
        column_sum(self.allocation, r)
    }

    /// The free units of kind `r`; none where more are held than exist.
    pub open spec fn available(self, r: int) -> int {
        if self.totals[r] > self.allocated(r) {
            self.totals[r] - self.allocated(r)
        } else {
            0
        }
    }

    /// The units of each kind held together can be counted in a `usize`.
    pub open spec fn allocations_fit(self) -> bool {
        forall|r: int| 0 <= r < self.totals.len() ==> #[trigger] self.allocated(r) <= usize::MAX
    }

    /// The processes as claimants of the resources.
    pub open spec fn claims(self) -> Claims {
        Claims {
            available: Seq::new(self.totals.len(), |r: int| self.available(r)),
            held: row_map(self.allocation, self.totals.len()),
            wanted: row_map(self.need, self.totals.len()),
        }
    }
}

/// The rows by process, as integers.
pub open spec fn row_map(rows: Seq<Seq<usize>>, width: nat) -> Map<usize, Seq<int>> {
    Map::new(
        |p: usize| p < rows.len(),
        |p: usize| Seq::new(width, |r: int| rows[p as int][r] as int),
    )
}

/// `a + b`, or the largest `usize` where that is smaller.
pub open spec fn saturating_sum(a: usize, b: usize) -> usize {
    if a + b > usize::MAX {
        usize::MAX
    } else {
        (a + b) as usize
    }
}

/// `a - b`, or zero where `b` is larger.
pub open spec fn saturating_difference(a: usize, b: usize) -> usize {
    if a < b {
        0
    } else {
        (a - b) as usize
    }
}

/// The tables of a manager are tables of claims.
pub proof fn lemma_claims_wf(m: ResourceModel)
    requires
        m.wf(),
    ensures
        m.claims().wf(),
        forall|p: usize| #[trigger] m.claims().claimants().contains(p) <==> p < m.allocation.len(),
{
    let c = m.claims();
    lemma_index_set_finite(m.allocation.len());
    assert(c.held.dom() =~= Set::new(|p: usize| p < m.allocation.len()));
    assert(c.wanted.dom() =~= c.held.dom());
}

/// There are `n` indices below `n`.
pub proof fn lemma_index_set_finite(n: nat)
    requires
        n <= usize::MAX,
    ensures
        Set::new(|p: usize| p < n).finite(),
        Set::new(|p: usize| p < n).len() == n,
    decreases n,
{
    if n == 0 {
        assert(Set::new(|p: usize| p < n) =~= Set::empty());
    } else {
        lemma_index_set_finite((n - 1) as nat);
        assert(Set::new(|p: usize| p < n) =~= Set::new(|p: usize| p < n - 1).insert(
            (n - 1) as usize,
        ));
    }
}

/// No more processes finish than there are.
pub proof fn lemma_done_bounded(m: ResourceModel, done: Set<usize>)
    requires
        m.wf(),
        done.subset_of(m.claims().can_finish()),
    ensures
        done.finite(),
        done.len() <= m.allocation.len(),
{
    lemma_claims_wf(m);
    lemma_index_set_finite(m.allocation.len());
    let all = Set::new(|p: usize| p < m.allocation.len());
    assert(done.subset_of(all)) by {
        assert forall|p: usize| done.contains(p) implies all.contains(p) by {
            assert(m.claims().can_finish().contains(p));
            assert(m.claims().claimants().contains(p));
        }
    }
    vstd::set_lib::lemma_len_subset(done, all);
}

/// What the first `n` processes hold together is the sum of the first `n` rows.
pub proof fn lemma_total_is_column_sum(m: ResourceModel, n: nat, r: int)
    requires
        m.wf(),
        n <= m.allocation.len(),
        0 <= r < m.totals.len(),
    ensures
        claims::total_held(m.claims().held, Set::new(|p: usize| p < n), r) == column_sum(
            m.allocation.take(n as int),
            r,
        ),
    decreases n,
{
    let held = m.claims().held;
    if n == 0 {
        assert(Set::new(|p: usize| p < n) =~= Set::empty());
    } else {
        let k = (n - 1) as nat;
        lemma_total_is_column_sum(m, k, r);
        lemma_index_set_finite(k);
        claims::lemma_total_insert(held, Set::new(|p: usize| p < k), k as usize, r);
        assert(Set::new(|p: usize| p < n) =~= Set::new(|p: usize| p < k).insert(k as usize));
        assert(m.allocation.take(n as int).drop_last() =~= m.allocation.take(k as int));
    }
}

/// The units at hand never exceed the larger of what exists and what is held.
pub proof fn lemma_at_hand_bounded(m: ResourceModel, done: Set<usize>, r: int)
    requires
        m.wf(),
        done.subset_of(m.claims().claimants()),
        0 <= r < m.totals.len(),
        m.allocated(r) <= usize::MAX,
    ensures
        0 <= m.claims().at_hand(done, r) <= usize::MAX,
{
    let c = m.claims();
    lemma_claims_wf(m);
    claims::lemma_total_monotone(c, done, c.claimants(), r);
    lemma_total_is_column_sum(m, m.allocation.len(), r);
    assert(c.claimants() =~= Set::new(|p: usize| p < m.allocation.len()));
    assert(m.allocation.take(m.allocation.len() as int) =~= m.allocation);
}

/// The first rows of a column add up to no more than all of them.
pub proof fn lemma_column_sum_prefix(rows: Seq<Seq<usize>>, n: int, r: int)
    requires
        0 <= n <= rows.len(),
    ensures
        0 <= column_sum(rows.take(n), r) <= column_sum(rows, r),
    decreases rows.len(),
{
    if n == rows.len() {
        assert(rows.take(n) =~= rows);
        if n > 0 {
            lemma_column_sum_prefix(rows.drop_last(), n - 1, r);
            assert(rows.drop_last().take(n - 1) =~= rows.drop_last());
        }
    } else {
        lemma_column_sum_prefix(rows.drop_last(), n, r);
        assert(rows.drop_last().take(n) =~= rows.take(n));
    }
}

/// Rows of zeros add nothing to a column.
pub proof fn lemma_padded_sum(rows: Seq<Seq<usize>>, pid: usize, width: nat, r: int)
    requires
        0 <= r < width,
    ensures
        column_sum(padded(rows, pid, width), r) == column_sum(rows, r),
    decreases pid,
{
    let longer = padded(rows, pid, width);
    if rows.len() <= pid {
        if rows.len() == pid {
            assert(longer.drop_last() =~= rows);
        } else {
            let before = (pid - 1) as usize;
            lemma_padded_sum(rows, before, width, r);
            assert(longer.drop_last() =~= padded(rows, before, width));
        }
        assert(longer.last()[r] == 0);
    }
}

/// A column of zeros adds up to nothing.
pub proof fn lemma_zero_column_sum(rows: Seq<Seq<usize>>, r: int)
    requires
        forall|p: int| 0 <= p < rows.len() ==> (#[trigger] rows[p])[r] == 0,
    ensures
        column_sum(rows, r) == 0,
    decreases rows.len(),
{
    if rows.len() > 0 {
        assert(rows[rows.len() - 1][r] == 0);
        assert forall|p: int| 0 <= p < rows.drop_last().len() implies (
        #[trigger] rows.drop_last()[p])[r] == 0 by {
            assert(rows.drop_last()[p] == rows[p]);
        }
        lemma_zero_column_sum(rows.drop_last(), r);
    }
}

/// A column in which no entry exceeds one adds up to at most the number of rows.
pub proof fn lemma_unit_column_sum(rows: Seq<Seq<usize>>, r: int)
    requires
        forall|p: int| 0 <= p < rows.len() ==> (#[trigger] rows[p])[r] <= 1,
    ensures
        0 <= column_sum(rows, r) <= rows.len(),
    decreases rows.len(),
{
    if rows.len() > 0 {
        assert(rows.last() == rows[rows.len() - 1]);
        assert forall|p: int| 0 <= p < rows.drop_last().len() implies (
        #[trigger] rows.drop_last()[p])[r] <= 1 by {
            assert(rows.drop_last()[p] == rows[p]);
        }
        lemma_unit_column_sum(rows.drop_last(), r);
    }
}

/// Of two writes to one entry the second counts.
pub proof fn lemma_with_cell_twice(rows: Seq<Seq<usize>>, pid: usize, r: usize, a: usize, b: usize)
    requires
        pid < rows.len(),
        r < rows[pid as int].len(),
    ensures
        with_cell(with_cell(rows, pid, r, a), pid, r, b) == with_cell(rows, pid, r, b),
{
    let twice = with_cell(with_cell(rows, pid, r, a), pid, r, b);
    let once = with_cell(rows, pid, r, b);
    assert(twice[pid as int] =~= once[pid as int]);
    assert(twice =~= once);
}

/// A new row takes the place of the old one in every sum.
pub proof fn lemma_column_sum_update(rows: Seq<Seq<usize>>, p: int, row: Seq<usize>, r: int)
    requires
        0 <= p < rows.len(),
    ensures
        column_sum(rows.update(p, row), r) == column_sum(rows, r) - rows[p][r] + row[r],
    decreases rows.len(),
{
    let new = rows.update(p, row);
    if p == rows.len() - 1 {
        assert(new.drop_last() =~= rows.drop_last());
    } else {
        lemma_column_sum_update(rows.drop_last(), p, row, r);
        assert(new.drop_last() =~= rows.drop_last().update(p, row));
    }
}

/// Equal columns have equal sums.
pub proof fn lemma_column_sum_same(rows: Seq<Seq<usize>>, other: Seq<Seq<usize>>, r: int)
    requires
        rows.len() == other.len(),
        forall|p: int| 0 <= p < rows.len() ==> (#[trigger] rows[p])[r] == other[p][r],
    ensures
        column_sum(rows, r) == column_sum(other, r),
    decreases rows.len(),
{
    if rows.len() > 0 {
        assert(rows[rows.len() - 1][r] == other[rows.len() - 1][r]);
        assert forall|p: int| 0 <= p < rows.drop_last().len() implies (
        #[trigger] rows.drop_last()[p])[r] == other.drop_last()[p][r] by {
            assert(rows[p][r] == other[p][r]);
        }
        lemma_column_sum_same(rows.drop_last(), other.drop_last(), r);
    }
}

/// The units of a kind at hand once everybody has finished are those free and those held.
pub proof fn lemma_all_units(m: ResourceModel, r: int)
    requires
        m.wf(),
        0 <= r < m.totals.len(),
    ensures
        m.claims().at_hand(m.claims().claimants(), r) == m.available(r) + m.allocated(r),
{
    let c = m.claims();
    lemma_claims_wf(m);
    lemma_total_is_column_sum(m, m.allocation.len(), r);
    assert(c.claimants() =~= Set::new(|p: usize| p < m.allocation.len()));
    assert(m.allocation.take(m.allocation.len() as int) =~= m.allocation);
}

} // verus!
