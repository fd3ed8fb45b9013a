//! The mathematical model of a bucket store: a finite map from bucket index to
//! count, read as a function that is zero wherever no bin exists, together with
//! sums of that function over index ranges.

use vstd::prelude::*;

verus! {

/// One past the largest bucket index.
pub open spec fn index_end() -> int {
    i32::MAX as int + 1
}

/// The smallest bucket index.
pub open spec fn index_start() -> int {
    i32::MIN as int
}

/// The count recorded at `index`: the stored value, or zero where no bin exists.
pub open spec fn count_at(bins: Map<i32, u64>, index: int) -> nat {
    if index_start() <= index < index_end() && bins.contains_key(index as i32) {
        bins[index as i32] as nat
    } else {
        0
    }
}

/// The sum of the counts at the indices `lo <= i < hi`.
pub open spec fn sum_between(bins: Map<i32, u64>, lo: int, hi: int) -> nat
    decreases hi - lo,
{
    if lo >= hi {
        0
    } else {
        sum_between(bins, lo, hi - 1) + count_at(bins, hi - 1)
    }
}

/// The sum of all counts.
pub open spec fn total(bins: Map<i32, u64>) -> nat {
    sum_between(bins, index_start(), index_end())
}

/// The sum of the counts at the indices below `index`.
pub open spec fn weight_below(bins: Map<i32, u64>, index: int) -> nat {
    sum_between(bins, index_start(), index)
}

/// The sum of the counts at `index` and above.
pub open spec fn weight_from(bins: Map<i32, u64>, index: int) -> nat {
    sum_between(bins, index, index_end())
}

/// Every bin that exists holds a positive count.
pub open spec fn zero_free(bins: Map<i32, u64>) -> bool {
    forall|k: i32| bins.contains_key(k) ==> bins[k] > 0
}

/// A range sum splits at any point inside the range.
pub proof fn lemma_sum_split(bins: Map<i32, u64>, lo: int, mid: int, hi: int)
    requires
        lo <= mid <= hi,
    ensures
        sum_between(bins, lo, hi) == sum_between(bins, lo, mid) + sum_between(bins, mid, hi),
    decreases hi - mid,
{
    if mid < hi {
        lemma_sum_split(bins, lo, mid, hi - 1);
    }
}

/// Maps that agree on a range have the same sum over it.
pub proof fn lemma_sum_agree(a: Map<i32, u64>, b: Map<i32, u64>, lo: int, hi: int)
    requires
        forall|i: int| lo <= i < hi ==> count_at(a, i) == count_at(b, i),
    ensures
        sum_between(a, lo, hi) == sum_between(b, lo, hi),
    decreases hi - lo,
{
    if lo < hi {
        lemma_sum_agree(a, b, lo, hi - 1);
    }
}

/// Maps that agree everywhere on a range but at `k` differ in their sums by
/// what they differ at `k`.
pub proof fn lemma_sum_point(a: Map<i32, u64>, b: Map<i32, u64>, k: int, lo: int, hi: int)
    requires
        lo <= k < hi,
        forall|i: int| lo <= i < hi && i != k ==> count_at(a, i) == count_at(b, i),
    ensures
        sum_between(a, lo, hi) - count_at(a, k) == sum_between(b, lo, hi) - count_at(b, k),
{
    lemma_sum_split(a, lo, k, hi);
    lemma_sum_split(a, k, k + 1, hi);
    lemma_sum_split(b, lo, k, hi);
    lemma_sum_split(b, k, k + 1, hi);
    lemma_sum_agree(a, b, lo, k);
    lemma_sum_agree(a, b, k + 1, hi);
    assert(sum_between(a, k, k + 1) == count_at(a, k)) by {
        assert(sum_between(a, k, k) == 0);
    }
    assert(sum_between(b, k, k + 1) == count_at(b, k)) by {
        assert(sum_between(b, k, k) == 0);
    }
}

/// A single count never exceeds the sum over a range that holds its index.
pub proof fn lemma_count_le_sum(bins: Map<i32, u64>, k: int, lo: int, hi: int)
    requires
        lo <= k < hi,
    ensures
        count_at(bins, k) <= sum_between(bins, lo, hi),
{
    lemma_sum_split(bins, lo, k, hi);
    lemma_sum_split(bins, k, k + 1, hi);
    assert(sum_between(bins, k, k + 1) == count_at(bins, k)) by {
        assert(sum_between(bins, k, k) == 0);
    }
}

/// The empty map sums to zero over every range.
pub proof fn lemma_sum_empty(lo: int, hi: int)
    ensures
        sum_between(Map::<i32, u64>::empty(), lo, hi) == 0,
    decreases hi - lo,
{
    if lo < hi {
        lemma_sum_empty(lo, hi - 1);
    }
}

/// A range without bins sums to zero.
pub proof fn lemma_sum_gap(bins: Map<i32, u64>, lo: int, hi: int)
    requires
        forall|k: i32| lo <= k < hi ==> !bins.contains_key(k),
    ensures
        sum_between(bins, lo, hi) == 0,
{
    lemma_sum_agree(bins, Map::empty(), lo, hi);
    lemma_sum_empty(lo, hi);
}

/// Without empty bins, the total is zero exactly when there is no bin.
pub proof fn lemma_total_zero(bins: Map<i32, u64>)
    requires
        zero_free(bins),
    ensures
        total(bins) == 0 <==> bins == Map::<i32, u64>::empty(),
{
    if bins =~= Map::<i32, u64>::empty() {
        lemma_sum_empty(index_start(), index_end());
    } else {
        let k = choose|k: i32| bins.contains_key(k);
        lemma_count_le_sum(bins, k as int, index_start(), index_end());
    }
}

/// The bins after `count` more observations fall into bucket `index`.
pub open spec fn added(bins: Map<i32, u64>, index: int, count: nat) -> Map<i32, u64> {
    if count == 0 {
        bins
    } else {
        bins.insert(index as i32, (count_at(bins, index) + count) as u64)
    }
}

/// Adding to a bin raises the total by what was added, and keeps the bins
/// finite and free of empty bins.
pub proof fn lemma_added(bins: Map<i32, u64>, index: i32, count: nat)
    requires
        bins.dom().finite(),
        zero_free(bins),
        total(bins) + count <= u64::MAX,
    ensures
        added(bins, index as int, count).dom().finite(),
        zero_free(added(bins, index as int, count)),
        total(added(bins, index as int, count)) == total(bins) + count,
        forall|k: int|
            count_at(added(bins, index as int, count), k) == #[trigger] count_at(bins, k) + if k
                == index {
                count
            } else {
                0
            },
{
    lemma_count_le_sum(bins, index as int, index_start(), index_end());
    lemma_sum_point(
        bins,
        added(bins, index as int, count),
        index as int,
        index_start(),
        index_end(),
    );
}

/// The pointwise sum of two stores.
pub open spec fn merged(a: Map<i32, u64>, b: Map<i32, u64>) -> Map<i32, u64> {
    Map::new(
        |k: i32| a.contains_key(k) || b.contains_key(k),
        |k: i32| (count_at(a, k as int) + count_at(b, k as int)) as u64,
    )
}

/// Over every range, the merged bins sum to what the two stores sum to
/// together, as long as that fits in 64 bits at every index.
pub proof fn lemma_sum_merged(a: Map<i32, u64>, b: Map<i32, u64>, lo: int, hi: int)
    requires
        forall|k: int| lo <= k < hi ==> count_at(a, k) + count_at(b, k) <= u64::MAX,
    ensures
        sum_between(merged(a, b), lo, hi) == sum_between(a, lo, hi) + sum_between(b, lo, hi),
    decreases hi - lo,
{
    if lo < hi {
        lemma_sum_merged(a, b, lo, hi - 1);
    }
}

/// Merging two stores adds their totals, and keeps the bins finite and free
/// of empty bins.
pub proof fn lemma_merged(a: Map<i32, u64>, b: Map<i32, u64>)
    requires
        a.dom().finite(),
        b.dom().finite(),
        zero_free(a),
        zero_free(b),
        total(a) + total(b) <= u64::MAX,
    ensures
        merged(a, b).dom().finite(),
        zero_free(merged(a, b)),
        total(merged(a, b)) == total(a) + total(b),
        forall|k: int| count_at(merged(a, b), k) == count_at(a, k) + #[trigger] count_at(b, k),
{
    assert forall|k: int| count_at(a, k) + #[trigger] count_at(b, k) <= u64::MAX by {
        if index_start() <= k < index_end() {
            lemma_count_le_sum(a, k, index_start(), index_end());
            lemma_count_le_sum(b, k, index_start(), index_end());
        }
    }
    lemma_sum_merged(a, b, index_start(), index_end());
    assert(merged(a, b).dom() =~= a.dom().union(b.dom()));
}

/// Merging does not depend on which store is merged into which.
pub proof fn lemma_merged_commutes(a: Map<i32, u64>, b: Map<i32, u64>)
    ensures
        merged(a, b) == merged(b, a),
{
}

/// Merging three stores does not depend on which two are merged first.
pub proof fn lemma_merged_associates(a: Map<i32, u64>, b: Map<i32, u64>, c: Map<i32, u64>)
    requires
        a.dom().finite(),
        b.dom().finite(),
        c.dom().finite(),
        zero_free(a),
        zero_free(b),
        zero_free(c),
        total(a) + total(b) + total(c) <= u64::MAX,
    ensures
        merged(merged(a, b), c) == merged(a, merged(b, c)),
{
    lemma_merged(a, b);
    lemma_merged(b, c);
    lemma_merged(merged(a, b), c);
    lemma_merged(a, merged(b, c));
    assert(merged(merged(a, b), c) =~= merged(a, merged(b, c)));
}

/// `entries` holds an entry for the index `k`.
pub open spec fn mentions(entries: Seq<(i32, u64)>, k: i32) -> bool {
    exists|i: int| 0 <= i < entries.len() && #[trigger] entries[i].0 == k
}

/// `entries` names every bin of `bins` once, with its count.
pub open spec fn lists(entries: Seq<(i32, u64)>, bins: Map<i32, u64>) -> bool {
    &&& forall|i: int|
        0 <= i < entries.len() ==> bins.contains_key(#[trigger] entries[i].0) && bins[entries[i].0]
            == entries[i].1
    &&& forall|i: int, j: int|
        0 <= i < j < entries.len() ==> #[trigger] entries[i].0 != #[trigger] entries[j].0
    &&& forall|k: i32| #[trigger] bins.contains_key(k) ==> entries.contains((k, bins[k]))
    &&& entries.len() == bins.dom().len()
}

/// What holds of the bins of every consistent store: finitely many bins, none
/// of them empty, a total that fits in 64 bits, and no more bins than the
/// store's ceiling allows.
pub open spec fn valid_bins(bins: Map<i32, u64>, limit: Option<nat>) -> bool {
    &&& bins.dom().finite()
    &&& zero_free(bins)
    &&& total(bins) <= u64::MAX
    &&& limit matches Some(n) ==> n >= 1 && bins.dom().len() <= n
}

} // verus!
