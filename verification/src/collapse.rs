//! The rule by which a bounded store gives up bins: while it holds more bins
//! than its ceiling allows, the two neighbouring bins with the smallest combined
//! count are fused into the lower index.

use vstd::prelude::*;
use crate::counts::{
    index_end, index_start, lemma_count_le_sum, lemma_sum_point, lemma_sum_split, total, zero_free,
};

verus! {

/// `a` and `b` are neighbouring bins: both exist, `a` lies below `b`, and no
/// bin lies between them.
pub open spec fn adjacent(bins: Map<i32, u64>, a: i32, b: i32) -> bool {
    &&& bins.contains_key(a)
    &&& bins.contains_key(b)
    &&& a < b
    &&& forall|k: i32| a < k < b ==> !bins.contains_key(k)
}

/// The count that bins `a` and `b` hold together.
pub open spec fn combined(bins: Map<i32, u64>, a: i32, b: i32) -> nat {
    (bins[a] + bins[b]) as nat
}

/// `a` and `b` are the pair that the next fusion joins: the neighbouring pair
/// with the smallest combined count, and the lowest such pair where several
/// pairs share that count.
pub open spec fn fuse_pair(bins: Map<i32, u64>, a: i32, b: i32) -> bool {
    &&& adjacent(bins, a, b)
    &&& forall|c: i32, d: i32| #[trigger]
        adjacent(bins, c, d) ==> combined(bins, a, b) < combined(bins, c, d) || (combined(
            bins,
            a,
            b,
        ) == combined(bins, c, d) && a <= c)
}

/// The bins after bin `b` has been fused into bin `a`.
pub open spec fn fused(bins: Map<i32, u64>, a: i32, b: i32) -> Map<i32, u64> {
    bins.remove(b).insert(a, combined(bins, a, b) as u64)
}

/// The bins after fusing for as long as there are more than `limit` bins and
/// two bins are left to fuse.
pub open spec fn collapsed(bins: Map<i32, u64>, limit: nat) -> Map<i32, u64>
    decreases bins.dom().len(),
{
    if bins.dom().finite() && bins.dom().len() > limit && exists|pair: (i32, i32)|
        fuse_pair(bins, pair.0, pair.1) {
        let pair = choose|pair: (i32, i32)| fuse_pair(bins, pair.0, pair.1);
        collapsed(fused(bins, pair.0, pair.1), limit)
    } else {
        bins
    }
}

/// The bins that a store with the given ceiling settles on.
pub open spec fn settled(bins: Map<i32, u64>, limit: Option<nat>) -> Map<i32, u64> {
    match limit {
        Some(n) => collapsed(bins, n),
        None => bins,
    }
}

/// At most one pair qualifies for the next fusion.
pub proof fn lemma_fuse_pair_unique(bins: Map<i32, u64>, a: i32, b: i32, c: i32, d: i32)
    requires
        fuse_pair(bins, a, b),
        fuse_pair(bins, c, d),
    ensures
        a == c,
        b == d,
{
}

/// A fusion removes one bin and keeps the total and the absence of empty bins.
pub proof fn lemma_fused(bins: Map<i32, u64>, a: i32, b: i32)
    requires
        bins.dom().finite(),
        zero_free(bins),
        total(bins) <= u64::MAX,
        bins.contains_key(a),
        bins.contains_key(b),
        a < b,
    ensures
        combined(bins, a, b) <= total(bins),
        fused(bins, a, b).dom().finite(),
        fused(bins, a, b).dom().len() == bins.dom().len() - 1,
        zero_free(fused(bins, a, b)),
        total(fused(bins, a, b)) == total(bins),
{
    let lo = index_start();
    let hi = index_end();
    let without = bins.remove(b);
    let after = fused(bins, a, b);
    lemma_sum_split(bins, lo, b as int, hi);
    lemma_count_le_sum(bins, a as int, lo, b as int);
    lemma_count_le_sum(bins, b as int, b as int, hi);
    lemma_sum_point(bins, without, b as int, lo, hi);
    lemma_sum_point(without, after, a as int, lo, hi);
}

/// Among the bins below `bound`, if there is one, one has the highest index.
proof fn lemma_highest_below(bins: Map<i32, u64>, bound: int) -> (top: i32)
    requires
        bound <= index_end(),
        exists|k: i32| bins.contains_key(k) && k < bound,
    ensures
        bins.contains_key(top),
        top < bound,
        forall|k: i32| bins.contains_key(k) && k < bound ==> k <= top,
    decreases bound - index_start(),
{
    let candidate = (bound - 1) as i32;
    if bins.contains_key(candidate) {
        candidate
    } else {
        lemma_highest_below(bins, bound - 1)
    }
}

/// Where at least two bins exist, one pair of them is the pair to fuse next.
pub proof fn lemma_fuse_pair_exists(bins: Map<i32, u64>) -> (pair: (i32, i32))
    requires
        bins.dom().finite(),
        bins.dom().len() >= 2,
    ensures
        fuse_pair(bins, pair.0, pair.1),
    decreases bins.dom().len(),
{
    // The highest bin and the one below it are neighbours, and every other
    // pair of neighbours is a pair of neighbours among the rest.
    assert(bins.contains_key(bins.dom().choose()));
    let top = lemma_highest_below(bins, index_end());
    let rest = bins.remove(top);
    assert(rest.contains_key(rest.dom().choose()));
    let below = lemma_highest_below(rest, index_end());
    assert forall|c: i32, d: i32| #[trigger] adjacent(bins, c, d) implies (d == top && c == below)
        || adjacent(rest, c, d) by {}
    if rest.dom().len() == 1 {
        assert forall|c: i32, d: i32| #[trigger] adjacent(bins, c, d) implies d == top && c
            == below by {
            if adjacent(rest, c, d) {
                assert(rest.dom().remove(c).contains(d));
            }
        }
        (below, top)
    } else {
        // Either the top pair is lighter than every pair among the rest, or
        // the pair to fuse among the rest is the pair to fuse among all.
        let inner = lemma_fuse_pair_exists(rest);
        if combined(bins, below, top) < combined(bins, inner.0, inner.1) {
            (below, top)
        } else {
            inner
        }
    }
}

/// Collapsing keeps the total and the absence of empty bins, adds no bin, and
/// ends within the limit, or with the one bin that no fusion can remove.
pub proof fn lemma_collapsed(bins: Map<i32, u64>, limit: nat)
    requires
        bins.dom().finite(),
        zero_free(bins),
        total(bins) <= u64::MAX,
    ensures
        collapsed(bins, limit).dom().finite(),
        zero_free(collapsed(bins, limit)),
        total(collapsed(bins, limit)) == total(bins),
        collapsed(bins, limit).dom().len() <= bins.dom().len(),
        collapsed(bins, limit).dom().len() <= limit || collapsed(bins, limit).dom().len() <= 1,
        bins.dom().len() <= limit ==> collapsed(bins, limit) == bins,
    decreases bins.dom().len(),
{
    if bins.dom().len() > limit {
        if exists|pair: (i32, i32)| fuse_pair(bins, pair.0, pair.1) {
            let pair = choose|pair: (i32, i32)| fuse_pair(bins, pair.0, pair.1);
            lemma_fused(bins, pair.0, pair.1);
            lemma_collapsed(fused(bins, pair.0, pair.1), limit);
        } else if bins.dom().len() >= 2 {
            let pair = lemma_fuse_pair_exists(bins);
        }
    }
}

/// One step of collapsing: while the bins exceed the limit, collapsing them
/// gives what collapsing the bins after the next fusion gives.
pub proof fn lemma_collapsed_step(bins: Map<i32, u64>, limit: nat, a: i32, b: i32)
    requires
        bins.dom().finite(),
        bins.dom().len() > limit,
        fuse_pair(bins, a, b),
    ensures
        collapsed(bins, limit) == collapsed(fused(bins, a, b), limit),
{
    let witness = (a, b);
    assert(fuse_pair(bins, witness.0, witness.1));
    let pair = choose|pair: (i32, i32)| fuse_pair(bins, pair.0, pair.1);
    lemma_fuse_pair_unique(bins, a, b, pair.0, pair.1);
}

/// `keys` names the indices of all bins, each once, in ascending order.
pub open spec fn ascending(keys: Seq<i32>, bins: Map<i32, u64>) -> bool {
    &&& forall|i: int, j: int| 0 <= i < j < keys.len() ==> keys[i] < keys[j]
    &&& forall|i: int| 0 <= i < keys.len() ==> bins.contains_key(#[trigger] keys[i])
    &&& forall|k: i32| #[trigger] bins.contains_key(k) ==> keys.contains(k)
}

/// Neighbours in an ascending list of the indices are neighbouring bins.
pub proof fn lemma_consecutive_adjacent(keys: Seq<i32>, bins: Map<i32, u64>, i: int)
    requires
        ascending(keys, bins),
        0 <= i < keys.len() - 1,
    ensures
        adjacent(bins, keys[i], keys[i + 1]),
{
    assert forall|k: i32| keys[i] < k < keys[i + 1] implies !bins.contains_key(k) by {
        if bins.contains_key(k) {
            // wherever `k` stands in the list, it is not between the two
            let j = choose|j: int| 0 <= j < keys.len() && keys[j] == k;
        }
    }
}

/// Neighbouring bins stand side by side in an ascending list of the indices.
pub proof fn lemma_adjacent_consecutive(keys: Seq<i32>, bins: Map<i32, u64>, a: i32, b: i32) -> (i:
    int)
    requires
        ascending(keys, bins),
        adjacent(bins, a, b),
    ensures
        0 <= i < keys.len() - 1,
        keys[i] == a,
        keys[i + 1] == b,
{
    // Where `a` and `b` stand in the list, nothing can stand between them.
    let i = choose|i: int| 0 <= i < keys.len() && keys[i] == a;
    let j = choose|j: int| 0 <= j < keys.len() && keys[j] == b;
    i
}

/// Among the first `seen` neighbouring pairs of an ascending list of the
/// indices, the pair at `best` is the first with the smallest combined count.
pub open spec fn lowest_so_far(keys: Seq<i32>, bins: Map<i32, u64>, best: int, seen: int) -> bool {
    &&& 0 <= best < seen <= keys.len() - 1
    &&& forall|j: int|
        0 <= j < best ==> combined(bins, keys[best], keys[best + 1]) < combined(
            bins,
            #[trigger] keys[j],
            keys[j + 1],
        )
    &&& forall|j: int|
        best <= j < seen ==> combined(bins, keys[best], keys[best + 1]) <= combined(
            bins,
            #[trigger] keys[j],
            keys[j + 1],
        )
}

/// The first pair with the smallest combined count among all neighbouring
/// pairs of an ascending list is the pair to fuse next.
pub proof fn lemma_lowest_is_fuse_pair(keys: Seq<i32>, bins: Map<i32, u64>, best: int)
    requires
        ascending(keys, bins),
        lowest_so_far(keys, bins, best, keys.len() - 1),
    ensures
        fuse_pair(bins, keys[best], keys[best + 1]),
{
    lemma_consecutive_adjacent(keys, bins, best);
    assert forall|c: i32, d: i32| #[trigger] adjacent(bins, c, d) implies combined(
        bins,
        keys[best],
        keys[best + 1],
    ) < combined(bins, c, d) || (combined(bins, keys[best], keys[best + 1]) == combined(bins, c, d)
        && keys[best] <= c) by {
        let j = lemma_adjacent_consecutive(keys, bins, c, d);
    }
}

/// After the bins at two neighbouring positions of an ascending list are
/// fused, the list without the upper of the two is the ascending list of the
/// indices that are left.
pub proof fn lemma_ascending_fused(keys: Seq<i32>, bins: Map<i32, u64>, at: int)
    requires
        ascending(keys, bins),
        0 <= at < keys.len() - 1,
    ensures
        ascending(keys.remove(at + 1), fused(bins, keys[at], keys[at + 1])),
{
    let after = fused(bins, keys[at], keys[at + 1]);
    let left = keys.remove(at + 1);
    assert forall|k: i32| #[trigger] after.contains_key(k) implies left.contains(k) by {
        let p = choose|p: int| 0 <= p < keys.len() && keys[p] == k;
        if p <= at {
            assert(left[p] == k);
        } else {
            assert(left[p - 1] == k);
        }
    }
}

} // verus!
