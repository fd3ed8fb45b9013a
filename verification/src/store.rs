//! Bucket stores: maps from bucket index to count with a cached total.

use vstd::prelude::*;
use std::collections::HashMap;
use vstd::std_specs::iter::IteratorSpec;
use crate::collapse::{
    ascending, collapsed, combined, fuse_pair, fused, lemma_ascending_fused, lemma_collapsed,
    lemma_collapsed_step, lemma_consecutive_adjacent, lemma_fused, lemma_lowest_is_fuse_pair,
    lowest_so_far, settled,
};
use crate::counts::{
    added, count_at, index_end, index_start, lemma_count_le_sum, lemma_sum_empty, lemma_sum_point,
    lemma_total_zero, lists, mentions, merged, total, valid_bins, zero_free,
};

verus! {

broadcast use vstd::std_specs::hash::group_hash_axioms;

/// Bins that can be listed: what a merge reads of the store that it merges
/// from.
pub trait Bins: View<V = Map<i32, u64>> {
    /// The ceiling on the number of bins, if there is one.
    spec fn limit(&self) -> Option<nat>;

    /// The internal bookkeeping is consistent.
    spec fn wf(&self) -> bool;

    /// What consistent bookkeeping guarantees about the bins.
    proof fn lemma_valid(&self)
        requires
            self.wf(),
        ensures
            valid_bins(self@, self.limit()),
    ;

    /// The pairs of index and count of all bins, in no particular order.
    fn iter(&self) -> (entries: Vec<(i32, u64)>)
        requires
            self.wf(),
        ensures
            lists(entries@, self@),
    ;
}

/// What every bucket store offers.
pub trait Store: Bins {
    /// Adds `count` to the bin at `index`; nothing changes where `count` is
    /// zero.  A bounded store then fuses bins until it is within its ceiling.
    fn add(&mut self, index: i32, count: u64)
        requires
            old(self).wf(),
            total(old(self)@) + count <= u64::MAX,
        ensures
            final(self).wf(),
            final(self).limit() == old(self).limit(),
            final(self)@ == settled(added(old(self)@, index as int, count as nat), old(self).limit()),
            total(final(self)@) == total(old(self)@) + count,
    ;

    /// The count at `index`, zero where no bin exists.
    fn get(&self, index: i32) -> (count: u64)
        requires
            self.wf(),
        ensures
            count == count_at(self@, index as int),
    ;

    /// The sum of all counts.
    fn total_count(&self) -> (sum: u64)
        requires
            self.wf(),
        ensures
            sum == total(self@),
    ;

    /// Whether the store holds no observation.
    fn is_empty(&self) -> (empty: bool)
        requires
            self.wf(),
        ensures
            empty == (total(self@) == 0),
            empty == (self@ == Map::<i32, u64>::empty()),
    ;

    /// The lowest index that has a bin, if there is a bin.
    fn min_index(&self) -> (lowest: Option<i32>)
        requires
            self.wf(),
        ensures
            match lowest {
                Some(k) => self@.contains_key(k) && forall|j: i32|
                    self@.contains_key(j) ==> k <= j,
                None => self@ == Map::<i32, u64>::empty(),
            },
    ;

    /// The highest index that has a bin, if there is a bin.
    fn max_index(&self) -> (highest: Option<i32>)
        requires
            self.wf(),
        ensures
            match highest {
                Some(k) => self@.contains_key(k) && forall|j: i32|
                    self@.contains_key(j) ==> j <= k,
                None => self@ == Map::<i32, u64>::empty(),
            },
    ;

    /// Adds every bin of `other` to this store: the counts of the two add up
    /// index by index.  A bounded store then fuses bins until it is within
    /// its ceiling.
    fn merge<B: Bins>(&mut self, other: &B)
        requires
            old(self).wf(),
            other.wf(),
            total(old(self)@) + total(other@) <= u64::MAX,
        ensures
            final(self).wf(),
            final(self).limit() == old(self).limit(),
            final(self)@ == settled(merged(old(self)@, other@), old(self).limit()),
            total(final(self)@) == total(old(self)@) + total(other@),
    ;

    /// Removes every bin.
    fn clear(&mut self)
        requires
            old(self).wf(),
        ensures
            final(self).wf(),
            final(self).limit() == old(self).limit(),
            final(self)@ == Map::<i32, u64>::empty(),
            total(final(self)@) == 0,
    ;
}

/// An unbounded store: one bin for every index that has been added to.
#[derive(Debug)]
pub struct DenseStore {
    bins: HashMap<i32, u64>,
    total_count: u64,
}

impl View for DenseStore {
    type V = Map<i32, u64>;

    closed spec fn view(&self) -> Map<i32, u64> {
        self.bins@
    }
}

impl DenseStore {
    /// Creates an empty store.
    pub fn new() -> (store: Self)
        ensures
            store.wf(),
            store@ == Map::<i32, u64>::empty(),
            total(store@) == 0,
    {
        proof {
            lemma_sum_empty(index_start(), index_end());
        }
        DenseStore { bins: HashMap::new(), total_count: 0 }
    }

    /// Creates an empty store with room for `capacity` bins.
    pub fn with_capacity(capacity: usize) -> (store: Self)
        ensures
            store.wf(),
            store@ == Map::<i32, u64>::empty(),
            total(store@) == 0,
    {
        proof {
            lemma_sum_empty(index_start(), index_end());
        }
        DenseStore { bins: HashMap::with_capacity(capacity), total_count: 0 }
    }

    /// The number of bins.
    pub fn num_bins(&self) -> (n: usize)
        ensures
            n == self@.dom().len(),
    {
        self.bins.len()
    }
}

impl Default for DenseStore {
    fn default() -> (store: Self)
        ensures
            store.wf(),
            store@ == Map::<i32, u64>::empty(),
            total(store@) == 0,
    {
        DenseStore::new()
    }
}

impl Clone for DenseStore {
    fn clone(&self) -> (copy: Self)
        ensures
            copy@ == self@,
            self.wf() ==> copy.wf(),
    {
        DenseStore { bins: self.bins.clone(), total_count: self.total_count }
    }
}

impl Bins for DenseStore {
    open spec fn limit(&self) -> Option<nat> {
        None
    }

    closed spec fn wf(&self) -> bool {
        &&& zero_free(self.bins@)
        &&& self.total_count == total(self.bins@)
    }

    proof fn lemma_valid(&self) {
    }

    fn iter(&self) -> (entries: Vec<(i32, u64)>) {
        let mut entries: Vec<(i32, u64)> = Vec::new();
        for pair in it: self.bins.iter()
            invariant
                it.seq() == self.bins.iter().remaining(),
                it.seq().no_duplicates(),
                entries@.len() == it.index(),
                forall|i: int|
                    0 <= i < it.index() ==> entries@[i] == (*it.seq()[i].0, *it.seq()[i].1),
        {
            entries.push((*pair.0, *pair.1));
        }
        proof {
            let listing = self.bins.iter().remaining();
            assert forall|i: int, j: int| 0 <= i < j < entries@.len() implies entries@[i].0
                != entries@[j].0 by {
                assert(self.bins@.contains_key(*listing[j].0));
            }
            assert forall|k: i32| self.bins@.contains_key(k) implies entries@.contains(
                (k, self.bins@[k]),
            ) by {
                let i = choose|i: int| 0 <= i < listing.len() && listing[i] == (&k, &self.bins@[k]);
                assert(entries@[i] == (k, self.bins@[k]));
            }
        }
        entries
    }
}

impl Store for DenseStore {
    fn add(&mut self, index: i32, count: u64) {
        if count == 0 {
            return ;
        }
        proof {
            lemma_count_le_sum(self.bins@, index as int, index_start(), index_end());
        }
        let slot = self.bins.entry(index).or_insert(0);
        *slot = *slot + count;
        self.total_count = self.total_count + count;
        proof {
            lemma_sum_point(old(self).bins@, self.bins@, index as int, index_start(), index_end());
        }
    }

    fn get(&self, index: i32) -> (count: u64) {
        match self.bins.get(&index) {
            Some(count) => *count,
            None => 0,
        }
    }

    fn total_count(&self) -> (sum: u64) {
        self.total_count
    }

    fn is_empty(&self) -> (empty: bool) {
        proof {
            lemma_total_zero(self.bins@);
        }
        self.total_count == 0
    }

    fn min_index(&self) -> (lowest: Option<i32>) {
        let mut lowest: Option<i32> = None;
        for key in it: self.bins.keys()
            invariant
                it.seq() == self.bins.keys().remaining(),
                match lowest {
                    Some(k) => self.bins@.contains_key(k) && forall|j: int|
                        0 <= j < it.index() ==> k <= *it.seq()[j],
                    None => it.index() == 0,
                },
        {
            match lowest {
                Some(k) => {
                    if *key < k {
                        lowest = Some(*key);
                    }
                },
                None => {
                    lowest = Some(*key);
                },
            }
        }
        proof {
            let keys = self.bins.keys().remaining();
            if let Some(k) = lowest {
                assert forall|j: i32| self.bins@.contains_key(j) implies k <= j by {
                    // `j` is one of the keys that the loop has seen
                    let at = choose|at: int| 0 <= at < keys.unref().len() && keys.unref()[at] == j;
                }
            }
        }
        lowest
    }

    fn max_index(&self) -> (highest: Option<i32>) {
        let mut highest: Option<i32> = None;
        for key in it: self.bins.keys()
            invariant
                it.seq() == self.bins.keys().remaining(),
                match highest {
                    Some(k) => self.bins@.contains_key(k) && forall|j: int|
                        0 <= j < it.index() ==> *it.seq()[j] <= k,
                    None => it.index() == 0,
                },
        {
            match highest {
                Some(k) => {
                    if *key > k {
                        highest = Some(*key);
                    }
                },
                None => {
                    highest = Some(*key);
                },
            }
        }
        proof {
            let keys = self.bins.keys().remaining();
            if let Some(k) = highest {
                assert forall|j: i32| self.bins@.contains_key(j) implies j <= k by {
                    // `j` is one of the keys that the loop has seen
                    let at = choose|at: int| 0 <= at < keys.unref().len() && keys.unref()[at] == j;
                }
            }
        }
        highest
    }

    fn merge<B: Bins>(&mut self, other: &B) {
        let entries = other.iter();
        let ghost mut rest = other@;
        proof {
            other.lemma_valid();
        }
        let mut i: usize = 0;
        while i < entries.len()
            invariant
                i <= entries@.len(),
                self.wf(),
                lists(entries@, other@),
                zero_free(other@),
                total(self@) + total(rest) == total(old(self)@) + total(other@),
                total(old(self)@) + total(other@) <= u64::MAX,
                forall|k: i32| #[trigger]
                    rest.contains_key(k) ==> other@.contains_key(k) && rest[k] == other@[k],
                forall|j: int| i <= j < entries@.len() ==> rest.contains_key(#[trigger] entries@[j].0),
                forall|j: int| 0 <= j < i ==> !rest.contains_key(#[trigger] entries@[j].0),
                forall|k: int|
                    count_at(self@, k) + #[trigger] count_at(rest, k) == count_at(old(self)@, k)
                        + count_at(other@, k),
            decreases entries@.len() - i,
        {
            let (index, count) = entries[i];
            let ghost before = self@;
            let ghost rest_before = rest;
            proof {
                rest = rest.remove(index);
                lemma_sum_point(rest_before, rest, index as int, index_start(), index_end());
            }
            self.add(index, count);
            proof {
                assert forall|k: int|
                    count_at(self@, k) + #[trigger] count_at(rest, k) == count_at(old(self)@, k)
                        + count_at(other@, k) by {
                    if k == index {
                        lemma_count_le_sum(before, k, index_start(), index_end());
                    } else {
                        assert(count_at(rest, k) == count_at(rest_before, k));
                    }
                }
            }
            i = i + 1;
        }
        proof {
            assert(rest =~= Map::<i32, u64>::empty()) by {
                assert forall|k: i32| !rest.contains_key(k) by {
                    if rest.contains_key(k) {
                        let j = choose|j: int|
                            0 <= j < entries@.len() && entries@[j] == (k, other@[k]);
                        assert(!rest.contains_key(entries@[j].0));
                    }
                }
            }
            lemma_sum_empty(index_start(), index_end());
            assert(self@ =~= merged(old(self)@, other@)) by {
                assert forall|k: i32|
                    self@.contains_key(k) == merged(old(self)@, other@).contains_key(k) by {
                    assert(count_at(self@, k as int) + count_at(rest, k as int) == count_at(
                        old(self)@,
                        k as int,
                    ) + count_at(other@, k as int));
                }
                assert forall|k: i32| self@.contains_key(k) implies self@[k] == merged(
                    old(self)@,
                    other@,
                )[k] by {
                    assert(count_at(self@, k as int) + count_at(rest, k as int) == count_at(
                        old(self)@,
                        k as int,
                    ) + count_at(other@, k as int));
                }
            }
        }
    }

    fn clear(&mut self) {
        self.bins.clear();
        self.total_count = 0;
        proof {
            lemma_sum_empty(index_start(), index_end());
        }
    }
}

/// A bounded store: after every addition it fuses neighbouring bins until no
/// more than `max_num_bins` are left.
#[derive(Debug)]
pub struct CollapsingStore {
    store: DenseStore,
    max_num_bins: usize,
}

impl View for CollapsingStore {
    type V = Map<i32, u64>;

    closed spec fn view(&self) -> Map<i32, u64> {
        self.store@
    }
}

impl CollapsingStore {
    /// The ceiling on the number of bins.
    pub closed spec fn spec_max_num_bins(&self) -> nat {
        self.max_num_bins as nat
    }

    /// Creates an empty store that keeps at most `max_num_bins` bins.  The
    /// ceiling is at least one: a fusion needs a bin to fuse into.
    pub fn new(max_num_bins: usize) -> (store: Self)
        requires
            max_num_bins >= 1,
        ensures
            store.wf(),
            store.spec_max_num_bins() == max_num_bins,
            store@ == Map::<i32, u64>::empty(),
            total(store@) == 0,
    {
        CollapsingStore { store: DenseStore::with_capacity(max_num_bins), max_num_bins }
    }

    /// The ceiling on the number of bins.
    pub fn max_num_bins(&self) -> (n: usize)
        ensures
            n == self.spec_max_num_bins(),
    {
        self.max_num_bins
    }

    /// The number of bins.
    pub fn num_bins(&self) -> (n: usize)
        ensures
            n == self@.dom().len(),
    {
        self.store.num_bins()
    }

    /// Fuses neighbouring bins, the pair with the smallest combined count
    /// first, until the store is within its ceiling.
    fn collapse_if_needed(&mut self)
        requires
            old(self).store.wf(),
            old(self).max_num_bins >= 1,
        ensures
            final(self).wf(),
            final(self).max_num_bins == old(self).max_num_bins,
            final(self)@ == collapsed(old(self)@, old(self).max_num_bins as nat),
    {
        proof {
            self.store.lemma_valid();
        }
        if self.store.bins.len() <= self.max_num_bins {
            proof {
                lemma_collapsed(self.store@, self.max_num_bins as nat);
            }
            return ;
        }
        let mut sorted_indices = sorted_indices(&self.store);
        while sorted_indices.len() > self.max_num_bins
            invariant
                self.max_num_bins == old(self).max_num_bins,
                self.max_num_bins >= 1,
                self.store.wf(),
                ascending(sorted_indices@, self.store.bins@),
                sorted_indices@.len() == self.store.bins@.dom().len(),
                collapsed(self.store.bins@, self.max_num_bins as nat) == collapsed(
                    old(self).store.bins@,
                    self.max_num_bins as nat,
                ),
            decreases sorted_indices@.len(),
        {
            let ghost bins = self.store.bins@;
            let ghost keys = sorted_indices@;
            let merge_index = self.merge_index(&sorted_indices);
            let index1 = sorted_indices[merge_index];
            let index2 = sorted_indices[merge_index + 1];
            proof {
                self.store.lemma_valid();
                lemma_fused(bins, index1, index2);
                lemma_collapsed_step(bins, self.max_num_bins as nat, index1, index2);
                lemma_ascending_fused(keys, bins, merge_index as int);
            }
            let count1 = self.store.get(index1);
            let count2 = self.store.get(index2);
            self.store.bins.remove(&index2);
            self.store.bins.insert(index1, count1 + count2);
            sorted_indices.remove(merge_index + 1);
        }
        proof {
            self.store.lemma_valid();
            lemma_collapsed(self.store.bins@, self.max_num_bins as nat);
        }
    }

    /// The position, in the ascending list of the indices, of the lower bin of
    /// the pair to fuse next: the first pair with the smallest combined count.
    fn merge_index(&self, sorted_indices: &Vec<i32>) -> (merge_index: usize)
        requires
            self.store.wf(),
            ascending(sorted_indices@, self.store.bins@),
            sorted_indices@.len() >= 2,
        ensures
            merge_index + 1 < sorted_indices@.len(),
            fuse_pair(
                self.store.bins@,
                sorted_indices@[merge_index as int],
                sorted_indices@[merge_index + 1],
            ),
    {
        let ghost bins = self.store.bins@;
        let ghost keys = sorted_indices@;
        proof {
            self.store.lemma_valid();
            lemma_consecutive_adjacent(keys, bins, 0);
            lemma_fused(bins, keys[0], keys[1]);
        }
        let mut merge_index: usize = 0;
        let mut min_combined_count: u64 = self.store.get(sorted_indices[0]) + self.store.get(
            sorted_indices[1],
        );
        let mut i: usize = 1;
        while i < sorted_indices.len() - 1
            invariant
                1 <= i <= keys.len() - 1,
                merge_index < i,
                sorted_indices@ == keys,
                self.store.bins@ == bins,
                self.store.wf(),
                bins.dom().finite(),
                zero_free(bins),
                total(bins) <= u64::MAX,
                ascending(keys, bins),
                lowest_so_far(keys, bins, merge_index as int, i as int),
                min_combined_count == combined(bins, keys[merge_index as int], keys[merge_index + 1]),
            decreases keys.len() - i,
        {
            proof {
                lemma_consecutive_adjacent(keys, bins, i as int);
                lemma_fused(bins, keys[i as int], keys[i + 1]);
            }
            let count1 = self.store.get(sorted_indices[i]);
            let count2 = self.store.get(sorted_indices[i + 1]);
            let combined_count = count1 + count2;
            if combined_count < min_combined_count {
                min_combined_count = combined_count;
                merge_index = i;
            }
            i = i + 1;
        }
        proof {
            lemma_lowest_is_fuse_pair(keys, bins, merge_index as int);
        }
        merge_index
    }
}

impl Clone for CollapsingStore {
    fn clone(&self) -> (copy: Self)
        ensures
            copy@ == self@,
            copy.spec_max_num_bins() == self.spec_max_num_bins(),
            self.wf() ==> copy.wf(),
    {
        CollapsingStore { store: self.store.clone(), max_num_bins: self.max_num_bins }
    }
}

impl Bins for CollapsingStore {
    open spec fn limit(&self) -> Option<nat> {
        Some(self.spec_max_num_bins())
    }

    closed spec fn wf(&self) -> bool {
        &&& self.store.wf()
        &&& self.max_num_bins >= 1
        &&& self.store@.dom().len() <= self.max_num_bins
    }

    proof fn lemma_valid(&self) {
        self.store.lemma_valid();
    }

    fn iter(&self) -> (entries: Vec<(i32, u64)>) {
        self.store.iter()
    }
}

impl Store for CollapsingStore {
    fn add(&mut self, index: i32, count: u64) {
        self.store.add(index, count);
        proof {
            self.store.lemma_valid();
            lemma_collapsed(self.store@, self.spec_max_num_bins());
        }
        self.collapse_if_needed();
    }

    fn get(&self, index: i32) -> (count: u64) {
        self.store.get(index)
    }

    fn total_count(&self) -> (sum: u64) {
        self.store.total_count()
    }

    fn is_empty(&self) -> (empty: bool) {
        self.store.is_empty()
    }

    fn min_index(&self) -> (lowest: Option<i32>) {
        self.store.min_index()
    }

    fn max_index(&self) -> (highest: Option<i32>) {
        self.store.max_index()
    }

    fn merge<B: Bins>(&mut self, other: &B) {
        self.store.merge(other);
        proof {
            self.store.lemma_valid();
            lemma_collapsed(self.store@, self.spec_max_num_bins());
        }
        self.collapse_if_needed();
    }

    fn clear(&mut self) {
        self.store.clear();
    }
}

/// Either kind of store, chosen when a sketch is built.
#[derive(Debug)]
pub enum SketchStore {
    /// A store without a ceiling.
    Dense(DenseStore),
    /// A store that keeps within a ceiling by fusing bins.
    Collapsing(CollapsingStore),
}

impl View for SketchStore {
    type V = Map<i32, u64>;

    open spec fn view(&self) -> Map<i32, u64> {
        match self {
            SketchStore::Dense(store) => store@,
            SketchStore::Collapsing(store) => store@,
        }
    }
}

impl Clone for SketchStore {
    fn clone(&self) -> (copy: Self)
        ensures
            copy@ == self@,
            copy.limit() == self.limit(),
            self.wf() ==> copy.wf(),
    {
        match self {
            SketchStore::Dense(store) => SketchStore::Dense(store.clone()),
            SketchStore::Collapsing(store) => SketchStore::Collapsing(store.clone()),
        }
    }
}

impl Bins for SketchStore {
    open spec fn limit(&self) -> Option<nat> {
        match self {
            SketchStore::Dense(store) => store.limit(),
            SketchStore::Collapsing(store) => store.limit(),
        }
    }

    open spec fn wf(&self) -> bool {
        match self {
            SketchStore::Dense(store) => store.wf(),
            SketchStore::Collapsing(store) => store.wf(),
        }
    }

    proof fn lemma_valid(&self) {
        match self {
            SketchStore::Dense(store) => store.lemma_valid(),
            SketchStore::Collapsing(store) => store.lemma_valid(),
        }
    }

    fn iter(&self) -> (entries: Vec<(i32, u64)>) {
        match self {
            SketchStore::Dense(store) => store.iter(),
            SketchStore::Collapsing(store) => store.iter(),
        }
    }
}

impl Store for SketchStore {
    fn add(&mut self, index: i32, count: u64) {
        match self {
            SketchStore::Dense(store) => store.add(index, count),
            SketchStore::Collapsing(store) => store.add(index, count),
        }
    }

    fn get(&self, index: i32) -> (count: u64) {
        match self {
            SketchStore::Dense(store) => store.get(index),
            SketchStore::Collapsing(store) => store.get(index),
        }
    }

    fn total_count(&self) -> (sum: u64) {
        match self {
            SketchStore::Dense(store) => store.total_count(),
            SketchStore::Collapsing(store) => store.total_count(),
        }
    }

    fn is_empty(&self) -> (empty: bool) {
        match self {
            SketchStore::Dense(store) => store.is_empty(),
            SketchStore::Collapsing(store) => store.is_empty(),
        }
    }

    fn min_index(&self) -> (lowest: Option<i32>) {
        match self {
            SketchStore::Dense(store) => store.min_index(),
            SketchStore::Collapsing(store) => store.min_index(),
        }
    }

    fn max_index(&self) -> (highest: Option<i32>) {
        match self {
            SketchStore::Dense(store) => store.max_index(),
            SketchStore::Collapsing(store) => store.max_index(),
        }
    }

    fn merge<B: Bins>(&mut self, other: &B) {
        match self {
            SketchStore::Dense(store) => store.merge(other),
            SketchStore::Collapsing(store) => store.merge(other),
        }
    }

    fn clear(&mut self) {
        match self {
            SketchStore::Dense(store) => store.clear(),
            SketchStore::Collapsing(store) => store.clear(),
        }
    }
}

/// The indices of the bins of `store`, in ascending order.
pub fn sorted_indices<B: Bins>(store: &B) -> (keys: Vec<i32>)
    requires
        store.wf(),
    ensures
        ascending(keys@, store@),
        keys@.len() == store@.dom().len(),
{
    let entries = store.iter();
    let keys = ascending_indices(&entries);
    proof {
        assert forall|i: int| 0 <= i < keys@.len() implies store@.contains_key(
            #[trigger] keys@[i],
        ) by {
            // the entry that names the key
            let j = choose|j: int| 0 <= j < entries@.len() && #[trigger] entries@[j].0 == keys@[i];
        }
        assert forall|k: i32| #[trigger] store@.contains_key(k) implies keys@.contains(k) by {
            let j = choose|j: int| 0 <= j < entries@.len() && entries@[j] == (k, store@[k]);
            assert(keys@.contains(entries@[j].0));
        }
    }
    keys
}

/// The indices that `entries` names, in ascending order.
fn ascending_indices(entries: &Vec<(i32, u64)>) -> (keys: Vec<i32>)
    requires
        forall|i: int, j: int|
            0 <= i < j < entries@.len() ==> #[trigger] entries@[i].0 != #[trigger] entries@[j].0,
    ensures
        keys@.len() == entries@.len(),
        forall|i: int, j: int| 0 <= i < j < keys@.len() ==> keys@[i] < keys@[j],
        forall|i: int| 0 <= i < entries@.len() ==> keys@.contains(#[trigger] entries@[i].0),
        forall|j: int| 0 <= j < keys@.len() ==> mentions(entries@, #[trigger] keys@[j]),
{
    let mut keys: Vec<i32> = Vec::new();
    let mut n: usize = 0;
    while n < entries.len()
        invariant
            n <= entries@.len(),
            keys@.len() == n,
            forall|i: int, j: int|
                0 <= i < j < entries@.len() ==> #[trigger] entries@[i].0 != #[trigger] entries@[j].0,
            forall|i: int, j: int| 0 <= i < j < keys@.len() ==> keys@[i] < keys@[j],
            forall|i: int| 0 <= i < n ==> keys@.contains(#[trigger] entries@[i].0),
            forall|j: int|
                0 <= j < keys@.len() ==> mentions(entries@.take(n as int), #[trigger] keys@[j]),
        decreases entries@.len() - n,
    {
        let key = entries[n].0;
        // Find by bisection where the key belongs among the keys so far.
        let mut at: usize = 0;
        let mut end: usize = keys.len();
        while at < end
            invariant
                at <= end <= keys@.len(),
                forall|i: int, j: int| 0 <= i < j < keys@.len() ==> keys@[i] < keys@[j],
                forall|j: int| 0 <= j < at ==> keys@[j] < key,
                forall|j: int| end <= j < keys@.len() ==> key <= keys@[j],
            decreases end - at,
        {
            let middle = at + (end - at) / 2;
            if keys[middle] < key {
                at = middle + 1;
            } else {
                end = middle;
            }
        }
        let ghost before = keys@;
        keys.insert(at, key);
        proof {
            assert forall|j: int| 0 <= j < before.len() implies before[j] != key by {
                // the earlier entry that names `before[j]` has another key
                let i = choose|i: int|
                    0 <= i < n && #[trigger] entries@.take(n as int)[i].0 == before[j];
            }
            assert forall|i: int| 0 <= i < n + 1 implies keys@.contains(
                #[trigger] entries@[i].0,
            ) by {
                if i < n {
                    let j = choose|j: int| 0 <= j < before.len() && before[j] == entries@[i].0;
                    if j < at {
                        assert(keys@[j] == entries@[i].0);
                    } else {
                        assert(keys@[j + 1] == entries@[i].0);
                    }
                } else {
                    assert(keys@[at as int] == key);
                }
            }
            let seen = entries@.take(n as int);
            let seen_next = entries@.take(n + 1);
            assert forall|j: int| 0 <= j < keys@.len() implies mentions(
                seen_next,
                #[trigger] keys@[j],
            ) by {
                if j == at {
                    assert(seen_next[n as int].0 == keys@[j]);
                } else {
                    let old_key = if j < at {
                        before[j]
                    } else {
                        before[j - 1]
                    };
                    // the earlier entry that names the key
                    let i = choose|i: int| 0 <= i < seen.len() && #[trigger] seen[i].0 == old_key;
                }
            }
        }
        n = n + 1;
    }
    keys
}

} // verus!
