//! The sketch: one store for the positive observations, one for the negative
//! ones (indexed by their absolute value), a counter for the zeros, and the
//! least and greatest observation seen.
//!
//! The sketch does no floating-point arithmetic.  Its callers hand it, with
//! each number, what only such arithmetic gives: with an observation the
//! bucket index of its absolute value, with a quantile the rank that it
//! stands for, and with a sketch to merge the distance between the two
//! relative accuracies.

use vstd::prelude::*;
use crate::DDSketchError;
use crate::collapse::{ascending, settled};
use crate::counts::{
    added, count_at, index_end, index_start, lemma_sum_empty, lemma_sum_gap, lemma_sum_split,
    lists, merged, sum_between, total, valid_bins, weight_below, weight_from,
};
use crate::double::{Double, ONE_BITS, TOLERANCE_BITS};
use crate::laws::lemma_rank_in_range;
use crate::store::{sorted_indices, Bins, CollapsingStore, DenseStore, SketchStore, Store};

verus! {

/// The bucket that an observation is counted in: its sign and, unless it is
/// zero, the index of its absolute value.
#[derive(Debug, Clone, Copy, PartialEq, Eq, Structural)]
pub enum Bucket {
    /// A negative observation whose absolute value has the given index.
    Negative(i32),
    /// The observation zero.
    Zero,
    /// A positive observation with the given index.
    Positive(i32),
}

impl Bucket {
    /// The order of the buckets by the values they stand for: negative
    /// buckets before zero before positive ones, negative buckets by
    /// descending index and positive buckets by ascending index.
    pub open spec fn le(self, other: Bucket) -> bool {
        match (self, other) {
            (Bucket::Negative(i), Bucket::Negative(j)) => i >= j,
            (Bucket::Negative(_), _) => true,
            (Bucket::Zero, Bucket::Negative(_)) => false,
            (Bucket::Zero, _) => true,
            (Bucket::Positive(i), Bucket::Positive(j)) => i <= j,
            (Bucket::Positive(_), _) => false,
        }
    }
}

/// Where the answer to a quantile query is found.
#[derive(Debug, Clone, Copy)]
pub enum Estimate {
    /// In the given bucket: the answer is the value that the bucket stands for.
    Bucket(Bucket),
    /// Past all buckets: the answer is the greatest observation, given here.
    Maximum(Double),
}

/// A relative accuracy that a sketch can be built with: a number strictly
/// between zero and one.
pub open spec fn valid_accuracy(relative_accuracy: Double) -> bool {
    Double(0).lt(relative_accuracy) && relative_accuracy.lt(Double(ONE_BITS))
}

/// A quantile that can be asked for: a number from zero to one.
pub open spec fn valid_quantile(quantile: Double) -> bool {
    Double(0).le(quantile) && quantile.le(Double(ONE_BITS))
}

/// Two relative accuracies this far apart count as equal: their distance is
/// a number and at most 1e-10.
pub open spec fn within_tolerance(accuracy_gap: Double) -> bool {
    accuracy_gap.le(Double(TOLERANCE_BITS))
}

/// The bucket that counts an observation, given the index that the mapping
/// found for its absolute value.  Zero needs no index.  A number that is
/// neither zero nor positive is counted with the negative ones.  Where the
/// mapping failed, no bucket counts the observation.
pub open spec fn bucket_of(value: Double, key: Result<i32, DDSketchError>) -> Option<Bucket> {
    if value.is_zero() {
        Some(Bucket::Zero)
    } else {
        match key {
            Ok(index) => Some(
                if value.is_positive() {
                    Bucket::Positive(index)
                } else {
                    Bucket::Negative(index)
                },
            ),
            Err(_) => None,
        }
    }
}

/// The least of the observations seen so far and one more.
pub open spec fn least(seen: Option<Double>, value: Double) -> Double {
    match seen {
        Some(least) => least.min(value),
        None => value,
    }
}

/// The greatest of the observations seen so far and one more.
pub open spec fn greatest(seen: Option<Double>, value: Double) -> Double {
    match seen {
        Some(greatest) => greatest.max(value),
        None => value,
    }
}

/// The least observation of two sketches together.
pub open spec fn least_of_both(mine: Option<Double>, theirs: Option<Double>) -> Option<Double> {
    match theirs {
        Some(value) => Some(least(mine, value)),
        None => mine,
    }
}

/// The greatest observation of two sketches together.
pub open spec fn greatest_of_both(mine: Option<Double>, theirs: Option<Double>) -> Option<
    Double,
> {
    match theirs {
        Some(value) => Some(greatest(mine, value)),
        None => mine,
    }
}

/// Accepts a relative accuracy that is strictly between zero and one, and
/// refuses every other.
pub fn check_relative_accuracy(relative_accuracy: Double) -> (result: Result<(), DDSketchError>)
    ensures
        valid_accuracy(relative_accuracy) ==> result is Ok,
        !valid_accuracy(relative_accuracy) ==> result == Err::<(), DDSketchError>(
            DDSketchError::InvalidRelativeAccuracy,
        ),
{
    if Double::zero().lt(relative_accuracy) && relative_accuracy.lt(Double::one()) {
        Ok(())
    } else {
        Err(DDSketchError::InvalidRelativeAccuracy)
    }
}

/// What a sketch holds.
pub struct SketchView {
    /// The relative accuracy that the sketch was built with.
    pub relative_accuracy: Double,
    /// The bins of the positive observations.
    pub positive: Map<i32, u64>,
    /// The bins of the negative observations, by the index of their absolute value.
    pub negative: Map<i32, u64>,
    /// The number of observations that are zero.
    pub zero_count: nat,
    /// The least observation, once there is one.
    pub min: Option<Double>,
    /// The greatest observation, once there is one.
    pub max: Option<Double>,
    /// The ceiling on the number of bins of either store, if there is one.
    pub limit: Option<nat>,
}

impl SketchView {
    /// The sketch without observations.
    pub open spec fn empty(relative_accuracy: Double, limit: Option<nat>) -> SketchView {
        SketchView {
            relative_accuracy,
            positive: Map::empty(),
            negative: Map::empty(),
            zero_count: 0,
            min: None,
            max: None,
            limit,
        }
    }

    /// The number of observations.
    pub open spec fn count(self) -> nat {
        total(self.positive) + total(self.negative) + self.zero_count
    }

    /// The relative accuracy is valid, both stores are valid, the number of
    /// observations fits in 64 bits, and where there is an observation there
    /// is a least and a greatest one.
    pub open spec fn valid(self) -> bool {
        &&& valid_accuracy(self.relative_accuracy)
        &&& valid_bins(self.positive, self.limit)
        &&& valid_bins(self.negative, self.limit)
        &&& self.count() <= u64::MAX
        &&& self.count() > 0 ==> self.min is Some && self.max is Some
    }

    /// The sketch after `count` more observations are counted in `bucket`.
    pub open spec fn counted(self, bucket: Bucket, count: nat) -> SketchView {
        match bucket {
            Bucket::Negative(index) => SketchView {
                negative: settled(added(self.negative, index as int, count), self.limit),
                ..self
            },
            Bucket::Zero => SketchView { zero_count: self.zero_count + count, ..self },
            Bucket::Positive(index) => SketchView {
                positive: settled(added(self.positive, index as int, count), self.limit),
                ..self
            },
        }
    }

    /// The sketch after `count` observations of `value` have been added,
    /// where `key` is what the mapping found for the absolute value.  Nothing
    /// changes where `count` is zero.  Otherwise the least and the greatest
    /// observation take `value` in, and the observations are counted in the
    /// bucket of `value`, or not counted where the mapping failed.
    pub open spec fn ingest(
        self,
        value: Double,
        key: Result<i32, DDSketchError>,
        count: nat,
    ) -> SketchView {
        if count == 0 {
            self
        } else {
            let seen = SketchView {
                min: Some(least(self.min, value)),
                max: Some(greatest(self.max, value)),
                ..self
            };
            match bucket_of(value, key) {
                Some(bucket) => seen.counted(bucket, count),
                None => seen,
            }
        }
    }

    /// The sketch after all observations of `other` have been added to it.
    pub open spec fn union(self, other: SketchView) -> SketchView {
        SketchView {
            relative_accuracy: self.relative_accuracy,
            positive: settled(merged(self.positive, other.positive), self.limit),
            negative: settled(merged(self.negative, other.negative), self.limit),
            zero_count: self.zero_count + other.zero_count,
            min: least_of_both(self.min, other.min),
            max: greatest_of_both(self.max, other.max),
            limit: self.limit,
        }
    }

    /// `hit` is where the observation of the given rank lies when the
    /// observations are lined up in ascending order, ranks counted from zero:
    /// the bucket whose observations take the ranks around `rank`, or `None`
    /// where the sketch has no observation of that rank.
    pub open spec fn holds_rank(self, rank: nat, hit: Option<Bucket>) -> bool {
        let negatives = total(self.negative);
        let up_to_zero = negatives + self.zero_count;
        match hit {
            Some(Bucket::Negative(index)) => weight_from(self.negative, index + 1) <= rank
                < weight_from(self.negative, index as int),
            Some(Bucket::Zero) => negatives <= rank < up_to_zero,
            Some(Bucket::Positive(index)) => up_to_zero + weight_below(self.positive, index as int)
                <= rank < up_to_zero + weight_below(self.positive, index + 1),
            None => self.count() <= rank,
        }
    }

    /// `result` is the answer to the query for `quantile`, which stands for
    /// the given rank.  A quantile outside zero to one is refused, then an
    /// empty sketch.  Otherwise the answer is the bucket that holds the rank,
    /// or the greatest observation where no bucket does.
    pub open spec fn answers(
        self,
        quantile: Double,
        rank: nat,
        result: Result<Estimate, DDSketchError>,
    ) -> bool {
        if !valid_quantile(quantile) {
            result matches Err(DDSketchError::InvalidQuantile)
        } else if self.count() == 0 {
            result matches Err(DDSketchError::EmptySketch)
        } else {
            match result {
                Ok(Estimate::Bucket(bucket)) => self.holds_rank(rank, Some(bucket)),
                Ok(Estimate::Maximum(greatest)) => self.holds_rank(rank, None) && self.max == Some(
                    greatest,
                ),
                Err(_) => false,
            }
        }
    }
}

/// A quantile sketch.
#[derive(Debug)]
pub struct DDSketch {
    relative_accuracy: Double,
    store: SketchStore,
    zero_count: u64,
    negative_store: SketchStore,
    min_value: Option<Double>,
    max_value: Option<Double>,
}

impl View for DDSketch {
    type V = SketchView;

    closed spec fn view(&self) -> SketchView {
        SketchView {
            relative_accuracy: self.relative_accuracy,
            positive: self.store@,
            negative: self.negative_store@,
            zero_count: self.zero_count as nat,
            min: self.min_value,
            max: self.max_value,
            limit: self.store.limit(),
        }
    }
}

impl DDSketch {
    /// The sketch's internal bookkeeping is consistent.
    pub closed spec fn wf(&self) -> bool {
        &&& valid_accuracy(self.relative_accuracy)
        &&& self.store.wf()
        &&& self.negative_store.wf()
        &&& self.store.limit() == self.negative_store.limit()
        &&& total(self.store@) + total(self.negative_store@) + self.zero_count <= u64::MAX
        &&& total(self.store@) + total(self.negative_store@) + self.zero_count > 0
            ==> self.min_value is Some && self.max_value is Some
    }

    /// What a consistent sketch guarantees about its contents.
    pub proof fn lemma_valid(&self)
        requires
            self.wf(),
        ensures
            self@.valid(),
    {
        self.store.lemma_valid();
        self.negative_store.lemma_valid();
    }

    /// Creates an empty sketch with unbounded stores, unless the relative
    /// accuracy is not strictly between zero and one.
    pub fn new(relative_accuracy: Double) -> (result: Result<Self, DDSketchError>)
        ensures
            match result {
                Ok(sketch) => {
                    &&& valid_accuracy(relative_accuracy)
                    &&& sketch.wf()
                    &&& sketch@ == SketchView::empty(relative_accuracy, None)
                    &&& sketch@.count() == 0
                },
                Err(error) => {
                    &&& !valid_accuracy(relative_accuracy)
                    &&& error == DDSketchError::InvalidRelativeAccuracy
                },
            },
    {
        match check_relative_accuracy(relative_accuracy) {
            Ok(_) => {},
            Err(error) => {
                return Err(error);
            },
        }
        proof {
            lemma_sum_empty(index_start(), index_end());
        }
        Ok(
            DDSketch {
                relative_accuracy,
                store: SketchStore::Dense(DenseStore::new()),
                zero_count: 0,
                negative_store: SketchStore::Dense(DenseStore::new()),
                min_value: None,
                max_value: None,
            },
        )
    }

    /// Creates an empty sketch whose stores keep at most `max_num_bins` bins
    /// each, unless the relative accuracy is not strictly between zero and
    /// one.
    pub fn with_max_bins(relative_accuracy: Double, max_num_bins: usize) -> (result: Result<
        Self,
        DDSketchError,
    >)
        requires
            max_num_bins >= 1,
        ensures
            match result {
                Ok(sketch) => {
                    &&& valid_accuracy(relative_accuracy)
                    &&& sketch.wf()
                    &&& sketch@ == SketchView::empty(relative_accuracy, Some(max_num_bins as nat))
                    &&& sketch@.count() == 0
                },
                Err(error) => {
                    &&& !valid_accuracy(relative_accuracy)
                    &&& error == DDSketchError::InvalidRelativeAccuracy
                },
            },
    {
        match check_relative_accuracy(relative_accuracy) {
            Ok(_) => {},
            Err(error) => {
                return Err(error);
            },
        }
        proof {
            lemma_sum_empty(index_start(), index_end());
        }
        Ok(
            DDSketch {
                relative_accuracy,
                store: SketchStore::Collapsing(CollapsingStore::new(max_num_bins)),
                zero_count: 0,
                negative_store: SketchStore::Collapsing(CollapsingStore::new(max_num_bins)),
                min_value: None,
                max_value: None,
            },
        )
    }

    /// Adds one observation of `value`, where `key` is what the mapping
    /// found for the absolute value of `value`.
    pub fn add(&mut self, value: Double, key: Result<i32, DDSketchError>)
        requires
            old(self).wf(),
            old(self)@.count() + 1 <= u64::MAX,
        ensures
            final(self).wf(),
            final(self)@ == old(self)@.ingest(value, key, 1),
            final(self)@.count() == old(self)@.count() + if bucket_of(value, key) is Some {
                1nat
            } else {
                0nat
            },
    {
        self.add_with_count(value, key, 1);
    }

    /// Adds `count` observations of `value`, where `key` is what the mapping
    /// found for the absolute value of `value`.  Nothing changes where
    /// `count` is zero.  Where the mapping failed, the observations are not
    /// counted, but still seen as the least or greatest.
    pub fn add_with_count(&mut self, value: Double, key: Result<i32, DDSketchError>, count: u64)
        requires
            old(self).wf(),
            old(self)@.count() + count <= u64::MAX,
        ensures
            final(self).wf(),
            final(self)@ == old(self)@.ingest(value, key, count as nat),
            final(self)@.count() == old(self)@.count() + if bucket_of(value, key) is Some {
                count as nat
            } else {
                0nat
            },
    {
        if count == 0 {
            return ;
        }
        self.min_value = Some(
            match self.min_value {
                Some(min) => min.min(value),
                None => value,
            },
        );
        self.max_value = Some(
            match self.max_value {
                Some(max) => max.max(value),
                None => value,
            },
        );
        if value.is_zero() {
            self.zero_count = self.zero_count + count;
        } else if value.is_positive() {
            if let Ok(index) = key {
                self.store.add(index, count);
            }
        } else {
            if let Ok(index) = key {
                self.negative_store.add(index, count);
            }
        }
    }

    /// The number of observations.
    pub fn count(&self) -> (n: u64)
        requires
            self.wf(),
        ensures
            n == self@.count(),
    {
        self.store.total_count() + self.zero_count + self.negative_store.total_count()
    }

    /// Whether the sketch holds no observation.
    pub fn is_empty(&self) -> (empty: bool)
        requires
            self.wf(),
        ensures
            empty == (self@.count() == 0),
    {
        self.count() == 0
    }

    /// The least observation, once there is one.
    pub fn min(&self) -> (least: Option<Double>)
        ensures
            least == self@.min,
    {
        self.min_value
    }

    /// The greatest observation, once there is one.
    pub fn max(&self) -> (greatest: Option<Double>)
        ensures
            greatest == self@.max,
    {
        self.max_value
    }

    /// The relative accuracy that the sketch was built with.
    pub fn relative_accuracy(&self) -> (relative_accuracy: Double)
        ensures
            relative_accuracy == self@.relative_accuracy,
    {
        self.relative_accuracy
    }

    /// The number of observations that are zero.
    pub fn zero_count(&self) -> (n: u64)
        ensures
            n == self@.zero_count,
    {
        self.zero_count
    }

    /// The bins of the positive observations as pairs of index and count, in
    /// no particular order.
    pub fn positive_bins(&self) -> (entries: Vec<(i32, u64)>)
        requires
            self.wf(),
        ensures
            lists(entries@, self@.positive),
    {
        self.store.iter()
    }

    /// The bins of the negative observations as pairs of index and count, in
    /// no particular order.  The index is that of the absolute value.
    pub fn negative_bins(&self) -> (entries: Vec<(i32, u64)>)
        requires
            self.wf(),
        ensures
            lists(entries@, self@.negative),
    {
        self.negative_store.iter()
    }

    /// Answers the query for `quantile`, where `rank` is the product of the
    /// quantile and the number of observations, rounded toward zero.
    ///
    /// The observations are lined up in ascending order: the negative buckets
    /// by descending index, then the zeros, then the positive buckets by
    /// ascending index.  The answer is the first bucket up to which more than
    /// `rank` observations are counted, or the greatest observation where
    /// `rank` is not below the number of observations.
    pub fn get_quantile_value(&self, quantile: Double, rank: u64) -> (result: Result<
        Estimate,
        DDSketchError,
    >)
        requires
            self.wf(),
        ensures
            self@.answers(quantile, rank as nat, result),
            result matches Ok(Estimate::Bucket(_)) ==> rank < self@.count(),
            result matches Ok(Estimate::Maximum(_)) ==> rank >= self@.count(),
    {
        if !(Double::zero().le(quantile) && quantile.le(Double::one())) {
            return Err(DDSketchError::InvalidQuantile);
        }
        if self.is_empty() {
            return Err(DDSketchError::EmptySketch);
        }
        proof {
            self.store.lemma_valid();
            self.negative_store.lemma_valid();
            assert forall|hit: Option<Bucket>| #[trigger]
                self@.holds_rank(rank as nat, hit) implies (hit is Some <==> rank
                < self@.count()) by {
                lemma_rank_in_range(self@, rank as nat, hit);
            }
        }
        let mut current_rank: u64 = 0;
        if !self.negative_store.is_empty() {
            match walk_down(&self.negative_store, rank) {
                Some(index) => {
                    assert(self@.holds_rank(rank as nat, Some(Bucket::Negative(index))));
                    return Ok(Estimate::Bucket(Bucket::Negative(index)));
                },
                None => {},
            }
            current_rank = self.negative_store.total_count();
        } else {
            proof {
                lemma_sum_empty(index_start(), index_end());
            }
        }
        if current_rank + self.zero_count > rank {
            return Ok(Estimate::Bucket(Bucket::Zero));
        }
        current_rank = current_rank + self.zero_count;
        if !self.store.is_empty() {
            match walk_up(&self.store, rank - current_rank) {
                Some(index) => {
                    assert(self@.holds_rank(rank as nat, Some(Bucket::Positive(index))));
                    return Ok(Estimate::Bucket(Bucket::Positive(index)));
                },
                None => {},
            }
        } else {
            proof {
                lemma_sum_empty(index_start(), index_end());
            }
        }
        match self.max_value {
            Some(greatest) => Ok(Estimate::Maximum(greatest)),
            None => Err(DDSketchError::EmptySketch),
        }
    }

    /// Answers the queries in the order given, each a quantile with the rank
    /// that it stands for, and stops at the first that fails.
    pub fn get_quantile_values(&self, queries: &[(Double, u64)]) -> (result: Result<
        Vec<Estimate>,
        DDSketchError,
    >)
        requires
            self.wf(),
        ensures
            match result {
                Ok(estimates) => {
                    &&& estimates@.len() == queries@.len()
                    &&& forall|i: int|
                        0 <= i < queries@.len() ==> self@.answers(
                            queries@[i].0,
                            queries@[i].1 as nat,
                            Ok(#[trigger] estimates@[i]),
                        )
                },
                Err(error) => exists|i: int|
                    {
                        &&& 0 <= i < queries@.len()
                        &&& self@.answers(#[trigger] queries@[i].0, queries@[i].1 as nat, Err(error))
                        &&& forall|j: int|
                            0 <= j < i ==> valid_quantile(#[trigger] queries@[j].0) && self@.count()
                                > 0
                    },
            },
    {
        let mut estimates: Vec<Estimate> = Vec::new();
        let mut i: usize = 0;
        while i < queries.len()
            invariant
                self.wf(),
                i <= queries@.len(),
                estimates@.len() == i,
                forall|j: int|
                    0 <= j < i ==> self@.answers(
                        queries@[j].0,
                        queries@[j].1 as nat,
                        Ok(#[trigger] estimates@[j]),
                    ),
                forall|j: int|
                    0 <= j < i ==> valid_quantile(#[trigger] queries@[j].0) && self@.count() > 0,
            decreases queries@.len() - i,
        {
            let (quantile, rank) = queries[i];
            match self.get_quantile_value(quantile, rank) {
                Ok(estimate) => {
                    estimates.push(estimate);
                },
                Err(error) => {
                    return Err(error);
                },
            }
            i = i + 1;
        }
        Ok(estimates)
    }

    /// Adds all observations of `other` to this sketch, unless the two
    /// relative accuracies differ by more than the tolerance;
    /// `accuracy_gap` is the absolute difference between them.  A refused
    /// merge changes nothing.
    pub fn merge(&mut self, other: &DDSketch, accuracy_gap: Double) -> (result: Result<
        (),
        DDSketchError,
    >)
        requires
            old(self).wf(),
            other.wf(),
            within_tolerance(accuracy_gap) ==> old(self)@.count() + other@.count() <= u64::MAX,
        ensures
            final(self).wf(),
            match result {
                Ok(_) => {
                    &&& within_tolerance(accuracy_gap)
                    &&& final(self)@ == old(self)@.union(other@)
                    &&& final(self)@.count() == old(self)@.count() + other@.count()
                },
                Err(error) => {
                    &&& !within_tolerance(accuracy_gap)
                    &&& error == DDSketchError::IncompatibleSketches
                    &&& final(self)@ == old(self)@
                },
            },
    {
        if !accuracy_gap.le(Double(TOLERANCE_BITS)) {
            return Err(DDSketchError::IncompatibleSketches);
        }
        self.store.merge(&other.store);
        self.negative_store.merge(&other.negative_store);
        self.zero_count = self.zero_count + other.zero_count;
        if let Some(other_min) = other.min_value {
            self.min_value = Some(
                match self.min_value {
                    Some(min) => min.min(other_min),
                    None => other_min,
                },
            );
        }
        if let Some(other_max) = other.max_value {
            self.max_value = Some(
                match self.max_value {
                    Some(max) => max.max(other_max),
                    None => other_max,
                },
            );
        }
        Ok(())
    }

    /// Removes all observations: both stores and the zero counter are
    /// emptied, and the least and greatest observation forgotten.
    pub fn clear(&mut self)
        requires
            old(self).wf(),
        ensures
            final(self).wf(),
            final(self)@ == SketchView::empty(old(self)@.relative_accuracy, old(self)@.limit),
            final(self)@.count() == 0,
    {
        self.store.clear();
        self.negative_store.clear();
        self.zero_count = 0;
        self.min_value = None;
        self.max_value = None;
        proof {
            lemma_sum_empty(index_start(), index_end());
        }
    }
}

impl Clone for DDSketch {
    fn clone(&self) -> (copy: Self)
        ensures
            copy@ == self@,
            self.wf() ==> copy.wf(),
    {
        DDSketch {
            relative_accuracy: self.relative_accuracy,
            store: self.store.clone(),
            zero_count: self.zero_count,
            negative_store: self.negative_store.clone(),
            min_value: self.min_value,
            max_value: self.max_value,
        }
    }
}

/// Walks the bins from the highest index down and finds the first bin up to
/// which more than `rank` observations are counted.
fn walk_down(store: &SketchStore, rank: u64) -> (hit: Option<i32>)
    requires
        store.wf(),
    ensures
        match hit {
            Some(index) => weight_from(store@, index + 1) <= rank < weight_from(store@, index as int),
            None => total(store@) <= rank,
        },
{
    let indices = sorted_indices(store);
    let ghost bins = store@;
    proof {
        store.lemma_valid();
        lemma_sum_empty(index_end(), index_end());
    }
    let mut current_rank: u64 = 0;
    let mut left: usize = indices.len();
    while left > 0
        invariant
            left <= indices@.len(),
            store.wf(),
            store@ == bins,
            total(bins) <= u64::MAX,
            ascending(indices@, bins),
            current_rank <= rank,
            current_rank == weight_from(
                bins,
                if left == indices@.len() {
                    index_end()
                } else {
                    indices@[left as int] as int
                },
            ),
        decreases left,
    {
        let index = indices[left - 1];
        let count = store.get(index);
        proof {
            let bound = if left == indices@.len() {
                index_end()
            } else {
                indices@[left as int] as int
            };
            assert forall|k: i32| index + 1 <= k < bound implies !bins.contains_key(k) by {
                if bins.contains_key(k) {
                    // wherever `k` stands among the indices, it is not in the gap
                    let at = choose|at: int| 0 <= at < indices@.len() && indices@[at] == k;
                }
            }
            lemma_sum_gap(bins, index + 1, bound);
            lemma_sum_split(bins, index + 1, bound, index_end());
            lemma_sum_split(bins, index as int, index + 1, index_end());
            assert(sum_between(bins, index as int, index + 1) == count_at(bins, index as int)) by {
                assert(sum_between(bins, index as int, index as int) == 0);
            }
            lemma_sum_split(bins, index_start(), index as int, index_end());
        }
        if current_rank + count > rank {
            return Some(index);
        }
        current_rank = current_rank + count;
        left = left - 1;
    }
    proof {
        let bound = if indices@.len() == 0 {
            index_end()
        } else {
            indices@[0] as int
        };
        assert forall|k: i32| index_start() <= k < bound implies !bins.contains_key(k) by {
            if bins.contains_key(k) {
                // wherever `k` stands among the indices, it is not in the gap
                let at = choose|at: int| 0 <= at < indices@.len() && indices@[at] == k;
            }
        }
        lemma_sum_gap(bins, index_start(), bound);
        lemma_sum_split(bins, index_start(), bound, index_end());
    }
    None
}

/// Walks the bins from the lowest index up and finds the first bin up to
/// which more than `rank` observations are counted.
fn walk_up(store: &SketchStore, rank: u64) -> (hit: Option<i32>)
    requires
        store.wf(),
    ensures
        match hit {
            Some(index) => weight_below(store@, index as int) <= rank < weight_below(
                store@,
                index + 1,
            ),
            None => total(store@) <= rank,
        },
{
    let indices = sorted_indices(store);
    let ghost bins = store@;
    proof {
        store.lemma_valid();
        lemma_sum_empty(index_start(), index_start());
    }
    let mut current_rank: u64 = 0;
    let mut done: usize = 0;
    while done < indices.len()
        invariant
            done <= indices@.len(),
            store.wf(),
            store@ == bins,
            total(bins) <= u64::MAX,
            ascending(indices@, bins),
            current_rank <= rank,
            current_rank == weight_below(
                bins,
                if done == 0 {
                    index_start()
                } else {
                    indices@[done - 1] + 1
                },
            ),
        decreases indices@.len() - done,
    {
        let index = indices[done];
        let count = store.get(index);
        proof {
            let bound = if done == 0 {
                index_start()
            } else {
                indices@[done - 1] + 1
            };
            assert forall|k: i32| bound <= k < index implies !bins.contains_key(k) by {
                if bins.contains_key(k) {
                    // wherever `k` stands among the indices, it is not in the gap
                    let at = choose|at: int| 0 <= at < indices@.len() && indices@[at] == k;
                }
            }
            lemma_sum_gap(bins, bound, index as int);
            lemma_sum_split(bins, index_start(), bound, index as int);
            lemma_sum_split(bins, index_start(), index + 1, index_end());
        }
        if current_rank + count > rank {
            return Some(index);
        }
        current_rank = current_rank + count;
        done = done + 1;
    }
    proof {
        let bound = if indices@.len() == 0 {
            index_start()
        } else {
            indices@[indices@.len() - 1] + 1
        };
        assert forall|k: i32| bound <= k < index_end() implies !bins.contains_key(k) by {
            if bins.contains_key(k) {
                // wherever `k` stands among the indices, it is not in the gap
                let at = choose|at: int| 0 <= at < indices@.len() && indices@[at] == k;
            }
        }
        lemma_sum_gap(bins, bound, index_end());
        lemma_sum_split(bins, index_start(), bound, index_end());
    }
    None
}


} // verus!
