//! What holds of every sketch, stated over the sketch's view and proved.

use vstd::prelude::*;
use crate::DDSketchError;
use crate::collapse::{lemma_collapsed, settled};
use crate::counts::{
    added, index_end, index_start, lemma_added, lemma_merged, lemma_merged_associates,
    lemma_merged_commutes, lemma_sum_split, merged, total, valid_bins, weight_below, weight_from,
};
use crate::ddsketch::{
    bucket_of, greatest_of_both, least_of_both, valid_quantile, Bucket, Estimate, SketchView,
};
use crate::double::{lemma_min_max_symmetric, Double, ONE_BITS};

verus! {

/// One call that adds observations: the value, what the mapping found for its
/// absolute value, and the number of observations.
pub type Addition = (Double, Result<i32, DDSketchError>, nat);

/// The sketch after a run of additions, applied in order.
pub open spec fn ingest_all(sketch: SketchView, additions: Seq<Addition>) -> SketchView
    decreases additions.len(),
{
    if additions.len() == 0 {
        sketch
    } else {
        ingest_all(sketch, additions.drop_last()).ingest(
            additions.last().0,
            additions.last().1,
            additions.last().2,
        )
    }
}

/// The number of observations in a run of additions.
pub open spec fn observations(additions: Seq<Addition>) -> nat
    decreases additions.len(),
{
    if additions.len() == 0 {
        0
    } else {
        observations(additions.drop_last()) + additions.last().2
    }
}

/// The order of the answers to quantile queries: a bucket comes before every
/// bucket of larger values, and every bucket before the greatest observation.
pub open spec fn estimate_le(a: Estimate, b: Estimate) -> bool {
    match (a, b) {
        (Estimate::Bucket(x), Estimate::Bucket(y)) => x.le(y),
        (_, Estimate::Maximum(_)) => true,
        (Estimate::Maximum(_), Estimate::Bucket(_)) => false,
    }
}

/// Bins that are valid without a ceiling settle, under any ceiling of at
/// least one bin, into bins that are valid under that ceiling and hold the
/// same total.
pub proof fn lemma_settled(bins: Map<i32, u64>, limit: Option<nat>)
    requires
        valid_bins(bins, None),
        limit matches Some(n) ==> n >= 1,
    ensures
        valid_bins(settled(bins, limit), limit),
        total(settled(bins, limit)) == total(bins),
{
    if let Some(n) = limit {
        lemma_collapsed(bins, n);
    }
}

/// Counting observations in a bucket raises the number of observations by
/// the number counted and leaves a valid sketch valid: in particular,
/// neither store of a bounded sketch ever holds more bins than the ceiling
/// allows.
pub proof fn lemma_counted(sketch: SketchView, bucket: Bucket, count: nat)
    requires
        sketch.valid(),
        sketch.count() + count <= u64::MAX,
        sketch.min is Some,
        sketch.max is Some,
    ensures
        sketch.counted(bucket, count).valid(),
        sketch.counted(bucket, count).count() == sketch.count() + count,
{
    match bucket {
        Bucket::Negative(index) => {
            lemma_added(sketch.negative, index, count);
            lemma_settled(added(sketch.negative, index as int, count), sketch.limit);
        },
        Bucket::Zero => {},
        Bucket::Positive(index) => {
            lemma_added(sketch.positive, index, count);
            lemma_settled(added(sketch.positive, index as int, count), sketch.limit);
        },
    }
}

/// An addition leaves a valid sketch valid, with its relative accuracy and
/// ceiling, and raises the number of observations by the number added,
/// unless the mapping failed: then the number stays.
pub proof fn lemma_ingest(
    sketch: SketchView,
    value: Double,
    key: Result<i32, DDSketchError>,
    count: nat,
)
    requires
        sketch.valid(),
        sketch.count() + count <= u64::MAX,
    ensures
        sketch.ingest(value, key, count).valid(),
        sketch.ingest(value, key, count).limit == sketch.limit,
        sketch.ingest(value, key, count).relative_accuracy == sketch.relative_accuracy,
        sketch.ingest(value, key, count).count() == sketch.count() + if bucket_of(value, key)
            is Some {
            count
        } else {
            0
        },
{
    if count > 0 {
        let seen = SketchView {
            min: Some(crate::ddsketch::least(sketch.min, value)),
            max: Some(crate::ddsketch::greatest(sketch.max, value)),
            ..sketch
        };
        if let Some(bucket) = bucket_of(value, key) {
            lemma_counted(seen, bucket, count);
        }
    }
}

/// Count conservation: after any run of additions that the mapping could
/// place, the sketch counts what it counted before and every observation
/// that was added.
pub proof fn lemma_count_conservation(sketch: SketchView, additions: Seq<Addition>)
    requires
        sketch.valid(),
        sketch.count() + observations(additions) <= u64::MAX,
        forall|i: int|
            0 <= i < additions.len() ==> bucket_of(
                (#[trigger] additions[i]).0,
                additions[i].1,
            ) is Some,
    ensures
        ingest_all(sketch, additions).valid(),
        ingest_all(sketch, additions).limit == sketch.limit,
        ingest_all(sketch, additions).count() == sketch.count() + observations(additions),
    decreases additions.len(),
{
    if additions.len() > 0 {
        let earlier = additions.drop_last();
        assert forall|i: int| 0 <= i < earlier.len() implies bucket_of(
            (#[trigger] earlier[i]).0,
            earlier[i].1,
        ) is Some by {}
        lemma_count_conservation(sketch, earlier);
        let last = additions.last();
        lemma_ingest(ingest_all(sketch, earlier), last.0, last.1, last.2);
    }
}

/// Merge additivity: the merged sketch counts what the two sketches count
/// together, its least observation is the lesser of the two least ones and
/// its greatest the greater of the two greatest, and it is valid under the
/// ceiling of the sketch merged into.
pub proof fn lemma_union(a: SketchView, b: SketchView)
    requires
        a.valid(),
        b.valid(),
        a.count() + b.count() <= u64::MAX,
    ensures
        a.union(b).valid(),
        a.union(b).count() == a.count() + b.count(),
        a.union(b).limit == a.limit,
        a.union(b).min == least_of_both(a.min, b.min),
        a.union(b).max == greatest_of_both(a.max, b.max),
        forall|x: Double, y: Double|
            a.min == Some(x) && b.min == Some(y) ==> a.union(b).min == Some(x.min(y)),
        forall|x: Double, y: Double|
            a.max == Some(x) && b.max == Some(y) ==> a.union(b).max == Some(x.max(y)),
{
    lemma_merged(a.positive, b.positive);
    lemma_merged(a.negative, b.negative);
    lemma_settled(merged(a.positive, b.positive), a.limit);
    lemma_settled(merged(a.negative, b.negative), a.limit);
}

/// Two sketches with the same ceiling merge into the same counts whichever
/// is merged into the other, and into the same least and greatest numbers.
pub proof fn lemma_union_commutes(a: SketchView, b: SketchView)
    requires
        a.limit == b.limit,
    ensures
        a.union(b).positive == b.union(a).positive,
        a.union(b).negative == b.union(a).negative,
        a.union(b).zero_count == b.union(a).zero_count,
        forall|x: Double, y: Double|
            a.min == Some(x) && b.min == Some(y) && !x.is_nan() && !y.is_nan() ==> {
                &&& a.union(b).min == Some(x.min(y))
                &&& b.union(a).min == Some(y.min(x))
                &&& x.min(y).ordinal() == y.min(x).ordinal()
            },
        forall|x: Double, y: Double|
            a.max == Some(x) && b.max == Some(y) && !x.is_nan() && !y.is_nan() ==> {
                &&& a.union(b).max == Some(x.max(y))
                &&& b.union(a).max == Some(y.max(x))
                &&& x.max(y).ordinal() == y.max(x).ordinal()
            },
{
    lemma_merged_commutes(a.positive, b.positive);
    lemma_merged_commutes(a.negative, b.negative);
    assert forall|x: Double, y: Double| !x.is_nan() && !y.is_nan() implies x.min(y).ordinal()
        == y.min(x).ordinal() && x.max(y).ordinal() == y.max(x).ordinal() by {
        lemma_min_max_symmetric(x, y);
    }
}

/// Unbounded sketches merge into the same counts however the merges are
/// grouped.
pub proof fn lemma_union_associates(a: SketchView, b: SketchView, c: SketchView)
    requires
        a.valid(),
        b.valid(),
        c.valid(),
        a.limit is None,
        b.limit is None,
        a.count() + b.count() + c.count() <= u64::MAX,
    ensures
        a.union(b).union(c).positive == a.union(b.union(c)).positive,
        a.union(b).union(c).negative == a.union(b.union(c)).negative,
        a.union(b).union(c).zero_count == a.union(b.union(c)).zero_count,
{
    lemma_merged_associates(a.positive, b.positive, c.positive);
    lemma_merged_associates(a.negative, b.negative, c.negative);
}

/// A rank below the number of observations lies in a bucket, and no other
/// rank does.
pub proof fn lemma_rank_in_range(sketch: SketchView, rank: nat, hit: Option<Bucket>)
    requires
        sketch.holds_rank(rank, hit),
    ensures
        hit is Some <==> rank < sketch.count(),
{
    match hit {
        Some(Bucket::Negative(index)) => {
            lemma_sum_split(sketch.negative, index_start(), index as int, index_end());
        },
        Some(Bucket::Zero) => {},
        Some(Bucket::Positive(index)) => {
            lemma_sum_split(sketch.positive, index_start(), index + 1, index_end());
        },
        None => {},
    }
}

/// Of two ranks, the lower one never lies in a bucket of larger values than
/// the higher one.
pub proof fn lemma_rank_monotone(
    sketch: SketchView,
    low: nat,
    high: nat,
    low_hit: Option<Bucket>,
    high_hit: Option<Bucket>,
)
    requires
        low <= high,
        sketch.holds_rank(low, low_hit),
        sketch.holds_rank(high, high_hit),
    ensures
        match (low_hit, high_hit) {
            (Some(x), Some(y)) => x.le(y),
            (_, None) => true,
            (None, Some(_)) => false,
        },
{
    lemma_rank_in_range(sketch, low, low_hit);
    lemma_rank_in_range(sketch, high, high_hit);
    match (low_hit, high_hit) {
        (Some(Bucket::Negative(i)), Some(Bucket::Negative(j))) => {
            if i < j {
                lemma_sum_split(sketch.negative, i + 1, j as int, index_end());
            }
        },
        (Some(Bucket::Positive(i)), Some(Bucket::Positive(j))) => {
            if j < i {
                lemma_sum_split(sketch.positive, index_start(), j + 1, i as int);
            }
        },
        (Some(Bucket::Zero), Some(Bucket::Negative(j))) => {
            lemma_sum_split(sketch.negative, index_start(), j as int, index_end());
        },
        (Some(Bucket::Positive(i)), Some(Bucket::Negative(j))) => {
            lemma_sum_split(sketch.negative, index_start(), j as int, index_end());
        },
        _ => {},
    }
}

/// Quantile monotonicity: of two queries that a sketch answers, the one
/// with the lower rank is not answered by a bucket of larger values than
/// the other.
pub proof fn lemma_quantile_monotone(
    sketch: SketchView,
    low_quantile: Double,
    low_rank: nat,
    low: Estimate,
    high_quantile: Double,
    high_rank: nat,
    high: Estimate,
)
    requires
        low_rank <= high_rank,
        sketch.answers(low_quantile, low_rank, Ok(low)),
        sketch.answers(high_quantile, high_rank, Ok(high)),
    ensures
        estimate_le(low, high),
{
    let low_hit = match low {
        Estimate::Bucket(bucket) => Some(bucket),
        Estimate::Maximum(_) => None,
    };
    let high_hit = match high {
        Estimate::Bucket(bucket) => Some(bucket),
        Estimate::Maximum(_) => None,
    };
    lemma_rank_monotone(sketch, low_rank, high_rank, low_hit, high_hit);
}

/// The answer to a query is determined by the sketch, the quantile and the
/// rank.
pub proof fn lemma_answer_unique(
    sketch: SketchView,
    quantile: Double,
    rank: nat,
    first: Result<Estimate, DDSketchError>,
    second: Result<Estimate, DDSketchError>,
)
    requires
        sketch.answers(quantile, rank, first),
        sketch.answers(quantile, rank, second),
    ensures
        first == second,
{
    if valid_quantile(quantile) && sketch.count() > 0 {
        let low = first->Ok_0;
        let high = second->Ok_0;
        lemma_quantile_monotone(sketch, quantile, rank, low, quantile, rank, high);
        lemma_quantile_monotone(sketch, quantile, rank, high, quantile, rank, low);
    }
}

/// Boundary behaviour: a query is answered exactly when the quantile lies
/// from zero to one and the sketch is not empty; a quantile outside that
/// range is refused as invalid, and a valid one on an empty sketch because
/// the sketch is empty.
pub proof fn lemma_answer_boundaries(
    sketch: SketchView,
    quantile: Double,
    rank: nat,
    result: Result<Estimate, DDSketchError>,
)
    requires
        sketch.answers(quantile, rank, result),
    ensures
        result is Ok <==> valid_quantile(quantile) && sketch.count() > 0,
        result == Err::<Estimate, DDSketchError>(DDSketchError::InvalidQuantile) <==> !valid_quantile(
            quantile,
        ),
        result == Err::<Estimate, DDSketchError>(DDSketchError::EmptySketch) <==> valid_quantile(
            quantile,
        ) && sketch.count() == 0,
{
}

/// Boundary behaviour: zero and one are quantiles that can be asked for.  The
/// rank zero lies in the first bucket that holds an observation: nothing is
/// counted before it.
pub proof fn lemma_boundary_quantiles(sketch: SketchView, bucket: Bucket)
    requires
        sketch.holds_rank(0, Some(bucket)),
    ensures
        valid_quantile(Double(0)),
        valid_quantile(Double(ONE_BITS)),
        match bucket {
            Bucket::Negative(index) => weight_from(sketch.negative, index + 1) == 0,
            Bucket::Zero => total(sketch.negative) == 0,
            Bucket::Positive(index) => {
                &&& total(sketch.negative) == 0
                &&& sketch.zero_count == 0
                &&& weight_below(sketch.positive, index as int) == 0
            },
        },
{
}

} // verus!
