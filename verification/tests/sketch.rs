use ddsketch_rs::ddsketch::{check_relative_accuracy, Estimate};
use ddsketch_rs::double::Double;
use ddsketch_rs::{Bucket, DDSketch, DDSketchError};

/// The logarithmic mapping as a caller of the library computes it.
struct Mapping {
    multiplier: f64,
}

impl Mapping {
    fn new(relative_accuracy: f64) -> Mapping {
        Mapping { multiplier: 1.0 / (1.0 + relative_accuracy).ln() }
    }

    fn key(&self, value: f64) -> Result<i32, DDSketchError> {
        if value <= 0.0 {
            return Ok(i32::MIN);
        }
        Ok((value.ln() * self.multiplier).floor() as i32)
    }

    fn value(&self, index: i32) -> f64 {
        if index == i32::MIN {
            return 0.0;
        }
        (index as f64 / self.multiplier).exp()
    }
}

fn number(x: f64) -> Double {
    Double(x.to_bits())
}

fn native(d: Double) -> f64 {
    f64::from_bits(d.0)
}

fn natives(d: Option<Double>) -> Option<f64> {
    d.map(native)
}

/// A sketch together with its mapping, driven with real numbers.
struct Harness {
    mapping: Mapping,
    sketch: DDSketch,
}

impl Harness {
    fn new(relative_accuracy: f64) -> Result<Harness, DDSketchError> {
        let sketch = DDSketch::new(number(relative_accuracy))?;
        Ok(Harness { mapping: Mapping::new(relative_accuracy), sketch })
    }

    fn with_max_bins(relative_accuracy: f64, max_num_bins: usize) -> Result<Harness, DDSketchError> {
        let sketch = DDSketch::with_max_bins(number(relative_accuracy), max_num_bins)?;
        Ok(Harness { mapping: Mapping::new(relative_accuracy), sketch })
    }

    fn add(&mut self, value: f64) {
        self.sketch.add(number(value), self.mapping.key(value.abs()));
    }

    fn add_with_count(&mut self, value: f64, count: u64) {
        self.sketch.add_with_count(number(value), self.mapping.key(value.abs()), count);
    }

    fn count(&self) -> u64 {
        self.sketch.count()
    }

    fn min(&self) -> Option<f64> {
        natives(self.sketch.min())
    }

    fn max(&self) -> Option<f64> {
        natives(self.sketch.max())
    }

    fn relative_accuracy(&self) -> f64 {
        native(self.sketch.relative_accuracy())
    }

    fn query(&self, quantile: f64) -> (Double, u64) {
        (number(quantile), (quantile * self.sketch.count() as f64) as u64)
    }

    fn decode(&self, estimate: Estimate) -> f64 {
        match estimate {
            Estimate::Bucket(Bucket::Negative(index)) => -self.mapping.value(index),
            Estimate::Bucket(Bucket::Zero) => 0.0,
            Estimate::Bucket(Bucket::Positive(index)) => self.mapping.value(index),
            Estimate::Maximum(greatest) => native(greatest),
        }
    }

    fn get_quantile_value(&self, quantile: f64) -> Result<f64, DDSketchError> {
        let (quantile, rank) = self.query(quantile);
        let estimate = self.sketch.get_quantile_value(quantile, rank)?;
        Ok(self.decode(estimate))
    }

    fn get_quantile_values(&self, quantiles: &[f64]) -> Result<Vec<f64>, DDSketchError> {
        let queries: Vec<(Double, u64)> = quantiles.iter().map(|&q| self.query(q)).collect();
        let estimates = self.sketch.get_quantile_values(&queries)?;
        Ok(estimates.into_iter().map(|estimate| self.decode(estimate)).collect())
    }

    fn merge(&mut self, other: &Harness) -> Result<(), DDSketchError> {
        let gap = (self.relative_accuracy() - other.relative_accuracy()).abs();
        self.sketch.merge(&other.sketch, number(gap))
    }
}

#[test]
fn test_ddsketch_creation() {
    let sketch = Harness::new(0.02).unwrap();
    assert_eq!(sketch.relative_accuracy(), 0.02);
    assert!(sketch.sketch.is_empty());
    assert_eq!(sketch.count(), 0);

    // Invalid relative accuracy
    assert!(Harness::new(0.0).is_err());
    assert!(Harness::new(1.0).is_err());
}

#[test]
fn test_ddsketch_add_values() {
    let mut sketch = Harness::new(0.02).unwrap();

    sketch.add(1.0);
    sketch.add(2.0);
    sketch.add(3.0);

    assert_eq!(sketch.count(), 3);
    assert_eq!(sketch.min(), Some(1.0));
    assert_eq!(sketch.max(), Some(3.0));

    // zero and negative values
    sketch.add(0.0);
    sketch.add(-1.0);

    assert_eq!(sketch.count(), 5);
    assert_eq!(sketch.min(), Some(-1.0));
    assert_eq!(sketch.max(), Some(3.0));
}

#[test]
fn test_ddsketch_quantiles() {
    let mut sketch = Harness::new(0.02).unwrap();

    for i in 1..=100 {
        sketch.add(i as f64);
    }

    let median = sketch.get_quantile_value(0.5).unwrap();
    let ninetieth = sketch.get_quantile_value(0.9).unwrap();
    let ninety_ninth = sketch.get_quantile_value(0.99).unwrap();

    assert!(median > 40.0 && median < 60.0);
    assert!(ninetieth > 80.0 && ninetieth < 95.0);
    assert!(ninety_ninth > 95.0 && ninety_ninth <= 100.0);

    let quantiles = vec![0.25, 0.5, 0.75, 0.95];
    let values = sketch.get_quantile_values(&quantiles).unwrap();
    assert_eq!(values.len(), 4);

    for i in 1..values.len() {
        assert!(values[i] >= values[i - 1]);
    }
}

#[test]
fn test_ddsketch_merge() {
    let mut sketch1 = Harness::new(0.02).unwrap();
    let mut sketch2 = Harness::new(0.02).unwrap();

    for i in 1..=50 {
        sketch1.add(i as f64);
    }

    for i in 51..=100 {
        sketch2.add(i as f64);
    }

    let count1 = sketch1.count();
    let count2 = sketch2.count();

    sketch1.merge(&sketch2).unwrap();

    assert_eq!(sketch1.count(), count1 + count2);
    assert_eq!(sketch1.min(), Some(1.0));
    assert_eq!(sketch1.max(), Some(100.0));

    // sketches of different accuracy do not merge
    let mut sketch3 = Harness::new(0.01).unwrap();
    sketch3.add(1.0);

    assert!(sketch1.merge(&sketch3).is_err());
}

#[test]
fn test_ddsketch_edge_cases() {
    let sketch = Harness::new(0.02).unwrap();

    // Empty sketch
    assert!(sketch.get_quantile_value(0.5).is_err());

    // Invalid quantiles
    let mut sketch = Harness::new(0.02).unwrap();
    sketch.add(1.0);

    assert!(sketch.get_quantile_value(-0.1).is_err());
    assert!(sketch.get_quantile_value(1.1).is_err());
}

#[test]
fn invalid_relative_accuracy_is_refused() {
    for accuracy in [0.0, -0.0, 1.0, -0.1, 1.5, f64::INFINITY, f64::NEG_INFINITY, f64::NAN] {
        assert_eq!(
            DDSketch::new(number(accuracy)).err(),
            Some(DDSketchError::InvalidRelativeAccuracy)
        );
        assert_eq!(
            DDSketch::with_max_bins(number(accuracy), 8).err(),
            Some(DDSketchError::InvalidRelativeAccuracy)
        );
    }
    for accuracy in [f64::MIN_POSITIVE, 5e-324, 0.01, 0.5, 0.9999999999999999] {
        assert!(DDSketch::new(number(accuracy)).is_ok());
        assert!(DDSketch::with_max_bins(number(accuracy), 8).is_ok());
    }
}

#[test]
fn basic_ingest_of_a_thousand_integers() {
    let mut sketch = Harness::new(0.02).unwrap();
    for i in 1..=1000 {
        sketch.add(i as f64);
    }
    assert_eq!(sketch.count(), 1000);
    let median = sketch.get_quantile_value(0.5).unwrap();
    assert!((median - 500.0).abs() / 500.0 <= 0.02);
    assert_eq!(sketch.min(), Some(1.0));
    assert_eq!(sketch.max(), Some(1000.0));
}

#[test]
fn merge_of_two_halves() {
    let mut a = Harness::new(0.02).unwrap();
    let mut b = Harness::new(0.02).unwrap();
    for i in 1..=50 {
        a.add(i as f64);
    }
    for i in 51..=100 {
        b.add(i as f64);
    }
    a.merge(&b).unwrap();
    assert_eq!(a.count(), 100);
    assert_eq!(a.min(), Some(1.0));
    assert_eq!(a.max(), Some(100.0));
    // the sketch merged from is untouched
    assert_eq!(b.count(), 50);
    assert_eq!(b.min(), Some(51.0));
}

#[test]
fn incompatible_merge_changes_nothing() {
    let mut a = Harness::new(0.02).unwrap();
    let mut b = Harness::new(0.01).unwrap();
    a.add(3.0);
    a.add(-4.0);
    b.add(100.0);
    b.add(0.0);
    assert_eq!(a.merge(&b), Err(DDSketchError::IncompatibleSketches));
    assert_eq!(a.count(), 2);
    assert_eq!(a.min(), Some(-4.0));
    assert_eq!(a.max(), Some(3.0));
    assert_eq!(a.sketch.zero_count(), 0);
}

#[test]
fn merge_tolerance_is_a_ten_billionth() {
    let mut a = DDSketch::new(number(0.02)).unwrap();
    let b = DDSketch::new(number(0.02)).unwrap();
    assert_eq!(a.merge(&b, number(0.0)), Ok(()));
    assert_eq!(a.merge(&b, number(1e-10)), Ok(()));
    assert_eq!(a.merge(&b, number(9.9e-11)), Ok(()));
    assert_eq!(a.merge(&b, number(1.0000000000000002e-10)), Err(DDSketchError::IncompatibleSketches));
    assert_eq!(a.merge(&b, number(0.01)), Err(DDSketchError::IncompatibleSketches));
    assert_eq!(a.merge(&b, number(f64::NAN)), Err(DDSketchError::IncompatibleSketches));
}

#[test]
fn bounded_sketch_never_exceeds_its_ceiling() {
    let mut sketch = Harness::with_max_bins(0.02, 2).unwrap();
    for i in 1..=200u64 {
        sketch.add(i as f64);
        sketch.add(-(i as f64) * 3.0);
        assert!(sketch.sketch.positive_bins().len() <= 2);
        assert!(sketch.sketch.negative_bins().len() <= 2);
        assert_eq!(sketch.count(), 2 * i);
    }
    let positive: u64 = sketch.sketch.positive_bins().iter().map(|entry| entry.1).sum();
    let negative: u64 = sketch.sketch.negative_bins().iter().map(|entry| entry.1).sum();
    assert_eq!(positive, 200);
    assert_eq!(negative, 200);
}

#[test]
fn zero_and_negative_values() {
    let mut sketch = Harness::new(0.02).unwrap();
    sketch.add(0.0);
    sketch.add(-1.0);
    sketch.add(1.0);
    sketch.add(-2.0);
    assert_eq!(sketch.count(), 4);
    assert_eq!(sketch.min(), Some(-2.0));
    assert_eq!(sketch.max(), Some(1.0));
    assert_eq!(sketch.sketch.zero_count(), 1);
    assert_eq!(sketch.sketch.positive_bins().len(), 1);
    assert_eq!(sketch.sketch.negative_bins().len(), 2);
}

#[test]
fn count_is_the_sum_of_the_counts_added() {
    let mut sketch = Harness::new(0.05).unwrap();
    let additions: [(f64, u64); 7] =
        [(1.5, 3), (0.0, 4), (-2.5, 5), (1.5, 1), (1e9, 10), (-1e-9, 2), (7.0, 0)];
    let mut expected = 0;
    for (value, count) in additions {
        sketch.add_with_count(value, count);
        expected += count;
        assert_eq!(sketch.count(), expected);
    }
    assert_eq!(sketch.count(), 25);
    assert_eq!(sketch.sketch.zero_count(), 4);
}

#[test]
fn adding_nothing_changes_nothing() {
    let mut sketch = Harness::new(0.02).unwrap();
    sketch.add_with_count(5.0, 0);
    assert_eq!(sketch.count(), 0);
    assert!(sketch.sketch.is_empty());
    assert_eq!(sketch.min(), None);
    assert_eq!(sketch.max(), None);
    assert!(sketch.sketch.positive_bins().is_empty());
}

#[test]
fn failed_mapping_is_dropped_but_seen() {
    let mut sketch = DDSketch::new(number(0.02)).unwrap();
    sketch.add_with_count(number(4.0), Err(DDSketchError::InvalidQuantile), 3);
    assert_eq!(sketch.count(), 0);
    assert!(sketch.positive_bins().is_empty());
    assert_eq!(natives(sketch.min()), Some(4.0));
    assert_eq!(natives(sketch.max()), Some(4.0));
    // zero needs no index
    sketch.add_with_count(number(0.0), Err(DDSketchError::InvalidQuantile), 2);
    assert_eq!(sketch.count(), 2);
    assert_eq!(natives(sketch.min()), Some(0.0));
}

#[test]
fn observations_go_to_the_store_of_their_sign() {
    let mut sketch = DDSketch::new(number(0.02)).unwrap();
    sketch.add_with_count(number(2.0), Ok(35), 4);
    sketch.add_with_count(number(-2.0), Ok(35), 6);
    sketch.add_with_count(number(-0.0), Ok(i32::MIN), 1);
    assert_eq!(sketch.positive_bins(), vec![(35, 4)]);
    assert_eq!(sketch.negative_bins(), vec![(35, 6)]);
    assert_eq!(sketch.zero_count(), 1);
    assert_eq!(sketch.count(), 11);
}

#[test]
fn ranks_walk_negative_then_zero_then_positive() {
    let mut sketch = DDSketch::new(number(0.02)).unwrap();
    sketch.add_with_count(number(-8.0), Ok(30), 2);
    sketch.add_with_count(number(-1.0), Ok(10), 3);
    sketch.add_with_count(number(0.0), Ok(0), 1);
    sketch.add_with_count(number(1.0), Ok(10), 4);
    sketch.add_with_count(number(8.0), Ok(30), 5);
    let half = number(0.5);
    let expected = [
        (0, Bucket::Negative(30)),
        (1, Bucket::Negative(30)),
        (2, Bucket::Negative(10)),
        (4, Bucket::Negative(10)),
        (5, Bucket::Zero),
        (6, Bucket::Positive(10)),
        (9, Bucket::Positive(10)),
        (10, Bucket::Positive(30)),
        (14, Bucket::Positive(30)),
    ];
    for (rank, bucket) in expected {
        match sketch.get_quantile_value(half, rank).unwrap() {
            Estimate::Bucket(found) => assert_eq!(found, bucket),
            Estimate::Maximum(_) => panic!("rank {} is below the count", rank),
        }
    }
    for rank in [15, 16, u64::MAX] {
        match sketch.get_quantile_value(half, rank).unwrap() {
            Estimate::Maximum(greatest) => assert_eq!(native(greatest), 8.0),
            Estimate::Bucket(_) => panic!("rank {} is not below the count", rank),
        }
    }
}

#[test]
fn quantiles_are_monotone() {
    let mut sketch = Harness::new(0.02).unwrap();
    for i in -300..=700 {
        sketch.add(i as f64 / 7.0);
    }
    let mut previous = f64::NEG_INFINITY;
    for step in 0..=1000 {
        let value = sketch.get_quantile_value(step as f64 / 1000.0).unwrap();
        assert!(previous <= value);
        previous = value;
    }
}

#[test]
fn quantile_boundaries() {
    let empty = Harness::new(0.02).unwrap();
    assert_eq!(empty.get_quantile_value(0.5), Err(DDSketchError::EmptySketch));
    assert_eq!(empty.get_quantile_value(0.0), Err(DDSketchError::EmptySketch));
    assert_eq!(empty.get_quantile_value(1.5), Err(DDSketchError::InvalidQuantile));

    let mut sketch = Harness::new(0.02).unwrap();
    for i in 1..=100 {
        sketch.add(i as f64 * 2.5);
    }
    let lowest = sketch.get_quantile_value(0.0).unwrap();
    let highest = sketch.get_quantile_value(1.0).unwrap();
    assert!((lowest - 2.5).abs() / 2.5 <= 0.02);
    assert_eq!(highest, 250.0);
    assert!(sketch.get_quantile_value(-0.0).is_ok());
    for quantile in [-0.1, 1.1, -1e-300, 1.0000000000000002, f64::INFINITY, f64::NAN] {
        assert_eq!(sketch.get_quantile_value(quantile), Err(DDSketchError::InvalidQuantile));
    }
}

#[test]
fn quantile_values_stop_at_the_first_failure() {
    let empty = Harness::new(0.02).unwrap();
    assert_eq!(empty.get_quantile_values(&[]), Ok(vec![]));
    assert_eq!(empty.get_quantile_values(&[0.5, 2.0]), Err(DDSketchError::EmptySketch));
    assert_eq!(empty.get_quantile_values(&[2.0, 0.5]), Err(DDSketchError::InvalidQuantile));

    let mut sketch = Harness::new(0.02).unwrap();
    sketch.add(10.0);
    assert_eq!(sketch.get_quantile_values(&[0.1, 0.9, 1.5]), Err(DDSketchError::InvalidQuantile));
    let values = sketch.get_quantile_values(&[0.1, 0.9]).unwrap();
    assert_eq!(values.len(), 2);
    assert!((values[0] - 10.0).abs() / 10.0 <= 0.02);
    assert_eq!(values[0], values[1]);
}

#[test]
fn clear_returns_to_the_empty_sketch() {
    let mut sketch = Harness::with_max_bins(0.02, 16).unwrap();
    for i in 1..=40 {
        sketch.add(i as f64 - 20.0);
    }
    sketch.sketch.clear();
    assert!(sketch.sketch.is_empty());
    assert_eq!(sketch.count(), 0);
    assert_eq!(sketch.min(), None);
    assert_eq!(sketch.max(), None);
    assert_eq!(sketch.sketch.zero_count(), 0);
    assert!(sketch.sketch.positive_bins().is_empty());
    assert!(sketch.sketch.negative_bins().is_empty());
    assert_eq!(sketch.relative_accuracy(), 0.02);
    assert_eq!(sketch.get_quantile_value(0.5), Err(DDSketchError::EmptySketch));
    // the ceiling survives
    for i in 1..=100 {
        sketch.add(i as f64);
    }
    assert!(sketch.sketch.positive_bins().len() <= 16);
    assert_eq!(sketch.count(), 100);
}

#[test]
fn clone_is_independent() {
    let mut sketch = Harness::new(0.02).unwrap();
    sketch.add(1.0);
    sketch.add(-5.0);
    sketch.add(0.0);
    let copy = sketch.sketch.clone();
    sketch.add(100.0);
    assert_eq!(copy.count(), 3);
    assert_eq!(natives(copy.max()), Some(1.0));
    assert_eq!(natives(copy.min()), Some(-5.0));
    assert_eq!(copy.zero_count(), 1);
    assert_eq!(native(copy.relative_accuracy()), 0.02);
    assert_eq!(sketch.count(), 4);
    assert_eq!(sketch.max(), Some(100.0));
}

#[test]
fn merge_does_not_depend_on_order_or_grouping() {
    let parts: [&[f64]; 3] = [&[1.0, 2.0, -3.0, 0.0], &[2.0, 50.0, -3.0], &[0.0, 0.5, 1e6]];
    let build = |values: &[f64]| {
        let mut sketch = Harness::new(0.02).unwrap();
        for &value in values {
            sketch.add(value);
        }
        sketch
    };
    let sorted = |mut bins: Vec<(i32, u64)>| {
        bins.sort();
        bins
    };
    // (a + b) + c
    let mut left = build(parts[0]);
    left.merge(&build(parts[1])).unwrap();
    left.merge(&build(parts[2])).unwrap();
    // c + (b + a)
    let mut inner = build(parts[1]);
    inner.merge(&build(parts[0])).unwrap();
    let mut right = build(parts[2]);
    right.merge(&inner).unwrap();

    assert_eq!(left.count(), 10);
    assert_eq!(right.count(), 10);
    assert_eq!(sorted(left.sketch.positive_bins()), sorted(right.sketch.positive_bins()));
    assert_eq!(sorted(left.sketch.negative_bins()), sorted(right.sketch.negative_bins()));
    assert_eq!(left.sketch.zero_count(), right.sketch.zero_count());
    assert_eq!(left.min(), right.min());
    assert_eq!(left.max(), right.max());
    for step in 0..=20 {
        let quantile = step as f64 / 20.0;
        assert_eq!(left.get_quantile_value(quantile), right.get_quantile_value(quantile));
    }
}

#[test]
fn merging_a_sketch_twice_counts_it_twice() {
    let mut a = Harness::new(0.02).unwrap();
    let mut b = Harness::new(0.02).unwrap();
    a.add(1.0);
    b.add(2.0);
    b.add(0.0);
    a.merge(&b).unwrap();
    a.merge(&b).unwrap();
    assert_eq!(a.count(), 5);
    assert_eq!(a.sketch.zero_count(), 2);
}

#[test]
fn merge_into_a_bounded_sketch_respects_the_ceiling() {
    let mut bounded = Harness::with_max_bins(0.02, 3).unwrap();
    let mut dense = Harness::new(0.02).unwrap();
    for i in 1..=50 {
        dense.add(i as f64);
        dense.add(-(i as f64));
    }
    bounded.add(1000.0);
    bounded.merge(&dense).unwrap();
    assert_eq!(bounded.count(), 101);
    assert!(bounded.sketch.positive_bins().len() <= 3);
    assert!(bounded.sketch.negative_bins().len() <= 3);
    assert_eq!(bounded.min(), Some(-50.0));
    assert_eq!(bounded.max(), Some(1000.0));
}

#[test]
fn error_messages() {
    assert_eq!(
        DDSketchError::InvalidRelativeAccuracy.message(),
        "Relative accuracy must be between 0 and 1"
    );
    assert_eq!(DDSketchError::InvalidQuantile.message(), "Quantile must be between 0 and 1");
    assert_eq!(DDSketchError::EmptySketch.message(), "Cannot compute quantile from empty sketch");
    assert_eq!(
        DDSketchError::IncompatibleSketches.message(),
        "Sketches are incompatible for merging"
    );
}

#[test]
fn relative_accuracy_lies_strictly_between_zero_and_one() {
    assert_eq!(check_relative_accuracy(number(0.02)), Ok(()));
    assert_eq!(check_relative_accuracy(number(0.5)), Ok(()));
    for accuracy in [0.0, 1.0, -0.1, 2.0, f64::NAN] {
        assert_eq!(
            check_relative_accuracy(number(accuracy)),
            Err(DDSketchError::InvalidRelativeAccuracy)
        );
    }
}

#[test]
fn counts_up_to_the_largest_number_are_held() {
    let mut sketch = DDSketch::with_max_bins(number(0.02), 2).unwrap();
    sketch.add_with_count(number(1.0), Ok(0), u64::MAX - 3);
    sketch.add_with_count(number(2.0), Ok(35), 1);
    sketch.add_with_count(number(4.0), Ok(70), 1);
    sketch.add_with_count(number(0.0), Ok(0), 1);
    assert_eq!(sketch.count(), u64::MAX);
    let mut bins = sketch.positive_bins();
    bins.sort();
    assert_eq!(bins, vec![(0, u64::MAX - 3), (35, 2)]);
    match sketch.get_quantile_value(number(1.0), u64::MAX - 1).unwrap() {
        Estimate::Bucket(bucket) => assert_eq!(bucket, Bucket::Positive(35)),
        Estimate::Maximum(_) => panic!("the last rank lies in a bucket"),
    }
    match sketch.get_quantile_value(number(1.0), u64::MAX).unwrap() {
        Estimate::Maximum(greatest) => assert_eq!(native(greatest), 4.0),
        Estimate::Bucket(_) => panic!("no rank equals the count"),
    }
}
