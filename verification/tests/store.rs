use ddsketch_rs::store::{sorted_indices, SketchStore};
use ddsketch_rs::{Bins, CollapsingStore, DenseStore, Store};

#[test]
fn test_dense_store_basic_operations() {
    let mut store = DenseStore::new();

    assert!(store.is_empty());
    assert_eq!(store.total_count(), 0);
    assert_eq!(store.min_index(), None);
    assert_eq!(store.max_index(), None);

    store.add(10, 5);
    store.add(20, 3);
    store.add(10, 2); // adds to the existing bin

    assert!(!store.is_empty());
    assert_eq!(store.total_count(), 10);
    assert_eq!(store.get(10), 7);
    assert_eq!(store.get(20), 3);
    assert_eq!(store.get(30), 0);
    assert_eq!(store.min_index(), Some(10));
    assert_eq!(store.max_index(), Some(20));
}

#[test]
fn test_dense_store_merge() {
    let mut store1 = DenseStore::new();
    let mut store2 = DenseStore::new();

    store1.add(10, 5);
    store1.add(20, 3);

    store2.add(10, 2);
    store2.add(30, 4);

    store1.merge(&store2);

    assert_eq!(store1.total_count(), 14);
    assert_eq!(store1.get(10), 7);
    assert_eq!(store1.get(20), 3);
    assert_eq!(store1.get(30), 4);
}

#[test]
fn test_collapsing_store() {
    let mut store = CollapsingStore::new(2);

    store.add(10, 5);
    store.add(20, 3);
    assert_eq!(store.num_bins(), 2);

    // a third index exceeds the ceiling and triggers a fusion
    store.add(30, 2);
    assert!(store.num_bins() <= 2);
    assert_eq!(store.total_count(), 10);
}

fn sorted(mut entries: Vec<(i32, u64)>) -> Vec<(i32, u64)> {
    entries.sort();
    entries
}

#[test]
fn dense_store_ignores_a_count_of_zero() {
    let mut store = DenseStore::new();
    store.add(7, 0);
    assert!(store.is_empty());
    assert_eq!(store.num_bins(), 0);
    assert_eq!(store.get(7), 0);
    assert_eq!(store.min_index(), None);
    store.add(7, 2);
    store.add(7, 0);
    assert_eq!(store.get(7), 2);
    assert_eq!(store.total_count(), 2);
}

#[test]
fn dense_store_lists_every_bin_once() {
    let mut store = DenseStore::with_capacity(4);
    store.add(-5, 1);
    store.add(i32::MAX, 2);
    store.add(i32::MIN, 3);
    store.add(-5, 4);
    assert_eq!(sorted(store.iter()), vec![(i32::MIN, 3), (-5, 5), (i32::MAX, 2)]);
    assert_eq!(store.min_index(), Some(i32::MIN));
    assert_eq!(store.max_index(), Some(i32::MAX));
    assert_eq!(sorted_indices(&store), vec![i32::MIN, -5, i32::MAX]);
}

#[test]
fn dense_store_clear_and_default() {
    let mut store = DenseStore::default();
    assert!(store.is_empty());
    store.add(1, 1);
    store.add(2, 2);
    store.clear();
    assert!(store.is_empty());
    assert_eq!(store.total_count(), 0);
    assert_eq!(store.get(1), 0);
    assert_eq!(store.iter(), vec![]);
    assert_eq!(store.max_index(), None);
}

#[test]
fn dense_store_clone_is_independent() {
    let mut store = DenseStore::new();
    store.add(3, 9);
    let copy = store.clone();
    store.add(3, 1);
    store.add(4, 1);
    assert_eq!(copy.get(3), 9);
    assert_eq!(copy.get(4), 0);
    assert_eq!(copy.total_count(), 9);
    assert_eq!(store.total_count(), 11);
}

#[test]
fn merging_a_store_twice_counts_it_twice() {
    let mut store = DenseStore::new();
    let mut other = DenseStore::new();
    store.add(1, 1);
    other.add(1, 2);
    other.add(2, 3);
    store.merge(&other);
    store.merge(&other);
    assert_eq!(sorted(store.iter()), vec![(1, 5), (2, 6)]);
    assert_eq!(store.total_count(), 11);
    assert_eq!(sorted(other.iter()), vec![(1, 2), (2, 3)]);
}

#[test]
fn merge_commutes_and_associates() {
    let build = |entries: &[(i32, u64)]| {
        let mut store = DenseStore::new();
        for &(index, count) in entries {
            store.add(index, count);
        }
        store
    };
    let a = [(1, 2), (5, 1)];
    let b = [(5, 7), (-3, 4)];
    let c = [(1, 1), (9, 9), (-3, 1)];
    let mut left = build(&a);
    left.merge(&build(&b));
    left.merge(&build(&c));
    let mut inner = build(&c);
    inner.merge(&build(&b));
    let mut right = build(&a);
    right.merge(&inner);
    let mut swapped = build(&b);
    swapped.merge(&build(&a));
    swapped.merge(&build(&c));
    let expected = vec![(-3, 5), (1, 3), (5, 8), (9, 9)];
    assert_eq!(sorted(left.iter()), expected);
    assert_eq!(sorted(right.iter()), expected);
    assert_eq!(sorted(swapped.iter()), expected);
}

#[test]
fn collapsing_store_fuses_the_lightest_neighbours() {
    let mut store = CollapsingStore::new(3);
    store.add(10, 5);
    store.add(20, 1);
    store.add(30, 1);
    assert_eq!(sorted(store.iter()), vec![(10, 5), (20, 1), (30, 1)]);
    // pairs: (10,20) weighs 6, (20,30) weighs 2, (30,40) weighs 9
    store.add(40, 8);
    assert_eq!(sorted(store.iter()), vec![(10, 5), (20, 2), (40, 8)]);
    assert_eq!(store.get(30), 0);
    assert_eq!(store.get(20), 2);
    assert_eq!(store.total_count(), 15);
    assert_eq!(store.num_bins(), 3);
    assert_eq!(store.max_num_bins(), 3);
}

#[test]
fn collapsing_store_fuses_the_first_of_equal_pairs() {
    let mut store = CollapsingStore::new(3);
    store.add(1, 2);
    store.add(2, 2);
    store.add(3, 2);
    store.add(4, 2);
    // every pair weighs 4: the lowest pair is fused
    assert_eq!(sorted(store.iter()), vec![(1, 4), (3, 2), (4, 2)]);
    store.add(0, 2);
    // pairs: (0,1) weighs 6, (1,3) weighs 6, (3,4) weighs 4
    assert_eq!(sorted(store.iter()), vec![(0, 2), (1, 4), (3, 4)]);
}

#[test]
fn collapsing_store_with_one_bin_keeps_the_lowest_index() {
    let mut store = CollapsingStore::new(1);
    store.add(50, 1);
    store.add(-7, 2);
    store.add(90, 3);
    assert_eq!(store.iter(), vec![(-7, 6)]);
    assert_eq!(store.min_index(), Some(-7));
    assert_eq!(store.max_index(), Some(-7));
    assert_eq!(store.total_count(), 6);
    assert!(!store.is_empty());
    store.clear();
    assert!(store.is_empty());
    assert_eq!(store.num_bins(), 0);
    assert_eq!(store.max_num_bins(), 1);
}

#[test]
fn collapsing_store_merge_collapses_once_at_the_end() {
    let mut store = CollapsingStore::new(2);
    let mut other = DenseStore::new();
    store.add(1, 10);
    other.add(2, 1);
    other.add(3, 1);
    other.add(4, 10);
    store.merge(&other);
    // merged: 1:10 2:1 3:1 4:10; pairs weigh 11, 2, 11 -> 1:10 2:2 4:10;
    // then pairs weigh 12, 12 -> the lower pair is fused
    assert_eq!(sorted(store.iter()), vec![(1, 12), (4, 10)]);
    assert_eq!(store.total_count(), 22);
}

#[test]
fn collapsing_store_clone_keeps_the_ceiling() {
    let mut store = CollapsingStore::new(2);
    store.add(1, 1);
    let mut copy = store.clone();
    copy.add(2, 1);
    copy.add(3, 1);
    assert_eq!(copy.num_bins(), 2);
    assert_eq!(copy.total_count(), 3);
    assert_eq!(store.num_bins(), 1);
    assert_eq!(store.total_count(), 1);
}

#[test]
fn either_kind_of_store_behind_one_type() {
    let mut dense = SketchStore::Dense(DenseStore::new());
    let mut bounded = SketchStore::Collapsing(CollapsingStore::new(2));
    for index in 0..10 {
        dense.add(index, 1);
        bounded.add(index, 1);
    }
    assert_eq!(dense.iter().len(), 10);
    assert_eq!(bounded.iter().len(), 2);
    assert_eq!(dense.total_count(), 10);
    assert_eq!(bounded.total_count(), 10);
    bounded.merge(&dense);
    assert_eq!(bounded.total_count(), 20);
    assert_eq!(bounded.iter().len(), 2);
    dense.merge(&bounded);
    assert_eq!(dense.total_count(), 30);
    assert_eq!(dense.min_index(), Some(0));
    assert_eq!(dense.max_index(), Some(9));
    let copy = dense.clone();
    dense.clear();
    assert!(dense.is_empty());
    assert_eq!(copy.get(0), bounded.get(0) + 1);
}
