use ndarray::{bounded_range_of, range_between, range_of_edges, Edge};
use std::ops::Bound;

#[test]
fn bounded_range() {
    assert_eq!(bounded_range_of(10, &(..3)), Some(0..3));
    assert_eq!(bounded_range_of(10, &(..)), Some(0..10));
    assert_eq!(bounded_range_of(10, &(1..)), Some(1..10));
    assert_eq!(bounded_range_of(10, &(1..3)), Some(1..3));
    assert_eq!(bounded_range_of(10, &(1..=3)), Some(1..4));
}

#[test]
fn an_inclusive_end_at_the_largest_word_falls_back_on_the_upper_bound() {
    assert_eq!(bounded_range_of(10, &(2..=usize::MAX)), Some(2..10));
    assert_eq!(bounded_range_of(10, &(..=usize::MAX)), Some(0..10));
    assert_eq!(bounded_range_of(10, &(..=3)), Some(0..4));
    assert_eq!(bounded_range_of(10, &(1..=20)), Some(1..21));
}

#[test]
fn a_start_that_is_left_out_counts_from_the_next_coordinate() {
    assert_eq!(
        bounded_range_of(10, &(Bound::Excluded(1), Bound::Included(3))),
        Some(2..4)
    );
    assert_eq!(
        bounded_range_of(10, &(Bound::Excluded(1), Bound::Excluded(3))),
        Some(2..3)
    );
    assert_eq!(
        bounded_range_of(10, &(Bound::Excluded(1), Bound::Unbounded)),
        Some(2..10)
    );
    assert_eq!(
        bounded_range_of(10, &(Bound::Excluded(usize::MAX), Bound::Unbounded)),
        None
    );
}

#[test]
fn edges_give_the_same_range() {
    assert_eq!(range_between(10, Edge::Included(1), Edge::Included(3)), 1..4);
    assert_eq!(range_between(10, Edge::Excluded(1), Edge::Excluded(3)), 2..3);
    assert_eq!(range_between(10, Edge::Unbounded, Edge::Unbounded), 0..10);
    assert_eq!(range_between(10, Edge::Unbounded, Edge::Included(usize::MAX)), 0..10);
}

#[test]
fn edges_behind_the_largest_word_give_no_range() {
    assert_eq!(range_of_edges(10, Edge::Excluded(usize::MAX), Edge::Unbounded), None);
    assert_eq!(range_of_edges(10, Edge::Excluded(usize::MAX), Edge::Included(3)), None);
    assert_eq!(
        range_of_edges(10, Edge::Excluded(usize::MAX - 1), Edge::Unbounded),
        Some(usize::MAX..10)
    );
    assert_eq!(
        range_of_edges(10, Edge::Included(usize::MAX), Edge::Unbounded),
        Some(usize::MAX..10)
    );
    assert_eq!(range_of_edges(10, Edge::Included(1), Edge::Included(3)), Some(1..4));
    assert_eq!(range_of_edges(10, Edge::Unbounded, Edge::Excluded(3)), Some(0..3));
    assert_eq!(range_of_edges(10, Edge::Unbounded, Edge::Included(usize::MAX)), Some(0..10));
}
