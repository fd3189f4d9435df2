use ndarray::{Array, Axes};

#[test]
fn strides_are_those_of_the_buffer() {
    let array = Array::init((0..24).collect::<Vec<i32>>(), [2, 3, 4]);

    assert_eq!(array.shape(), &[2, 3, 4]);
    assert_eq!(array.strides(), &[12, 4, 1]);

    let slice = array.slice(&[0..1, 1..3, 2..4]);
    assert_eq!(slice.shape(), &[1, 2, 2]);
    assert_eq!(slice.strides(), &[12, 4, 1]);

    let swapped = array.swap_axes(0, 2);
    assert_eq!(swapped.shape(), &[4, 3, 2]);
    assert_eq!(swapped.strides(), &[1, 4, 12]);
}

#[test]
fn slicing_moves_the_origin() {
    // 0  1  2  3
    // 4  5  6  7
    // 8  9 10 11
    let array = Array::init((0..12).collect::<Vec<i32>>(), [3, 4]);
    let slice = array.slice(&[1..3, 2..4]);

    assert_eq!(slice.get([0, 0]), Some(&6));
    assert_eq!(slice.get([1, 1]), Some(&11));
    assert_eq!(slice.get([0, 2]), None);
    assert_eq!(
        slice.flat().into_iter().copied().collect::<Vec<i32>>(),
        vec![6, 7, 10, 11]
    );

    let inner = slice.slice(&[1..2, 0..1]);
    assert_eq!(
        inner.flat().into_iter().copied().collect::<Vec<i32>>(),
        vec![10]
    );
}

#[test]
fn slicing_a_flipped_axis_counts_from_its_new_start() {
    let array = Array::init((0..5).collect::<Vec<i32>>(), [5]);
    let flipped = array.flip(0);
    let slice = flipped.slice(&[1..3]);

    assert_eq!(
        slice.flat().into_iter().copied().collect::<Vec<i32>>(),
        vec![3, 2]
    );

    let back = slice.flip(0);
    assert_eq!(
        back.flat().into_iter().copied().collect::<Vec<i32>>(),
        vec![2, 3]
    );
}

#[test]
fn an_empty_array_shows_nothing() {
    let empty = Array::<i32, 2>::init(vec![], [0, 3]);

    assert_eq!(empty.flat().len(), 0);
    assert_eq!(empty.get([0, 0]), None);
    assert!(empty.iter().next().is_none());
    assert_eq!(empty.max(), None);
    assert_eq!(empty.min(), None);
    assert_eq!(empty.ptp(), None);
    assert_eq!(empty.arg_max(), Vec::<usize>::new());
    assert_eq!(empty.arg_min(), Vec::<usize>::new());
    assert_eq!(empty.max_across(0), Vec::<Option<i32>>::new());
    assert_eq!(empty.max_across(1), vec![None, None, None]);
    assert_eq!(empty.arg_max_across(1), vec![None, None, None]);

    let flipped = empty.flip(0);
    let twice = flipped.flip(0);
    assert_eq!(twice.flat().len(), 0);
    assert_eq!(twice.shape(), &[0, 3]);

    let turned = empty.t();
    assert_eq!(turned.shape(), &[3, 0]);
    assert_eq!(turned.flatten().shape(), &[0]);
}

#[test]
fn an_array_without_axes_holds_one_element() {
    let point = Array::<i32, 0>::init(vec![7], []);

    assert_eq!(point.get([]), Some(&7));
    assert_eq!(point.flat().into_iter().copied().collect::<Vec<i32>>(), vec![7]);
    assert_eq!(point.max(), Some(7));

    let mut walk = point.iter();
    assert_eq!(walk.next(), Some(&7));
    assert_eq!(walk.next(), None);
    assert_eq!(walk.next(), None);
}

#[test]
fn the_walk_ends_after_the_last_element() {
    let array = Array::init(vec![1, 2, 3, 4], [2, 2]);
    let mut walk = array.iter();

    assert_eq!(walk.next(), Some(&1));
    assert_eq!(walk.next(), Some(&2));
    assert_eq!(walk.next(), Some(&3));
    assert_eq!(walk.next(), Some(&4));
    assert_eq!(walk.next(), None);
    assert_eq!(walk.next(), None);
}

#[test]
fn the_walk_over_three_axes_turns_the_last_axis_fastest() {
    let array = Array::init((0..12).collect::<Vec<i32>>(), [2, 3, 2]);
    let swapped = array.swap_axes(0, 2);

    let mut walk = swapped.iter();
    let mut seen: Vec<i32> = Vec::new();
    while let Some(x) = walk.next() {
        seen.push(*x);
    }

    assert_eq!(seen, vec![0, 6, 2, 8, 4, 10, 1, 7, 3, 9, 5, 11]);
    assert_eq!(seen, swapped.flat().into_iter().copied().collect::<Vec<i32>>());
}

#[test]
fn an_axis_view_holds_one_part_for_each_coordinate() {
    // 1 2 3
    // 4 5 6
    let array = Array::init(vec![1, 2, 3, 4, 5, 6], [2, 3]);

    let rows = array.axis_view(0);
    assert_eq!(rows.len(), 2);
    assert_eq!(rows[0].shape(), &[1, 3]);
    assert_eq!(rows[0].flat().into_iter().copied().collect::<Vec<i32>>(), vec![1, 2, 3]);
    assert_eq!(rows[1].flat().into_iter().copied().collect::<Vec<i32>>(), vec![4, 5, 6]);

    let columns = array.axis_view(1);
    assert_eq!(columns.len(), 3);
    assert_eq!(columns[0].shape(), &[2, 1]);
    assert_eq!(columns[0].flat().into_iter().copied().collect::<Vec<i32>>(), vec![1, 4]);
    assert_eq!(columns[2].flat().into_iter().copied().collect::<Vec<i32>>(), vec![3, 6]);
}

#[test]
fn the_axes_come_with_extent_and_stride() {
    let array = Array::init((0..24).collect::<Vec<i32>>(), [2, 3, 4]);
    let mut axes = array.axes();

    assert_eq!(axes.next(), Some((2, 12)));
    assert_eq!(axes.next(), Some((3, 4)));
    assert_eq!(axes.next(), Some((4, 1)));
    assert_eq!(axes.next(), None);
    assert_eq!(axes.next(), None);

    let shape = [5, 7];
    let strides = [7, 1];
    let mut axes = Axes::init(&shape, &strides);
    assert_eq!(axes.next(), Some((5, 7)));
    assert_eq!(axes.next(), Some((7, 1)));
    assert_eq!(axes.next(), None);
}

#[test]
fn flattening_copies_what_the_view_shows() {
    // 1 2 3
    // 4 5 6
    let array = Array::init(vec![1, 2, 3, 4, 5, 6], [2, 3]);
    let slice = array.slice(&[0..2, 1..3]);
    let turned = slice.t();

    let flat = turned.flatten();
    assert_eq!(flat.shape(), &[4]);
    assert_eq!(flat.strides(), &[1]);
    assert_eq!(flat.flat().into_iter().copied().collect::<Vec<i32>>(), vec![2, 5, 3, 6]);

    let ravelled = turned.ravel();
    assert_eq!(ravelled.shape(), &[4]);
    assert_eq!(ravelled.flat().into_iter().copied().collect::<Vec<i32>>(), vec![2, 5, 3, 6]);

    let reshaped = turned.reshape([1, 4]);
    assert_eq!(reshaped.strides(), &[4, 1]);
    assert_eq!(reshaped.get([0, 3]), Some(&6));
}

#[test]
fn greatest_and_least_with_ties() {
    let array = Array::init(vec![5, 1, 5, 1, 3, 5], [2, 3]);

    assert_eq!(array.max(), Some(5));
    assert_eq!(array.min(), Some(1));
    assert_eq!(array.arg_max(), vec![0, 2, 5]);
    assert_eq!(array.arg_min(), vec![1, 3]);
    assert_eq!(array.arg_max_across(0), vec![Some(0), Some(2)]);
    assert_eq!(array.arg_min_across(0), vec![Some(1), Some(0)]);
    assert_eq!(array.arg_max_across(1), vec![Some(0), Some(1), Some(0)]);
}

#[test]
fn the_spread_follows_the_view() {
    // 4  9  2 10
    // 6  9  7 12
    let array = Array::init(vec![4, 9, 2, 10, 6, 9, 7, 12], [2, 4]);
    let flipped = array.flip(1);
    let slice = flipped.slice(&[0..2, 1..3]);

    // 2 9
    // 7 9
    assert_eq!(slice.flat().into_iter().copied().collect::<Vec<i32>>(), vec![2, 9, 7, 9]);
    assert_eq!(slice.ptp(), Some(7));
    assert_eq!(slice.max(), Some(9));
    assert_eq!(slice.min(), Some(2));
    assert_eq!(slice.arg_max(), vec![1, 3]);
    assert_eq!(slice.ptp_across(1), vec![Some(5), Some(0)]);
}

#[test]
fn clipping_keeps_the_view() {
    let array = Array::init(vec![0, 10, 20, 30, 40, 50], [2, 3]);
    let flipped = array.flip(1);

    let clipped = flipped.clip(&15, &35);

    assert_eq!(clipped.shape(), &[2, 3]);
    assert_eq!(
        clipped.flat().into_iter().copied().collect::<Vec<i32>>(),
        vec![20, 15, 15, 35, 35, 30]
    );
    assert_eq!(
        flipped.flat().into_iter().copied().collect::<Vec<i32>>(),
        vec![20, 10, 0, 50, 40, 30]
    );
}

#[test]
fn scaling_keeps_the_view() {
    let array = Array::init(vec![2, 4, 6, 8, 10, 12], [2, 3]);
    let turned = array.t();

    let doubled = &turned * 2;
    let halved = &turned / 2;

    assert_eq!(doubled.shape(), &[3, 2]);
    assert_eq!(
        doubled.flat().into_iter().copied().collect::<Vec<i32>>(),
        vec![4, 16, 8, 20, 12, 24]
    );
    assert_eq!(
        halved.flat().into_iter().copied().collect::<Vec<i32>>(),
        vec![1, 4, 2, 5, 3, 6]
    );
}

#[test]
fn negating_a_view_leaves_its_source_alone() {
    let array = Array::init(vec![1, 2, 3, 4], [2, 2]);
    let view = array.flip(0);

    let negated = -view;

    assert_eq!(
        negated.flat().into_iter().copied().collect::<Vec<i32>>(),
        vec![-3, -4, -1, -2]
    );
    assert_eq!(
        array.flat().into_iter().copied().collect::<Vec<i32>>(),
        vec![1, 2, 3, 4]
    );
}

#[test]
fn constant_arrays_of_other_element_types() {
    let zeros = Array::<i64, 2>::zeros([2, 2]);
    let ones = Array::<u64, 1>::ones([3]);
    let like = Array::<i32, 2>::ones_like(&zeros);
    let none = Array::<i32, 2>::zeros([4, 0]);

    assert_eq!(zeros.flat().into_iter().copied().collect::<Vec<i64>>(), vec![0, 0, 0, 0]);
    assert_eq!(ones.flat().into_iter().copied().collect::<Vec<u64>>(), vec![1, 1, 1]);
    assert_eq!(like.flat().into_iter().copied().collect::<Vec<i32>>(), vec![1, 1, 1, 1]);
    assert_eq!(like.shape(), &[2, 2]);
    assert_eq!(none.flat().len(), 0);
}

#[test]
fn flipping_keeps_the_spread() {
    // 4  9  2 10
    // 6  9  7 12
    let array = Array::init(vec![4, 9, 2, 10, 6, 9, 7, 12], [2, 4]);

    assert_eq!(array.ptp(), Some(10));
    assert_eq!(array.flip(0).ptp(), Some(10));
    assert_eq!(array.flip(1).ptp(), Some(10));
    assert_eq!(array.flip(1).flip(0).ptp(), array.ptp());
    assert_eq!(array.flip(0).max(), array.max());
    assert_eq!(array.flip(1).min(), array.min());
}
