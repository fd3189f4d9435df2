use ndarray::{checked_volume, Array};

#[test]
fn transposing_twice_gives_the_same_elements() {
    let array = Array::init((0..24).collect::<Vec<i32>>(), [2, 3, 4]);
    let twice = array.t();
    let twice = twice.t();

    for i in 0..2 {
        for j in 0..3 {
            for k in 0..4 {
                assert_eq!(twice.get([i, j, k]), array.get([i, j, k]));
            }
        }
    }
    assert_eq!(twice.shape(), array.shape());
    assert_eq!(twice.strides(), array.strides());
    assert_eq!(twice.get([2, 0, 0]), None);
}

#[test]
fn transposing_reverses_the_indices() {
    let array = Array::init((0..24).collect::<Vec<i32>>(), [2, 3, 4]);
    let turned = array.t();

    assert_eq!(turned.shape(), &[4, 3, 2]);
    assert_eq!(turned.strides(), &[1, 4, 12]);
    for i in 0..2 {
        for j in 0..3 {
            for k in 0..4 {
                assert_eq!(turned.get([k, j, i]), array.get([i, j, k]));
            }
        }
    }
}

#[test]
fn flipping_twice_gives_the_same_elements() {
    let array = Array::init((0..24).collect::<Vec<i32>>(), [2, 3, 4]);

    for axis in 0..3 {
        let once = array.flip(axis);
        let twice = once.flip(axis);
        assert_eq!(twice.flat(), array.flat());
        for i in 0..2 {
            for j in 0..3 {
                for k in 0..4 {
                    assert_eq!(twice.get([i, j, k]), array.get([i, j, k]));
                }
            }
        }
    }
}

#[test]
fn flipping_reads_an_axis_backwards() {
    // 1 2 3
    // 4 5 6
    let array = Array::init(vec![1, 2, 3, 4, 5, 6], [2, 3]);
    let flipped = array.flip(1);

    assert_eq!(
        flipped.flat().into_iter().copied().collect::<Vec<i32>>(),
        vec![3, 2, 1, 6, 5, 4]
    );
    assert_eq!(flipped.get([0, 0]), Some(&3));
    assert_eq!(flipped.get([1, 2]), Some(&4));
}

#[test]
fn swapping_twice_gives_the_same_elements() {
    let array = Array::init((0..6).collect::<Vec<i32>>(), [2, 3]);
    let once = array.swap_axes(0, 1);
    let twice = once.swap_axes(0, 1);

    for i in 0..2 {
        for j in 0..3 {
            assert_eq!(twice.get([i, j]), array.get([i, j]));
            assert_eq!(once.get([j, i]), array.get([i, j]));
        }
    }
    assert_eq!(twice.shape(), array.shape());
    assert_eq!(once.shape(), &[3, 2]);
}

#[test]
fn slice_then_flip_iterates_in_the_order_of_the_view() {
    let array = Array::init((1..17).collect::<Vec<i32>>(), [4, 4]);
    let flipped = array.flip(0);
    let slice = flipped.slice(&[1..3, 1..3]);
    let view = slice.flip(1);

    assert_eq!(
        view.flat().into_iter().copied().collect::<Vec<i32>>(),
        vec![11, 10, 7, 6]
    );
    assert_eq!(view.shape(), &[2, 2]);
    assert_eq!(view.get([0, 0]), Some(&11));
    assert_eq!(view.get([1, 1]), Some(&6));
    assert_eq!(view.get([2, 0]), None);
}

#[test]
fn reductions_of_a_small_array() {
    // 0 1
    // 2 3
    let array = Array::init(vec![0, 1, 2, 3], [2, 2]);

    assert_eq!(array.max(), Some(3));
    assert_eq!(array.min(), Some(0));
    assert_eq!(array.max_across(0), vec![Some(1), Some(3)]);
    assert_eq!(array.max_across(1), vec![Some(2), Some(3)]);
    assert_eq!(array.arg_max(), vec![3]);
    assert_eq!(array.arg_min(), vec![0]);
}

#[test]
fn a_buffer_that_does_not_match_the_shape_is_not_admitted() {
    // a buffer of 5 elements under the shape [2, 3]
    let buffer = vec![1, 2, 3, 4, 5];

    assert_eq!(checked_volume(&[2, 3]), Some(6));
    assert_ne!(checked_volume(&[2, 3]), Some(buffer.len()));
    assert_eq!(checked_volume(&[5]), Some(buffer.len()));
    assert_eq!(checked_volume(&[5, 1]), Some(buffer.len()));
}

#[test]
fn a_shape_is_held_where_volume_and_strides_fit() {
    assert_eq!(checked_volume(&[usize::MAX, 2]), None);
    assert_eq!(checked_volume(&[usize::MAX, usize::MAX]), None);
    assert_eq!(checked_volume(&[0, usize::MAX, usize::MAX]), None);
    assert_eq!(checked_volume(&[usize::MAX, 0, usize::MAX]), Some(0));
    assert_eq!(checked_volume(&[usize::MAX, 2, 0]), Some(0));
    assert_eq!(checked_volume(&[usize::MAX, 1]), Some(usize::MAX));
    assert_eq!(checked_volume(&[2, 3, 4]), Some(24));
    assert_eq!(checked_volume(&[]), Some(1));
}

#[test]
fn an_empty_array_may_have_wide_axes() {
    let array = Array::<i32, 3>::init(vec![], [usize::MAX, 0, usize::MAX]);

    assert_eq!(array.shape(), &[usize::MAX, 0, usize::MAX]);
    assert_eq!(array.strides(), &[0, usize::MAX, 1]);
    assert_eq!(array.flat().len(), 0);
    assert_eq!(array.get([0, 0, 0]), None);
    assert_eq!(array.max(), None);

    let again = array.reshape([usize::MAX, 0, usize::MAX]);
    assert_eq!(again.shape(), &[usize::MAX, 0, usize::MAX]);
    assert_eq!(again.strides(), &[0, usize::MAX, 1]);

    let turned = array.t();
    assert_eq!(turned.shape(), &[usize::MAX, 0, usize::MAX]);
    assert_eq!(turned.strides(), &[1, usize::MAX, 0]);
    assert_eq!(turned.flatten().shape(), &[0]);
}

#[test]
fn arrays_of_different_shape_do_not_agree() {
    let left = Array::init(vec![1, 2, 3, 4, 5, 6], [2, 3]);
    let right = Array::init(vec![6, 5, 4, 3, 2, 1], [3, 2]);
    let other = Array::init(vec![6, 5, 4, 3, 2, 1], [2, 3]);

    assert!(!left.same_shape(&right));
    assert!(!right.same_shape(&left));
    assert!(left.same_shape(&other));
    assert!(left.same_shape(&right.t()));
}

#[test]
fn arrays_of_one_shape_are_added_place_by_place() {
    let left = Array::init(vec![1, 2, 3, 4, 5, 6], [2, 3]);
    let right = Array::init(vec![6, 5, 4, 3, 2, 1], [2, 3]);

    let sum = &left + &right;

    assert_eq!(
        sum.flat().into_iter().copied().collect::<Vec<i32>>(),
        vec![7, 7, 7, 7, 7, 7]
    );
    assert_eq!(sum.shape(), &[2, 3]);
    assert_eq!(sum.strides(), &[3, 1]);
}

#[test]
fn addition_follows_the_views_of_both_operands() {
    // 1 2 3      6 3
    // 4 5 6      5 2
    //            4 1
    let left = Array::init(vec![1, 2, 3, 4, 5, 6], [2, 3]);
    let right = Array::init(vec![6, 3, 5, 2, 4, 1], [3, 2]);
    let turned = right.t();

    // 6 5 4
    // 3 2 1
    let sum = &left + &turned;
    let difference = &left - &turned;

    assert_eq!(
        sum.flat().into_iter().copied().collect::<Vec<i32>>(),
        vec![7, 7, 7, 7, 7, 7]
    );
    assert_eq!(
        difference.flat().into_iter().copied().collect::<Vec<i32>>(),
        vec![-5, -3, -1, 1, 3, 5]
    );
}

#[test]
fn a_range_may_reach_the_end_of_its_axis() {
    let array = Array::init(vec![1, 2, 3, 4, 5, 6], [2, 3]);

    let whole = array.slice(&[0..2, 0..3]);
    assert_eq!(whole.shape(), &[2, 3]);
    assert_eq!(whole.flat(), array.flat());

    let none = array.slice(&[2..2, 3..3]);
    assert_eq!(none.shape(), &[0, 0]);
    assert_eq!(none.flat().len(), 0);

    let last = array.slice(&[1..2, 2..3]);
    assert_eq!(last.flat().into_iter().copied().collect::<Vec<i32>>(), vec![6]);
}

#[test]
fn a_new_shape_asks_for_as_many_elements() {
    let array = Array::init(vec![1, 2, 3, 4, 5, 6], [2, 3]);

    assert_ne!(checked_volume(&[4, 2]), Some(array.flat().len()));
    assert_ne!(checked_volume(&[6, 0]), Some(array.flat().len()));
    assert_eq!(checked_volume(&[6]), Some(array.flat().len()));
    assert_eq!(checked_volume(&[1, 6, 1]), Some(array.flat().len()));

    assert_eq!(array.reshape([6]).shape(), &[6]);
    let deep = array.reshape([1, 6, 1]);
    assert_eq!(deep.strides(), &[6, 1, 1]);
    assert_eq!(deep.get([0, 4, 0]), Some(&5));
}

#[test]
fn an_index_beyond_the_shape_names_nothing() {
    let array = Array::init(vec![1, 2, 3, 4, 5, 6], [2, 3]);

    assert_eq!(array.get([0, 0]), Some(&1));
    assert_eq!(array.get([1, 2]), Some(&6));
    assert_eq!(array.get([2, 0]), None);
    assert_eq!(array.get([0, 3]), None);
    assert_eq!(array.get([usize::MAX, usize::MAX]), None);
}
