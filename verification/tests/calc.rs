use ndarray::Array;

#[test]
fn max() {
    // 2-D array:
    // 0 1
    // 2 3
    let array = Array::init(vec![0, 1, 2, 3], [2, 2]);

    assert_eq!(array.max().unwrap(), 3);
}

#[test]
fn arg_max() {
    // 2-D array:
    // 0 1
    // 2 3
    let array = Array::init(vec![0, 1, 2, 3], [2, 2]);

    assert_eq!(array.arg_max()[0], 3);
}

#[test]
fn max_across() {
    // 2-D array:
    // 0 1
    // 2 3
    let array = Array::init(vec![0, 1, 2, 3], [2, 2]);

    assert_eq!(array.max_across(1), vec![Some(2), Some(3)]);
    assert_eq!(array.max_across(0), vec![Some(1), Some(3)]);
}

#[test]
fn arg_max_across() {
    // 2-D array:
    // 0 1
    // 2 3
    let array = Array::init(vec![0, 1, 2, 3], [2, 2]);

    assert_eq!(array.arg_max_across(1), vec![Some(1), Some(1)]);
    assert_eq!(array.arg_max_across(0), vec![Some(1), Some(1)]);
}

#[test]
fn min() {
    // 2-D array:
    // 0 1
    // 2 3
    let array = Array::init(vec![0, 1, 2, 3], [2, 2]);

    assert_eq!(array.min().unwrap(), 0);
}

#[test]
fn arg_min() {
    // 2-D array:
    // 0 1
    // 2 3
    let array = Array::init(vec![0, 1, 2, 3], [2, 2]);

    assert_eq!(array.arg_min()[0], 0);
}

#[test]
fn min_across() {
    // 2-D array:
    // 0 1
    // 2 3
    let array = Array::init(vec![0, 1, 2, 3], [2, 2]);

    assert_eq!(array.min_across(1), vec![Some(0), Some(1)]);
    assert_eq!(array.min_across(0), vec![Some(0), Some(2)]);
}

#[test]
fn arg_min_across() {
    // 2-D array:
    // 0 1
    // 2 3
    let array = Array::init(vec![0, 1, 2, 3], [2, 2]);

    assert_eq!(array.arg_min_across(1), vec![Some(0), Some(0)]);
    assert_eq!(array.arg_min_across(0), vec![Some(0), Some(0)]);
}

#[test]
fn clip() {
    let array = Array::arange(0..10);

    let clipped = array.clip(&1, &8);

    assert_eq!(
        clipped.flat().into_iter().copied().collect::<Vec<i32>>(),
        vec![1, 1, 2, 3, 4, 5, 6, 7, 8, 8]
    );
}

#[test]
fn ptp() {
    let array = Array::init(vec![4, 9, 2, 10, 6, 9, 7, 12], [2, 4]);

    assert_eq!(array.ptp().unwrap(), 10)
}

#[test]
fn ptp_across() {
    let array = Array::init(vec![4, 9, 2, 10, 6, 9, 7, 12], [2, 4]);

    assert_eq!(array.ptp_across(0), vec![Some(8), Some(6)]);
    assert_eq!(
        array.ptp_across(1),
        vec![Some(2), Some(0), Some(5), Some(2)]
    )
}

#[test]
fn sum() {
    // 1 2
    // 3 4
    let array = Array::arange(1..5).reshape([2, 2]);

    assert_eq!(array.sum(), 10);
}

#[test]
fn sum_across() {
    // 1 2
    // 3 4
    let array = Array::arange(1..5).reshape([2, 2]);

    assert_eq!(array.sum_across(0), vec![3, 7]);
    assert_eq!(array.sum_across(1), vec![4, 6]);
}

#[test]
fn prod() {
    // 1 2
    // 3 4
    let array = Array::arange(1..5).reshape([2, 2]);

    assert_eq!(array.prod(), 24);
}

#[test]
fn prod_across() {
    // 1 2
    // 3 4
    let array = Array::arange(1..5).reshape([2, 2]);

    assert_eq!(array.prod_across(0), vec![2, 12]);
    assert_eq!(array.prod_across(1), vec![3, 8]);
}

#[test]
fn mean() {
    // 1 2
    // 3 4
    let array = Array::arange(1..5).reshape([2, 2]);

    assert_eq!(array.mean(), 2);
}

#[test]
fn mean_across() {
    // 1 2
    // 3 4
    let array = Array::arange(1..5).reshape([2, 2]);

    assert_eq!(array.mean_across(0), vec![1, 3]);
    assert_eq!(array.mean_across(1), vec![2, 3]);
}
