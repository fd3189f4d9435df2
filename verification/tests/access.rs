use ndarray::Array;

#[test]
fn access_index_array() {
    // 2-D array:
    // 1 2 3
    // 4 5 6
    let array = Array::init(vec![1, 2, 3, 4, 5, 6], [2, 3]);

    assert_eq!(array[[0, 0]], 1);
    assert_eq!(array[[0, 1]], 2);
    assert_eq!(array[[0, 2]], 3);
    assert_eq!(array[[1, 0]], 4);
    assert_eq!(array[[1, 1]], 5);
    assert_eq!(array[[1, 2]], 6);
}

#[test]
fn slicing() {
    // 2-D array:
    // 1   2  3  4
    // 5   6  7  8
    // 9  10 11 12
    // 13 14 15 16
    let array = Array::init(
        vec![1, 2, 3, 4, 5, 6, 7, 8, 9, 10, 11, 12, 13, 14, 15, 16],
        [4, 4],
    );

    // flip the array across axis=0
    // 13 14 15 16
    // 9  10 11 12
    // 5  6  7  8
    // 1  2  3  4
    let flipped = array.flip(0);

    // slice the center of the array
    // 10 11
    // 6  7
    let slice = flipped.slice(&[1..3, 1..3]);

    // 11 10
    // 7  6
    let flip_of_slice = slice.flip(1);

    assert_eq!(
        flip_of_slice.flat().into_iter().copied().collect::<Vec<usize>>(),
        vec![11, 10, 7, 6]
    );
}
