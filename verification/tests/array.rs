use ndarray::Array;

#[test]
fn array_index_array() {
    // 2-D array:
    // 1 2 3
    // 4 5 6
    let array = Array::init(vec![1, 2, 3, 4, 5, 6], [2, 3]);

    assert_eq!(array[[0, 0]], 1);
    assert_eq!(array[[0, 1]], 2);
    assert_eq!(array[[0, 2]], 3);
    assert_eq!(array[[1, 0]], 4);
    assert_eq!(array[[1, 1]], 5);
    assert_eq!(array[[1, 2]], 6);
}

#[test]
fn array_iter() {
    // 2-D array:
    // 1 2 3
    // 4 5 6
    let array = Array::init(vec![1, 2, 3, 4, 5, 6], [2, 3]);

    let mut walk = array.iter();
    let mut seen: Vec<usize> = Vec::new();
    while let Some(x) = walk.next() {
        seen.push(*x);
    }

    assert_eq!(seen, vec![1, 2, 3, 4, 5, 6])
}

#[test]
fn array_reshape_array() {
    // 2-D array:
    // 1 2 3
    // 4 5 6
    let array = Array::init(vec![1, 2, 3, 4, 5, 6], [2, 3]);

    // reshape it to the 3x2 2-D array:
    // 1 2
    // 3 4
    // 5 6
    let array = array.reshape([3, 2]);

    assert_eq!(array[[0, 0]], 1);
    assert_eq!(array[[0, 1]], 2);
    assert_eq!(array[[1, 0]], 3);
    assert_eq!(array[[1, 1]], 4);
    assert_eq!(array[[2, 0]], 5);
    assert_eq!(array[[2, 1]], 6);
}

#[test]
fn array_transpose() {
    // 2-D array:
    // 1 2 3
    // 4 5 6
    let array = Array::init(vec![1, 2, 3, 4, 5, 6], [2, 3]);

    // tranpose the array to:
    // 1 4
    // 2 5
    // 3 6
    let array = array.transpose();

    assert_eq!(array[[0, 0]], 1);
    assert_eq!(array[[0, 1]], 4);
    assert_eq!(array[[1, 0]], 2);
    assert_eq!(array[[1, 1]], 5);
    assert_eq!(array[[2, 0]], 3);
    assert_eq!(array[[2, 1]], 6);
}

#[test]
fn array_transpose_the_reshape() {
    // 2-D array:
    // 1 2 3
    // 4 5 6
    let array = Array::init(vec![1, 2, 3, 4, 5, 6], [2, 3]);

    // tranpose the array to:
    // 1 4
    // 2 5
    // 3 6
    let array = array.transpose();

    // reshape the array to a 2x3 2-D array:
    // 1 4 2
    // 5 3 6
    let array = array.reshape([2, 3]);

    assert_eq!(array[[0, 0]], 1);
    assert_eq!(array[[0, 1]], 4);
    assert_eq!(array[[0, 2]], 2);
    assert_eq!(array[[1, 0]], 5);
    assert_eq!(array[[1, 1]], 3);
    assert_eq!(array[[1, 2]], 6);
}

#[test]
fn array_flip() {
    // 2-D array:
    // 1 2 3
    // 4 5 6
    let array = Array::init(vec![1, 2, 3, 4, 5, 6], [2, 3]);

    // flip axis = 0
    // 4 5 6
    // 1 2 3
    let array = array.flip(0);

    let mut walk = array.iter();
    let mut seen: Vec<usize> = Vec::new();
    while let Some(x) = walk.next() {
        seen.push(*x);
    }

    assert_eq!(seen, vec![4, 5, 6, 1, 2, 3]);
}
