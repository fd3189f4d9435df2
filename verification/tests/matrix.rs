use ndarray::Matrix;

#[test]
fn matrix_test() {
    let mat = Matrix::<usize, 3, 3>::init(vec![1, 2, 3, 4, 5, 6, 7, 8, 9]);

    assert_eq!(mat[[1, 1]], 5);
}

#[test]
fn matrix_reshape() {
    let mat = Matrix::<usize, 2, 2>::init(vec![1, 2, 3, 4]);

    let col_vec = mat.reshape::<4, 1>();

    assert_eq!(col_vec[[3, 0]], 4);
}

#[test]
fn matrix_entries_stand_row_after_row() {
    let mat = Matrix::<i32, 2, 3>::init(vec![1, 2, 3, 4, 5, 6]);

    assert_eq!(mat[[0, 0]], 1);
    assert_eq!(mat[[0, 2]], 3);
    assert_eq!(mat[[1, 0]], 4);
    assert_eq!(mat[[1, 2]], 6);

    let tall = mat.reshape::<3, 2>();
    assert_eq!(tall[[0, 1]], 2);
    assert_eq!(tall[[1, 0]], 3);
    assert_eq!(tall[[2, 1]], 6);
}
