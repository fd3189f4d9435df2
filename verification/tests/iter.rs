use ndarray::Array;

#[test]
fn iter_iter() {
    // 2-D array:
    // 1 2 3
    // 4 5 6
    let array = Array::init(vec![1, 2, 3, 4, 5, 6], [2, 3]);

    let mut walk = array.iter();
    let mut seen: Vec<usize> = Vec::new();
    while let Some(x) = walk.next() {
        seen.push(*x);
    }

    assert_eq!(seen, vec![1, 2, 3, 4, 5, 6])
}
