use oscamp::work::{double_all, slice_sum, square};

#[test]
fn double_basic() {
    assert_eq!(double_all(vec![1, 2, 3, 4, 5]), vec![2, 4, 6, 8, 10]);
}

#[test]
fn double_empty() {
    assert_eq!(double_all(vec![]), Vec::<i32>::new());
}

#[test]
fn double_negative() {
    assert_eq!(double_all(vec![-1, 0, 1]), vec![-2, 0, 2]);
}

#[test]
fn sums() {
    assert_eq!(slice_sum(&[1, 2, 3]), 6);
    assert_eq!(slice_sum(&[10, 20, 30]), 60);
    assert_eq!(slice_sum(&[]), 0);
    assert_eq!(slice_sum(&[i32::MAX, -1, 1]), i32::MAX);
}

#[test]
fn squares() {
    let v: Vec<usize> = (0..5).map(square).collect();
    assert_eq!(v, vec![0, 1, 4, 9, 16]);
}
