use sliding_puzzle::range::range_inclusive;

#[test]
fn range_runs_upwards() {
    assert_eq!(range_inclusive(2, 5), vec![2, 3, 4, 5]);
    assert_eq!(range_inclusive(0, 1), vec![0, 1]);
}

#[test]
fn range_runs_downwards() {
    assert_eq!(range_inclusive(5, 2), vec![5, 4, 3, 2]);
    assert_eq!(range_inclusive(1, 0), vec![1, 0]);
}

#[test]
fn range_of_one_number() {
    assert_eq!(range_inclusive(3, 3), vec![3]);
    assert_eq!(range_inclusive(0, 0), vec![0]);
    assert_eq!(range_inclusive(usize::MAX, usize::MAX), vec![usize::MAX]);
}
