use sliding_puzzle::order::tile_cmp;
use std::cmp::Ordering;

#[test]
fn equal_tiles_compare_equal() {
    assert_eq!(tile_cmp(&3, &3), Some(Ordering::Equal));
    assert_eq!(tile_cmp(&0, &0), Some(Ordering::Equal));
}

#[test]
fn blank_compares_greater_than_any_tile() {
    assert_eq!(tile_cmp(&0, &1), Some(Ordering::Greater));
    assert_eq!(tile_cmp(&0, &usize::MAX), Some(Ordering::Greater));
    assert_eq!(tile_cmp(&1, &0), Some(Ordering::Less));
    assert_eq!(tile_cmp(&usize::MAX, &0), Some(Ordering::Less));
}

#[test]
fn numbered_tiles_compare_by_value() {
    assert_eq!(tile_cmp(&1, &2), Some(Ordering::Less));
    assert_eq!(tile_cmp(&7, &4), Some(Ordering::Greater));
}
