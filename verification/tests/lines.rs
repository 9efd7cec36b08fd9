use twenty48::line::shift_line;

#[test]
fn reduce_all_empty() {
    assert_eq!(shift_line([0, 0, 0, 0]), [0, 0, 0, 0]);
}

#[test]
fn reduce_full_distinct_line_unchanged() {
    assert_eq!(shift_line([1, 2, 3, 4]), [1, 2, 3, 4]);
}

#[test]
fn reduce_three_equal_merges_once() {
    assert_eq!(shift_line([3, 3, 3, 0]), [4, 3, 0, 0]);
    assert_eq!(shift_line([1, 1, 1, 0]), [2, 1, 0, 0]);
}

#[test]
fn reduce_four_equal_merges_twice() {
    assert_eq!(shift_line([2, 2, 2, 2]), [3, 3, 0, 0]);
}

#[test]
fn reduce_slides_before_merging() {
    assert_eq!(shift_line([0, 0, 1, 1]), [2, 0, 0, 0]);
    assert_eq!(shift_line([0, 1, 0, 1]), [2, 0, 0, 0]);
    assert_eq!(shift_line([1, 0, 1, 1]), [2, 1, 0, 0]);
    assert_eq!(shift_line([1, 2, 2, 1]), [1, 3, 1, 0]);
}

#[test]
fn reduce_single_tile_slides_home() {
    assert_eq!(shift_line([0, 0, 0, 5]), [5, 0, 0, 0]);
}

#[test]
fn reduce_merges_only_one_pair_per_tile() {
    assert_eq!(shift_line([2, 2, 3, 0]), [3, 3, 0, 0]);
}

#[test]
fn reduce_near_largest_tile_value() {
    assert_eq!(shift_line([65534, 65534, 0, 0]), [65535, 0, 0, 0]);
}
