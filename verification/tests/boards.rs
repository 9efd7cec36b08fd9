use twenty48::board::{shift_board, Dir};

#[test]
fn shift_left_worked_example() {
    let b: [u16; 16] = [0, 0, 1, 1, 0, 1, 0, 1, 1, 0, 1, 1, 1, 2, 2, 1];
    let r = shift_board(Dir::Left, &b);
    assert_eq!(r, [2, 0, 0, 0, 2, 0, 0, 0, 2, 1, 0, 0, 1, 3, 1, 0]);
}

#[test]
fn shift_right_packs_to_right_edge() {
    let b: [u16; 16] = [1, 0, 0, 2, 1, 0, 0, 2, 0, 0, 0, 0, 1, 0, 0, 0];
    let r = shift_board(Dir::Right, &b);
    assert_eq!(r, [0, 0, 1, 2, 0, 0, 1, 2, 0, 0, 0, 0, 0, 0, 0, 1]);
}

#[test]
fn shift_up_merges_columns() {
    let b: [u16; 16] = [1, 0, 0, 2, 1, 0, 0, 2, 0, 0, 0, 0, 1, 0, 0, 0];
    let r = shift_board(Dir::Up, &b);
    assert_eq!(r, [2, 0, 0, 3, 1, 0, 0, 0, 0, 0, 0, 0, 0, 0, 0, 0]);
}

#[test]
fn shift_down_merges_columns() {
    let b: [u16; 16] = [1, 0, 0, 2, 1, 0, 0, 2, 0, 0, 0, 0, 1, 0, 0, 0];
    let r = shift_board(Dir::Down, &b);
    assert_eq!(r, [0, 0, 0, 0, 0, 0, 0, 0, 1, 0, 0, 0, 2, 0, 0, 3]);
}

#[test]
fn shift_left_then_right_moves_tiles_without_loss() {
    // No two equal tiles share a line, so no merge is available in any
    // direction; tiles are packed toward, then away from, the left edge.
    let b: [u16; 16] = [0, 1, 0, 2, 0, 0, 3, 0, 0, 0, 0, 0, 4, 0, 5, 0];
    let left = shift_board(Dir::Left, &b);
    assert_eq!(left, [1, 2, 0, 0, 3, 0, 0, 0, 0, 0, 0, 0, 4, 5, 0, 0]);
    let right = shift_board(Dir::Right, &left);
    assert_eq!(right, [0, 0, 1, 2, 0, 0, 0, 3, 0, 0, 0, 0, 0, 0, 4, 5]);
    let count = |bd: &[u16; 16]| bd.iter().filter(|&&x| x != 0).count();
    let sum = |bd: &[u16; 16]| bd.iter().map(|&x| if x == 0 { 0u64 } else { 1u64 << x }).sum::<u64>();
    assert_eq!(count(&left), count(&b));
    assert_eq!(count(&right), count(&b));
    assert_eq!(sum(&left), sum(&b));
    assert_eq!(sum(&right), sum(&b));
}

#[test]
fn shift_on_packed_board_is_identity() {
    let b: [u16; 16] = [1, 2, 0, 0, 3, 1, 0, 0, 2, 0, 0, 0, 1, 4, 0, 0];
    let r = shift_board(Dir::Left, &b);
    assert_eq!(r, b);
}

#[test]
fn shift_conserves_displayed_sum_through_merges() {
    let b: [u16; 16] = [1, 1, 2, 2, 3, 3, 3, 3, 0, 4, 0, 4, 2, 0, 0, 2];
    let r = shift_board(Dir::Left, &b);
    assert_eq!(r, [2, 3, 0, 0, 4, 4, 0, 0, 5, 0, 0, 0, 3, 0, 0, 0]);
    let sum = |bd: &[u16; 16]| bd.iter().map(|&x| if x == 0 { 0u64 } else { 1u64 << x }).sum::<u64>();
    let count = |bd: &[u16; 16]| bd.iter().filter(|&&x| x != 0).count();
    assert_eq!(sum(&r), sum(&b));
    // Six merges happened: two in each of the first two rows, one in
    // each of the last two.
    assert_eq!(count(&r) + 6, count(&b));
}
