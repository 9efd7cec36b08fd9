use twenty48::spawn::place;

#[test]
fn place_on_full_board_changes_nothing() {
    let b: [u16; 16] = [1, 2, 1, 2, 2, 1, 2, 1, 1, 2, 1, 2, 2, 1, 2, 1];
    assert_eq!(place(&b), b);
}

#[test]
fn place_with_one_empty_cell_fills_that_cell() {
    let mut b: [u16; 16] = [1, 2, 1, 2, 2, 1, 2, 1, 1, 2, 1, 2, 2, 1, 2, 1];
    b[6] = 0;
    let r = place(&b);
    assert!(r[6] == 1 || r[6] == 2);
    for k in 0..16 {
        if k != 6 {
            assert_eq!(r[k], b[k]);
        }
    }
}

#[test]
fn place_on_empty_board_adds_exactly_one_tile() {
    let b: [u16; 16] = [0; 16];
    let r = place(&b);
    let tiles: Vec<u16> = r.iter().copied().filter(|&x| x != 0).collect();
    assert_eq!(tiles.len(), 1);
    assert!(tiles[0] == 1 || tiles[0] == 2);
}

#[test]
fn place_never_overwrites_a_tile() {
    let b: [u16; 16] = [3, 0, 0, 5, 0, 0, 0, 0, 0, 0, 7, 0, 0, 0, 0, 9];
    let r = place(&b);
    assert_eq!(r[0], 3);
    assert_eq!(r[3], 5);
    assert_eq!(r[10], 7);
    assert_eq!(r[15], 9);
    let count = |bd: &[u16; 16]| bd.iter().filter(|&&x| x != 0).count();
    assert_eq!(count(&r), count(&b) + 1);
}
