use sliding_puzzle::board::Board;

#[test]
fn grid_build_1() {
    let g = Board::new(1);
    assert_eq!(g.size(), 1);
    assert_eq!(*g.tiles(), vec![0]);
}

#[test]
fn grid_shuffle_shuffles_tiles() {
    let mut g = Board::new(4);

    g.shuffle();
    let tiles_1 = g.tiles().clone();
    g.shuffle();
    let tiles_2 = g.tiles().clone();

    assert_ne!(tiles_1, tiles_2);
}

#[test]
fn grid_shuffle_ensures_last_tile_is_0() {
    let mut g = Board::new(4);
    g.shuffle();
    assert_eq!(g.tiles()[g.tiles().len() - 1], 0);

    g.shuffle();
    assert_eq!(g.tiles()[g.tiles().len() - 1], 0);
}

#[test]
fn grid_index_position_is_correct() {
    let g = Board::new(4);

    assert_eq!(g.index_to_position(0), (0, 0));
    assert_eq!(g.index_to_position(1), (1, 0));
    assert_eq!(g.index_to_position(2), (2, 0));
    assert_eq!(g.index_to_position(3), (3, 0));
    assert_eq!(g.index_to_position(4), (0, 1));
    assert_eq!(g.index_to_position(9), (1, 2));
    assert_eq!(g.index_to_position(15), (3, 3));
}

#[test]
fn grid_invalid_swap_does_not_modify_tiles() {
    let mut g = Board::new(3);
    g.reset_tiles();
    let out_of_bounds: usize = 90;
    let out_of_bounds_2: usize = out_of_bounds + 1;
    let initial_tiles: Vec<usize> = vec![1, 2, 3, 4, 5, 6, 7, 8, 0];

    assert!(!g.swap(0, out_of_bounds));
    assert_eq!(*g.tiles(), initial_tiles);

    assert!(!g.swap(out_of_bounds, 0));
    assert_eq!(*g.tiles(), initial_tiles);

    assert!(!g.swap(out_of_bounds, out_of_bounds_2));
    assert_eq!(*g.tiles(), initial_tiles);

    assert!(!g.swap(1, 1));
    assert_eq!(*g.tiles(), initial_tiles);
}
