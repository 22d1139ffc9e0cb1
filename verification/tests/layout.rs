use sliding_puzzle::layout::{place_tile, sorted_tiles_by_number};

#[test]
fn sorted_pairs_put_the_blank_last() {
    let tiles = vec![1, 0];
    assert_eq!(sorted_tiles_by_number(&tiles), vec![(0, &1), (1, &0)]);
    let tiles = vec![0, 1];
    assert_eq!(sorted_tiles_by_number(&tiles), vec![(1, &1), (0, &0)]);
}

#[test]
fn sorted_pairs_of_a_board() {
    let tiles = vec![3, 1, 0, 2];
    assert_eq!(
        sorted_tiles_by_number(&tiles),
        vec![(1, &1), (3, &2), (0, &3), (2, &0)]
    );
}

#[test]
fn sorted_pairs_keep_equal_tiles_in_place() {
    let tiles = vec![2, 0, 2, 1, 0];
    assert_eq!(
        sorted_tiles_by_number(&tiles),
        vec![(3, &1), (0, &2), (2, &2), (1, &0), (4, &0)]
    );
}

#[test]
fn sorted_pairs_of_nothing() {
    let tiles: Vec<usize> = vec![];
    assert_eq!(sorted_tiles_by_number(&tiles), vec![]);
}

#[test]
fn numbered_tile_is_placed_by_its_cell_and_its_value() {
    // tile 7 in cell 9 of a board of side 4
    let place = place_tile(4, 9, 7);
    assert_eq!((place.x, place.y), (1, 2));
    assert_eq!((place.nx, place.ny), (2, 1));

    let place = place_tile(3, 0, 9);
    assert_eq!((place.x, place.y), (0, 0));
    assert_eq!((place.nx, place.ny), (2, 2));
}

#[test]
fn blank_belongs_off_the_grid() {
    let place = place_tile(4, 15, 0);
    assert_eq!((place.x, place.y), (3, 3));
    assert_eq!((place.nx, place.ny), (4, 4));
}

#[test]
fn tiles_of_a_solved_board_are_where_they_belong() {
    let size: usize = 3;
    let tiles = vec![1, 2, 3, 4, 5, 6, 7, 8, 0];
    for (index, tile) in sorted_tiles_by_number(&tiles) {
        let place = place_tile(size, index, *tile);
        if *tile != 0 {
            assert_eq!((place.x, place.y), (place.nx, place.ny));
        }
    }
}
