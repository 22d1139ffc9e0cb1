use sliding_puzzle::game::{clamp_size, GameScreen, Msg, MAX_SIZE, MIN_SIZE};

#[test]
fn size_is_kept_in_range() {
    assert_eq!(MIN_SIZE, 3);
    assert_eq!(MAX_SIZE, 8);
    assert_eq!(clamp_size(0), 3);
    assert_eq!(clamp_size(2), 3);
    assert_eq!(clamp_size(3), 3);
    assert_eq!(clamp_size(5), 5);
    assert_eq!(clamp_size(8), 8);
    assert_eq!(clamp_size(9), 8);
    assert_eq!(clamp_size(usize::MAX), 8);
}

#[test]
fn new_game_has_no_moves() {
    let game = GameScreen::create(4);
    assert_eq!(game.moves(), 0);
    assert_eq!(game.board().size(), 4);
    assert_eq!(game.board().tiles().len(), 16);
    assert_eq!(game.board().tiles()[15], 0);
}

#[test]
fn refused_move_changes_nothing() {
    let mut game = GameScreen::create(3);
    let before = game.board().tiles().clone();
    // the blank is in the last cell after a shuffle
    let update = game.update(Msg::Move(8));
    assert!(!update.changed);
    assert_eq!(update.won, None);
    assert_eq!(game.moves(), 0);
    assert_eq!(*game.board().tiles(), before);

    let update = game.update(Msg::Move(0));
    assert!(!update.changed);
    assert_eq!(update.won, None);
    assert_eq!(game.moves(), 0);
    assert_eq!(*game.board().tiles(), before);
}

#[test]
fn moves_are_counted_until_the_puzzle_is_solved() {
    let mut game = GameScreen::create(3);
    while game.board().is_solved() {
        let update = game.update(Msg::Reset);
        assert!(update.changed);
        assert_eq!(update.won, None);
    }
    let start = game.board().tiles().clone();
    assert_eq!(start[8], 0);

    // there and back: the second move restores the start, which is not solved
    let update = game.update(Msg::Move(7));
    assert!(update.changed);
    assert_eq!(update.won, None);
    assert_eq!(game.moves(), 1);
    assert_eq!(game.board().tiles()[7], 0);
    assert_eq!(game.board().tiles()[8], start[7]);

    let update = game.update(Msg::Move(8));
    assert!(update.changed);
    assert_eq!(update.won, None);
    assert_eq!(game.moves(), 2);
    assert_eq!(*game.board().tiles(), start);
}

#[test]
fn reset_clears_the_count() {
    let mut game = GameScreen::create(3);
    let update = game.update(Msg::Move(7));
    assert!(update.changed);
    if update.won.is_none() {
        assert_eq!(game.moves(), 1);
    }
    let update = game.update(Msg::Reset);
    assert!(update.changed);
    assert_eq!(update.won, None);
    assert_eq!(game.moves(), 0);
    assert_eq!(game.board().tiles()[8], 0);
}

#[test]
fn single_cell_game_cannot_move() {
    let mut game = GameScreen::create(1);
    assert!(game.board().is_solved());
    let update = game.update(Msg::Move(0));
    assert!(!update.changed);
    assert_eq!(update.won, None);
    assert_eq!(game.moves(), 0);
}
