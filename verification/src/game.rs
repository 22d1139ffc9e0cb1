//! A game in progress: a board, the count of the moves made on it, and what
//! happens to both when the player acts.

use crate::board::{Board, SWAPS_PER_TILE};
use crate::order::is_sorted;
use vstd::prelude::*;

verus! {

/// The smallest board that the game offers.
pub const MIN_SIZE: usize = 3;

/// The largest board that the game offers.
pub const MAX_SIZE: usize = 8;

/// Brings a wish for a board size into the range that the game offers.
pub fn clamp_size(size: usize) -> (clamped: usize)
    ensures
        MIN_SIZE <= clamped <= MAX_SIZE,
        MIN_SIZE <= size <= MAX_SIZE ==> clamped == size,
        size < MIN_SIZE ==> clamped == MIN_SIZE,
        size > MAX_SIZE ==> clamped == MAX_SIZE,
        clamped * clamped * SWAPS_PER_TILE <= usize::MAX,
{
    let mut clamped: usize = size;
    if size > MAX_SIZE {
        clamped = MAX_SIZE;
    }
    if size < MIN_SIZE {
        clamped = MIN_SIZE;
    }
    assert(clamped * clamped <= 64) by (nonlinear_arith)
        requires
            clamped <= 8,
    ;
    clamped
}

/// What the player can do.
pub enum Msg {
    /// Start over with a newly shuffled board.
    Reset,
    /// Move the tile in the cell of this index.
    Move(usize),
}

/// What a message has done to the game.
pub struct Update {
    /// Whether the board has changed and is to be drawn again.
    pub changed: bool,
    /// If the message solved the puzzle: the number of moves that were
    /// counted before it.
    pub won: Option<u32>,
}

/// A game in progress.
pub struct GameScreen {
    moves: u32,
    board: Board,
}

impl GameScreen {
    /// The number of moves counted so far.
    pub closed spec fn spec_moves(&self) -> u32 {
        self.moves
    }

    /// The board of the game.
    pub closed spec fn spec_board(&self) -> Board {
        self.board
    }

    /// The invariant of a game: its board is a well-formed board.
    pub open spec fn wf(&self) -> bool {
        self.spec_board().wf()
    }

    /// Starts a game on a newly shuffled board of side `size`, with no move
    /// counted.
    pub fn create(size: usize) -> (game: GameScreen)
        requires
            1 <= size,
            size * size * SWAPS_PER_TILE <= usize::MAX,
        ensures
            game.wf(),
            game.spec_moves() == 0,
            game.spec_board().spec_size() == size,
            game.spec_board()@[game.spec_board()@.len() - 1] == 0,
    {
        let board = Board::new(size);
        proof {
            board.lemma_has_cells();
        }
        GameScreen { board, moves: 0 }
    }

    /// The number of moves counted so far.
    #[verifier::when_used_as_spec(spec_moves)]
    pub fn moves(&self) -> (moves: u32)
        ensures
            moves == self.spec_moves(),
    {
        self.moves
    }

    /// The board of the game.
    pub fn board(&self) -> (board: &Board)
        ensures
            *board == self.spec_board(),
    {
        &self.board
    }

    /// Handles a message.
    ///
    /// `Reset` shuffles the board and sets the count of moves to zero; the
    /// board is to be drawn again. `Move` moves a tile if the board allows it.
    /// A move that is refused changes nothing. A move that solves the puzzle
    /// reports the count of the moves before it and sets the count to zero;
    /// any other move adds one to the count.
    pub fn update(&mut self, msg: Msg) -> (update: Update)
        requires
            old(self).wf(),
            msg is Move ==> old(self).spec_moves() < u32::MAX,
        ensures
            final(self).wf(),
            final(self).spec_board().spec_size() == old(self).spec_board().spec_size(),
            final(self).spec_board()@.to_multiset() == old(self).spec_board()@.to_multiset(),
            match msg {
                Msg::Reset => {
                    &&& update.changed
                    &&& update.won is None
                    &&& final(self).spec_moves() == 0
                    &&& final(self).spec_board()@[final(self).spec_board()@.len() - 1] == 0
                },
                Msg::Move(from) => {
                    let moved: bool = old(self).spec_board().can_move(from as int);
                    let solved: bool = is_sorted(old(self).spec_board().slid(from as int));
                    &&& update.changed == moved
                    &&& !moved ==> final(self).spec_board()@ == old(self).spec_board()@
                    &&& moved ==> final(self).spec_board()@ == old(self).spec_board().slid(
                        from as int,
                    )
                    &&& update.won == if moved && solved {
                        Some(old(self).spec_moves())
                    } else {
                        None
                    }
                    &&& final(self).spec_moves() == if !moved {
                        old(self).spec_moves() as int
                    } else if solved {
                        0
                    } else {
                        old(self).spec_moves() + 1
                    }
                },
            },
    {
        match msg {
            Msg::Reset => {
                self.moves = 0;
                self.board.shuffle();
                Update { changed: true, won: None }
            },
            Msg::Move(from) => {
                let moved: bool = self.board.move_tile(from);
                let mut won: Option<u32> = None;
                if moved {
                    if self.board.is_solved() {
                        won = Some(self.moves);
                        self.moves = 0;
                    } else {
                        self.moves = self.moves + 1;
                    }
                }
                Update { changed: moved, won }
            },
        }
    }
}

} // verus!
