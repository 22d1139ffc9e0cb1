//! A sliding-tile puzzle on a square board: the classic fifteen puzzle,
//! generalised to any side length.
//!
//! The board holds every value from `0` to `size * size - 1` exactly once;
//! `0` stands for the empty cell. Tiles in the row or column of the empty
//! cell slide towards it, and the puzzle is solved when the tiles read
//! `1, 2, ..., size * size - 1, 0`.

pub mod board;
mod cells;
pub mod game;
pub mod layout;
pub mod order;
pub mod permutation;
mod random;
pub mod range;
