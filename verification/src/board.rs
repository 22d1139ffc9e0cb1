//! The puzzle board: a square grid of tiles with one empty cell.

use crate::cells::{
    cell_index, lemma_cell_of_position, lemma_cell_on_grid, lemma_column_cells_apart,
    lemma_next_row, lemma_position_of_cell,
};
use crate::order::{is_sorted, tile_cmp, tile_key};
use crate::permutation::{
    blank_index, is_permutation, lemma_one_blank, lemma_permutations_same_multiset,
    lemma_solved_is_permutation, lemma_solved_is_sorted, lemma_sorted_iff_solved, solved_tiles,
};
use crate::random::random_usize;
use crate::range::{range_inclusive, range_seq};
use std::cmp::Ordering;
use vstd::prelude::*;

verus! {

/// How many exchanges of two tiles a shuffle makes for every cell of the board.
pub const SWAPS_PER_TILE: usize = 10;

/// A square board of `size * size` cells, stored row by row. Cell `index` lies
/// in column `index % size` and row `index / size`. The value `0` marks the
/// empty cell; every other value is a numbered tile.
pub struct Board {
    size: usize,
    tiles: Vec<usize>,
}

impl View for Board {
    type V = Seq<usize>;

    /// The tiles of the board, row by row.
    closed spec fn view(&self) -> Seq<usize> {
        self.tiles@
    }
}

/// Whether cell `k` gets a new tile when the blank travels from cell `blank`
/// to cell `target` in its row or column: `k` lies between the two, `blank`
/// included and `target` excluded, and in their column if they share one.
pub open spec fn slid_over(size: int, blank: int, target: int, k: int) -> bool {
    &&& blank <= k < target || target < k <= blank
    &&& blank % size == target % size ==> k % size == blank % size
}

/// The distance in the index from a cell to its neighbour on the way from
/// `blank` to `target`: a whole row if the two share a column, one cell
/// otherwise; negative if `target` comes first.
pub open spec fn stride(size: int, blank: int, target: int) -> int {
    let step: int = if blank % size == target % size {
        size
    } else {
        1
    };
    if target > blank {
        step
    } else {
        -step
    }
}

/// The arrangement after the tiles between `blank` and `target`, and the one
/// in `target`, have each moved one cell towards `blank`: `target` is empty,
/// every cell in between holds what its neighbour on the side of `target`
/// held, and all other cells are as they were.
pub open spec fn slide(tiles: Seq<usize>, size: int, blank: int, target: int) -> Seq<usize> {
    Seq::new(
        tiles.len(),
        |k: int|
            if k == target {
                0usize
            } else if slid_over(size, blank, target, k) {
                tiles[k + stride(size, blank, target)]
            } else {
                tiles[k]
            },
    )
}

impl Board {
    /// The side length of the board.
    pub closed spec fn spec_size(&self) -> usize {
        self.size
    }

    /// The board is square, has at least one cell, and is small enough for a
    /// shuffle to count its exchanges.
    pub open spec fn sized(&self) -> bool {
        &&& self.spec_size() >= 1
        &&& self@.len() == self.spec_size() * self.spec_size()
        &&& self@.len() * SWAPS_PER_TILE <= usize::MAX
    }

    /// The invariant of a board: it is sized, and its cells hold each of the
    /// values `0 .. size * size` exactly once, so there is exactly one blank.
    pub open spec fn wf(&self) -> bool {
        &&& self.sized()
        &&& is_permutation(self@)
    }

    /// The cell that holds the blank.
    pub open spec fn blank(&self) -> int {
        blank_index(self@)
    }

    /// The column of the cell `index`.
    pub open spec fn column(&self, index: int) -> int {
        index % (self.spec_size() as int)
    }

    /// The row of the cell `index`.
    pub open spec fn row(&self, index: int) -> int {
        index / (self.spec_size() as int)
    }

    /// A sized board has at least one cell.
    pub proof fn lemma_has_cells(self)
        requires
            self.sized(),
        ensures
            self@.len() >= 1,
    {
        let size: int = self.spec_size() as int;
        assert(size * size >= 1) by (nonlinear_arith)
            requires
                size >= 1,
        ;
    }

    /// Whether the tile in cell `from` can be moved: the cell is on the board,
    /// holds a numbered tile, and shares either its column or its row with
    /// the blank.
    pub open spec fn can_move(&self, from: int) -> bool {
        &&& 0 <= from < self@.len()
        &&& self@[from] != 0
        &&& (self.column(from) == self.column(self.blank())) != (self.row(from) == self.row(
            self.blank(),
        ))
    }

    /// The arrangement after the tile in cell `from` has been moved.
    pub open spec fn slid(&self, from: int) -> Seq<usize> {
        slide(self@, self.spec_size() as int, self.blank(), from)
    }

    /// The blank itself cannot be moved, nor can a tile that shares neither
    /// its column nor its row with the blank.
    pub proof fn lemma_blank_and_diagonal_cannot_move(self, from: int)
        requires
            self.wf(),
            0 <= from < self@.len(),
            self@[from] == 0 || (self.column(from) != self.column(self.blank()) && self.row(from)
                != self.row(self.blank())),
        ensures
            !self.can_move(from),
    {
    }

    /// Makes a board of side `size` and shuffles it. The blank is in the last
    /// cell.
    pub fn new(size: usize) -> (board: Board)
        requires
            1 <= size,
            size * size * SWAPS_PER_TILE <= usize::MAX,
        ensures
            board.wf(),
            board.spec_size() == size,
            forall|i: int|
                0 <= i < board@.len() ==> (#[trigger] board@[i] == 0 <==> i == board@.len() - 1),
    {
        let tiles: Vec<usize> = vec![0; size * size];
        let mut board = Board { size, tiles };
        board.shuffle();
        board
    }

    /// The tiles of the board, row by row.
    pub fn tiles(&self) -> (tiles: &Vec<usize>)
        ensures
            tiles@ == self@,
    {
        &self.tiles
    }

    /// The side length of the board.
    #[verifier::when_used_as_spec(spec_size)]
    pub fn size(&self) -> (size: usize)
        ensures
            size == self.spec_size(),
    {
        self.size
    }

    /// Whether the puzzle is solved: the tiles are in non-decreasing tile
    /// order, which for a board means that they read `1, 2, ...` with the
    /// blank in the last cell.
    pub fn is_solved(&self) -> (solved: bool)
        ensures
            solved == is_sorted(self@),
            self.wf() ==> solved == (self@ == solved_tiles(self@.len())),
    {
        proof {
            if self.wf() {
                lemma_sorted_iff_solved(self@);
            }
        }
        let len: usize = self.tiles.len();
        let mut i: usize = 1;
        while i < len
            invariant
                1 <= i,
                len == self.tiles@.len(),
                forall|p: int, q: int|
                    0 <= p < q < i && q < len ==> tile_key(#[trigger] self.tiles@[p]) <= tile_key(
                        #[trigger] self.tiles@[q],
                    ),
            decreases len - i,
        {
            let in_order: bool = match tile_cmp(&self.tiles[i - 1], &self.tiles[i]) {
                Some(Ordering::Less) => true,
                Some(Ordering::Equal) => true,
                _ => false,
            };
            if !in_order {
                return false;
            }
            i = i + 1;
        }
        true
    }

    /// Puts the tiles in the solved arrangement: `1, 2, ...` in reading order,
    /// with the blank in the last cell.
    pub fn reset_tiles(&mut self)
        requires
            old(self).sized(),
        ensures
            final(self).wf(),
            final(self).spec_size() == old(self).spec_size(),
            final(self)@ == solved_tiles(old(self)@.len()),
            is_sorted(final(self)@),
    {
        let len: usize = self.tiles.len();
        proof {
            self.lemma_has_cells();
        }
        let mut i: usize = 1;
        while i < len
            invariant
                1 <= i <= len,
                self.size == old(self).size,
                self.tiles@.len() == len,
                forall|k: int| 0 <= k < i - 1 ==> self.tiles@[k] == k + 1,
            decreases len - i,
        {
            self.tiles[i - 1] = i;
            i = i + 1;
        }
        self.tiles[len - 1] = 0;
        proof {
            lemma_solved_is_permutation(len as nat);
            lemma_solved_is_sorted(len as nat);
        }
    }

    /// Puts the tiles in the solved arrangement and then exchanges pairs of
    /// tiles chosen at random, `SWAPS_PER_TILE` times the number of cells. The
    /// last cell is never chosen, so the blank stays there. A draw that names
    /// one cell twice exchanges nothing and is not counted; the number of
    /// draws is bounded, so that the shuffle ends whatever is drawn.
    pub fn shuffle(&mut self)
        requires
            old(self).sized(),
        ensures
            final(self).wf(),
            final(self).spec_size() == old(self).spec_size(),
            final(self)@[final(self)@.len() - 1] == 0,
            old(self).wf() ==> final(self)@.to_multiset() == old(self)@.to_multiset(),
    {
        self.reset_tiles();
        let len: usize = self.tiles.len();
        if len <= 1 {
            proof {
                self.lemma_has_cells();
                if old(self).wf() {
                    lemma_permutations_same_multiset(self@, old(self)@);
                }
            }
            return;
        }
        let target: usize = len * SWAPS_PER_TILE;
        let mut swaps: usize = 0;
        let mut draws: usize = 0;
        while swaps < target && draws < usize::MAX
            invariant
                self.wf(),
                self.size == old(self).size,
                self.tiles@.len() == len,
                len >= 2,
                self@[len - 1] == 0,
                swaps <= target,
            decreases usize::MAX - draws,
        {
            let a: usize = random_usize();
            let b: usize = random_usize();
            if self.shuffle_step(a, b) {
                swaps = swaps + 1;
            }
            draws = draws + 1;
        }
        proof {
            if old(self).wf() {
                lemma_permutations_same_multiset(self@, old(self)@);
            }
        }
    }

    /// The part of a shuffle that follows a draw of two numbers: each is
    /// reduced to a cell other than the last, and the tiles in the two cells
    /// are exchanged. Reports whether the two cells differ. A board of one
    /// cell is left as it is.
    pub fn shuffle_step(&mut self, a: usize, b: usize) -> (swapped: bool)
        requires
            old(self).wf(),
        ensures
            final(self).wf(),
            final(self).spec_size() == old(self).spec_size(),
            old(self)@.len() <= 1 ==> !swapped && final(self)@ == old(self)@,
            old(self)@.len() >= 2 ==> ({
                let i: int = a as int % (old(self)@.len() - 1);
                let j: int = b as int % (old(self)@.len() - 1);
                &&& swapped == (i != j)
                &&& final(self)@ == old(self)@.update(i, old(self)@[j]).update(j, old(self)@[i])
            }),
            final(self)@[final(self)@.len() - 1] == old(self)@[old(self)@.len() - 1],
            final(self)@.to_multiset() == old(self)@.to_multiset(),
    {
        let len: usize = self.tiles.len();
        if len <= 1 {
            return false;
        }
        let i: usize = a % (len - 1);
        let j: usize = b % (len - 1);
        let swapped: bool = self.swap(i, j);
        proof {
            if !swapped {
                assert(self@ =~= old(self)@.update(i as int, old(self)@[j as int]).update(
                    j as int,
                    old(self)@[i as int],
                ));
            }
        }
        swapped
    }

    /// The column and the row of the cell `index`, in this order.
    pub fn index_to_position(&self, index: usize) -> (position: (usize, usize))
        requires
            self.spec_size() >= 1,
        ensures
            position.0 == self.column(index as int),
            position.1 == self.row(index as int),
    {
        let x: usize = index % self.size;
        let y: usize = index / self.size;
        (x, y)
    }

    /// Exchanges the tiles in the cells `i` and `j`. Does nothing and reports
    /// `false` if the two are the same cell or either is off the board.
    pub fn swap(&mut self, i: usize, j: usize) -> (swapped: bool)
        requires
            old(self).wf(),
        ensures
            final(self).wf(),
            final(self).spec_size() == old(self).spec_size(),
            swapped == (i != j && i < old(self)@.len() && j < old(self)@.len()),
            swapped ==> final(self)@ == old(self)@.update(i as int, old(self)@[j as int]).update(
                j as int,
                old(self)@[i as int],
            ),
            !swapped ==> final(self)@ == old(self)@,
            final(self)@.to_multiset() == old(self)@.to_multiset(),
    {
        let len: usize = self.tiles.len();
        if i == j || i >= len || j >= len {
            return false;
        }
        let v: usize = self.tiles[i];
        self.tiles[i] = self.tiles[j];
        self.tiles[j] = v;
        proof {
            lemma_permutations_same_multiset(self@, old(self)@);
        }
        true
    }

    /// The column and the row of the blank, in this order.
    pub fn zero_position(&self) -> (position: (usize, usize))
        requires
            self.wf(),
        ensures
            position.0 == self.column(self.blank()),
            position.1 == self.row(self.blank()),
    {
        proof {
            self.lemma_has_cells();
            lemma_one_blank(self@);
        }
        let mut zero_index: usize = 0;
        while self.tiles[zero_index] != 0
            invariant
                0 <= zero_index <= self.blank() < self.tiles.len(),
                self@[self.blank()] == 0,
            decreases self.blank() - zero_index,
        {
            zero_index = zero_index + 1;
        }
        self.index_to_position(zero_index)
    }

    /// Moves the tile in cell `from` towards the blank, together with every
    /// tile between the two, so that the blank ends up in `from`. This needs
    /// `from` to hold a numbered tile in the row or the column of the blank;
    /// otherwise nothing changes and the result is `false`.
    pub fn move_tile(&mut self, from: usize) -> (moved: bool)
        requires
            old(self).wf(),
        ensures
            final(self).wf(),
            final(self).spec_size() == old(self).spec_size(),
            moved == old(self).can_move(from as int),
            moved ==> final(self)@ == old(self).slid(from as int),
            moved ==> final(self).blank() == from,
            !moved ==> final(self)@ == old(self)@,
            final(self)@.to_multiset() == old(self)@.to_multiset(),
    {
        if from >= self.tiles.len() || self.tiles[from] == 0 {
            return false;
        }
        let from_pos: (usize, usize) = self.index_to_position(from);
        let zero_pos: (usize, usize) = self.zero_position();
        if from_pos.0 != zero_pos.0 && from_pos.1 != zero_pos.1 {
            return false;
        }
        if from_pos.0 == zero_pos.0 && from_pos.1 == zero_pos.1 {
            return false;
        }
        let ghost size: int = self.size as int;
        let ghost blank: int = self.blank();
        proof {
            lemma_one_blank(self@);
            lemma_cell_of_position(size, blank);
            lemma_cell_of_position(size, from as int);
        }

        if from_pos.0 == zero_pos.0 {
            // same column
            let x: usize = from_pos.0;
            let range: Vec<usize> = range_inclusive(zero_pos.1, from_pos.1);
            let mut k: usize = 0;
            while k + 1 < range.len()
                invariant
                    self.wf(),
                    self.size == size,
                    self@.len() == old(self)@.len(),
                    0 < size,
                    range@ == range_seq(zero_pos.1 as int, from_pos.1 as int),
                    k < range.len(),
                    x < size,
                    zero_pos.1 < size,
                    from_pos.1 < size,
                    blank == cell_index(size, x as int, zero_pos.1 as int),
                    zero_pos.1 < from_pos.1 ==> blank <= cell_index(
                        size,
                        x as int,
                        range[k as int] as int,
                    ),
                    zero_pos.1 >= from_pos.1 ==> blank >= cell_index(
                        size,
                        x as int,
                        range[k as int] as int,
                    ),
                    self@ == slide(
                        old(self)@,
                        size,
                        blank,
                        cell_index(size, x as int, range[k as int] as int),
                    ),
                    self@.to_multiset() == old(self)@.to_multiset(),
                decreases range.len() - k,
            {
                let prev: usize = range[k];
                let next: usize = range[k + 1];
                let ghost cur: int = cell_index(size, x as int, prev as int);
                let ghost nxt: int = cell_index(size, x as int, next as int);
                proof {
                    lemma_cell_on_grid(size, x as int, prev as int);
                    lemma_cell_on_grid(size, x as int, next as int);
                    lemma_position_of_cell(size, x as int, prev as int);
                    lemma_position_of_cell(size, x as int, next as int);
                    lemma_position_of_cell(size, x as int, zero_pos.1 as int);
                    if zero_pos.1 < from_pos.1 {
                        lemma_next_row(size, x as int, prev as int);
                    } else {
                        lemma_next_row(size, x as int, next as int);
                    }
                }
                self.swap_by_pos((x, prev), (x, next));
                proof {
                    let target = slide(old(self)@, size, blank, nxt);
                    assert forall|c: int| 0 <= c < self@.len() implies self@[c] == target[c] by {
                        if c % size == x && cur <= c < cur + size {
                            lemma_column_cells_apart(size, cur, c);
                        }
                        if c % size == x && nxt <= c < nxt + size {
                            lemma_column_cells_apart(size, nxt, c);
                        }
                    }
                }
                k = k + 1;
            }
        } else {
            // same row
            let y: usize = from_pos.1;
            let range: Vec<usize> = range_inclusive(zero_pos.0, from_pos.0);
            let mut k: usize = 0;
            while k + 1 < range.len()
                invariant
                    self.wf(),
                    self.size == size,
                    self@.len() == old(self)@.len(),
                    0 < size,
                    range@ == range_seq(zero_pos.0 as int, from_pos.0 as int),
                    k < range.len(),
                    y < size,
                    zero_pos.0 < size,
                    from_pos.0 < size,
                    zero_pos.0 != from_pos.0,
                    blank == cell_index(size, zero_pos.0 as int, y as int),
                    self@ == slide(
                        old(self)@,
                        size,
                        blank,
                        cell_index(size, range[k as int] as int, y as int),
                    ),
                    self@.to_multiset() == old(self)@.to_multiset(),
                decreases range.len() - k,
            {
                let prev: usize = range[k];
                let next: usize = range[k + 1];
                proof {
                    lemma_cell_on_grid(size, prev as int, y as int);
                    lemma_cell_on_grid(size, next as int, y as int);
                    lemma_position_of_cell(size, prev as int, y as int);
                    lemma_position_of_cell(size, next as int, y as int);
                    lemma_position_of_cell(size, zero_pos.0 as int, y as int);
                }
                self.swap_by_pos((prev, y), (next, y));
                k = k + 1;
            }
        }
        proof {
            assert(self@[from as int] == 0);
        }
        true
    }

    /// Exchanges the tiles in the cells at two positions, each given as a
    /// column and a row. Does nothing and reports `false` if the two are the
    /// same cell or either index is off the board.
    fn swap_by_pos(&mut self, pos1: (usize, usize), pos2: (usize, usize)) -> (swapped: bool)
        requires
            old(self).wf(),
            cell_index(old(self).spec_size() as int, pos1.0 as int, pos1.1 as int) <= usize::MAX,
            cell_index(old(self).spec_size() as int, pos2.0 as int, pos2.1 as int) <= usize::MAX,
        ensures
            final(self).wf(),
            final(self).spec_size() == old(self).spec_size(),
            ({
                let i: int = cell_index(
                    old(self).spec_size() as int,
                    pos1.0 as int,
                    pos1.1 as int,
                );
                let j: int = cell_index(
                    old(self).spec_size() as int,
                    pos2.0 as int,
                    pos2.1 as int,
                );
                &&& swapped == (i != j && i < old(self)@.len() && j < old(self)@.len())
                &&& swapped ==> final(self)@ == old(self)@.update(i, old(self)@[j]).update(
                    j,
                    old(self)@[i],
                )
                &&& !swapped ==> final(self)@ == old(self)@
            }),
            final(self)@.to_multiset() == old(self)@.to_multiset(),
    {
        let i: usize = pos1.0 + pos1.1 * self.size;
        let j: usize = pos2.0 + pos2.1 * self.size;
        self.swap(i, j)
    }
}

} // verus!
