//! Arithmetic of a square grid stored row by row: how the index of a cell
//! relates to its column and row.

use vstd::arithmetic::div_mod::{lemma_fundamental_div_mod, lemma_fundamental_div_mod_converse};
use vstd::prelude::*;

verus! {

/// The index of the cell in column `x` and row `y` of a grid of side `size`.
pub(crate) open spec fn cell_index(size: int, x: int, y: int) -> int {
    x + y * size
}

/// The cell in column `x` and row `y` has that column and that row.
pub(crate) proof fn lemma_position_of_cell(size: int, x: int, y: int)
    requires
        0 <= x < size,
    ensures
        cell_index(size, x, y) % size == x,
        cell_index(size, x, y) / size == y,
{
    lemma_fundamental_div_mod_converse(x + y * size, size, y, x);
}

/// A cell is the one in its own column and row, and both lie on the grid.
pub(crate) proof fn lemma_cell_of_position(size: int, index: int)
    requires
        0 < size,
        0 <= index < size * size,
    ensures
        cell_index(size, index % size, index / size) == index,
        0 <= index % size < size,
        0 <= index / size < size,
{
    lemma_fundamental_div_mod(index, size);
    let q: int = index / size;
    let r: int = index % size;
    assert(size * q == q * size) by (nonlinear_arith);
    assert(0 <= q < size) by (nonlinear_arith)
        requires
            0 < size,
            0 <= r < size,
            0 <= q * size + r < size * size,
    ;
}

/// A position on the grid is the position of a cell of the grid.
pub(crate) proof fn lemma_cell_on_grid(size: int, x: int, y: int)
    requires
        0 <= x < size,
        0 <= y < size,
    ensures
        0 <= cell_index(size, x, y) < size * size,
{
    assert(0 <= x + y * size < size * size) by (nonlinear_arith)
        requires
            0 <= x < size,
            0 <= y < size,
    ;
}

/// The cells of one column lie a whole row apart: moving one row down adds
/// `size` to the index.
pub(crate) proof fn lemma_next_row(size: int, x: int, y: int)
    ensures
        cell_index(size, x, y + 1) == cell_index(size, x, y) + size,
{
    assert((y + 1) * size == y * size + size) by (nonlinear_arith);
}

/// Two cells of one column that lie less than a row apart are the same cell.
pub(crate) proof fn lemma_column_cells_apart(size: int, a: int, b: int)
    requires
        0 < size,
        a % size == b % size,
        a <= b < a + size,
    ensures
        a == b,
{
    lemma_fundamental_div_mod(a, size);
    lemma_fundamental_div_mod(b, size);
    let qa: int = a / size;
    let qb: int = b / size;
    assert(qa == qb) by (nonlinear_arith)
        requires
            0 < size,
            0 <= size * qb - size * qa < size,
    ;
}

} // verus!
