//! What a display of the board needs: the tiles listed in the order of their
//! values, each with the cell it is in, and the place of a tile on the grid
//! beside the place where it belongs.

use crate::order::{tile_cmp, tile_key};
use std::cmp::Ordering;
use vstd::prelude::*;

verus! {

/// Whether `pair` is the index of a cell of `tiles` with the tile in it.
pub open spec fn is_cell_of(tiles: Seq<usize>, pair: (usize, &usize)) -> bool {
    pair.0 < tiles.len() && *pair.1 == tiles[pair.0 as int]
}

/// Whether the cell `a` is listed before the cell `b`: its tile comes first in
/// the tile order, or the tiles are equal and its index is smaller.
pub open spec fn listed_before(a: (usize, &usize), b: (usize, &usize)) -> bool {
    tile_key(*a.1) < tile_key(*b.1) || (*a.1 == *b.1 && a.0 < b.0)
}

/// Whether the cell of index `i` is among `pairs`.
pub open spec fn holds_cell(pairs: Seq<(usize, &usize)>, i: int) -> bool {
    exists|k: int| 0 <= k < pairs.len() && (#[trigger] pairs[k]).0 == i
}

/// Whether `pairs` lists the first `count` cells of `tiles`, each once and
/// with its tile, in the order of `listed_before`.
pub open spec fn lists_cells(tiles: Seq<usize>, count: int, pairs: Seq<(usize, &usize)>) -> bool {
    &&& pairs.len() == count
    &&& forall|k: int|
        0 <= k < pairs.len() ==> is_cell_of(tiles, #[trigger] pairs[k]) && pairs[k].0 < count
    &&& forall|p: int, q: int|
        0 <= p < q < pairs.len() ==> listed_before(#[trigger] pairs[p], #[trigger] pairs[q])
    &&& forall|i: int| 0 <= i < count ==> #[trigger] holds_cell(pairs, i)
}

/// Whether `pairs` lists the first `count` cells of `tiles` by value.
pub open spec fn lists_first_cells(
    tiles: Seq<usize>,
    count: usize,
    pairs: Seq<(usize, &usize)>,
) -> bool {
    lists_cells(tiles, count as int, pairs)
}

/// Whether `pairs` lists all cells of `tiles` by value: every cell once, as
/// its index and its tile, numbered tiles in ascending order and blanks last,
/// equal tiles in the order of their cells.
pub open spec fn lists_by_value(tiles: Seq<usize>, pairs: Seq<(usize, &usize)>) -> bool {
    lists_cells(tiles, tiles.len() as int, pairs)
}

/// The tile of the entry `at` of a listing.
pub open spec fn listed_tile(pairs: Seq<(usize, &usize)>, at: usize) -> usize {
    *pairs[at as int].1
}

/// A listing of the first `count` cells stays one when the next cell is put
/// in after the cells whose tiles do not come after its own.
proof fn lemma_insert_next_cell(
    tiles: Seq<usize>,
    count: usize,
    pairs: Seq<(usize, &usize)>,
    at: usize,
    pair: (usize, &usize),
)
    requires
        lists_first_cells(tiles, count, pairs),
        count < tiles.len(),
        count < usize::MAX,
        at <= pairs.len(),
        pair.0 == count,
        *pair.1 == tiles[count as int],
        forall|k: int| 0 <= k < at ==> tile_key(*(#[trigger] pairs[k]).1) <= tile_key(*pair.1),
        at < pairs.len() ==> tile_key(*pairs[at as int].1) > tile_key(*pair.1),
    ensures
        lists_first_cells(tiles, (count + 1) as usize, pairs.insert(at as int, pair)),
{
    let next = pairs.insert(at as int, pair);
    assert forall|i: int| 0 <= i < count + 1 implies #[trigger] holds_cell(next, i) by {
        if i == count {
            assert(next[at as int].0 == i);
        } else {
            // the entry for cell `i` is where it was, or one further on
            let k: int = choose|k: int| 0 <= k < pairs.len() && (#[trigger] pairs[k]).0 == i;
            assert(holds_cell(pairs, i));
            assert(next[if k < at { k } else { k + 1 }].0 == i);
        }
    }
}

/// Lists the cells of `tiles` in the order of their tiles: each cell as its
/// index and its tile, numbered tiles in ascending order and the blank last.
/// Cells with equal tiles keep the order of their indices.
pub fn sorted_tiles_by_number(tiles: &Vec<usize>) -> (pairs: Vec<(usize, &usize)>)
    ensures
        lists_by_value(tiles@, pairs@),
{
    let mut pairs: Vec<(usize, &usize)> = Vec::new();
    let mut i: usize = 0;
    while i < tiles.len()
        invariant
            i <= tiles.len(),
            lists_first_cells(tiles@, i, pairs@),
        decreases tiles.len() - i,
    {
        let tile = &tiles[i];
        let mut at: usize = 0;
        while at < pairs.len()
            invariant
                at <= pairs.len(),
                forall|k: int| 0 <= k < at ==> tile_key(*(#[trigger] pairs@[k]).1) <= tile_key(*tile),
            ensures
                at < pairs.len() ==> tile_key(listed_tile(pairs@, at)) > tile_key(*tile),
            decreases pairs.len() - at,
        {
            match tile_cmp(pairs[at].1, tile) {
                Some(Ordering::Greater) => {
                    break;
                },
                _ => {
                    at = at + 1;
                },
            }
        }
        proof {
            lemma_insert_next_cell(tiles@, i, pairs@, at, (i, tile));
        }
        pairs.insert(at, (i, tile));
        i = i + 1;
    }
    pairs
}

/// Where a tile is drawn and where it belongs, each as a column and a row.
pub struct Placement {
    /// The column of the cell that holds the tile.
    pub x: usize,
    /// The row of the cell that holds the tile.
    pub y: usize,
    /// The column of the cell that holds the tile on a solved board. For the
    /// blank, the side length of the board, which is the column of no cell.
    pub nx: usize,
    /// The row of the cell that holds the tile on a solved board. For the
    /// blank, the side length of the board, which is the row of no cell.
    pub ny: usize,
}

/// The placement of the tile `tile` that is in cell `index` of a board of side
/// `size`.
pub fn place_tile(size: usize, index: usize, tile: usize) -> (placement: Placement)
    requires
        size >= 1,
    ensures
        placement.x == index % size,
        placement.y == index / size,
        tile == 0 ==> placement.nx == size && placement.ny == size,
        tile != 0 ==> placement.nx == (tile - 1) % (size as int) && placement.ny == (tile - 1) / (
        size as int),
{
    let x: usize = index % size;
    let y: usize = index / size;
    if tile == 0 {
        Placement { x, y, nx: size, ny: size }
    } else {
        Placement { x, y, nx: (tile - 1) % size, ny: (tile - 1) / size }
    }
}

} // verus!
